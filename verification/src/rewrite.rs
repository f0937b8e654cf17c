//! The field rewriter: turns one field's incoming attribute argument list
//! into the outgoing one, synthesizing the `id`, `value_name`, `long` and
//! `env` entries from the record prefix and the field identifier.

use vstd::prelude::*;
use crate::casing::{kebab_of, snake_of, spec_kebab, spec_snake, upper_of, uppercase};
use crate::entry::{
    count_named, entry_name, eq_str, lemma_append_contains_left, lemma_append_contains_right,
    lemma_count_named_append, lemma_count_named_push, lemma_count_named_zero, lemma_distinct_names,
    lemma_pass_entries_all, lemma_pass_entries_append, lemma_pass_entries_elements,
    lemma_pass_entries_none, lemma_pass_entries_push, lemma_recorded_binding_append,
    lemma_recorded_binding_push, lemma_recorded_presence_append, lemma_recorded_presence_observed,
    lemma_recorded_presence_push, lemma_recorded_unnamed, pass_entries, passes_through,
    recorded_binding, recorded_presence, ArgEntry, ArgEntryView,
};

verus! {

/// The value of the synthesized `id` entry: the user-bound string when one
/// was recorded, else the snake-case seed.
pub open spec fn synth_id(prefix: Seq<char>, ident: Seq<char>, entries: Seq<ArgEntryView>) -> Seq<
    char,
> {
    match recorded_binding(entries, "id"@) {
        Some(v) => v,
        None => spec_snake(prefix, ident),
    }
}

/// The value of the synthesized `value_name` entry: the user-bound string
/// when one was recorded, else the screaming form of the seed.
pub open spec fn synth_value_name(
    prefix: Seq<char>,
    ident: Seq<char>,
    entries: Seq<ArgEntryView>,
) -> Seq<char> {
    match recorded_binding(entries, "value_name"@) {
        Some(v) => v,
        None => upper_of(spec_snake(prefix, ident)),
    }
}

/// The value of the synthesized `long` entry, when `long` was observed: the
/// user-bound string when it is non-empty, else the kebab form of the seed.
pub open spec fn synth_long(prefix: Seq<char>, ident: Seq<char>, entries: Seq<ArgEntryView>) -> Option<
    Seq<char>,
> {
    match recorded_presence(entries, "long"@) {
        Some(v) => Some(
            if v.len() == 0 {
                spec_kebab(spec_snake(prefix, ident))
            } else {
                v
            },
        ),
        None => None,
    }
}

/// The value of the synthesized `env` entry, when `env` was observed: the
/// user-bound string when it is non-empty, else the screaming form of the
/// seed.
pub open spec fn synth_env(prefix: Seq<char>, ident: Seq<char>, entries: Seq<ArgEntryView>) -> Option<
    Seq<char>,
> {
    match recorded_presence(entries, "env"@) {
        Some(v) => Some(
            if v.len() == 0 {
                upper_of(spec_snake(prefix, ident))
            } else {
                v
            },
        ),
        None => None,
    }
}

/// The entries the rewriter appends after the pass-through portion, in their
/// fixed order: `id`, `value_name`, then `long` and `env` when they were
/// observed in the input.
pub open spec fn synthesized(prefix: Seq<char>, ident: Seq<char>, entries: Seq<ArgEntryView>) -> Seq<
    ArgEntryView,
> {
    let base = seq![
        ArgEntryView::NameValue("id"@, synth_id(prefix, ident, entries)),
        ArgEntryView::NameValue("value_name"@, synth_value_name(prefix, ident, entries)),
    ];
    let with_long = match synth_long(prefix, ident, entries) {
        Some(v) => base.push(ArgEntryView::NameValue("long"@, v)),
        None => base,
    };
    match synth_env(prefix, ident, entries) {
        Some(v) => with_long.push(ArgEntryView::NameValue("env"@, v)),
        None => with_long,
    }
}

/// The whole outgoing argument list: the pass-through entries in their
/// original order, then the synthesized block.
pub open spec fn spec_rewrite(prefix: Seq<char>, ident: Seq<char>, entries: Seq<ArgEntryView>) -> Seq<
    ArgEntryView,
> {
    pass_entries(entries) + synthesized(prefix, ident, entries)
}

/// One field's rewrite job: the field's identifier, the record's prefix, and
/// the field's incoming attribute argument list.
pub struct Field {
    pub ident: String,
    pub prefix: String,
    pub meta_items: Vec<ArgEntry>,
}

impl Field {
    /// Produces the outgoing argument list for this field.
    pub fn get_new_meta_items(&self) -> (out: Vec<ArgEntry>)
        ensures
            out.deep_view() == spec_rewrite(
                self.prefix@,
                self.ident@,
                self.meta_items.deep_view(),
            ),
    {
        let ghost items = self.meta_items.deep_view();
        let mut visited_id: Option<String> = None;
        let mut visited_value_name: Option<String> = None;
        let mut visited_long: Option<String> = None;
        let mut visited_env: Option<String> = None;
        let mut new_meta_items: Vec<ArgEntry> = Vec::new();

        proof {
            assert(items.take(0) =~= Seq::<ArgEntryView>::empty());
            reveal(Seq::filter);
        }

        for i in 0..self.meta_items.len()
            invariant
                items == self.meta_items.deep_view(),
                self.meta_items.len() == items.len(),
                new_meta_items.deep_view() == pass_entries(items.take(i as int)),
                visited_id.deep_view() == recorded_binding(items.take(i as int), "id"@),
                visited_value_name.deep_view() == recorded_binding(
                    items.take(i as int),
                    "value_name"@,
                ),
                visited_long.deep_view() == recorded_presence(items.take(i as int), "long"@),
                visited_env.deep_view() == recorded_presence(items.take(i as int), "env"@),
        {
            proof {
                let e = items[i as int];
                assert(items.take(i + 1) =~= items.take(i as int).push(e));
                lemma_pass_entries_push(items.take(i as int), e);
                lemma_recorded_binding_push(items.take(i as int), e, "id"@);
                lemma_recorded_binding_push(items.take(i as int), e, "value_name"@);
                lemma_recorded_presence_push(items.take(i as int), e, "long"@);
                lemma_recorded_presence_push(items.take(i as int), e, "env"@);
                lemma_distinct_names();
            }
            match &self.meta_items[i] {
                ArgEntry::Bare(n) => {
                    if eq_str(n, "long") {
                        visited_long = Some(String::new());
                    } else if eq_str(n, "env") {
                        visited_env = Some(String::new());
                    } else if eq_str(n, "id") || eq_str(n, "value_name") {
                        // a bare `id` or `value_name` carries no information
                        // distinct from absence: always synthesized
                    } else {
                        new_meta_items.push(ArgEntry::Bare(n.clone()));
                    }
                },
                ArgEntry::NameValue(n, v) => {
                    if eq_str(n, "id") {
                        visited_id = Some(v.clone());
                    } else if eq_str(n, "value_name") {
                        visited_value_name = Some(v.clone());
                    } else if eq_str(n, "long") {
                        visited_long = Some(v.clone());
                    } else if eq_str(n, "env") {
                        visited_env = Some(v.clone());
                    } else {
                        new_meta_items.push(ArgEntry::NameValue(n.clone(), v.clone()));
                    }
                },
                ArgEntry::NamedOther(n, t) => {
                    if eq_str(n, "long") {
                        visited_long = Some(String::new());
                    } else if eq_str(n, "env") {
                        visited_env = Some(String::new());
                    } else if eq_str(n, "id") || eq_str(n, "value_name") {
                        // same as a bare `id` / `value_name`: nothing recorded
                    } else {
                        new_meta_items.push(ArgEntry::NamedOther(n.clone(), t.clone()));
                    }
                },
                ArgEntry::Other(t) => {
                    new_meta_items.push(ArgEntry::Other(t.clone()));
                },
            }
            proof {
                lemma_distinct_names();
                assert(visited_id.deep_view() == recorded_binding(items.take(i + 1), "id"@));
                assert(visited_value_name.deep_view() == recorded_binding(
                    items.take(i + 1),
                    "value_name"@,
                ));
                assert(visited_long.deep_view() == recorded_presence(items.take(i + 1), "long"@));
                assert(visited_env.deep_view() == recorded_presence(items.take(i + 1), "env"@));
                assert(new_meta_items.deep_view() =~= pass_entries(items.take(i + 1)));
            }
        }

        proof {
            assert(items.take(items.len() as int) =~= items);
        }

        let snake = snake_of(&self.prefix, &self.ident);
        let screaming = uppercase(snake.as_str());
        let kebab = kebab_of(snake.as_str());

        let id_value = match visited_id {
            Some(v) => v,
            None => snake.clone(),
        };
        new_meta_items.push(self.create_meta_item("id", id_value));

        let value_name_value = match visited_value_name {
            Some(v) => v,
            None => screaming.clone(),
        };
        new_meta_items.push(self.create_meta_item("value_name", value_name_value));

        match visited_long {
            Some(v) => {
                let value = if v.as_str().is_empty() {
                    kebab
                } else {
                    v
                };
                new_meta_items.push(self.create_meta_item("long", value));
            },
            None => {},
        }

        match visited_env {
            Some(v) => {
                let value = if v.as_str().is_empty() {
                    screaming
                } else {
                    v
                };
                new_meta_items.push(self.create_meta_item("env", value));
            },
            None => {},
        }

        proof {
            assert(new_meta_items.deep_view() =~= spec_rewrite(
                self.prefix@,
                self.ident@,
                items,
            ));
        }
        new_meta_items
    }

    /// Builds one synthesized `name = "value"` entry.
    fn create_meta_item(&self, path: &str, value: String) -> (r: ArgEntry)
        ensures
            r.deep_view() == ArgEntryView::NameValue(path@, value@),
    {
        ArgEntry::NameValue(path.to_owned(), value)
    }
}

/// The shape of the synthesized block: its first two entries are the `id`
/// and `value_name` bindings, `long` and `env` follow exactly when observed,
/// none of its entries passes through, and scanning it recovers exactly the
/// values it was built from.
pub proof fn lemma_synthesized_shape(prefix: Seq<char>, ident: Seq<char>, entries: Seq<ArgEntryView>)
    ensures
        ({
            let synth = synthesized(prefix, ident, entries);
            &&& synth.len() >= 2
            &&& synth[0] == ArgEntryView::NameValue("id"@, synth_id(prefix, ident, entries))
            &&& synth[1] == ArgEntryView::NameValue(
                "value_name"@,
                synth_value_name(prefix, ident, entries),
            )
            &&& (synth_long(prefix, ident, entries) matches Some(v) ==> synth.contains(
                ArgEntryView::NameValue("long"@, v),
            ))
            &&& (synth_env(prefix, ident, entries) matches Some(v) ==> synth.contains(
                ArgEntryView::NameValue("env"@, v),
            ))
            &&& forall|k: int| 0 <= k < synth.len() ==> !passes_through(#[trigger] synth[k])
            &&& recorded_binding(synth, "id"@) == Some(synth_id(prefix, ident, entries))
            &&& recorded_binding(synth, "value_name"@) == Some(
                synth_value_name(prefix, ident, entries),
            )
            &&& recorded_presence(synth, "long"@) == synth_long(prefix, ident, entries)
            &&& recorded_presence(synth, "env"@) == synth_env(prefix, ident, entries)
            &&& count_named(synth, "id"@) == 1
            &&& count_named(synth, "value_name"@) == 1
            &&& count_named(synth, "long"@) == (if synth_long(prefix, ident, entries) is Some {
                1nat
            } else {
                0nat
            })
            &&& count_named(synth, "env"@) == (if synth_env(prefix, ident, entries) is Some {
                1nat
            } else {
                0nat
            })
        }),
{
    reveal(Seq::filter);
    lemma_distinct_names();
    let id_e = ArgEntryView::NameValue("id"@, synth_id(prefix, ident, entries));
    let vn_e = ArgEntryView::NameValue("value_name"@, synth_value_name(prefix, ident, entries));
    let s0 = Seq::<ArgEntryView>::empty();
    let s1 = s0.push(id_e);
    let s2 = s1.push(vn_e);
    assert(seq![id_e, vn_e] =~= s2);
    lemma_recorded_binding_push(s0, id_e, "id"@);
    lemma_recorded_binding_push(s0, id_e, "value_name"@);
    lemma_recorded_presence_push(s0, id_e, "long"@);
    lemma_recorded_presence_push(s0, id_e, "env"@);
    lemma_recorded_binding_push(s1, vn_e, "id"@);
    lemma_recorded_binding_push(s1, vn_e, "value_name"@);
    lemma_recorded_presence_push(s1, vn_e, "long"@);
    lemma_recorded_presence_push(s1, vn_e, "env"@);
    lemma_count_named_push(s0, id_e, "id"@);
    lemma_count_named_push(s0, id_e, "value_name"@);
    lemma_count_named_push(s0, id_e, "long"@);
    lemma_count_named_push(s0, id_e, "env"@);
    lemma_count_named_push(s1, vn_e, "id"@);
    lemma_count_named_push(s1, vn_e, "value_name"@);
    lemma_count_named_push(s1, vn_e, "long"@);
    lemma_count_named_push(s1, vn_e, "env"@);
    match (synth_long(prefix, ident, entries), synth_env(prefix, ident, entries)) {
        (None, None) => {
            assert(synthesized(prefix, ident, entries) == s2);
        },
        (Some(lv), None) => {
            let long_e = ArgEntryView::NameValue("long"@, lv);
            let s3 = s2.push(long_e);
            lemma_recorded_binding_push(s2, long_e, "id"@);
            lemma_recorded_binding_push(s2, long_e, "value_name"@);
            lemma_recorded_presence_push(s2, long_e, "long"@);
            lemma_recorded_presence_push(s2, long_e, "env"@);
            lemma_count_named_push(s2, long_e, "id"@);
            lemma_count_named_push(s2, long_e, "value_name"@);
            lemma_count_named_push(s2, long_e, "long"@);
            lemma_count_named_push(s2, long_e, "env"@);
            assert(synthesized(prefix, ident, entries) == s3);
            assert(s3[2] == long_e);
        },
        (None, Some(ev)) => {
            let env_e = ArgEntryView::NameValue("env"@, ev);
            let s3 = s2.push(env_e);
            lemma_recorded_binding_push(s2, env_e, "id"@);
            lemma_recorded_binding_push(s2, env_e, "value_name"@);
            lemma_recorded_presence_push(s2, env_e, "long"@);
            lemma_recorded_presence_push(s2, env_e, "env"@);
            lemma_count_named_push(s2, env_e, "id"@);
            lemma_count_named_push(s2, env_e, "value_name"@);
            lemma_count_named_push(s2, env_e, "long"@);
            lemma_count_named_push(s2, env_e, "env"@);
            assert(synthesized(prefix, ident, entries) == s3);
            assert(s3[2] == env_e);
        },
        (Some(lv), Some(ev)) => {
            let long_e = ArgEntryView::NameValue("long"@, lv);
            let env_e = ArgEntryView::NameValue("env"@, ev);
            let s3 = s2.push(long_e);
            let s4 = s3.push(env_e);
            lemma_recorded_binding_push(s2, long_e, "id"@);
            lemma_recorded_binding_push(s2, long_e, "value_name"@);
            lemma_recorded_presence_push(s2, long_e, "long"@);
            lemma_recorded_presence_push(s2, long_e, "env"@);
            lemma_count_named_push(s2, long_e, "id"@);
            lemma_count_named_push(s2, long_e, "value_name"@);
            lemma_count_named_push(s2, long_e, "long"@);
            lemma_count_named_push(s2, long_e, "env"@);
            lemma_recorded_binding_push(s3, env_e, "id"@);
            lemma_recorded_binding_push(s3, env_e, "value_name"@);
            lemma_recorded_presence_push(s3, env_e, "long"@);
            lemma_recorded_presence_push(s3, env_e, "env"@);
            lemma_count_named_push(s3, env_e, "id"@);
            lemma_count_named_push(s3, env_e, "value_name"@);
            lemma_count_named_push(s3, env_e, "long"@);
            lemma_count_named_push(s3, env_e, "env"@);
            assert(synthesized(prefix, ident, entries) == s4);
            assert(s4[2] == long_e);
            assert(s4[3] == env_e);
        },
    }
}

/// Rewriting is idempotent: rewriting an already rewritten argument list
/// changes nothing, whatever the prefix, identifier and incoming list.
pub proof fn lemma_rewrite_idempotent(prefix: Seq<char>, ident: Seq<char>, entries: Seq<ArgEntryView>)
    ensures
        spec_rewrite(prefix, ident, spec_rewrite(prefix, ident, entries)) == spec_rewrite(
            prefix,
            ident,
            entries,
        ),
{
    lemma_distinct_names();
    let pass = pass_entries(entries);
    let synth = synthesized(prefix, ident, entries);
    let out = spec_rewrite(prefix, ident, entries);
    lemma_synthesized_shape(prefix, ident, entries);
    lemma_pass_entries_elements(entries);
    lemma_pass_entries_append(pass, synth);
    lemma_pass_entries_all(pass);
    lemma_pass_entries_none(synth);
    assert(pass_entries(out) =~= pass);
    lemma_recorded_binding_append(pass, synth, "id"@);
    lemma_recorded_binding_append(pass, synth, "value_name"@);
    lemma_recorded_presence_append(pass, synth, "long"@);
    lemma_recorded_presence_append(pass, synth, "env"@);
    assert(recorded_binding(out, "id"@) == Some(synth_id(prefix, ident, entries)));
    assert(recorded_binding(out, "value_name"@) == Some(synth_value_name(prefix, ident, entries)));
    assert forall|k: int| 0 <= k < pass.len() implies entry_name(#[trigger] pass[k]) != Some(
        "long"@,
    ) && entry_name(pass[k]) != Some("env"@) by {
        assert(passes_through(pass[k]));
    }
    lemma_recorded_unnamed(pass, "long"@);
    lemma_recorded_unnamed(pass, "env"@);
    assert(recorded_presence(out, "long"@) == synth_long(prefix, ident, entries));
    assert(recorded_presence(out, "env"@) == synth_env(prefix, ident, entries));
    assert(synth_id(prefix, ident, out) == synth_id(prefix, ident, entries));
    assert(synth_value_name(prefix, ident, out) == synth_value_name(prefix, ident, entries));
    assert(synth_long(prefix, ident, out) == synth_long(prefix, ident, entries));
    assert(synth_env(prefix, ident, out) == synth_env(prefix, ident, entries));
    assert(synthesized(prefix, ident, out) == synthesized(prefix, ident, entries));
    assert(spec_rewrite(prefix, ident, out) == pass + synth);
}

/// Pass-through preservation: the output begins with exactly the entries
/// whose names are not recognized, in their original relative order and
/// unchanged; each of them appears in the output, and no recognized name
/// ever stands in that leading portion.
pub proof fn lemma_pass_through_preservation(
    prefix: Seq<char>,
    ident: Seq<char>,
    entries: Seq<ArgEntryView>,
)
    ensures
        spec_rewrite(prefix, ident, entries).take(pass_entries(entries).len() as int)
            == pass_entries(entries),
        forall|k: int|
            0 <= k < entries.len() && passes_through(#[trigger] entries[k]) ==> spec_rewrite(
                prefix,
                ident,
                entries,
            ).contains(entries[k]),
        forall|k: int|
            0 <= k < pass_entries(entries).len() ==> passes_through(
                #[trigger] pass_entries(entries)[k],
            ),
{
    let pass = pass_entries(entries);
    let synth = synthesized(prefix, ident, entries);
    assert(spec_rewrite(prefix, ident, entries).take(pass.len() as int) =~= pass);
    lemma_pass_entries_elements(entries);
    assert forall|k: int|
        0 <= k < entries.len() && passes_through(#[trigger] entries[k]) implies spec_rewrite(
        prefix,
        ident,
        entries,
    ).contains(entries[k]) by {
        lemma_append_contains_left(pass, synth, entries[k]);
    }
}

/// Exactly-one synthesis: the output holds exactly one `id` entry and
/// exactly one `value_name` entry.
pub proof fn lemma_exactly_one_synthesis(
    prefix: Seq<char>,
    ident: Seq<char>,
    entries: Seq<ArgEntryView>,
)
    ensures
        count_named(spec_rewrite(prefix, ident, entries), "id"@) == 1,
        count_named(spec_rewrite(prefix, ident, entries), "value_name"@) == 1,
{
    let pass = pass_entries(entries);
    let synth = synthesized(prefix, ident, entries);
    lemma_synthesized_shape(prefix, ident, entries);
    lemma_pass_entries_elements(entries);
    assert forall|k: int| 0 <= k < pass.len() implies entry_name(#[trigger] pass[k]) != Some("id"@)
        && entry_name(pass[k]) != Some("value_name"@) by {
        assert(passes_through(pass[k]));
    }
    lemma_count_named_zero(pass, "id"@);
    lemma_count_named_zero(pass, "value_name"@);
    lemma_count_named_append(pass, synth, "id"@);
    lemma_count_named_append(pass, synth, "value_name"@);
}

/// Gated synthesis: a `long` entry stands in the output exactly once when
/// some incoming entry was named `long`, and not at all otherwise; likewise
/// for `env`.
pub proof fn lemma_gated_synthesis(prefix: Seq<char>, ident: Seq<char>, entries: Seq<ArgEntryView>)
    ensures
        count_named(spec_rewrite(prefix, ident, entries), "long"@) == (if exists|k: int|
            0 <= k < entries.len() && entry_name(#[trigger] entries[k]) == Some("long"@) {
            1nat
        } else {
            0nat
        }),
        count_named(spec_rewrite(prefix, ident, entries), "env"@) == (if exists|k: int|
            0 <= k < entries.len() && entry_name(#[trigger] entries[k]) == Some("env"@) {
            1nat
        } else {
            0nat
        }),
{
    let pass = pass_entries(entries);
    let synth = synthesized(prefix, ident, entries);
    lemma_synthesized_shape(prefix, ident, entries);
    lemma_pass_entries_elements(entries);
    assert forall|k: int| 0 <= k < pass.len() implies entry_name(#[trigger] pass[k]) != Some(
        "long"@,
    ) && entry_name(pass[k]) != Some("env"@) by {
        assert(passes_through(pass[k]));
    }
    lemma_count_named_zero(pass, "long"@);
    lemma_count_named_zero(pass, "env"@);
    lemma_count_named_append(pass, synth, "long"@);
    lemma_count_named_append(pass, synth, "env"@);
    lemma_recorded_presence_observed(entries, "long"@);
    lemma_recorded_presence_observed(entries, "env"@);
}

/// Case discipline: when nothing was bound by the user, the synthesized
/// values are the snake seed for `id`, its uppercase form for `value_name`
/// and (when observed bare) for `env`, and its kebab form for `long` (when
/// observed bare).
pub proof fn lemma_case_discipline(prefix: Seq<char>, ident: Seq<char>, entries: Seq<ArgEntryView>)
    ensures
        recorded_binding(entries, "id"@) is None ==> spec_rewrite(prefix, ident, entries).contains(
            ArgEntryView::NameValue("id"@, spec_snake(prefix, ident)),
        ),
        recorded_binding(entries, "value_name"@) is None ==> spec_rewrite(
            prefix,
            ident,
            entries,
        ).contains(ArgEntryView::NameValue("value_name"@, upper_of(spec_snake(prefix, ident)))),
        recorded_presence(entries, "long"@) == Some(Seq::<char>::empty()) ==> spec_rewrite(
            prefix,
            ident,
            entries,
        ).contains(ArgEntryView::NameValue("long"@, spec_kebab(spec_snake(prefix, ident)))),
        recorded_presence(entries, "env"@) == Some(Seq::<char>::empty()) ==> spec_rewrite(
            prefix,
            ident,
            entries,
        ).contains(ArgEntryView::NameValue("env"@, upper_of(spec_snake(prefix, ident)))),
{
    let pass = pass_entries(entries);
    let synth = synthesized(prefix, ident, entries);
    lemma_synthesized_shape(prefix, ident, entries);
    if recorded_binding(entries, "id"@) is None {
        assert(synth.contains(synth[0]));
        lemma_append_contains_right(pass, synth, synth[0]);
    }
    if recorded_binding(entries, "value_name"@) is None {
        assert(synth.contains(synth[1]));
        lemma_append_contains_right(pass, synth, synth[1]);
    }
    if recorded_presence(entries, "long"@) == Some(Seq::<char>::empty()) {
        let v = spec_kebab(spec_snake(prefix, ident));
        assert(synth_long(prefix, ident, entries) == Some(v));
        assert(synth.contains(ArgEntryView::NameValue("long"@, v)));
        lemma_append_contains_right(pass, synth, ArgEntryView::NameValue("long"@, v));
    }
    if recorded_presence(entries, "env"@) == Some(Seq::<char>::empty()) {
        let v = upper_of(spec_snake(prefix, ident));
        assert(synth_env(prefix, ident, entries) == Some(v));
        assert(synth.contains(ArgEntryView::NameValue("env"@, v)));
        lemma_append_contains_right(pass, synth, ArgEntryView::NameValue("env"@, v));
    }
}

/// Override discipline: a user-bound value is emitted as given for `id` and
/// `value_name` unconditionally, and for `long` and `env` whenever it is
/// non-empty.
pub proof fn lemma_override_discipline(
    prefix: Seq<char>,
    ident: Seq<char>,
    entries: Seq<ArgEntryView>,
)
    ensures
        recorded_binding(entries, "id"@) matches Some(v) ==> spec_rewrite(
            prefix,
            ident,
            entries,
        ).contains(ArgEntryView::NameValue("id"@, v)),
        recorded_binding(entries, "value_name"@) matches Some(v) ==> spec_rewrite(
            prefix,
            ident,
            entries,
        ).contains(ArgEntryView::NameValue("value_name"@, v)),
        forall|v: Seq<char>|
            recorded_presence(entries, "long"@) == Some(v) && v.len() > 0 ==> spec_rewrite(
                prefix,
                ident,
                entries,
            ).contains(ArgEntryView::NameValue("long"@, v)),
        forall|v: Seq<char>|
            recorded_presence(entries, "env"@) == Some(v) && v.len() > 0 ==> spec_rewrite(
                prefix,
                ident,
                entries,
            ).contains(ArgEntryView::NameValue("env"@, v)),
{
    let pass = pass_entries(entries);
    let synth = synthesized(prefix, ident, entries);
    lemma_synthesized_shape(prefix, ident, entries);
    if recorded_binding(entries, "id"@) is Some {
        assert(synth.contains(synth[0]));
        lemma_append_contains_right(pass, synth, synth[0]);
    }
    if recorded_binding(entries, "value_name"@) is Some {
        assert(synth.contains(synth[1]));
        lemma_append_contains_right(pass, synth, synth[1]);
    }
    match recorded_presence(entries, "long"@) {
        Some(v) => {
            if v.len() > 0 {
                assert(synth_long(prefix, ident, entries) == Some(v));
                assert(synth.contains(ArgEntryView::NameValue("long"@, v)));
                lemma_append_contains_right(pass, synth, ArgEntryView::NameValue("long"@, v));
            }
        },
        None => {},
    }
    match recorded_presence(entries, "env"@) {
        Some(v) => {
            if v.len() > 0 {
                assert(synth_env(prefix, ident, entries) == Some(v));
                assert(synth.contains(ArgEntryView::NameValue("env"@, v)));
                lemma_append_contains_right(pass, synth, ArgEntryView::NameValue("env"@, v));
            }
        },
        None => {},
    }
}

} // verus!
