//! One comma-separated entry inside a target attribute's argument list, and
//! the classification the rewrite policy applies to it.

use vstd::prelude::*;

verus! {

/// One entry of a target attribute's argument list.
///
/// An entry either leads with a single-segment name (a lone name, a name
/// bound to a string literal, or a name followed by some other shape) or has
/// no such name at all; shapes the policy does not interpret carry their raw
/// text verbatim.
#[derive(Debug, PartialEq, Eq)]
pub enum ArgEntry {
    /// A lone name, such as `long`.
    Bare(String),
    /// A name bound to a string literal, such as `long = "flag"`.
    NameValue(String, String),
    /// An entry that leads with a single-segment name but has some other
    /// shape, such as `id = 3` or `long(x)`; the raw text is kept.
    NamedOther(String, String),
    /// An entry with no single-segment leading name, such as a bare literal
    /// or a multi-segment path; the raw text is kept.
    Other(String),
}

/// The mathematical value of an [`ArgEntry`]: the same shape over character
/// sequences.
#[verifier::ext_equal]
pub enum ArgEntryView {
    Bare(Seq<char>),
    NameValue(Seq<char>, Seq<char>),
    NamedOther(Seq<char>, Seq<char>),
    Other(Seq<char>),
}

impl DeepView for ArgEntry {
    type V = ArgEntryView;

    open spec fn deep_view(&self) -> ArgEntryView {
        match self {
            ArgEntry::Bare(n) => ArgEntryView::Bare(n@),
            ArgEntry::NameValue(n, v) => ArgEntryView::NameValue(n@, v@),
            ArgEntry::NamedOther(n, t) => ArgEntryView::NamedOther(n@, t@),
            ArgEntry::Other(t) => ArgEntryView::Other(t@),
        }
    }
}

impl Clone for ArgEntry {
    fn clone(&self) -> (r: Self)
        ensures
            r.deep_view() == self.deep_view(),
    {
        match self {
            ArgEntry::Bare(n) => ArgEntry::Bare(n.clone()),
            ArgEntry::NameValue(n, v) => ArgEntry::NameValue(n.clone(), v.clone()),
            ArgEntry::NamedOther(n, t) => ArgEntry::NamedOther(n.clone(), t.clone()),
            ArgEntry::Other(t) => ArgEntry::Other(t.clone()),
        }
    }
}

/// The leading single-segment name of an entry, if it has one.
pub open spec fn entry_name(e: ArgEntryView) -> Option<Seq<char>> {
    match e {
        ArgEntryView::Bare(n) => Some(n),
        ArgEntryView::NameValue(n, _) => Some(n),
        ArgEntryView::NamedOther(n, _) => Some(n),
        ArgEntryView::Other(_) => None,
    }
}

/// Whether a name is one of the four the rewrite policy recognizes.
pub open spec fn recognized(n: Seq<char>) -> bool {
    ||| n == "id"@
    ||| n == "long"@
    ||| n == "env"@
    ||| n == "value_name"@
}

/// Whether an entry is passed through to the output unchanged: every entry
/// whose name is not recognized, and every entry without a name.
pub open spec fn passes_through(e: ArgEntryView) -> bool {
    match entry_name(e) {
        Some(n) => !recognized(n),
        None => true,
    }
}

/// The value the policy remembers for name `n` when only `n = "value"`
/// bindings count (the policy for `id` and `value_name`); a later binding
/// overrides an earlier one.
pub open spec fn recorded_binding(entries: Seq<ArgEntryView>, n: Seq<char>) -> Option<Seq<char>>
    decreases entries.len(),
{
    if entries.len() == 0 {
        None
    } else {
        let rest = recorded_binding(entries.drop_last(), n);
        match entries.last() {
            ArgEntryView::NameValue(m, v) => if m == n {
                Some(v)
            } else {
                rest
            },
            _ => rest,
        }
    }
}

/// The value the policy remembers for name `n` when bare presence (or any
/// unexpected shape) counts as the empty string (the policy for `long` and
/// `env`); a later entry overrides an earlier one.
pub open spec fn recorded_presence(entries: Seq<ArgEntryView>, n: Seq<char>) -> Option<Seq<char>>
    decreases entries.len(),
{
    if entries.len() == 0 {
        None
    } else {
        let rest = recorded_presence(entries.drop_last(), n);
        match entries.last() {
            ArgEntryView::Bare(m) => if m == n {
                Some(Seq::empty())
            } else {
                rest
            },
            ArgEntryView::NameValue(m, v) => if m == n {
                Some(v)
            } else {
                rest
            },
            ArgEntryView::NamedOther(m, _) => if m == n {
                Some(Seq::empty())
            } else {
                rest
            },
            ArgEntryView::Other(_) => rest,
        }
    }
}

/// The four recognized names are pairwise distinct.
pub proof fn lemma_distinct_names()
    ensures
        "id"@ != "value_name"@,
        "id"@ != "long"@,
        "id"@ != "env"@,
        "value_name"@ != "long"@,
        "value_name"@ != "env"@,
        "long"@ != "env"@,
{
    reveal_strlit("id");
    reveal_strlit("value_name");
    reveal_strlit("long");
    reveal_strlit("env");
    assert("id"@.len() == 2);
    assert("value_name"@.len() == 10);
    assert("long"@.len() == 4);
    assert("env"@.len() == 3);
}

/// The pass-through portion of an entry list: the entries the policy copies
/// to the output unchanged, in their original order.
pub open spec fn pass_entries(entries: Seq<ArgEntryView>) -> Seq<ArgEntryView> {
    entries.filter(|e: ArgEntryView| passes_through(e))
}

/// Appending one entry extends the pass-through portion exactly when the
/// entry passes through.
pub proof fn lemma_pass_entries_push(s: Seq<ArgEntryView>, e: ArgEntryView)
    ensures
        pass_entries(s.push(e)) == if passes_through(e) {
            pass_entries(s).push(e)
        } else {
            pass_entries(s)
        },
{
    reveal(Seq::filter);
    assert(s.push(e).drop_last() =~= s);
    assert(s.push(e).last() == e);
}

/// Appending one entry overrides the remembered binding exactly when the
/// entry is a `n = "value"` binding for the name in question.
pub proof fn lemma_recorded_binding_push(s: Seq<ArgEntryView>, e: ArgEntryView, n: Seq<char>)
    ensures
        recorded_binding(s.push(e), n) == (match e {
            ArgEntryView::NameValue(m, v) => if m == n {
                Some(v)
            } else {
                recorded_binding(s, n)
            },
            _ => recorded_binding(s, n),
        }),
{
    assert(s.push(e).drop_last() =~= s);
    assert(s.push(e).last() == e);
}

/// Appending one entry overrides the remembered presence exactly when the
/// entry carries the name in question in any shape.
pub proof fn lemma_recorded_presence_push(s: Seq<ArgEntryView>, e: ArgEntryView, n: Seq<char>)
    ensures
        recorded_presence(s.push(e), n) == (match e {
            ArgEntryView::Bare(m) => if m == n {
                Some(Seq::<char>::empty())
            } else {
                recorded_presence(s, n)
            },
            ArgEntryView::NameValue(m, v) => if m == n {
                Some(v)
            } else {
                recorded_presence(s, n)
            },
            ArgEntryView::NamedOther(m, _) => if m == n {
                Some(Seq::<char>::empty())
            } else {
                recorded_presence(s, n)
            },
            ArgEntryView::Other(_) => recorded_presence(s, n),
        }),
{
    assert(s.push(e).drop_last() =~= s);
    assert(s.push(e).last() == e);
}

/// Over a concatenation, the later part decides: a binding remembered from
/// the second part wins, and the first part is consulted only otherwise.
pub proof fn lemma_recorded_binding_append(a: Seq<ArgEntryView>, b: Seq<ArgEntryView>, n: Seq<char>)
    ensures
        recorded_binding(a + b, n) == (match recorded_binding(b, n) {
            Some(v) => Some(v),
            None => recorded_binding(a, n),
        }),
    decreases b.len(),
{
    if b.len() == 0 {
        assert(a + b =~= a);
    } else {
        assert((a + b).drop_last() =~= a + b.drop_last());
        assert((a + b).last() == b.last());
        lemma_recorded_binding_append(a, b.drop_last(), n);
    }
}

/// Over a concatenation, the later part decides: a presence remembered from
/// the second part wins, and the first part is consulted only otherwise.
pub proof fn lemma_recorded_presence_append(
    a: Seq<ArgEntryView>,
    b: Seq<ArgEntryView>,
    n: Seq<char>,
)
    ensures
        recorded_presence(a + b, n) == (match recorded_presence(b, n) {
            Some(v) => Some(v),
            None => recorded_presence(a, n),
        }),
    decreases b.len(),
{
    if b.len() == 0 {
        assert(a + b =~= a);
    } else {
        assert((a + b).drop_last() =~= a + b.drop_last());
        assert((a + b).last() == b.last());
        lemma_recorded_presence_append(a, b.drop_last(), n);
    }
}

/// A list with no entry named `n` records nothing for `n`.
pub proof fn lemma_recorded_unnamed(s: Seq<ArgEntryView>, n: Seq<char>)
    requires
        forall|k: int| 0 <= k < s.len() ==> entry_name(#[trigger] s[k]) != Some(n),
    ensures
        recorded_binding(s, n) is None,
        recorded_presence(s, n) is None,
    decreases s.len(),
{
    if s.len() > 0 {
        assert(entry_name(s.last()) != Some(n));
        lemma_recorded_unnamed(s.drop_last(), n);
    }
}

/// A presence is remembered for `n` exactly when some entry is named `n`.
pub proof fn lemma_recorded_presence_observed(s: Seq<ArgEntryView>, n: Seq<char>)
    ensures
        recorded_presence(s, n) is Some <==> exists|k: int|
            0 <= k < s.len() && entry_name(#[trigger] s[k]) == Some(n),
    decreases s.len(),
{
    if s.len() > 0 {
        lemma_recorded_presence_observed(s.drop_last(), n);
        if entry_name(s.last()) == Some(n) {
            assert(entry_name(s[s.len() - 1]) == Some(n));
        } else if recorded_presence(s.drop_last(), n) is Some {
            let k = choose|k: int|
                0 <= k < s.drop_last().len() && entry_name(#[trigger] s.drop_last()[k]) == Some(n);
            assert(entry_name(s[k]) == Some(n));
        } else if recorded_presence(s, n) is None {
            assert forall|k: int| 0 <= k < s.len() implies entry_name(#[trigger] s[k]) != Some(n) by {
                if k < s.len() - 1 {
                    assert(s.drop_last()[k] == s[k]);
                }
            }
        }
    }
}

/// A list whose entries all pass through is its own pass-through portion.
pub proof fn lemma_pass_entries_all(s: Seq<ArgEntryView>)
    requires
        forall|k: int| 0 <= k < s.len() ==> passes_through(#[trigger] s[k]),
    ensures
        pass_entries(s) == s,
    decreases s.len(),
{
    reveal(Seq::filter);
    if s.len() == 0 {
        assert(pass_entries(s) =~= s);
    } else {
        lemma_pass_entries_all(s.drop_last());
        assert(passes_through(s.last()));
        assert(pass_entries(s) =~= s);
    }
}

/// A list none of whose entries passes through has an empty pass-through
/// portion.
pub proof fn lemma_pass_entries_none(s: Seq<ArgEntryView>)
    requires
        forall|k: int| 0 <= k < s.len() ==> !passes_through(#[trigger] s[k]),
    ensures
        pass_entries(s) == Seq::<ArgEntryView>::empty(),
    decreases s.len(),
{
    reveal(Seq::filter);
    if s.len() == 0 {
        assert(pass_entries(s) =~= Seq::<ArgEntryView>::empty());
    } else {
        lemma_pass_entries_none(s.drop_last());
        assert(!passes_through(s.last()));
        assert(pass_entries(s) =~= Seq::<ArgEntryView>::empty());
    }
}

/// The pass-through portion splits over a concatenation.
pub proof fn lemma_pass_entries_append(a: Seq<ArgEntryView>, b: Seq<ArgEntryView>)
    ensures
        pass_entries(a + b) == pass_entries(a) + pass_entries(b),
    decreases b.len(),
{
    reveal(Seq::filter);
    if b.len() == 0 {
        assert(a + b =~= a);
        assert(pass_entries(b) =~= Seq::<ArgEntryView>::empty());
        assert(pass_entries(a) + pass_entries(b) =~= pass_entries(a));
    } else {
        assert((a + b).drop_last() =~= a + b.drop_last());
        assert((a + b).last() == b.last());
        lemma_pass_entries_append(a, b.drop_last());
        if passes_through(b.last()) {
            assert(pass_entries(a) + pass_entries(b) =~= (pass_entries(a) + pass_entries(
                b.drop_last(),
            )).push(b.last()));
        }
    }
}

/// Every entry of the pass-through portion passes through, and every
/// pass-through entry of the list is in it.
pub proof fn lemma_pass_entries_elements(s: Seq<ArgEntryView>)
    ensures
        forall|k: int|
            0 <= k < pass_entries(s).len() ==> passes_through(#[trigger] pass_entries(s)[k]),
        forall|k: int|
            0 <= k < s.len() && passes_through(s[k]) ==> pass_entries(s).contains(#[trigger] s[k]),
{
    broadcast use vstd::seq_lib::group_filter_ensures;

}

/// How many entries of a list are named `n`.
pub open spec fn count_named(s: Seq<ArgEntryView>, n: Seq<char>) -> nat {
    s.filter(|e: ArgEntryView| entry_name(e) == Some(n)).len()
}

/// Appending one entry raises the count for `n` exactly when the entry is
/// named `n`.
pub proof fn lemma_count_named_push(s: Seq<ArgEntryView>, e: ArgEntryView, n: Seq<char>)
    ensures
        count_named(s.push(e), n) == count_named(s, n) + (if entry_name(e) == Some(n) {
            1nat
        } else {
            0nat
        }),
{
    reveal(Seq::filter);
    assert(s.push(e).drop_last() =~= s);
    assert(s.push(e).last() == e);
}

/// A list with no entry named `n` counts zero for `n`.
pub proof fn lemma_count_named_zero(s: Seq<ArgEntryView>, n: Seq<char>)
    requires
        forall|k: int| 0 <= k < s.len() ==> entry_name(#[trigger] s[k]) != Some(n),
    ensures
        count_named(s, n) == 0,
    decreases s.len(),
{
    reveal(Seq::filter);
    if s.len() > 0 {
        assert(entry_name(s.last()) != Some(n));
        lemma_count_named_zero(s.drop_last(), n);
    }
}

/// The count for `n` adds up over a concatenation.
pub proof fn lemma_count_named_append(a: Seq<ArgEntryView>, b: Seq<ArgEntryView>, n: Seq<char>)
    ensures
        count_named(a + b, n) == count_named(a, n) + count_named(b, n),
    decreases b.len(),
{
    reveal(Seq::filter);
    if b.len() == 0 {
        assert(a + b =~= a);
    } else {
        assert((a + b).drop_last() =~= a + b.drop_last());
        assert((a + b).last() == b.last());
        lemma_count_named_append(a, b.drop_last(), n);
    }
}

/// An entry of a longer list is an entry of the whole.
pub proof fn lemma_append_contains_right(a: Seq<ArgEntryView>, b: Seq<ArgEntryView>, x: ArgEntryView)
    requires
        b.contains(x),
    ensures
        (a + b).contains(x),
{
    let j = choose|j: int| 0 <= j < b.len() && b[j] == x;
    assert((a + b)[a.len() + j] == x);
}

/// An entry of a prefix is an entry of the whole.
pub proof fn lemma_append_contains_left(a: Seq<ArgEntryView>, b: Seq<ArgEntryView>, x: ArgEntryView)
    requires
        a.contains(x),
    ensures
        (a + b).contains(x),
{
    let j = choose|j: int| 0 <= j < a.len() && a[j] == x;
    assert((a + b)[j] == x);
}

/// Compares a string against a literal name.
pub(crate) fn eq_str(a: &String, b: &str) -> (r: bool)
    ensures
        r == (a@ == b@),
{
    let owned: String = b.to_owned();
    *a == owned
}

} // verus!
