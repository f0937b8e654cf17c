//! The record driver: the plain model of a record declaration, and the pass
//! that rewrites every target attribute of every named field.

use vstd::prelude::*;
use crate::casing::{lower_of, lowercase};
use crate::entry::{eq_str, ArgEntry, ArgEntryView};
use crate::rewrite::{lemma_rewrite_idempotent, spec_rewrite, Field};

verus! {

/// The parsed arguments of one attribute.
#[derive(Debug, PartialEq, Eq)]
pub enum AttrArgs {
    /// Argument tokens that parse as a comma-separated entry list.
    Entries(Vec<ArgEntry>),
    /// Argument tokens of any other shape (including none), kept verbatim.
    Opaque(String),
}

/// The mathematical value of [`AttrArgs`].
#[verifier::ext_equal]
pub enum AttrArgsView {
    Entries(Seq<ArgEntryView>),
    Opaque(Seq<char>),
}

impl DeepView for AttrArgs {
    type V = AttrArgsView;

    open spec fn deep_view(&self) -> AttrArgsView {
        match self {
            AttrArgs::Entries(items) => AttrArgsView::Entries(items.deep_view()),
            AttrArgs::Opaque(t) => AttrArgsView::Opaque(t@),
        }
    }
}

/// One attribute attached to a field: its path and its arguments.
#[derive(Debug, PartialEq, Eq)]
pub struct Attr {
    pub path: String,
    pub args: AttrArgs,
}

/// The mathematical value of an [`Attr`].
#[verifier::ext_equal]
pub struct AttrView {
    pub path: Seq<char>,
    pub args: AttrArgsView,
}

impl DeepView for Attr {
    type V = AttrView;

    open spec fn deep_view(&self) -> AttrView {
        AttrView { path: self.path@, args: self.args.deep_view() }
    }
}

/// One member of the record: its identifier, if it has one, and its
/// attributes.
#[derive(Debug, PartialEq, Eq)]
pub struct FieldDecl {
    pub ident: Option<String>,
    pub attrs: Vec<Attr>,
}

/// The mathematical value of a [`FieldDecl`].
#[verifier::ext_equal]
pub struct FieldDeclView {
    pub ident: Option<Seq<char>>,
    pub attrs: Seq<AttrView>,
}

impl DeepView for FieldDecl {
    type V = FieldDeclView;

    open spec fn deep_view(&self) -> FieldDeclView {
        FieldDeclView { ident: self.ident.deep_view(), attrs: self.attrs.deep_view() }
    }
}

/// The record declaration: its name and its ordered fields.
#[derive(Debug, PartialEq, Eq)]
pub struct Record {
    pub name: String,
    pub fields: Vec<FieldDecl>,
}

/// The mathematical value of a [`Record`].
#[verifier::ext_equal]
pub struct RecordView {
    pub name: Seq<char>,
    pub fields: Seq<FieldDeclView>,
}

impl DeepView for Record {
    type V = RecordView;

    open spec fn deep_view(&self) -> RecordView {
        RecordView { name: self.name@, fields: self.fields.deep_view() }
    }
}

/// What the pass does to one attribute: a target attribute (single-segment
/// path `arg`) whose arguments parse as an entry list has its list rewritten;
/// every other attribute is untouched.
pub open spec fn spec_rewrite_attr(prefix: Seq<char>, ident: Seq<char>, a: AttrView) -> AttrView {
    if a.path == "arg"@ {
        match a.args {
            AttrArgsView::Entries(items) => AttrView {
                path: a.path,
                args: AttrArgsView::Entries(spec_rewrite(prefix, ident, items)),
            },
            AttrArgsView::Opaque(_) => a,
        }
    } else {
        a
    }
}

/// The attribute list of one named field after the pass.
pub open spec fn rewritten_attrs(prefix: Seq<char>, ident: Seq<char>, attrs: Seq<AttrView>) -> Seq<
    AttrView,
> {
    attrs.map_values(|a: AttrView| spec_rewrite_attr(prefix, ident, a))
}

/// What the pass does to one field: every attribute of a named field is
/// rewritten with the field's identifier; a field without an identifier is
/// untouched.
pub open spec fn spec_rewrite_field(prefix: Seq<char>, f: FieldDeclView) -> FieldDeclView {
    match f.ident {
        Some(id) => FieldDeclView { ident: f.ident, attrs: rewritten_attrs(prefix, id, f.attrs) },
        None => f,
    }
}

/// The field list of the record after the pass.
pub open spec fn rewritten_fields(prefix: Seq<char>, fields: Seq<FieldDeclView>) -> Seq<
    FieldDeclView,
> {
    fields.map_values(|f: FieldDeclView| spec_rewrite_field(prefix, f))
}

/// What the whole pass does to a record: the prefix is the record's name
/// lowercased, and every field is rewritten with it; the name itself is kept.
pub open spec fn spec_clap_prefix(r: RecordView) -> RecordView {
    RecordView { name: r.name, fields: rewritten_fields(lower_of(r.name), r.fields) }
}

impl Clone for Attr {
    fn clone(&self) -> (r: Self)
        ensures
            r.deep_view() == self.deep_view(),
    {
        let args = match &self.args {
            AttrArgs::Entries(items) => AttrArgs::Entries(clone_entries(items)),
            AttrArgs::Opaque(t) => AttrArgs::Opaque(t.clone()),
        };
        let r = Attr { path: self.path.clone(), args };
        proof {
            assert(r.deep_view() =~~= self.deep_view());
        }
        r
    }
}

/// Copies an entry list, entry by entry.
fn clone_entries(items: &Vec<ArgEntry>) -> (out: Vec<ArgEntry>)
    ensures
        out.deep_view() == items.deep_view(),
{
    let mut out: Vec<ArgEntry> = Vec::new();
    for i in 0..items.len()
        invariant
            out.deep_view() == items.deep_view().take(i as int),
    {
        let ghost pre = out.deep_view();
        out.push(items[i].clone());
        proof {
            let dv = items.deep_view();
            assert(pre.len() == i);
            assert(out.deep_view().len() == i + 1);
            assert forall|k: int| 0 <= k < i + 1 implies out.deep_view()[k] == dv.take(i + 1)[k] by {
                assert(out.deep_view()[k] == out@[k].deep_view());
                assert(dv.take(i + 1)[k] == dv[k]);
                if k < i {
                    assert(out.deep_view()[k] == pre[k]);
                }
            }
            assert(out.deep_view() =~= dv.take(i + 1));
        }
    }
    proof {
        assert(items.deep_view().take(items.len() as int) =~= items.deep_view());
    }
    out
}

/// Rewrites one attribute of a named field.
fn rewrite_attr(prefix: &String, ident: &String, a: &Attr) -> (out: Attr)
    ensures
        out.deep_view() == spec_rewrite_attr(prefix@, ident@, a.deep_view()),
{
    if eq_str(&a.path, "arg") {
        match &a.args {
            AttrArgs::Entries(items) => {
                let job = Field {
                    ident: ident.clone(),
                    prefix: prefix.clone(),
                    meta_items: clone_entries(items),
                };
                Attr {
                    path: a.path.clone(),
                    args: AttrArgs::Entries(job.get_new_meta_items()),
                }
            },
            AttrArgs::Opaque(_) => a.clone(),
        }
    } else {
        a.clone()
    }
}

/// Rewrites one field: every target attribute of a named field gets its
/// argument list rewritten; everything else is kept.
fn rewrite_field(prefix: &String, f: &FieldDecl) -> (out: FieldDecl)
    ensures
        out.deep_view() == spec_rewrite_field(prefix@, f.deep_view()),
{
    match &f.ident {
        Some(id) => {
            let mut attrs: Vec<Attr> = Vec::new();
            for j in 0..f.attrs.len()
                invariant
                    attrs.deep_view() == rewritten_attrs(
                        prefix@,
                        id@,
                        f.attrs.deep_view().take(j as int),
                    ),
            {
                let ghost pre = attrs.deep_view();
                attrs.push(rewrite_attr(prefix, id, &f.attrs[j]));
                proof {
                    let dv = f.attrs.deep_view();
                    let target = rewritten_attrs(prefix@, id@, dv.take(j + 1));
                    assert(dv.len() == f.attrs@.len());
                    assert(pre.len() == j);
                    assert(attrs@.len() == j + 1);
                    assert(attrs.deep_view().len() == j + 1);
                    assert(target.len() == j + 1);
                    assert forall|k: int| 0 <= k < j + 1 implies attrs.deep_view()[k] == target[k] by {
                        assert(attrs.deep_view()[k] == attrs@[k].deep_view());
                        assert(target[k] == spec_rewrite_attr(prefix@, id@, dv[k]));
                        if k < j {
                            assert(attrs.deep_view()[k] == pre[k]);
                        }
                    }
                    assert(attrs.deep_view() =~= target);
                }
            }
            proof {
                assert(f.attrs.deep_view().take(f.attrs.len() as int) =~= f.attrs.deep_view());
            }
            let out = FieldDecl { ident: Some(id.clone()), attrs };
            proof {
                assert(out.deep_view() =~= spec_rewrite_field(prefix@, f.deep_view()));
            }
            out
        },
        None => {
            let out = FieldDecl { ident: None, attrs: clone_attrs(&f.attrs) };
            proof {
                assert(out.deep_view() =~= spec_rewrite_field(prefix@, f.deep_view()));
            }
            out
        },
    }
}

/// Copies an attribute list, attribute by attribute.
fn clone_attrs(attrs: &Vec<Attr>) -> (out: Vec<Attr>)
    ensures
        out.deep_view() == attrs.deep_view(),
{
    let mut out: Vec<Attr> = Vec::new();
    for i in 0..attrs.len()
        invariant
            out.deep_view() == attrs.deep_view().take(i as int),
    {
        let ghost pre = out.deep_view();
        out.push(attrs[i].clone());
        proof {
            let dv = attrs.deep_view();
            assert(dv.len() == attrs@.len());
            assert(pre.len() == i);
            assert(out@.len() == i + 1);
            assert(out.deep_view().len() == i + 1);
            assert forall|k: int| 0 <= k < i + 1 implies out.deep_view()[k] == dv.take(i + 1)[k] by {
                assert(out.deep_view()[k] == out@[k].deep_view());
                if k < i {
                    assert(out.deep_view()[k] == pre[k]);
                }
            }
            assert(out.deep_view() =~= dv.take(i + 1));
        }
    }
    proof {
        assert(attrs.deep_view().take(attrs.len() as int) =~= attrs.deep_view());
    }
    out
}

/// The whole pass: derives the prefix from the record's name and rewrites
/// every field's target attributes; everything else in the record is kept.
pub fn clap_prefix(record: &Record) -> (out: Record)
    ensures
        out.deep_view() == spec_clap_prefix(record.deep_view()),
{
    let prefix = lowercase(record.name.as_str());
    let mut fields: Vec<FieldDecl> = Vec::new();
    for i in 0..record.fields.len()
        invariant
            prefix@ == lower_of(record.name@),
            fields.deep_view() == rewritten_fields(
                lower_of(record.name@),
                record.fields.deep_view().take(i as int),
            ),
    {
        let ghost pre = fields.deep_view();
        fields.push(rewrite_field(&prefix, &record.fields[i]));
        proof {
            let dv = record.fields.deep_view();
            let target = rewritten_fields(lower_of(record.name@), dv.take(i + 1));
            assert(dv.len() == record.fields@.len());
            assert(pre.len() == i);
            assert(fields@.len() == i + 1);
            assert(fields.deep_view().len() == i + 1);
            assert(target.len() == i + 1);
            assert forall|k: int| 0 <= k < i + 1 implies fields.deep_view()[k] == target[k] by {
                assert(fields.deep_view()[k] == fields@[k].deep_view());
                assert(target[k] == spec_rewrite_field(lower_of(record.name@), dv[k]));
                if k < i {
                    assert(fields.deep_view()[k] == pre[k]);
                }
            }
            assert(fields.deep_view() =~= target);
        }
    }
    proof {
        assert(record.fields.deep_view().take(record.fields.len() as int) =~= record.fields.deep_view());
    }
    let out = Record { name: record.name.clone(), fields };
    proof {
        assert(out.deep_view() =~= spec_clap_prefix(record.deep_view()));
    }
    out
}

/// Rewriting one attribute is idempotent.
pub proof fn lemma_rewrite_attr_idempotent(prefix: Seq<char>, ident: Seq<char>, a: AttrView)
    ensures
        spec_rewrite_attr(prefix, ident, spec_rewrite_attr(prefix, ident, a)) == spec_rewrite_attr(
            prefix,
            ident,
            a,
        ),
{
    if a.path == "arg"@ {
        match a.args {
            AttrArgsView::Entries(items) => {
                lemma_rewrite_idempotent(prefix, ident, items);
            },
            AttrArgsView::Opaque(_) => {},
        }
    }
}

/// Rewriting one field is idempotent.
pub proof fn lemma_rewrite_field_idempotent(prefix: Seq<char>, f: FieldDeclView)
    ensures
        spec_rewrite_field(prefix, spec_rewrite_field(prefix, f)) == spec_rewrite_field(prefix, f),
{
    match f.ident {
        Some(id) => {
            let once = spec_rewrite_field(prefix, f);
            assert forall|k: int| 0 <= k < once.attrs.len() implies #[trigger] spec_rewrite_attr(
                prefix,
                id,
                once.attrs[k],
            ) == once.attrs[k] by {
                lemma_rewrite_attr_idempotent(prefix, id, f.attrs[k]);
            }
            assert(rewritten_attrs(prefix, id, once.attrs) =~= once.attrs);
            assert(spec_rewrite_field(prefix, once) =~= once);
        },
        None => {},
    }
}

/// The whole pass is idempotent: running it twice on a record yields the
/// same record as running it once.
pub proof fn lemma_clap_prefix_idempotent(r: RecordView)
    ensures
        spec_clap_prefix(spec_clap_prefix(r)) == spec_clap_prefix(r),
{
    let once = spec_clap_prefix(r);
    let prefix = lower_of(r.name);
    assert forall|k: int| 0 <= k < once.fields.len() implies #[trigger] spec_rewrite_field(
        prefix,
        once.fields[k],
    ) == once.fields[k] by {
        lemma_rewrite_field_idempotent(prefix, r.fields[k]);
    }
    assert(rewritten_fields(prefix, once.fields) =~= once.fields);
    assert(spec_clap_prefix(once) =~= once);
}

/// Non-target attributes are untouched: an attribute whose path is not
/// `arg` comes out of the pass exactly as it went in, wherever it stands.
pub proof fn lemma_non_target_untouched(r: RecordView, fi: int, ai: int)
    requires
        0 <= fi < r.fields.len(),
        0 <= ai < r.fields[fi].attrs.len(),
        r.fields[fi].attrs[ai].path != "arg"@,
    ensures
        spec_clap_prefix(r).fields.len() == r.fields.len(),
        spec_clap_prefix(r).fields[fi].attrs.len() == r.fields[fi].attrs.len(),
        spec_clap_prefix(r).fields[fi].attrs[ai] == r.fields[fi].attrs[ai],
{
    let f = r.fields[fi];
    match f.ident {
        Some(id) => {
            assert(spec_clap_prefix(r).fields[fi] == spec_rewrite_field(lower_of(r.name), f));
            assert(spec_rewrite_field(lower_of(r.name), f).attrs[ai] == spec_rewrite_attr(
                lower_of(r.name),
                id,
                f.attrs[ai],
            ));
        },
        None => {},
    }
}

/// The prefix comes from the record name alone, lowercased: two records
/// with the same fields whose names lowercase alike are rewritten alike,
/// and the pass never changes the name itself.
pub proof fn lemma_prefix_source(r1: RecordView, r2: RecordView)
    requires
        lower_of(r1.name) == lower_of(r2.name),
        r1.fields == r2.fields,
    ensures
        spec_clap_prefix(r1).fields == spec_clap_prefix(r2).fields,
        spec_clap_prefix(r1).name == r1.name,
        spec_clap_prefix(r2).name == r2.name,
{
}

} // verus!
