//! The three case conventions derived from one seed: `prefix_field` (snake),
//! its uppercase form (screaming), and its hyphenated form (kebab).

use vstd::prelude::*;
use vstd::string::StringExecFns;

verus! {

/// What `str::to_lowercase` returns for a given character sequence; the
/// result depends on the characters alone.
pub uninterp spec fn lower_of(s: Seq<char>) -> Seq<char>;

/// What `str::to_uppercase` returns for a given character sequence; the
/// result depends on the characters alone.
pub uninterp spec fn upper_of(s: Seq<char>) -> Seq<char>;

/// Relies on `str::to_lowercase`: the lowercase equivalent of the string,
/// a pure function of its characters.
#[verifier::external_body]
pub(crate) fn lowercase(s: &str) -> (r: String)
    ensures
        r@ == lower_of(s@),
{
    s.to_lowercase()
}

/// Relies on `str::to_uppercase`: the uppercase equivalent of the string,
/// a pure function of its characters.
#[verifier::external_body]
pub(crate) fn uppercase(s: &str) -> (r: String)
    ensures
        r@ == upper_of(s@),
{
    s.to_uppercase()
}

/// The snake-case seed for one field: the record prefix and the field
/// identifier joined by an underscore.
pub open spec fn spec_snake(prefix: Seq<char>, ident: Seq<char>) -> Seq<char> {
    prefix + seq!['_'] + ident
}

/// The kebab-case form of a snake-case seed: every underscore becomes a
/// hyphen and every other character is kept.
pub open spec fn spec_kebab(s: Seq<char>) -> Seq<char> {
    s.map_values(|c: char| if c == '_' { '-' } else { c })
}

/// Relies on `str::replace` with a one-character pattern and a one-character
/// replacement: each matching character is replaced in place and every other
/// character is kept.
#[verifier::external_body]
pub(crate) fn kebab_of(s: &str) -> (r: String)
    ensures
        r@ == spec_kebab(s@),
{
    s.replace('_', "-")
}

/// Joins the record prefix and a field identifier into the snake-case seed.
pub(crate) fn snake_of(prefix: &String, ident: &String) -> (r: String)
    ensures
        r@ == spec_snake(prefix@, ident@),
{
    let r = prefix.clone().concat("_").concat(ident.as_str());
    proof {
        reveal_strlit("_");
        assert(r@ =~= spec_snake(prefix@, ident@));
    }
    r
}

} // verus!
