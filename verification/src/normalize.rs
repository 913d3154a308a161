//! The normal form under which texts are compared when searching: canonical
//! decomposition, combining marks removed, lower case.

use vstd::prelude::*;
use unicode_normalization::UnicodeNormalization;
use crate::text::string_of;

verus! {

/// The canonical decomposition (Unicode Normalization Form D) of `s`.
pub uninterp spec fn nfd_of(s: Seq<char>) -> Seq<char>;

/// Whether `c` is a combining mark (`General_Category=Mark`).
pub uninterp spec fn combining_mark(c: char) -> bool;

/// The lower-case form of `s`, as the Unicode character database defines it,
/// without regard to a locale.
pub uninterp spec fn lowercase_of(s: Seq<char>) -> Seq<char>;

/// `UnicodeNormalization::nfd` on a string slice, collected.
///
/// Trusted: the iterator yields the canonical decomposition of its input,
/// which depends on that input alone; the contract gives the result its name
/// and says nothing more of it.
#[verifier::external_body]
fn nfd(s: &str) -> (r: Vec<char>)
    ensures
        r@ == nfd_of(s@),
{
    s.nfd().collect()
}

/// `unicode_normalization::char::is_combining_mark` looks `c` up in a fixed
/// table.
///
/// Trusted: the contract gives the answer its name and says nothing more of it.
pub assume_specification[ unicode_normalization::char::is_combining_mark ](c: char) -> (r: bool)
    ensures
        r == combining_mark(c),
;

/// `str::to_lowercase` returns the lower-case equivalent of the string.
///
/// Trusted: the standard library documents the result as a function of the
/// characters alone; the contract gives it its name and says nothing more of it.
pub assume_specification[ str::to_lowercase ](s: &str) -> (r: String)
    ensures
        r@ == lowercase_of(s@),
;

/// `s` without its combining marks.
pub open spec fn without_marks(s: Seq<char>) -> Seq<char> {
    s.filter(|c: char| !combining_mark(c))
}

/// The form under which `s` is compared: decomposed, marks removed, lower case.
pub open spec fn normalized(s: Seq<char>) -> Seq<char> {
    lowercase_of(without_marks(nfd_of(s)))
}

/// Removes the combining marks from `v`.
pub fn strip_marks(v: &Vec<char>) -> (r: Vec<char>)
    ensures
        r@ == without_marks(v@),
{
    let mut r: Vec<char> = Vec::new();
    let mut i: usize = 0;
    proof {
        reveal(Seq::filter);
        assert(v@.take(0) == Seq::<char>::empty());
    }
    while i < v.len()
        invariant
            i <= v.len(),
            r@ == without_marks(v@.take(i as int)),
        decreases v.len() - i,
    {
        proof {
            reveal(Seq::filter);
            assert(v@.take(i + 1).drop_last() == v@.take(i as int));
        }
        let c = v[i];
        if !unicode_normalization::char::is_combining_mark(c) {
            r.push(c);
        }
        i += 1;
    }
    proof {
        assert(v@.take(v.len() as int) == v@);
    }
    r
}

/// The form of `s` under which searches compare texts, so that a query
/// without accents or capitals finds text that has them.
pub fn normalize_for_search(s: &str) -> (r: String)
    ensures
        r@ == normalized(s@),
{
    let decomposed = nfd(s);
    let stripped = strip_marks(&decomposed);
    let plain = string_of(&stripped);
    plain.as_str().to_lowercase()
}

} // verus!
