use vstd::prelude::*;

verus! {

/// What `str::to_uppercase` gives for a text.
pub uninterp spec fn uppercase_text(s: Seq<char>) -> Seq<char>;

/// The text in upper case, by `str::to_uppercase`. Claims only that the
/// result is a function of the text, named `uppercase_text`; the Unicode case
/// mapping behind it is left unstated.
#[verifier::external_body]
pub(crate) fn to_uppercase(s: &String) -> (r: String)
    ensures
        r@ == uppercase_text(s@),
{
    s.to_uppercase()
}

} // verus!
