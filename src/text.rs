use vstd::prelude::*;

verus! {

/// The lowercase form of a string, as `str::to_lowercase` computes it.
pub uninterp spec fn lower_of(s: Seq<char>) -> Seq<char>;

/// `p` occurs in `t` as a contiguous run of characters.
pub open spec fn is_substring(p: Seq<char>, t: Seq<char>) -> bool {
    exists|i: int| 0 <= i && i + p.len() <= t.len() && #[trigger] t.subrange(i, i + p.len()) == p
}

/// `s` with its last character removed; unchanged when it is empty.
pub open spec fn drop_last(s: Seq<char>) -> Seq<char> {
    if s.len() == 0 { s } else { s.drop_last() }
}

/// Relies on `str::to_lowercase`: the result depends on the characters alone,
/// and the empty string stays empty.
#[verifier::external_body]
pub(crate) fn lowercase(s: &str) -> (r: String)
    ensures
        r@ == lower_of(s@),
        s@.len() == 0 ==> r@.len() == 0,
{
    s.to_lowercase()
}

/// Relies on `str::contains` with a `&str` pattern: true exactly when `p`
/// occurs in `t` as a substring.
#[verifier::external_body]
pub(crate) fn contains_str(t: &str, p: &str) -> (r: bool)
    ensures
        r == is_substring(p@, t@),
{
    t.contains(p)
}

/// Relies on `String::push`: appends one character.
#[verifier::external_body]
pub(crate) fn push_char(s: &mut String, c: char)
    ensures
        final(s)@ == old(s)@.push(c),
{
    s.push(c)
}

/// Relies on `String::pop`: removes the last character, if there is one.
#[verifier::external_body]
pub(crate) fn pop_char(s: &mut String)
    ensures
        final(s)@ == drop_last(old(s)@),
{
    s.pop();
}

/// The empty pattern occurs in every string.
pub proof fn lemma_empty_is_substring(t: Seq<char>)
    ensures
        is_substring(Seq::<char>::empty(), t),
{
    let e = Seq::<char>::empty();
    assert(t.subrange(0, 0 + e.len() as int) =~= e);
}

} // verus!
