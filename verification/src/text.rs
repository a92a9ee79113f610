//! Text as sequences of characters.

use vstd::prelude::*;

verus! {

/// The views of a run of strings, in order.
pub open spec fn texts(strings: Seq<String>) -> Seq<Seq<char>> {
    Seq::new(strings.len(), |i: int| strings[i]@)
}

/// Whether every character of `text` is an ASCII character.
pub open spec fn is_ascii_text(text: Seq<char>) -> bool {
    forall|i: int| 0 <= i < text.len() ==> (#[trigger] text[i]) as u32 <= 127
}

/// The lowercase form of an ASCII character: the small letter for a capital
/// letter, and the character itself for any other.
pub open spec fn ascii_lower(c: char) -> char {
    if 'A' <= c && c <= 'Z' {
        ((c as u8) + 32) as char
    } else {
        c
    }
}

/// `text` with each character in its ASCII lowercase form.
pub open spec fn ascii_lowercase(text: Seq<char>) -> Seq<char> {
    Seq::new(text.len(), |i: int| ascii_lower(text[i]))
}

/// The lowercase form of `text` under the Unicode rules for lowercasing a
/// string.
pub uninterp spec fn lowercase_text(text: Seq<char>) -> Seq<char>;

/// The lowercase form of `text`: for ASCII text, each capital letter made
/// small; for any other text, what the Unicode rules give.
pub open spec fn lowered_text(text: Seq<char>) -> Seq<char> {
    if is_ascii_text(text) {
        ascii_lowercase(text)
    } else {
        lowercase_text(text)
    }
}

/// `str::to_lowercase` of the standard library, applied to the string that
/// `text` spells. Its result depends on the characters alone; the contract
/// gives that result its name and says that in ASCII text it makes the
/// capital letters small and leaves every other character as it is.
#[verifier::external_body]
pub(crate) fn lowercase(text: &Vec<char>) -> (lowered: String)
    ensures
        lowered@ == lowercase_text(text@),
        is_ascii_text(text@) ==> lowered@ == ascii_lowercase(text@),
{
    text.iter().collect::<String>().to_lowercase()
}

/// The lowercase form of `text`.
pub fn lower(text: &Vec<char>) -> (lowered: String)
    ensures
        lowered@ == lowered_text(text@),
{
    lowercase(text)
}

/// The characters of `s`, in order.
pub fn to_chars(s: &str) -> (chars: Vec<char>)
    ensures
        chars@ == s@,
{
    let mut chars: Vec<char> = Vec::new();
    for c in it: s.chars()
        invariant
            it.seq() == s@,
            chars@ == s@.take(it.index()),
    {
        chars.push(c);
        assert(s@.take(it.index() + 1) == s@.take(it.index()).push(s@[it.index()]));
    }
    assert(s@.take(s@.len() as int) == s@);
    chars
}

/// Whether two runs of characters are the same.
pub fn same_chars(a: &Vec<char>, b: &Vec<char>) -> (same: bool)
    ensures
        same == (a@ == b@),
{
    if a.len() != b.len() {
        return false;
    }
    let mut i: usize = 0;
    while i < a.len()
        invariant
            i <= a.len(),
            a.len() == b.len(),
            forall|k: int| 0 <= k < i ==> a@[k] == b@[k],
        decreases a.len() - i,
    {
        if a[i] != b[i] {
            return false;
        }
        i += 1;
    }
    assert(a@ =~= b@);
    true
}

} // verus!
