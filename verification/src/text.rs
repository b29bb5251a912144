//! Texts without regard to the case of their ASCII letters.

use vstd::prelude::*;
use vstd::string::*;

verus! {

/// The upper-case form of an ASCII letter; every other character is left as
/// it is.
pub open spec fn upper(c: char) -> char {
    if 'a' <= c && c <= 'z' {
        ((c as u8) - 32) as char
    } else {
        c
    }
}

/// The text with each of its ASCII letters in upper case.
pub open spec fn folded(s: Seq<char>) -> Seq<char> {
    Seq::new(s.len(), |i: int| upper(s[i]))
}

/// Whether two texts differ in nothing but the case of ASCII letters.
pub open spec fn same_ignoring_case(a: Seq<char>, b: Seq<char>) -> bool {
    folded(a) == folded(b)
}

/// `String::push` puts the character at the end of the string.
pub assume_specification[ String::push ](s: &mut String, c: char)
    ensures
        final(s)@ == old(s)@.push(c),
;

/// The upper-case form of an ASCII letter.
pub fn to_upper(c: char) -> (r: char)
    ensures
        r == upper(c),
{
    if 'a' <= c && c <= 'z' {
        ((c as u8) - 32) as char
    } else {
        c
    }
}

/// The characters of a text.
pub fn chars_of(s: &str) -> (r: Vec<char>)
    ensures
        r@ == s@,
{
    let n: usize = s.unicode_len();
    let mut out: Vec<char> = Vec::new();
    let mut i: usize = 0;
    while i < n
        invariant
            n == s@.len(),
            i <= n,
            out@ == s@.take(i as int),
        decreases n - i,
    {
        out.push(s.get_char(i));
        i += 1;
    }
    out
}

/// The text with each of its ASCII letters in upper case.
pub fn to_upper_case(s: &str) -> (r: String)
    ensures
        r@ == folded(s@),
{
    let n: usize = s.unicode_len();
    let mut out: String = String::new();
    let mut i: usize = 0;
    while i < n
        invariant
            n == s@.len(),
            i <= n,
            out@ =~= folded(s@).take(i as int),
        decreases n - i,
    {
        out.push(to_upper(s.get_char(i)));
        i += 1;
    }
    out
}

/// Whether the text is `word` but for the case of ASCII letters, for a word
/// that is in upper case already.
pub fn is_word(s: &str, word: &str) -> (r: bool)
    ensures
        r == (folded(s@) == word@),
{
    to_upper_case(s) == String::from_str(word)
}

/// Two texts differ in nothing but the case of ASCII letters exactly where
/// they are of one length and agree, place by place, once each character is
/// put in upper case.
pub proof fn law_same_ignoring_case(a: Seq<char>, b: Seq<char>)
    ensures
        same_ignoring_case(a, b) <==> (a.len() == b.len() && forall|i: int|
            0 <= i < a.len() ==> upper(#[trigger] a[i]) == upper(b[i])),
{
    if a.len() == b.len() && (forall|i: int| 0 <= i < a.len() ==> upper(#[trigger] a[i]) == upper(
        b[i],
    )) {
        assert(folded(a) =~= folded(b));
    }
    if same_ignoring_case(a, b) {
        assert(folded(a).len() == folded(b).len());
        assert forall|i: int| 0 <= i < a.len() implies upper(#[trigger] a[i]) == upper(b[i]) by {
            assert(folded(a)[i] == folded(b)[i]);
        }
    }
}

} // verus!
