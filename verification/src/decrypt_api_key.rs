//! What a decrypted key file holds.
//!
//! Decrypting is done elsewhere, by `gpg`. Here its output is read: the key
//! is what it printed, as text and without line breaks; where it printed
//! nothing, what it wrote to its error stream says why.

use vstd::prelude::*;
use vstd::string::*;
use vstd::utf8::{decode_utf8, valid_utf8};

verus! {

/// Why no key was had.
#[derive(Debug)]
pub enum KeyError {
    /// The output is not UTF-8.
    NotText,
    /// Nothing was decrypted; the text is what was written to the error
    /// stream, without line breaks.
    Refused(String),
}

/// The text without its line feeds.
pub open spec fn without_new_lines(s: Seq<char>) -> Seq<char>
    decreases s.len(),
{
    if s.len() == 0 {
        Seq::empty()
    } else if s.last() == '\n' {
        without_new_lines(s.drop_last())
    } else {
        without_new_lines(s.drop_last()).push(s.last())
    }
}

/// The text that bytes encode in UTF-8, without its line feeds; nothing
/// where they are not UTF-8.
pub open spec fn line_of(bytes: Seq<u8>) -> Option<Seq<char>> {
    if valid_utf8(bytes) {
        Some(without_new_lines(decode_utf8(bytes)))
    } else {
        None
    }
}

/// The key that the output of a decryption holds: what was printed, unless
/// nothing was; then the error stream says why there is none.
pub open spec fn key_of(stdout: Seq<u8>, stderr: Seq<u8>) -> Result<Seq<char>, Option<Seq<char>>> {
    if stdout.len() == 0 {
        match line_of(stderr) {
            Some(reason) => Err(Some(reason)),
            None => Err(None),
        }
    } else {
        match line_of(stdout) {
            Some(key) => Ok(key),
            None => Err(None),
        }
    }
}

/// `std::str::from_utf8`: the string slice that the bytes are, where they
/// are valid UTF-8, and nothing where they are not.
#[verifier::external_body]
fn utf8_text(bytes: &[u8]) -> (r: Option<&str>)
    ensures
        r is Some <==> valid_utf8(bytes@),
        r is Some ==> r->Some_0@ == decode_utf8(bytes@),
{
    std::str::from_utf8(bytes).ok()
}

/// The text without its line feeds.
pub fn strip_new_lines_from_str(string: String) -> (r: String)
    ensures
        r@ == without_new_lines(string@),
{
    let s: &str = string.as_str();
    let n: usize = s.unicode_len();
    let mut out: String = String::new();
    let mut i: usize = 0;
    assert(s@.take(0) =~= Seq::<char>::empty());
    while i < n
        invariant
            n == s@.len(),
            i <= n,
            out@ == without_new_lines(s@.take(i as int)),
        decreases n - i,
    {
        let c: char = s.get_char(i);
        proof {
            assert(s@.take(i + 1).drop_last() =~= s@.take(i as int));
            assert(s@.take(i + 1).last() == c);
        }
        if c != '\n' {
            out.push(c);
        }
        i += 1;
    }
    assert(s@.take(n as int) =~= s@);
    out
}

/// The text that the bytes encode in UTF-8.
pub fn convert_bytes_to_string(bytes: &[u8]) -> (r: Result<String, KeyError>)
    ensures
        valid_utf8(bytes@) ==> r is Ok && r->Ok_0@ == decode_utf8(bytes@),
        !valid_utf8(bytes@) ==> r is Err && r->Err_0 is NotText,
{
    match utf8_text(bytes) {
        Some(text) => Ok(text.to_owned()),
        None => Err(KeyError::NotText),
    }
}

/// The text that the bytes encode in UTF-8, without its line feeds.
pub fn convert_bytes_to_string_with_no_new_lines(bytes: &[u8]) -> (r: Result<String, KeyError>)
    ensures
        match line_of(bytes@) {
            Some(line) => r is Ok && r->Ok_0@ == line,
            None => r is Err && r->Err_0 is NotText,
        },
{
    match convert_bytes_to_string(bytes) {
        Ok(text) => Ok(strip_new_lines_from_str(text)),
        Err(error) => Err(error),
    }
}

/// The key that the output of a decryption holds.
pub fn decrypted_key(stdout: &[u8], stderr: &[u8]) -> (r: Result<String, KeyError>)
    ensures
        match key_of(stdout@, stderr@) {
            Ok(key) => r is Ok && r->Ok_0@ == key,
            Err(Some(reason)) => r is Err && r->Err_0 is Refused && r->Err_0->Refused_0@ == reason,
            Err(None) => r is Err && r->Err_0 is NotText,
        },
{
    if stdout.len() == 0 {
        match convert_bytes_to_string_with_no_new_lines(stderr) {
            Ok(reason) => Err(KeyError::Refused(reason)),
            Err(error) => Err(error),
        }
    } else {
        convert_bytes_to_string_with_no_new_lines(stdout)
    }
}

} // verus!
