use vstd::prelude::*;
use vstd::utf8::{decode_utf8, valid_utf8};

verus! {

/// Each byte read as the character of the same scalar value, as the
/// best-effort fallback rebuilds text. Multi-byte sequences come out wrong
/// but the text stays usable, which is the point.
pub open spec fn bytewise_chars(bytes: Seq<u8>) -> Seq<char> {
    bytes.map_values(|b: u8| b as char)
}

/// Relies on String::from_utf8: returns the decoded string exactly when the
/// bytes are valid UTF-8, and refuses them otherwise.
#[verifier::external_body]
fn utf8_to_string(bytes: &Vec<u8>) -> (r: Option<String>)
    ensures
        r is Some <==> valid_utf8(bytes@),
        r matches Some(s) ==> s@ == decode_utf8(bytes@),
{
    match String::from_utf8(bytes.clone()) {
        Ok(s) => Some(s),
        Err(_) => None,
    }
}

/// Relies on String::push: appends exactly one character.
#[verifier::external_body]
fn push_char(s: &mut String, c: char)
    ensures
        final(s)@ == old(s)@.push(c),
{
    s.push(c)
}

/// Rebuilds text from raw bytes one byte at a time, mapping each byte to the
/// character of its scalar value.
pub fn decode_lossy(bytes: &Vec<u8>) -> (r: String)
    ensures
        r@ == bytewise_chars(bytes@),
{
    let n = bytes.len();
    let mut s = String::new();
    let mut i: usize = 0;
    while i < n
        invariant
            n == bytes@.len(),
            i <= n,
            s@ == bytewise_chars(bytes@.take(i as int)),
        decreases n - i,
    {
        let c = bytes[i] as char;
        push_char(&mut s, c);
        proof {
            assert(bytewise_chars(bytes@.take(i + 1)) =~= bytewise_chars(
                bytes@.take(i as int),
            ).push(bytes@[i as int] as char));
        }
        i += 1;
    }
    proof {
        assert(bytes@.take(n as int) =~= bytes@);
    }
    s
}

/// The two-path decode of the wire bytes: strict UTF-8 when it holds, else
/// the byte-wise rebuild. The fallback absorbs servers that send stray
/// non-UTF-8 bytes inside otherwise usable documents.
pub fn decode_text(bytes: &Vec<u8>) -> (r: String)
    ensures
        valid_utf8(bytes@) ==> r@ == decode_utf8(bytes@),
        !valid_utf8(bytes@) ==> r@ == bytewise_chars(bytes@),
{
    match utf8_to_string(bytes) {
        Some(s) => s,
        None => decode_lossy(bytes),
    }
}

} // verus!
