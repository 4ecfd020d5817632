//! Hexadecimal text, as the wire carries hashes and raw transactions.

use vstd::prelude::*;

verus! {

/// The sixteen digits of lower-case hexadecimal text.
pub open spec fn hex_digits() -> Seq<char> {
    seq!['0', '1', '2', '3', '4', '5', '6', '7', '8', '9', 'a', 'b', 'c', 'd', 'e', 'f']
}

/// The lower-case hexadecimal text of `bytes`: two digits for each byte,
/// the high half first.
pub open spec fn hex_of(bytes: Seq<u8>) -> Seq<char> {
    Seq::new(
        2 * bytes.len(),
        |i: int|
            if i % 2 == 0 {
                hex_digits()[bytes[i / 2] as int / 16]
            } else {
                hex_digits()[bytes[i / 2] as int % 16]
            },
    )
}

/// The value of a hexadecimal digit of either case.
pub open spec fn digit_value(c: char) -> Option<int> {
    if '0' <= c <= '9' {
        Some(c as int - '0' as int)
    } else if 'a' <= c <= 'f' {
        Some(c as int - 'a' as int + 10)
    } else if 'A' <= c <= 'F' {
        Some(c as int - 'A' as int + 10)
    } else {
        None
    }
}

/// The bytes that hexadecimal text spells: `None` where the text has an odd
/// number of characters or a character that is no digit.
pub open spec fn unhex(text: Seq<char>) -> Option<Seq<u8>> {
    if text.len() % 2 == 0 && forall|i: int| 0 <= i < text.len() ==> digit_value(text[i]) is Some {
        Some(
            Seq::new(
                text.len() / 2,
                |i: int|
                    (16 * digit_value(text[2 * i])->Some_0 + digit_value(
                        text[2 * i + 1],
                    )->Some_0) as u8,
            ),
        )
    } else {
        None
    }
}

/// `hex::encode`: lower-case digits, two for each byte.
#[verifier::external_body]
pub(crate) fn hex_encode(bytes: &[u8]) -> (text: String)
    ensures
        text@ == hex_of(bytes@),
{
    hex::encode(bytes)
}

/// `hex::decode`: digits of either case, two for each byte; an odd length or
/// any other character is an error.
#[verifier::external_body]
pub(crate) fn hex_decode(text: &str) -> (bytes: Option<Vec<u8>>)
    ensures
        match bytes {
            Some(b) => unhex(text@) == Some(b@),
            None => unhex(text@) is None,
        },
{
    hex::decode(text).ok()
}

/// The bytes of `bytes` in the opposite order.
pub fn reversed(bytes: &[u8]) -> (out: Vec<u8>)
    ensures
        out@ == bytes@.reverse(),
{
    let mut out: Vec<u8> = Vec::new();
    let mut i: usize = bytes.len();
    while i > 0
        invariant
            i <= bytes@.len(),
            out@.len() == bytes@.len() - i,
            forall|k: int| 0 <= k < out@.len() ==> out@[k] == bytes@[bytes@.len() - 1 - k],
        decreases i,
    {
        i = i - 1;
        out.push(bytes[i]);
    }
    assert(out@ =~= bytes@.reverse());
    out
}

/// The hexadecimal text of a hash as the wire shows it: the bytes in the
/// opposite order to that in which they are kept.
pub fn be_hex(hash: &[u8]) -> (text: String)
    ensures
        text@ == hex_of(hash@.reverse()),
{
    let flipped = reversed(hash);
    hex_encode(flipped.as_slice())
}

} // verus!
