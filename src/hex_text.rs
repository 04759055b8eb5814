//! Hex text of byte strings, through the `hex` crate.

use vstd::prelude::*;

verus! {

#[verifier::external_type_specification]
#[verifier::external_body]
pub struct ExFromHexError(hex::FromHexError);

/// The lowercase ASCII hex digit for `n`, below sixteen.
pub open spec fn hex_digit(n: int) -> u8 {
    if n < 10 {
        (48 + n) as u8
    } else {
        (87 + n) as u8
    }
}

/// Two lowercase ASCII hex digits for each byte of `b`, high half first.
pub open spec fn hex_ascii(b: Seq<u8>) -> Seq<u8>
    decreases b.len(),
{
    if b.len() == 0 {
        Seq::empty()
    } else {
        hex_ascii(b.drop_last()) + seq![hex_digit(b.last() as int / 16), hex_digit(b.last() as int % 16)]
    }
}

/// The hex text of `b`, as characters.
pub open spec fn hex_text(b: Seq<u8>) -> Seq<char> {
    hex_ascii(b).map_values(|c: u8| c as char)
}

/// What an ASCII hex digit of either case stands for.
pub open spec fn hex_digit_value(c: u8) -> Option<int> {
    if 48 <= c <= 57 {
        Some(c - 48)
    } else if 97 <= c <= 102 {
        Some(c - 87)
    } else if 65 <= c <= 70 {
        Some(c - 55)
    } else {
        None
    }
}

/// The bytes that ASCII hex text stands for: none where its length is odd
/// or one of its characters is no hex digit.
pub open spec fn hex_decoded(s: Seq<u8>) -> Option<Seq<u8>>
    decreases s.len(),
{
    if s.len() == 0 {
        Some(Seq::empty())
    } else if s.len() == 1 {
        None
    } else {
        match (
            hex_decoded(s.take(s.len() - 2)),
            hex_digit_value(s[s.len() - 2]),
            hex_digit_value(s[s.len() - 1]),
        ) {
            (Some(front), Some(h), Some(l)) => Some(front.push((h * 16 + l) as u8)),
            _ => None,
        }
    }
}

/// Relies on `hex::encode`: two lowercase hex digits for each byte, high
/// half first.
#[verifier::external_body]
pub(crate) fn hex_encode(b: &[u8]) -> (r: String)
    ensures
        r@ == hex_text(b@),
{
    hex::encode(b)
}

/// Relies on `hex::decode`: an error for odd length or a character that is
/// no hex digit (either case is accepted), else one byte per digit pair.
#[verifier::external_body]
pub(crate) fn hex_decode(s: &[u8]) -> (r: Result<Vec<u8>, hex::FromHexError>)
    ensures
        match r {
            Ok(v) => hex_decoded(s@) == Some(v@),
            Err(_) => hex_decoded(s@) is None,
        },
{
    hex::decode(s)
}

/// Reading back the hex text of `b` gives `b`.
pub proof fn law_hex_round_trip(b: Seq<u8>)
    ensures
        hex_decoded(hex_ascii(b)) == Some(b),
    decreases b.len(),
{
    if b.len() > 0 {
        let s = hex_ascii(b);
        law_hex_round_trip(b.drop_last());
        assert(s.take(s.len() - 2) =~= hex_ascii(b.drop_last()));
        assert(b.drop_last().push(b.last()) =~= b);
    }
}

} // verus!
