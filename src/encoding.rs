use base64::Engine;
use vstd::prelude::*;

verus! {

/// The character of a six-bit value in the standard base64 alphabet
/// (`A`-`Z`, `a`-`z`, `0`-`9`, `+`, `/`).
pub open spec fn base64_digit(v: int) -> char {
    seq![
        'A', 'B', 'C', 'D', 'E', 'F', 'G', 'H', 'I', 'J', 'K', 'L', 'M',
        'N', 'O', 'P', 'Q', 'R', 'S', 'T', 'U', 'V', 'W', 'X', 'Y', 'Z',
        'a', 'b', 'c', 'd', 'e', 'f', 'g', 'h', 'i', 'j', 'k', 'l', 'm',
        'n', 'o', 'p', 'q', 'r', 's', 't', 'u', 'v', 'w', 'x', 'y', 'z',
        '0', '1', '2', '3', '4', '5', '6', '7', '8', '9', '+', '/',
    ][v]
}

/// Standard base64 of some bytes, padded with `=`: each group of three bytes
/// gives four characters, a last group of one or two bytes gives two or three
/// characters and the padding.
pub open spec fn base64_of(data: Seq<u8>) -> Seq<char>
    decreases data.len(),
{
    if data.len() == 0 {
        seq![]
    } else if data.len() == 1 {
        seq![base64_digit((data[0] as int) / 4), base64_digit(((data[0] as int) % 4) * 16), '=', '=']
    } else if data.len() == 2 {
        seq![
            base64_digit((data[0] as int) / 4),
            base64_digit(((data[0] as int) % 4) * 16 + (data[1] as int) / 16),
            base64_digit(((data[1] as int) % 16) * 4),
            '=',
        ]
    } else {
        seq![
            base64_digit((data[0] as int) / 4),
            base64_digit(((data[0] as int) % 4) * 16 + (data[1] as int) / 16),
            base64_digit(((data[1] as int) % 16) * 4 + (data[2] as int) / 64),
            base64_digit((data[2] as int) % 64),
        ] + base64_of(data.skip(3))
    }
}

/// Relies on base64's `general_purpose::STANDARD.encode`: the padded standard
/// encoding of the bytes. It panics only when the encoded length overflows
/// `usize`, which no slice of at most `isize::MAX` bytes reaches.
#[verifier::external_body]
pub(crate) fn base64_encode_standard(data: &[u8]) -> (r: String)
    requires
        data@.len() <= isize::MAX,
    ensures
        r@ == base64_of(data@),
{
    base64::engine::general_purpose::STANDARD.encode(data)
}

} // verus!
