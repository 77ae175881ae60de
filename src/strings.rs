use crate::encoding::{base64_encode_standard, base64_of};
use vstd::prelude::*;
use vstd::utf8::{decode_utf8, valid_utf8};

verus! {

/// Payloads of this many bytes or more are not base64-encoded in a failure text.
pub const MAX_ENCODED_SIZE: usize = 2097152;

/// `s` without its trailing NUL characters.
pub open spec fn trim_nul(s: Seq<char>) -> Seq<char>
    decreases s.len(),
{
    if s.len() > 0 && s.last() == '\0' {
        trim_nul(s.drop_last())
    } else {
        s
    }
}

pub open spec fn digit_char(d: int) -> char {
    seq!['0', '1', '2', '3', '4', '5', '6', '7', '8', '9'][d]
}

/// The decimal digits of `n`.
pub open spec fn decimal_of(n: nat) -> Seq<char>
    decreases n,
{
    if n < 10 {
        seq![digit_char(n as int)]
    } else {
        decimal_of(n / 10).push(digit_char((n % 10) as int))
    }
}

/// The text of a payload that is valid UTF-8, trailing NULs removed.
pub open spec fn utf8_text_of(data: Seq<u8>) -> Seq<char> {
    trim_nul(decode_utf8(data))
}

/// What [`extract_utf8_string`] returns.
pub open spec fn extracted_string(data: Seq<u8>) -> Seq<char> {
    if valid_utf8(data) {
        utf8_text_of(data)
    } else if data.len() < MAX_ENCODED_SIZE {
        "Failed to get UTF8 string: "@ + base64_of(data)
    } else {
        "Failed to get UTF8 string: "@ + "Binary data size larger than 2MB, size: "@ + decimal_of(
            data.len(),
        )
    }
}

/// Relies on `String::from_utf8`: it succeeds exactly on valid UTF-8 and then
/// holds the characters that the bytes encode.
#[verifier::external_body]
fn string_from_utf8(data: &[u8]) -> (r: Option<String>)
    ensures
        r is Some <==> valid_utf8(data@),
        r matches Some(s) ==> s@ == decode_utf8(data@),
{
    String::from_utf8(data.to_vec()).ok()
}

/// `s` without trailing NUL characters.
fn trim_end_nul(s: &str) -> (r: String)
    ensures
        r@ == trim_nul(s@),
{
    let mut k: usize = s.unicode_len();
    assert(s@.take(k as int) =~= s@);
    while k > 0 && s.get_char(k - 1) == '\0'
        invariant
            k <= s@.len(),
            trim_nul(s@.take(k as int)) == trim_nul(s@),
        decreases k,
    {
        assert(s@.take(k as int).drop_last() =~= s@.take(k - 1));
        k = k - 1;
    }
    String::from_str(s.substring_char(0, k))
}

/// The text of `data` when it is valid UTF-8 (trailing NULs removed).
pub fn utf8_text(data: &[u8]) -> (r: Option<String>)
    ensures
        r is Some <==> valid_utf8(data@),
        r matches Some(s) ==> s@ == utf8_text_of(data@),
{
    match string_from_utf8(data) {
        Some(s) => Some(trim_end_nul(s.as_str())),
        None => None,
    }
}

fn digit_str(d: usize) -> (r: &'static str)
    requires
        d < 10,
    ensures
        r@ == seq![digit_char(d as int)],
{
    proof {
        reveal_strlit("0");
        reveal_strlit("1");
        reveal_strlit("2");
        reveal_strlit("3");
        reveal_strlit("4");
        reveal_strlit("5");
        reveal_strlit("6");
        reveal_strlit("7");
        reveal_strlit("8");
        reveal_strlit("9");
    }
    let r = if d == 0 {
        "0"
    } else if d == 1 {
        "1"
    } else if d == 2 {
        "2"
    } else if d == 3 {
        "3"
    } else if d == 4 {
        "4"
    } else if d == 5 {
        "5"
    } else if d == 6 {
        "6"
    } else if d == 7 {
        "7"
    } else if d == 8 {
        "8"
    } else {
        "9"
    };
    assert(r@ =~= seq![digit_char(d as int)]);
    r
}

/// Appends the decimal digits of `n`.
fn push_decimal(out: &mut String, n: usize)
    ensures
        final(out)@ == old(out)@ + decimal_of(n as nat),
    decreases n,
{
    if n >= 10 {
        push_decimal(out, n / 10);
    }
    out.append(digit_str(n % 10));
    assert(final(out)@ =~= old(out)@ + decimal_of(n as nat));
}

/// Gets a UTF-8 string from bytes, without trailing NULs. Bytes that are not
/// valid UTF-8 give a failure text that holds their base64 encoding, or their
/// size when they are too large for that.
pub fn extract_utf8_string(data: &[u8]) -> (r: String)
    ensures
        r@ == extracted_string(data@),
{
    match utf8_text(data) {
        Some(text) => text,
        None => {
            let mut out = String::from_str("Failed to get UTF8 string: ");
            if data.len() < MAX_ENCODED_SIZE {
                let encoded = base64_encode_standard(data);
                out.append(encoded.as_str());
            } else {
                out.append("Binary data size larger than 2MB, size: ");
                push_decimal(&mut out, data.len());
            }
            out
        },
    }
}

} // verus!
