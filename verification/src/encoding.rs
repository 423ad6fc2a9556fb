//! Text encodings of binary data: hexadecimal, unpadded URL-safe Base64 and
//! hexadecimal numbers.
use vstd::prelude::*;
use base64::Engine;
use crate::bytes::chars_of;

verus! {

/// The value of a hexadecimal digit (either case), if `c` is one.
pub open spec fn hex_digit(c: char) -> Option<nat> {
    if '0' <= c && c <= '9' {
        Some((c as int - '0' as int) as nat)
    } else if 'a' <= c && c <= 'f' {
        Some((c as int - 'a' as int + 10) as nat)
    } else if 'A' <= c && c <= 'F' {
        Some((c as int - 'A' as int + 10) as nat)
    } else {
        None
    }
}

/// Every character of `cs` is a hexadecimal digit.
pub open spec fn all_hex_digits(cs: Seq<char>) -> bool {
    forall|i: int| 0 <= i < cs.len() ==> #[trigger] hex_digit(cs[i]) is Some
}

/// The bytes that a hexadecimal text denotes: two digits per byte, the first
/// one the high nibble. `None` for an odd length or a non-digit character.
pub open spec fn hex_text_decoding(cs: Seq<char>) -> Option<Seq<u8>> {
    if cs.len() % 2 != 0 || !all_hex_digits(cs) {
        None
    } else {
        Some(Seq::new(cs.len() / 2, |i: int|
            (hex_digit(cs[2 * i]).unwrap() * 16 + hex_digit(cs[2 * i + 1]).unwrap()) as u8))
    }
}

/// `hex::decode`: the bytes that a hexadecimal text denotes, as the crate's
/// source shows (even length, digits of either case, high nibble first).
#[verifier::external_body]
pub(crate) fn hex_decode(s: &str) -> (res: Option<Vec<u8>>)
    ensures
        match res {
            Some(v) => hex_text_decoding(s@) == Some(v@),
            None => hex_text_decoding(s@) is None,
        },
{
    hex::decode(s).ok()
}

/// What `base64`'s `URL_SAFE_NO_PAD` engine decodes `text` to (`None` when it
/// rejects it).
pub uninterp spec fn base64url_decoding(text: Seq<char>) -> Option<Seq<u8>>;

/// What `base64`'s `URL_SAFE_NO_PAD` engine encodes `data` to.
pub uninterp spec fn base64url_encoding(data: Seq<u8>) -> Seq<char>;

/// `URL_SAFE_NO_PAD.decode`: the contract names the result and says nothing
/// more of it.
#[verifier::external_body]
pub(crate) fn base64url_decode(text: &str) -> (res: Option<Vec<u8>>)
    ensures
        match res {
            Some(v) => base64url_decoding(text@) == Some(v@),
            None => base64url_decoding(text@) is None,
        },
{
    base64::engine::general_purpose::URL_SAFE_NO_PAD.decode(text).ok()
}

/// `URL_SAFE_NO_PAD.encode`: the contract names the result and states its
/// length, which the crate's `encoded_len` fixes without padding: four
/// characters for each three bytes, and two or three for a remainder of one
/// or two bytes. The crate panics when that length overflows `usize`, which
/// the precondition rules out.
#[verifier::external_body]
pub(crate) fn base64url_encode(data: &[u8]) -> (res: String)
    requires
        data@.len() / 3 * 4 + 3 <= usize::MAX,
    ensures
        res@ == base64url_encoding(data@),
        res@.len() == data@.len() / 3 * 4 + if data@.len() % 3 == 0 { 0 } else { data@.len() % 3 + 1 },
{
    base64::engine::general_purpose::URL_SAFE_NO_PAD.encode(data)
}

/// The value of a string of hexadecimal digits.
pub open spec fn hex_value(ds: Seq<char>) -> nat
    decreases ds.len(),
{
    if ds.len() == 0 {
        0
    } else {
        hex_value(ds.drop_last()) * 16 + hex_digit(ds.last()).unwrap()
    }
}

/// The digits of a number text: everything after an optional leading `+`.
pub open spec fn number_digits(cs: Seq<char>) -> Seq<char> {
    if cs.len() > 0 && cs[0] == '+' { cs.drop_first() } else { cs }
}

/// What `u64::from_str_radix(text, 16)` accepts: an optional `+`, then one
/// or more hexadecimal digits whose value fits in 64 bits.
pub open spec fn hex_number(cs: Seq<char>) -> Option<u64> {
    let ds = number_digits(cs);
    if ds.len() == 0 || !all_hex_digits(ds) || hex_value(ds) > u64::MAX {
        None
    } else {
        Some(hex_value(ds) as u64)
    }
}

proof fn lemma_hex_value_monotone(ds: Seq<char>, i: int)
    requires
        0 <= i <= ds.len(),
        all_hex_digits(ds),
    ensures
        hex_value(ds.take(i)) <= hex_value(ds),
    decreases ds.len() - i,
{
    if i < ds.len() {
        lemma_hex_value_monotone(ds, i + 1);
        assert(ds.take(i + 1).drop_last() =~= ds.take(i));
    } else {
        assert(ds.take(i) =~= ds);
    }
}

/// The value of a hexadecimal digit character, if it is one.
fn hex_digit_exec(c: char) -> (res: Option<u64>)
    ensures
        match res {
            Some(v) => hex_digit(c) == Some(v as nat) && v < 16,
            None => hex_digit(c) is None,
        },
{
    if '0' <= c && c <= '9' {
        Some((c as u32 - '0' as u32) as u64)
    } else if 'a' <= c && c <= 'f' {
        Some((c as u32 - 'a' as u32 + 10) as u64)
    } else if 'A' <= c && c <= 'F' {
        Some((c as u32 - 'A' as u32 + 10) as u64)
    } else {
        None
    }
}

/// Reads a hexadecimal number the way `u64::from_str_radix(s, 16)` does.
pub fn parse_hex_u64(s: &str) -> (res: Option<u64>)
    ensures
        res == hex_number(s@),
{
    let cs = chars_of(s);
    let start: usize = if cs.len() > 0 && cs[0] == '+' { 1 } else { 0 };
    let ghost ds = number_digits(cs@);
    assert(ds =~= cs@.skip(start as int));
    if start == cs.len() {
        return None;
    }
    let mut i: usize = start;
    let mut value: u64 = 0;
    let mut overflow = false;
    while i < cs.len()
        invariant
            cs@ == s@,
            ds == cs@.skip(start as int),
            ds == number_digits(cs@),
            start <= i <= cs@.len(),
            all_hex_digits(ds.take(i - start)),
            !overflow ==> value == hex_value(ds.take(i - start)),
            overflow ==> hex_value(ds.take(i - start)) > u64::MAX,
        decreases cs@.len() - i,
    {
        let d = match hex_digit_exec(cs[i]) {
            Some(d) => d,
            None => {
                let ghost k: int = i - start;
                assert(ds[k] == cs@[i as int]);
                assert(hex_digit(ds[k]) is None);
                assert(!all_hex_digits(ds));
                return None;
            },
        };
        proof {
            let k = i - start;
            assert(ds.take(k + 1).drop_last() =~= ds.take(k));
            assert(ds.take(k + 1).last() == cs@[i as int]);
            assert forall|j: int| 0 <= j < k + 1 implies #[trigger] hex_digit(ds.take(k + 1)[j]) is Some by {
                if j < k {
                    assert(ds.take(k + 1)[j] == ds.take(k)[j]);
                }
            }
        }
        if !overflow {
            if value > (u64::MAX - d) / 16 {
                overflow = true;
            } else {
                value = value * 16 + d;
            }
        }
        i = i + 1;
    }
    assert(ds.take(cs@.len() - start) =~= ds);
    if overflow {
        None
    } else {
        Some(value)
    }
}

} // verus!
