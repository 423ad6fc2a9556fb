//! Building texts: concatenation and decimal numbers.
use vstd::prelude::*;
use vstd::string::StringExecFns;

verus! {

/// The three texts one after the other.
pub(crate) fn concat3(a: &str, b: &str, c: &str) -> (res: String)
    ensures
        res@ == a@ + b@ + c@,
{
    let mut s = a.to_owned();
    s.append(b);
    s.append(c);
    s
}

/// The two texts one after the other.
pub(crate) fn concat2(a: &str, b: &str) -> (res: String)
    ensures
        res@ == a@ + b@,
{
    let mut s = a.to_owned();
    s.append(b);
    s
}

/// The decimal digits of `n`, most significant first, without leading zeros
/// (`"0"` for zero).
pub open spec fn decimal_text(n: nat) -> Seq<char>
    decreases n,
{
    if n < 10 {
        seq![(n + '0' as nat) as char]
    } else {
        decimal_text(n / 10).push(((n % 10) + '0' as nat) as char)
    }
}

/// The one-character text of the decimal digit `d`.
fn digit_text(d: u64) -> (res: &'static str)
    requires
        d < 10,
    ensures
        res@ == seq![(d + '0' as nat) as char],
{
    proof {
        reveal_strlit("0");
        reveal_strlit("1");
        reveal_strlit("2");
        reveal_strlit("3");
        reveal_strlit("4");
        reveal_strlit("5");
        reveal_strlit("6");
        reveal_strlit("7");
        reveal_strlit("8");
        reveal_strlit("9");
    }
    match d {
        0 => "0",
        1 => "1",
        2 => "2",
        3 => "3",
        4 => "4",
        5 => "5",
        6 => "6",
        7 => "7",
        8 => "8",
        _ => "9",
    }
}

/// The decimal digits of `n`, as `format!("{}", n)` writes them.
pub(crate) fn decimal_string(n: u64) -> (res: String)
    ensures
        res@ == decimal_text(n as nat),
    decreases n,
{
    if n < 10 {
        digit_text(n).to_owned()
    } else {
        let mut s = decimal_string(n / 10);
        let d = digit_text(n % 10);
        s.append(d);
        assert(s@ =~= decimal_text(n as nat));
        s
    }
}

/// The decimal text of a signed number: a minus sign before the digits of
/// a negative one.
pub open spec fn signed_decimal_text(n: int) -> Seq<char> {
    if n < 0 { seq!['-'] + decimal_text((-n) as nat) } else { decimal_text(n as nat) }
}

/// The decimal text of a signed number, as `format!("{}", n)` writes it.
pub(crate) fn signed_decimal_string(n: i64) -> (res: String)
    ensures
        res@ == signed_decimal_text(n as int),
{
    if n < 0 {
        let magnitude: u64 = if n == i64::MIN { 9223372036854775808u64 } else { (-n) as u64 };
        let digits = decimal_string(magnitude);
        proof { reveal_strlit("-"); }
        let res = concat2("-", digits.as_str());
        assert(magnitude as nat == (-n) as nat);
        assert(res@ =~= seq!['-'] + decimal_text((-n) as nat));
        res
    } else {
        decimal_string(n as u64)
    }
}

/// The characters of a byte string read one character per byte.
pub open spec fn ascii_chars(bytes: Seq<u8>) -> Seq<char> {
    bytes.map_values(|b: u8| b as char)
}

/// `String::from_utf8_lossy` on ASCII bytes: ASCII is valid UTF-8 and each
/// byte is the character with that code, so nothing is replaced.
#[verifier::external_body]
pub(crate) fn text_of_ascii(bytes: &[u8]) -> (res: String)
    requires
        forall|i: int| 0 <= i < bytes@.len() ==> bytes@[i] < 128,
    ensures
        res@ == ascii_chars(bytes@),
{
    String::from_utf8_lossy(bytes).into_owned()
}

} // verus!
