use vstd::prelude::*;
use vstd::string::StringExecFns;

verus! {

/// Equality of two string slices (std's `==` on `str`).
#[verifier::external_body]
pub fn str_eq(a: &str, b: &str) -> (r: bool)
    ensures
        r == (a@ == b@),
{
    a == b
}

/// `a` followed by `b`.
pub fn concat(a: String, b: &str) -> (r: String)
    ensures
        r@ == a@ + b@,
{
    a.concat(b)
}

/// Appends one character (std's `String::push`).
#[verifier::external_body]
pub fn push_char(s: &mut String, c: char)
    ensures
        final(s)@ == old(s)@.push(c),
{
    s.push(c)
}

/// An owned copy of a string slice.
pub fn owned(s: &str) -> (r: String)
    ensures
        r@ == s@,
{
    s.to_owned()
}

/// The characters of a byte string read as Latin-1 (each byte one character).
pub open spec fn latin1(b: Seq<u8>) -> Seq<char> {
    b.map_values(|c: u8| c as char)
}

/// The text std's `String::from_utf8_lossy` makes of a byte string.
pub uninterp spec fn lossy_text(b: Seq<u8>) -> Seq<char>;

/// Builds a `String` from bytes (std's `String::from_utf8_lossy`, which keeps valid UTF-8
/// text as it is and replaces invalid sequences).
#[verifier::external_body]
pub fn utf8_lossy(b: &[u8]) -> (r: String)
    ensures
        r@ == lossy_text(b@),
        vstd::utf8::valid_utf8(b@) ==> r@ == vstd::utf8::decode_utf8(b@),
        (forall|i: int| 0 <= i < b@.len() ==> b@[i] < 128) ==> r@ == latin1(b@),
{
    String::from_utf8_lossy(b).into_owned()
}

/// The bytes of a string (std's `str::as_bytes` on the string's contents).
pub fn string_bytes(s: &String) -> (b: &[u8])
    ensures
        b@ == vstd::utf8::encode_utf8(s@),
{
    s.as_str().as_bytes()
}

/// Upper-case hexadecimal digit of a nibble.
pub open spec fn hex_digit(n: u8) -> char {
    if n < 10 {
        (48 + n) as char
    } else {
        (55 + n) as char
    }
}

/// Two upper-case hexadecimal digits of a byte.
pub open spec fn hex2(b: u8) -> Seq<char> {
    seq![hex_digit(b / 16), hex_digit(b % 16)]
}

/// Upper-case hexadecimal digit of a nibble.
pub fn hex_digit_char(n: u8) -> (c: char)
    requires
        n < 16,
    ensures
        c == hex_digit(n),
{
    if n < 10 {
        (48 + n) as char
    } else {
        (55 + n) as char
    }
}

/// Appends the two hexadecimal digits of `b` to `s`.
pub fn push_hex2(s: &mut String, b: u8)
    ensures
        final(s)@ == old(s)@ + hex2(b),
{
    push_char(s, hex_digit_char(b / 16));
    push_char(s, hex_digit_char(b % 16));
}

/// Decimal digits of a natural number, most significant first, without leading zeros
/// (a single `0` for zero).
pub open spec fn decimal(n: nat) -> Seq<char>
    decreases n,
{
    if n < 10 {
        seq![(48 + n) as char]
    } else {
        decimal(n / 10).push((48 + (n % 10)) as char)
    }
}

/// Appends the decimal digits of `n` to `s`.
pub fn push_decimal_wide(s: &mut String, n: u64)
    ensures
        final(s)@ == old(s)@ + decimal(n as nat),
    decreases n,
{
    if n >= 10 {
        push_decimal_wide(s, n / 10);
    }
    let d: u8 = (n % 10) as u8;
    push_char(s, (48 + d) as char);
    proof {
        if n >= 10 {
            assert(old(s)@ + decimal(n as nat) =~= old(s)@ + decimal((n / 10) as nat) + seq![
                (48 + (n % 10)) as char,
            ]);
        } else {
            assert(old(s)@ + decimal(n as nat) =~= old(s)@ + seq![(48 + n) as char]);
        }
    }
}

/// Appends the decimal digits of `n` to `s`.
pub fn push_decimal(s: &mut String, n: u32)
    ensures
        final(s)@ == old(s)@ + decimal(n as nat),
    decreases n,
{
    if n >= 10 {
        push_decimal(s, n / 10);
    }
    let d: u8 = (n % 10) as u8;
    push_char(s, (48 + d) as char);
    proof {
        if n >= 10 {
            assert(old(s)@ + decimal(n as nat) =~= old(s)@ + decimal((n / 10) as nat) + seq![
                (48 + (n % 10)) as char,
            ]);
        } else {
            assert(old(s)@ + decimal(n as nat) =~= old(s)@.push((48 + n) as char));
        }
    }
}

} // verus!
