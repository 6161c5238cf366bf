//! Content digests: SHA-256 through the `sha2` crate, lower-case hex through
//! the `hex` crate.

use vstd::prelude::*;
use sha2::Digest;

verus! {

/// The SHA-256 digest of a byte string, as `sha2::Sha256` computes it.
pub uninterp spec fn sha256_of(data: Seq<u8>) -> Seq<u8>;

/// `<sha2::Sha256 as Digest>::digest`: the 32-byte SHA-256 digest of `data`.
#[verifier::external_body]
pub(crate) fn sha256(data: &[u8]) -> (r: Vec<u8>)
    ensures
        r@ == sha256_of(data@),
        r@.len() == 32,
{
    sha2::Sha256::digest(data).to_vec()
}

/// The lower-case hex digit of a value below 16.
pub open spec fn hex_digit(n: int) -> char {
    if n < 10 {
        (('0' as u32) + (n as u32)) as char
    } else {
        (('a' as u32) + ((n - 10) as u32)) as char
    }
}

/// Each byte as two lower-case hex digits, high half first.
pub open spec fn hex_lower(b: Seq<u8>) -> Seq<char>
    decreases b.len(),
{
    if b.len() == 0 {
        Seq::empty()
    } else {
        hex_lower(b.drop_last()).push(hex_digit(b.last() as int / 16)).push(hex_digit(b.last() as int % 16))
    }
}

/// `hex::encode`: each byte as two lower-case hex digits, high half first.
#[verifier::external_body]
pub(crate) fn hex_encode(data: &[u8]) -> (r: String)
    ensures
        r@ == hex_lower(data@),
{
    hex::encode(data)
}

/// The lower-case hex digits of a number, without leading zeros (`0` for zero),
/// as `{:x}` prints it.
pub open spec fn hex_number(n: nat) -> Seq<char>
    decreases n,
{
    if n < 16 {
        seq![hex_digit(n as int)]
    } else {
        hex_number(n / 16).push(hex_digit((n % 16) as int))
    }
}

fn digit_char(d: u8) -> (c: char)
    requires
        d < 16,
    ensures
        c == hex_digit(d as int),
{
    if d < 10 {
        ((('0' as u8) + d) as char)
    } else {
        ((('a' as u8) + (d - 10)) as char)
    }
}

/// The `{:x}` text of a number.
pub fn hex_of_u128(n: u128) -> (r: Vec<char>)
    ensures
        r@ == hex_number(n as nat),
    decreases n,
{
    if n < 16 {
        let mut r = Vec::new();
        r.push(digit_char(n as u8));
        r
    } else {
        let mut r = hex_of_u128(n / 16);
        r.push(digit_char((n % 16) as u8));
        r
    }
}

/// The decimal digits of a number, without leading zeros (`0` for zero), as
/// `{}` prints it.
pub open spec fn decimal_number(n: nat) -> Seq<char>
    decreases n,
{
    if n < 10 {
        seq![hex_digit(n as int)]
    } else {
        decimal_number(n / 10).push(hex_digit((n % 10) as int))
    }
}

/// The `{}` text of a number.
pub fn decimal_of_u64(n: u64) -> (r: Vec<char>)
    ensures
        r@ == decimal_number(n as nat),
    decreases n,
{
    if n < 10 {
        let mut r = Vec::new();
        r.push(digit_char(n as u8));
        r
    } else {
        let mut r = decimal_of_u64(n / 10);
        r.push(digit_char((n % 10) as u8));
        r
    }
}

/// The `{}` text of a signed number.
pub open spec fn signed_decimal(n: int) -> Seq<char> {
    if n < 0 {
        seq!['-'] + decimal_number((-n) as nat)
    } else {
        decimal_number(n as nat)
    }
}

/// The `{}` text of an `i64`.
pub fn decimal_of_i64(n: i64) -> (r: Vec<char>)
    ensures
        r@ == signed_decimal(n as int),
{
    if n < 0 {
        let m: u64 = if n == i64::MIN {
            9223372036854775808u64
        } else {
            (-n) as u64
        };
        let d = decimal_of_u64(m);
        let mut r: Vec<char> = Vec::new();
        r.push('-');
        let mut i: usize = 0;
        while i < d.len()
            invariant
                i <= d@.len(),
                r@ == seq!['-'] + d@.take(i as int),
            decreases d@.len() - i,
        {
            r.push(d[i]);
            assert(d@.take(i + 1) =~= d@.take(i as int).push(d@[i as int]));
            i += 1;
        }
        assert(d@.take(i as int) =~= d@);
        r
    } else {
        decimal_of_u64(n as u64)
    }
}

} // verus!
