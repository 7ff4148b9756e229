//! Small string helpers with exact contracts: decimal rendering of
//! integers and building `String`s character by character.
use vstd::prelude::*;

verus! {

/// The decimal digit character for `d` (0..=9).
pub open spec fn digit_char(d: nat) -> char {
    ((48 + d) as u8) as char
}

/// Decimal digits of a natural number, most significant first, no leading zeros.
pub open spec fn nat_digits(n: nat) -> Seq<char>
    decreases n,
{
    if n < 10 {
        seq![digit_char(n)]
    } else {
        nat_digits(n / 10).push(digit_char(n % 10))
    }
}

/// The text of an `i64` as Rust's `Display` writes it.
pub open spec fn decimal(v: i64) -> Seq<char> {
    if v < 0 {
        seq!['-'] + nat_digits((-(v as int)) as nat)
    } else {
        nat_digits(v as nat)
    }
}

/// Relies on `String::push`: appends one character at the end.
#[verifier::external_body]
pub(crate) fn push_char(s: &mut String, c: char)
    ensures
        final(s)@ == old(s)@.push(c),
{
    s.push(c)
}

/// Relies on `String::push_str`: appends the given slice at the end.
#[verifier::external_body]
pub(crate) fn push_str(s: &mut String, t: &str)
    ensures
        final(s)@ == old(s)@ + t@,
{
    s.push_str(t)
}

/// A fresh `String` holding the characters of `t`.
pub(crate) fn string_of(t: &str) -> (r: String)
    ensures
        r@ == t@,
{
    let mut s = String::new();
    push_str(&mut s, t);
    proof {
        assert(s@ =~= t@);
    }
    s
}

/// Appends the digits of `n` to `out`.
fn push_nat_digits(out: &mut String, n: u64)
    ensures
        final(out)@ == old(out)@ + nat_digits(n as nat),
    decreases n,
{
    if n < 10 {
        push_char(out, (48u8 + (n as u8)) as char);
        assert(old(out)@ + nat_digits(n as nat) =~= old(out)@.push(digit_char(n as nat)));
    } else {
        push_nat_digits(out, n / 10);
        push_char(out, (48u8 + ((n % 10) as u8)) as char);
        assert(nat_digits(n as nat) == nat_digits((n / 10) as nat).push(
            digit_char((n % 10) as nat),
        ));
        assert(final(out)@ =~= old(out)@ + nat_digits(n as nat)) by {
            assert(old(out)@ + nat_digits((n / 10) as nat).push(digit_char((n % 10) as nat))
                =~= (old(out)@ + nat_digits((n / 10) as nat)).push(
                digit_char((n % 10) as nat),
            ));
        }
    }
}

/// Appends the decimal text of `v` to `out`.
pub(crate) fn push_decimal(out: &mut String, v: i64)
    ensures
        final(out)@ == old(out)@ + decimal(v),
{
    if v < 0 {
        push_char(out, '-');
        let mag: u64 = if v == i64::MIN {
            9223372036854775808u64
        } else {
            (-v) as u64
        };
        push_nat_digits(out, mag);
        assert(final(out)@ =~= old(out)@ + decimal(v));
    } else {
        push_nat_digits(out, v as u64);
    }
}

/// The decimal text of `v`.
pub(crate) fn decimal_string(v: i64) -> (r: String)
    ensures
        r@ == decimal(v),
{
    let mut s = String::new();
    push_decimal(&mut s, v);
    assert(s@ =~= decimal(v));
    s
}

/// Whether two strings hold the same characters.
pub(crate) fn same_text(a: &str, b: &str) -> (r: bool)
    ensures
        r == (a@ == b@),
{
    let n = a.unicode_len();
    if n != b.unicode_len() {
        return false;
    }
    let mut i: usize = 0;
    while i < n
        invariant
            n == a@.len() == b@.len(),
            i <= n,
            forall|j: int| 0 <= j < i ==> a@[j] == b@[j],
        decreases n - i,
    {
        if a.get_char(i) != b.get_char(i) {
            return false;
        }
        i = i + 1;
    }
    assert(a@ =~= b@);
    true
}

} // verus!
