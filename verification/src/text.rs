//! Small string utilities shared by the path builders and the parsers.

use vstd::prelude::*;
use vstd::string::StringSliceAdditionalSpecFns;
use vstd::utf8::encode_utf8;

verus! {

broadcast use vstd::utf8::encode_utf8_decode_utf8;

/// Relies on `String::push`: appends exactly one character.
#[verifier::external_body]
pub fn string_push(s: &mut String, c: char)
    ensures
        final(s)@ == old(s)@ + seq![c],
{
    s.push(c);
}

/// Character-wise equality of two string slices.
pub fn str_eq(a: &str, b: &str) -> (r: bool)
    ensures
        r <==> a@ == b@,
{
    let ab = a.as_bytes();
    let bb = b.as_bytes();
    if ab.len() != bb.len() {
        proof {
            if a@ == b@ {
                assert(encode_utf8(a@) == encode_utf8(b@));
            }
        }
        return false;
    }
    let n = ab.len();
    let mut i: usize = 0;
    while i < n
        invariant
            n == ab@.len() == bb@.len(),
            ab@ == a.spec_bytes(),
            bb@ == b.spec_bytes(),
            0 <= i <= n,
            forall|j: int| 0 <= j < i ==> ab@[j] == bb@[j],
        decreases n - i,
    {
        if ab[i] != bb[i] {
            proof {
                if a@ == b@ {
                    assert(encode_utf8(a@) == encode_utf8(b@));
                }
            }
            return false;
        }
        i += 1;
    }
    proof {
        assert(a.spec_bytes() =~= b.spec_bytes());
        assert(vstd::utf8::decode_utf8(encode_utf8(a@)) == a@);
        assert(vstd::utf8::decode_utf8(encode_utf8(b@)) == b@);
    }
    true
}

/// The decimal digit character of a value below ten.
pub open spec fn digit_char(d: int) -> char {
    if d == 0 {
        '0'
    } else if d == 1 {
        '1'
    } else if d == 2 {
        '2'
    } else if d == 3 {
        '3'
    } else if d == 4 {
        '4'
    } else if d == 5 {
        '5'
    } else if d == 6 {
        '6'
    } else if d == 7 {
        '7'
    } else if d == 8 {
        '8'
    } else {
        '9'
    }
}

/// The decimal digits of `n`, without leading zeros (`0` gives `"0"`).
pub open spec fn spec_udigits(n: nat) -> Seq<char>
    decreases n,
{
    if n < 10 {
        seq![digit_char(n as int)]
    } else {
        spec_udigits(n / 10) + seq![digit_char((n % 10) as int)]
    }
}

/// The decimal digits of `n`, zero-padded on the left to at least `width`.
pub open spec fn spec_padded(n: nat, width: nat) -> Seq<char>
    decreases width,
{
    if width <= spec_udigits(n).len() {
        spec_udigits(n)
    } else {
        seq!['0'] + spec_padded(n, (width - 1) as nat)
    }
}

fn digit_char_of(d: u64) -> (c: char)
    requires
        d < 10,
    ensures
        c == digit_char(d as int),
{
    match d {
        0 => '0',
        1 => '1',
        2 => '2',
        3 => '3',
        4 => '4',
        5 => '5',
        6 => '6',
        7 => '7',
        8 => '8',
        _ => '9',
    }
}

/// Append the decimal digits of `n`.
pub fn push_udigits(s: &mut String, n: u64)
    ensures
        final(s)@ == old(s)@ + spec_udigits(n as nat),
    decreases n,
{
    if n < 10 {
        string_push(s, digit_char_of(n));
    } else {
        push_udigits(s, n / 10);
        string_push(s, digit_char_of(n % 10));
    }
}

/// Ten to the power `k`.
pub open spec fn spec_pow10(k: nat) -> nat
    decreases k,
{
    if k == 0 {
        1
    } else {
        10 * spec_pow10((k - 1) as nat)
    }
}

/// A value below ten to the `k` has at most `k` decimal digits.
proof fn lemma_udigits_len_upper(n: nat, k: nat)
    requires
        k >= 1,
        n < spec_pow10(k),
    ensures
        spec_udigits(n).len() <= k,
    decreases k,
{
    if n >= 10 {
        if k == 1 {
            assert(spec_pow10(1nat) == 10) by {
                reveal_with_fuel(spec_pow10, 3);
            }
        } else {
            assert(spec_pow10(k) == 10 * spec_pow10((k - 1) as nat));
            vstd::arithmetic::div_mod::lemma_multiply_divide_lt(
                n as int,
                spec_pow10((k - 1) as nat) as int,
                10,
            );
            lemma_udigits_len_upper(n / 10, (k - 1) as nat);
        }
    }
}

/// A `u64` has at most 20 decimal digits.
proof fn lemma_udigits_len_u64(n: u64)
    ensures
        1 <= spec_udigits(n as nat).len() <= 20,
{
    reveal_with_fuel(spec_pow10, 21);
    assert(spec_pow10(20) == 100_000_000_000_000_000_000);
    lemma_udigits_len_upper(n as nat, 20);
    if n >= 10 {
    }
}

/// Number of decimal digits of `n`.
fn count_digits(n: u64) -> (c: usize)
    ensures
        c == spec_udigits(n as nat).len(),
        1 <= c <= 20,
{
    proof {
        lemma_udigits_len_u64(n);
    }
    let mut x = n;
    let mut c: usize = 1;
    while x >= 10
        invariant
            1 <= c <= 20,
            spec_udigits(x as nat).len() + c - 1 == spec_udigits(n as nat).len(),
            spec_udigits(n as nat).len() <= 20,
        decreases x,
    {
        proof {
            lemma_udigits_pos((x / 10) as nat);
        }
        x = x / 10;
        c += 1;
    }
    c
}

/// Every value has at least one decimal digit.
proof fn lemma_udigits_pos(n: nat)
    ensures
        spec_udigits(n).len() >= 1,
    decreases n,
{
    if n >= 10 {
        lemma_udigits_pos(n / 10);
    }
}

/// Append the decimal digits of `n`, zero-padded to at least `width`.
pub fn push_padded(s: &mut String, n: u64, width: usize)
    ensures
        final(s)@ == old(s)@ + spec_padded(n as nat, width as nat),
    decreases width,
{
    let c = count_digits(n);
    if width <= c {
        push_udigits(s, n);
    } else {
        string_push(s, '0');
        push_padded(s, n, width - 1);
    }
}

} // verus!
