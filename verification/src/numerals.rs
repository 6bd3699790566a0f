//! Decimal and binary numerals.
//!
//! The assembler renders every machine word as a fixed-width binary digit
//! string, and the translator renders indices and counters in decimal.
//! This module defines both renderings as sequence functions, their value
//! functions, and verified executable counterparts, together with the
//! round-trip and injectivity facts the rest of the library builds on.

use vstd::prelude::*;
use vstd::string::*;

verus! {

// ---------------------------------------------------------------------------
// Digits
// ---------------------------------------------------------------------------

pub open spec fn is_digit(c: char) -> bool {
    48 <= c as u32 <= 57
}

pub open spec fn digit_val(c: char) -> nat {
    (c as u32 - 48) as nat
}

pub open spec fn digit_char(d: nat) -> char {
    if d == 0 {
        '0'
    } else if d == 1 {
        '1'
    } else if d == 2 {
        '2'
    } else if d == 3 {
        '3'
    } else if d == 4 {
        '4'
    } else if d == 5 {
        '5'
    } else if d == 6 {
        '6'
    } else if d == 7 {
        '7'
    } else if d == 8 {
        '8'
    } else {
        '9'
    }
}

pub open spec fn all_digits(s: Seq<char>) -> bool {
    forall|i: int| 0 <= i < s.len() ==> is_digit(s[i])
}

// ---------------------------------------------------------------------------
// Decimal
// ---------------------------------------------------------------------------

/// The decimal digit string of `n`, most significant digit first, without
/// leading zeros (`0` itself is rendered as one digit).
pub open spec fn dec_str(n: nat) -> Seq<char>
    decreases n,
{
    if n < 10 {
        seq![digit_char(n)]
    } else {
        dec_str(n / 10).push(digit_char(n % 10))
    }
}

/// The numeric value of a decimal digit string.
pub open spec fn dec_val(s: Seq<char>) -> nat
    decreases s.len(),
{
    if s.len() == 0 {
        0
    } else {
        10 * dec_val(s.drop_last()) + digit_val(s.last())
    }
}

/// The value a token denotes as an unsigned 16-bit integer: an optional
/// leading `+`, then at least one digit, with a value of at most 65535.
pub open spec fn parse_u16(s: Seq<char>) -> Option<u16> {
    let d = if s.len() > 0 && s[0] == '+' {
        s.drop_first()
    } else {
        s
    };
    if d.len() > 0 && all_digits(d) && dec_val(d) <= 65535 {
        Some(dec_val(d) as u16)
    } else {
        None
    }
}

pub proof fn lemma_dec_str_len(n: nat)
    ensures
        dec_str(n).len() >= 1,
    decreases n,
{
    if n >= 10 {
        lemma_dec_str_len(n / 10);
    }
}

/// Every numeral is a digit string.
pub proof fn lemma_dec_str_digits(n: nat)
    ensures
        all_digits(dec_str(n)),
    decreases n,
{
    if n < 10 {
        assert(is_digit(digit_char(n)));
    } else {
        lemma_dec_str_digits(n / 10);
        assert(is_digit(digit_char(n % 10)));
        assert(forall|i: int|
            0 <= i < dec_str(n).len() ==> is_digit(
                #[trigger] dec_str(n)[i],
            )) by {
            assert(forall|i: int|
                0 <= i < dec_str(n / 10).len() ==> dec_str(n)[i] == dec_str(n / 10)[i]);
        }
    }
}

/// Distinct numbers have distinct decimal renderings.
pub proof fn lemma_dec_str_injective(a: nat, b: nat)
    requires
        a != b,
    ensures
        dec_str(a) != dec_str(b),
    decreases a + b,
{
    assert(forall|d1: nat, d2: nat|
        d1 < 10 && d2 < 10 && d1 != d2 ==> digit_char(d1) != digit_char(d2));
    if a < 10 && b < 10 {
        assert(dec_str(a)[0] == digit_char(a));
        assert(dec_str(b)[0] == digit_char(b));
    } else if a < 10 {
        lemma_dec_str_len(b / 10);
        assert(dec_str(b).len() >= 2);
    } else if b < 10 {
        lemma_dec_str_len(a / 10);
        assert(dec_str(a).len() >= 2);
    } else {
        if dec_str(a) == dec_str(b) {
            assert(dec_str(a).last() == dec_str(b).last());
            assert(digit_char(a % 10) == digit_char(b % 10));
            assert(a % 10 == b % 10);
            assert(dec_str(a).drop_last() =~= dec_str(a / 10));
            assert(dec_str(b).drop_last() =~= dec_str(b / 10));
            if a / 10 == b / 10 {
                assert(a == 10 * (a / 10) + a % 10);
                assert(b == 10 * (b / 10) + b % 10);
                assert(false);
            } else {
                lemma_dec_str_injective(a / 10, b / 10);
                assert(false);
            }
        }
    }
}

/// Reading a digit back gives its value.
pub proof fn lemma_digit_roundtrip(d: nat)
    requires
        d < 10,
    ensures
        digit_val(digit_char(d)) == d,
{
    assert('0' as u32 == 48 && '1' as u32 == 49 && '2' as u32 == 50 && '3' as u32 == 51
        && '4' as u32 == 52 && '5' as u32 == 53 && '6' as u32 == 54 && '7' as u32 == 55
        && '8' as u32 == 56 && '9' as u32 == 57);
}

/// Reading back a rendered numeral gives the number.
pub proof fn lemma_dec_str_val(n: nat)
    ensures
        dec_val(dec_str(n)) == n,
    decreases n,
{
    if n < 10 {
        assert(dec_str(n) =~= seq![digit_char(n)]);
        assert(dec_str(n).drop_last() =~= Seq::<char>::empty());
        assert(dec_str(n).last() == digit_char(n));
        assert(dec_val(Seq::<char>::empty()) == 0);
        lemma_digit_roundtrip(n);
        assert(digit_val(digit_char(n)) == n);
        assert(dec_val(dec_str(n)) == 10 * 0 + n);
    } else {
        lemma_dec_str_val(n / 10);
        assert(dec_str(n).drop_last() =~= dec_str(n / 10));
        lemma_digit_roundtrip(n % 10);
        assert(digit_val(digit_char(n % 10)) == n % 10);
        assert(n == 10 * (n / 10) + n % 10);
    }
}

/// The value of a digit string grows as the string is extended.
pub proof fn lemma_dec_val_prefix(s: Seq<char>, j: int)
    requires
        0 <= j <= s.len(),
    ensures
        dec_val(s.take(j)) <= dec_val(s),
    decreases s.len() - j,
{
    if j == s.len() {
        assert(s.take(j) =~= s);
    } else {
        assert(s.take(j + 1).drop_last() =~= s.take(j));
        assert(dec_val(s.take(j + 1)) == 10 * dec_val(s.take(j)) + digit_val(s.take(j + 1).last()));
        lemma_dec_val_prefix(s, j + 1);
    }
}

/// A single decimal digit, as a string slice.
fn digit_slice(d: u64) -> (r: &'static str)
    requires
        d < 10,
    ensures
        r@ == seq![digit_char(d as nat)],
{
    if d == 0 {
        proof {
            reveal_strlit("0");
            assert("0"@ =~= seq!['0']);
        }
        "0"
    } else if d == 1 {
        proof {
            reveal_strlit("1");
            assert("1"@ =~= seq!['1']);
        }
        "1"
    } else if d == 2 {
        proof {
            reveal_strlit("2");
            assert("2"@ =~= seq!['2']);
        }
        "2"
    } else if d == 3 {
        proof {
            reveal_strlit("3");
            assert("3"@ =~= seq!['3']);
        }
        "3"
    } else if d == 4 {
        proof {
            reveal_strlit("4");
            assert("4"@ =~= seq!['4']);
        }
        "4"
    } else if d == 5 {
        proof {
            reveal_strlit("5");
            assert("5"@ =~= seq!['5']);
        }
        "5"
    } else if d == 6 {
        proof {
            reveal_strlit("6");
            assert("6"@ =~= seq!['6']);
        }
        "6"
    } else if d == 7 {
        proof {
            reveal_strlit("7");
            assert("7"@ =~= seq!['7']);
        }
        "7"
    } else if d == 8 {
        proof {
            reveal_strlit("8");
            assert("8"@ =~= seq!['8']);
        }
        "8"
    } else {
        proof {
            reveal_strlit("9");
            assert("9"@ =~= seq!['9']);
        }
        "9"
    }
}

/// The decimal rendering of `n`.
pub fn dec_string(n: u64) -> (r: String)
    ensures
        r@ == dec_str(n as nat),
    decreases n,
{
    if n < 10 {
        String::from_str(digit_slice(n))
    } else {
        let mut s = dec_string(n / 10);
        s.append(digit_slice(n % 10));
        proof {
            assert(dec_str((n / 10) as nat) + seq![digit_char((n % 10) as nat)] =~= dec_str(
                (n / 10) as nat,
            ).push(digit_char((n % 10) as nat)));
        }
        s
    }
}

/// Reads a token as an unsigned 16-bit integer.
pub fn parse_u16_str(t: &str) -> (r: Option<u16>)
    ensures
        r == parse_u16(t@),
{
    let n = t.unicode_len();
    let mut start: usize = 0;
    if n > 0 && t.get_char(0) == '+' {
        start = 1;
    }
    let ghost d = if t@.len() > 0 && t@[0] == '+' {
        t@.drop_first()
    } else {
        t@
    };
    proof {
        assert(d =~= t@.skip(start as int));
    }
    if start >= n {
        return None;
    }
    let mut v: u32 = 0;
    let mut i = start;
    proof {
        assert(d.take(0) =~= Seq::<char>::empty());
    }
    while i < n
        invariant
            start <= i <= n,
            n == t@.len(),
            start < n,
            d == t@.skip(start as int),
            d == (if t@.len() > 0 && t@[0] == '+' {
                t@.drop_first()
            } else {
                t@
            }),
            forall|k: int| 0 <= k < i - start ==> is_digit(d[k]),
            v == dec_val(d.take(i - start)),
            v <= 65535,
        decreases n - i,
    {
        let c = t.get_char(i);
        let u = c as u32;
        proof {
            assert(d[i - start] == t@[i as int]);
        }
        if u < 48 || u > 57 {
            assert(!is_digit(d[i - start]));
            assert(!all_digits(d));
            return None;
        }
        proof {
            assert(d.take(i - start + 1).drop_last() =~= d.take(i - start));
            assert(d.take(i - start + 1).last() == d[i - start]);
            assert(d[i - start] == t@[i as int]);
        }
        v = v * 10 + (u - 48);
        if v > 65535 {
            proof {
                lemma_dec_val_prefix(d, i - start + 1);
            }
            return None;
        }
        i = i + 1;
    }
    proof {
        assert(d.take(n - start) =~= d);
    }
    Some(v as u16)
}

// ---------------------------------------------------------------------------
// Binary
// ---------------------------------------------------------------------------

/// The `k`-digit binary rendering of `v`, most significant digit first.
pub open spec fn bin_digits(v: nat, k: nat) -> Seq<char>
    decreases k,
{
    if k == 0 {
        Seq::empty()
    } else {
        bin_digits(v / 2, (k - 1) as nat).push(
            if v % 2 == 1 {
                '1'
            } else {
                '0'
            },
        )
    }
}

/// The 16-digit binary rendering of a machine word.
pub open spec fn bin16(w: u16) -> Seq<char> {
    bin_digits(w as nat, 16)
}

/// The numeric value of a binary digit string.
pub open spec fn bin_val(s: Seq<char>) -> nat
    decreases s.len(),
{
    if s.len() == 0 {
        0
    } else {
        2 * bin_val(s.drop_last()) + (if s.last() == '1' {
            1nat
        } else {
            0nat
        })
    }
}

pub open spec fn pow2(k: nat) -> nat
    decreases k,
{
    if k == 0 {
        1
    } else {
        2 * pow2((k - 1) as nat)
    }
}

pub proof fn lemma_bin_digits_len(v: nat, k: nat)
    ensures
        bin_digits(v, k).len() == k,
    decreases k,
{
    if k > 0 {
        lemma_bin_digits_len(v / 2, (k - 1) as nat);
    }
}

/// Reading back a binary rendering gives the value, modulo the digit width.
pub proof fn lemma_bin_digits_val(v: nat, k: nat)
    ensures
        bin_val(bin_digits(v, k)) == v % pow2(k),
    decreases k,
{
    if k == 0 {
        assert(v % 1 == 0);
    } else {
        lemma_bin_digits_val(v / 2, (k - 1) as nat);
        let s = bin_digits(v, k);
        lemma_bin_digits_len(v / 2, (k - 1) as nat);
        assert(s.drop_last() =~= bin_digits(v / 2, (k - 1) as nat));
        assert(s.last() == if v % 2 == 1 {
            '1'
        } else {
            '0'
        });
        let q = pow2((k - 1) as nat);
        assert(q > 0) by {
            lemma_pow2_pos((k - 1) as nat);
        }
        assert(bin_val(s) == 2 * ((v / 2) % q) + v % 2);
        vstd::arithmetic::div_mod::lemma_mod_breakdown(v as int, 2, q as int);
        assert(v % (2 * q) == 2 * ((v / 2) % q) + v % 2);
    }
}

pub proof fn lemma_pow2_pos(k: nat)
    ensures
        pow2(k) >= 1,
    decreases k,
{
    if k > 0 {
        lemma_pow2_pos((k - 1) as nat);
    }
}

pub proof fn lemma_pow2_16()
    ensures
        pow2(15) == 32768,
        pow2(16) == 65536,
{
    assert(pow2(0) == 1);
    assert(pow2(1) == 2);
    assert(pow2(2) == 4);
    assert(pow2(3) == 8);
    assert(pow2(4) == 16);
    assert(pow2(5) == 32);
    assert(pow2(6) == 64);
    assert(pow2(7) == 128);
    assert(pow2(8) == 256);
    assert(pow2(9) == 512);
    assert(pow2(10) == 1024);
    assert(pow2(11) == 2048);
    assert(pow2(12) == 4096);
    assert(pow2(13) == 8192);
    assert(pow2(14) == 16384);
    assert(pow2(15) == 32768);
    assert(pow2(16) == 65536);
}

/// The 16-digit rendering of a machine word is faithful: sixteen binary
/// digits whose value is the word itself, with a zero leading digit for
/// every word in the 15-bit address space.
pub proof fn lemma_bin16_value(w: u16)
    ensures
        bin16(w).len() == 16,
        bin_val(bin16(w)) == w,
        forall|i: int| 0 <= i < 16 ==> bin16(w)[i] == '0' || bin16(w)[i] == '1',
        w <= 32767 ==> bin16(w)[0] == '0',
{
    lemma_bin_digits_len(w as nat, 16);
    lemma_bin_digits_val(w as nat, 16);
    lemma_pow2_16();
    assert((w as nat) % 65536 == w as nat);
    lemma_bin_digits_bits(w as nat, 16);
    if w <= 32767 {
        lemma_bin16_leading(w);
    }
}

/// Every position of a binary rendering holds one of the two digits.
pub proof fn lemma_bin_digits_bits(v: nat, k: nat)
    ensures
        forall|i: int|
            0 <= i < bin_digits(v, k).len() ==> bin_digits(v, k)[i] == '0' || bin_digits(v, k)[i]
                == '1',
    decreases k,
{
    if k > 0 {
        lemma_bin_digits_bits(v / 2, (k - 1) as nat);
        lemma_bin_digits_len(v / 2, (k - 1) as nat);
        assert(forall|i: int|
            0 <= i < bin_digits(v / 2, (k - 1) as nat).len() ==> bin_digits(v, k)[i] == bin_digits(
                v / 2,
                (k - 1) as nat,
            )[i]);
    }
}

proof fn lemma_bin16_leading(w: u16)
    requires
        w <= 32767,
    ensures
        bin16(w)[0] == '0',
{
    lemma_pow2_16();
    lemma_bin_digits_leading(w as nat, 16, 32768);
}

/// When `v` is below half the digit width's range, the leading digit is `0`.
proof fn lemma_bin_digits_leading(v: nat, k: nat, half: nat)
    requires
        k >= 1,
        half == pow2((k - 1) as nat),
        v < half,
    ensures
        bin_digits(v, k)[0] == '0',
    decreases k,
{
    if k == 1 {
        assert(pow2(0) == 1);
        assert(v == 0);
        assert(v % 2 == 0);
        assert(bin_digits(v, 0) =~= Seq::<char>::empty());
        assert(bin_digits(v, 1) == bin_digits(v / 2, 0).push('0'));
        assert(bin_digits(v / 2, 0) =~= Seq::<char>::empty());
        assert(bin_digits(v, 1) =~= seq!['0']);
    } else {
        let q = pow2((k - 2) as nat);
        assert(half == 2 * q);
        assert(v / 2 < q) by (nonlinear_arith)
            requires
                v < 2 * q,
                q >= 1,
        ;
        lemma_pow2_pos((k - 2) as nat);
        lemma_bin_digits_leading(v / 2, (k - 1) as nat, q);
        lemma_bin_digits_len(v / 2, (k - 1) as nat);
        assert(bin_digits(v, k)[0] == bin_digits(v / 2, (k - 1) as nat)[0]);
    }
}

/// A single binary digit, as a string slice.
fn bit_slice(b: u16) -> (r: &'static str)
    ensures
        r@ == seq![
            if b == 1 {
                '1'
            } else {
                '0'
            },
        ],
{
    if b == 1 {
        proof {
            reveal_strlit("1");
            assert("1"@ =~= seq!['1']);
        }
        "1"
    } else {
        proof {
            reveal_strlit("0");
            assert("0"@ =~= seq!['0']);
        }
        "0"
    }
}

fn bin_rec(v: u16, k: u8) -> (r: String)
    ensures
        r@ == bin_digits(v as nat, k as nat),
    decreases k,
{
    if k == 0 {
        String::new()
    } else {
        let mut s = bin_rec(v / 2, k - 1);
        s.append(bit_slice(v % 2));
        proof {
            assert(((v as nat) / 2) == ((v / 2) as nat));
            assert(bin_digits((v / 2) as nat, (k - 1) as nat) + seq![
                if v % 2 == 1 {
                    '1'
                } else {
                    '0'
                },
            ] =~= bin_digits(v as nat, k as nat));
        }
        s
    }
}

/// The 16-digit binary rendering of `w`.
pub fn bin16_string(w: u16) -> (r: String)
    ensures
        r@ == bin16(w),
{
    bin_rec(w, 16)
}

} // verus!
