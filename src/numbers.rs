//! Hexadecimal rendering and the parsing of numeric operands.
use vstd::prelude::*;

verus! {

/// The largest address, and the largest word: six hexadecimal digits.
pub const WORD_LIMIT: u32 = 0xFF_FFFF;

/// The character of hexadecimal digit `d` (`0` to `9`, then `A` to `F`).
pub open spec fn digit_char(d: int) -> char {
    if d < 10 {
        ((d + 48) as u8) as char
    } else {
        ((d + 55) as u8) as char
    }
}

/// `v` as `n` uppercase hexadecimal digits, most significant first,
/// keeping only the low `n` digits.
pub open spec fn hex_fixed(v: nat, n: nat) -> Seq<char>
    decreases n,
{
    if n == 0 {
        Seq::empty()
    } else {
        hex_fixed(v / 16, (n - 1) as nat).push(digit_char((v % 16) as int))
    }
}

/// `hex_fixed` gives exactly `n` digits, each a hexadecimal digit.
pub proof fn lemma_hex_fixed_len(v: nat, n: nat)
    ensures
        hex_fixed(v, n).len() == n,
    decreases n,
{
    if n > 0 {
        lemma_hex_fixed_len(v / 16, (n - 1) as nat);
    }
}

fn digit(d: u32) -> (c: char)
    requires
        d < 16,
    ensures
        c == digit_char(d as int),
{
    if d < 10 {
        ((d + 48) as u8) as char
    } else {
        ((d + 55) as u8) as char
    }
}

/// `v` as `n` uppercase hexadecimal digits (the low `n` digits of `v`).
pub fn hex_width(v: u32, n: usize) -> (r: Vec<char>)
    ensures
        r@ == hex_fixed(v as nat, n as nat),
    decreases n,
{
    if n == 0 {
        Vec::new()
    } else {
        let mut r = hex_width(v / 16, n - 1);
        r.push(digit(v % 16));
        r
    }
}

/// The value of digit character `c` (`0`-`9`, `A`-`F`, `a`-`f`), or 16
/// where `c` is no hexadecimal digit.
pub open spec fn digit_value(c: char) -> int {
    let k = c as int;
    if 48 <= k <= 57 {
        k - 48
    } else if 65 <= k <= 70 {
        k - 55
    } else if 97 <= k <= 102 {
        k - 87
    } else {
        16
    }
}

/// Whether every character of `s` is a digit in `base`.
pub open spec fn all_digits(s: Seq<char>, base: int) -> bool {
    forall|i: int| 0 <= i < s.len() ==> digit_value(#[trigger] s[i]) < base
}

/// The value of the digit string `s` in `base`.
pub open spec fn digits_value(s: Seq<char>, base: int) -> int
    decreases s.len(),
{
    if s.len() == 0 {
        0
    } else {
        digits_value(s.drop_last(), base) * base + digit_value(s.last())
    }
}

/// The number that `s` writes in `base`: a non-empty digit string whose value
/// is at most `WORD_LIMIT`.
pub open spec fn number_of(s: Seq<char>, base: int) -> Option<u32> {
    if s.len() > 0 && all_digits(s, base) && 0 <= digits_value(s, base) <= WORD_LIMIT {
        Some(digits_value(s, base) as u32)
    } else {
        None
    }
}

proof fn lemma_prefix_value_bounded(s: Seq<char>, base: int, k: int)
    requires
        2 <= base <= 16,
        all_digits(s, base),
        0 <= k <= s.len(),
    ensures
        0 <= digits_value(s.take(k), base) <= digits_value(s, base),
    decreases s.len(),
{
    if s.len() > 0 {
        let p = s.drop_last();
        assert(all_digits(p, base)) by {
            assert forall|i: int| 0 <= i < p.len() implies digit_value(#[trigger] p[i]) < base by {
                assert(p[i] == s[i]);
            }
        }
        assert(digit_value(s[s.len() - 1]) < base);
        if k == s.len() {
            assert(s.take(k) =~= s);
            lemma_prefix_value_bounded(p, base, 0);
        } else {
            assert(s.take(k) =~= p.take(k));
            lemma_prefix_value_bounded(p, base, k);
        }
        lemma_prefix_value_bounded(p, base, p.len() as int);
        assert(p.take(p.len() as int) =~= p);
        let v = digits_value(p, base);
        assert(v * base >= v) by (nonlinear_arith)
            requires
                v >= 0,
                base >= 2,
        ;
    } else {
        assert(s.take(k) =~= s);
    }
}

pub fn char_digit(c: char) -> (d: u32)
    ensures
        d == digit_value(c),
{
    let k = c as u32;
    if 48 <= k && k <= 57 {
        k - 48
    } else if 65 <= k && k <= 70 {
        k - 55
    } else if 97 <= k && k <= 102 {
        k - 87
    } else {
        16
    }
}

/// Reads `s` as a number in `base`: `None` unless it is a non-empty string of
/// digits whose value fits in six hexadecimal digits.
pub fn parse_number(s: &[char], base: u32) -> (r: Option<u32>)
    requires
        2 <= base <= 16,
    ensures
        r == number_of(s@, base as int),
        r matches Some(v) ==> v <= WORD_LIMIT,
{
    if s.len() == 0 {
        return None;
    }
    let mut acc: u32 = 0;
    let mut i: usize = 0;
    while i < s.len()
        invariant
            2 <= base <= 16,
            i <= s@.len(),
            all_digits(s@.take(i as int), base as int),
            acc as int == digits_value(s@.take(i as int), base as int),
            acc <= WORD_LIMIT,
        decreases s@.len() - i,
    {
        let d = char_digit(s[i]);
        let ghost t = s@.take(i + 1);
        assert(t.drop_last() =~= s@.take(i as int));
        assert(t.last() == s@[i as int]);
        if d >= base {
            assert(!all_digits(s@, base as int)) by {
                assert(digit_value(s@[i as int]) >= base);
            }
            return None;
        }
        assert(all_digits(t, base as int)) by {
            assert forall|j: int| 0 <= j < t.len() implies digit_value(#[trigger] t[j]) < base by {
                if j < i {
                    assert(t[j] == s@.take(i as int)[j]);
                }
            }
        }
        assert(acc as u64 * base as u64 <= 0xFF_FFFF * 16) by (nonlinear_arith)
            requires
                acc <= 0xFF_FFFF,
                base <= 16,
        ;
        let next: u64 = acc as u64 * base as u64 + d as u64;
        assert(next as int == digits_value(t, base as int));
        if next > WORD_LIMIT as u64 {
            proof {
                if all_digits(s@, base as int) {
                    lemma_prefix_value_bounded(s@, base as int, i + 1);
                }
            }
            return None;
        }
        acc = next as u32;
        i += 1;
    }
    assert(s@.take(i as int) =~= s@);
    Some(acc)
}

} // verus!
