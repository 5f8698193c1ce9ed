//! Decimal verse numbers: parsing a range bound from its decimal string, and
//! rendering an integer as the canonical decimal key used to look verses up
//! during range expansion.

use vstd::prelude::*;
use vstd::string::*;

verus! {

/// `c` is one of the ten ASCII decimal digits.
pub open spec fn is_digit(c: char) -> bool {
    48 <= c as u32 && c as u32 <= 57
}

/// Numeric value of a digit character; zero for any other character.
pub open spec fn digit_val(c: char) -> nat {
    if is_digit(c) {
        (c as u32 - 48) as nat
    } else {
        0
    }
}

/// `s` is a non-empty run of decimal digits.
pub open spec fn all_digits(s: Seq<char>) -> bool {
    s.len() > 0 && forall|i: int| 0 <= i < s.len() ==> is_digit(s[i])
}

/// Value of a digit string read most-significant first.
pub open spec fn digits_val(s: Seq<char>) -> nat
    decreases s.len(),
{
    if s.len() == 0 {
        0
    } else {
        digits_val(s.drop_last()) * 10 + digit_val(s.last())
    }
}

/// What parsing a range bound yields: the numeric value of a decimal digit
/// string (with an optional leading `+`), and `0` whenever the string is not
/// such a string or its value does not fit in 64 bits. The silent fall-back
/// to zero mirrors the documented behaviour of range parsing: a malformed
/// bound is not an error, it simply denotes verse zero.
pub open spec fn parse_or_zero(s: Seq<char>) -> nat {
    if s.len() >= 2 && s[0] == '+' {
        digits_or_zero(s.skip(1))
    } else {
        digits_or_zero(s)
    }
}

/// Value of a plain digit string, or `0` if it is not one or overflows.
pub open spec fn digits_or_zero(s: Seq<char>) -> nat {
    if all_digits(s) && digits_val(s) <= u64::MAX {
        digits_val(s)
    } else {
        0
    }
}

/// Extending a digit string never decreases its value.
proof fn lemma_digits_val_prefix_le(s: Seq<char>, i: int)
    requires
        0 <= i <= s.len(),
    ensures
        digits_val(s.take(i)) <= digits_val(s),
    decreases s.len(),
{
    if i == s.len() {
        assert(s.take(i) =~= s);
    } else {
        lemma_digits_val_prefix_le(s.drop_last(), i);
        assert(s.drop_last().take(i) =~= s.take(i));
    }
}

/// Parse a verse-range bound. Returns the value of the decimal string and
/// `0` for anything that is not a decimal string that fits in 64 bits.
pub fn parse_bound(s: &str) -> (r: u64)
    ensures
        r as nat == parse_or_zero(s@),
{
    let n = s.unicode_len();
    let start: usize = if n >= 2 && s.get_char(0) == '+' {
        1
    } else {
        0
    };
    let ghost t: Seq<char> = if start == 1 {
        s@.skip(1)
    } else {
        s@
    };
    proof {
        assert(parse_or_zero(s@) == digits_or_zero(t));
    }
    if n == start {
        proof {
            assert(!all_digits(t));
        }
        return 0;
    }
    let mut acc: u64 = 0;
    let mut i: usize = start;
    while i < n
        invariant
            start <= i <= n,
            n == s@.len(),
            start == 0 || start == 1,
            t == (if start == 1 {
                s@.skip(1)
            } else {
                s@
            }),
            parse_or_zero(s@) == digits_or_zero(t),
            forall|j: int| 0 <= j < i - start ==> is_digit(t[j]),
            acc as nat == digits_val(t.take(i - start)),
        decreases n - i,
    {
        let c = s.get_char(i);
        proof {
            assert(t[i - start] == s@[i as int]);
        }
        if !(c >= '0' && c <= '9') {
            proof {
                assert(!is_digit(t[i - start]));
                assert(!all_digits(t));
            }
            return 0;
        }
        let d: u64 = (c as u32 - 48) as u64;
        let step = match acc.checked_mul(10) {
            Some(m) => m.checked_add(d),
            None => None,
        };
        proof {
            assert(t.take(i - start + 1).drop_last() =~= t.take(i - start));
            assert(t.take(i - start + 1).last() == t[i - start]);
            assert(digits_val(t.take(i - start + 1)) == acc as nat * 10 + d as nat);
        }
        match step {
            Some(v) => {
                acc = v;
            },
            None => {
                proof {
                    lemma_digits_val_prefix_le(t, i - start + 1);
                    assert(digits_val(t) > u64::MAX);
                }
                return 0;
            },
        }
        i = i + 1;
    }
    proof {
        assert(t.take(n - start) =~= t);
        assert(all_digits(t));
    }
    acc
}

/// The canonical decimal rendering of a number is all digits and reads back
/// to exactly that number.
pub proof fn lemma_spec_dec_val(n: nat)
    ensures
        digits_val(spec_dec(n)) == n,
        all_digits(spec_dec(n)),
    decreases n,
{
    if n < 10 {
        assert(spec_dec(n).drop_last() =~= Seq::<char>::empty());
        assert(digits_val(Seq::<char>::empty()) == 0);
        assert(spec_dec(n).last() == digit_char(n));
        assert(digit_val(digit_char(n)) == n);
    } else {
        lemma_spec_dec_val(n / 10);
        assert(spec_dec(n).drop_last() =~= spec_dec(n / 10));
        assert(spec_dec(n).last() == digit_char(n % 10));
        assert(digit_val(digit_char(n % 10)) == n % 10);
        assert forall|i: int| 0 <= i < spec_dec(n).len() implies is_digit(spec_dec(n)[i]) by {
            if i < spec_dec(n / 10).len() {
                assert(spec_dec(n)[i] == spec_dec(n / 10)[i]);
            } else {
                assert(spec_dec(n)[i] == digit_char(n % 10));
            }
        }
    }
}

/// Canonical decimal rendering of `n`: no sign, no leading zero (except for
/// `"0"` itself).
pub open spec fn spec_dec(n: nat) -> Seq<char>
    decreases n,
{
    if n < 10 {
        seq![digit_char(n)]
    } else {
        spec_dec(n / 10).push(digit_char(n % 10))
    }
}

/// The digit character for a value below ten; `'0'` otherwise.
pub open spec fn digit_char(d: nat) -> char {
    if d == 0 {
        '0'
    } else if d == 1 {
        '1'
    } else if d == 2 {
        '2'
    } else if d == 3 {
        '3'
    } else if d == 4 {
        '4'
    } else if d == 5 {
        '5'
    } else if d == 6 {
        '6'
    } else if d == 7 {
        '7'
    } else if d == 8 {
        '8'
    } else if d == 9 {
        '9'
    } else {
        '0'
    }
}

/// Render `n` as its canonical decimal string.
pub fn dec_string(n: u64) -> (r: String)
    ensures
        r@ == spec_dec(n as nat),
    decreases n,
{
    let digits = "0123456789";
    proof {
        reveal_strlit("0123456789");
    }
    let d = (n % 10) as usize;
    let ds = digits.substring_char(d, d + 1);
    proof {
        assert(ds@ =~= seq![digit_char((n % 10) as nat)]);
    }
    if n < 10 {
        ds.to_owned()
    } else {
        let mut prefix = dec_string(n / 10);
        prefix.append(ds);
        proof {
            assert(prefix@ =~= spec_dec(n as nat));
        }
        prefix
    }
}

} // verus!
