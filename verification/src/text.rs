//! Plain-text building blocks shared by both directions of the translation:
//! the numeric-text check applied to the wire's number-in-a-string fields,
//! and the decimal rendering of counters used when minting identifiers.

use vstd::prelude::*;

verus! {

/// Decimal digit characters.
pub open spec fn is_digit(c: char) -> bool {
    '0' <= c && c <= '9'
}

pub open spec fn all_digits(s: Seq<char>) -> bool {
    forall|i: int| 0 <= i < s.len() ==> is_digit(#[trigger] s[i])
}

/// An unsigned numeric body: one or more digits, optionally followed by a
/// dot and one or more digits.
pub open spec fn num_body(t: Seq<char>) -> bool {
    exists|i: int|
        1 <= i <= t.len() && all_digits(#[trigger] t.take(i)) && (i == t.len() || (t[i] == '.'
            && i + 2 <= t.len() && all_digits(t.skip(i + 1))))
}

/// Numeric text as the wire format stores it inside JSON strings: an
/// optional leading minus sign, then digits, then an optional fractional
/// part.  Text that fails this check is replaced by a per-field default
/// while loading.
///
/// The grammar is deliberately plain decimals only, which is what the
/// format's writers emit.  It is narrower than a general floating-point
/// parser: an exponent (`1e5`), a leading plus, a bare leading or
/// trailing dot (`.5`, `5.`) and infinity spellings all fail the check
/// and fall to the field's default.
pub open spec fn is_num(s: Seq<char>) -> bool {
    if s.len() > 0 && s[0] == '-' {
        num_body(s.skip(1))
    } else {
        num_body(s)
    }
}

/// Index of the first non-digit character of `s` at or after `from`
/// (`s.len()` if every such character is a digit).
fn scan_digits(s: &str, n: usize, from: usize) -> (r: usize)
    requires
        n == s@.len(),
        from <= n,
    ensures
        from <= r <= n,
        forall|j: int| from <= j < r ==> is_digit(#[trigger] s@[j]),
        r < n ==> !is_digit(s@[r as int]),
{
    let mut i: usize = from;
    while i < n
        invariant
            from <= i <= n,
            n == s@.len(),
            forall|j: int| from <= j < i ==> is_digit(#[trigger] s@[j]),
        decreases n - i,
    {
        let c = s.get_char(i);
        if !('0' <= c && c <= '9') {
            return i;
        }
        i = i + 1;
    }
    i
}

/// Decides `is_num` for a string slice.
pub fn is_numeric_text(s: &str) -> (r: bool)
    ensures
        r == is_num(s@),
{
    let n = s.unicode_len();
    if n == 0 {
        return false;
    }
    let start: usize = if s.get_char(0) == '-' {
        1
    } else {
        0
    };
    let ghost t: Seq<char> = if start == 1 {
        s@.skip(1)
    } else {
        s@
    };
    proof {
        assert(is_num(s@) == num_body(t));
        assert(t =~= s@.skip(start as int));
    }
    if start == n {
        // A bare minus sign has an empty body.
        proof {
            assert(t.len() == 0);
            assert(!num_body(t));
        }
        return false;
    }
    let d = scan_digits(s, n, start);
    let ghost dd = d - start;
    proof {
        assert(forall|j: int| 0 <= j < dd ==> is_digit(#[trigger] t[j]));
        assert(d < n ==> t[dd] == s@[d as int]);
    }
    if d == start {
        // No leading digits.
        proof {
            assert forall|i: int| !(1 <= i <= t.len() && all_digits(#[trigger] t.take(i))) by {
                if 1 <= i <= t.len() && all_digits(t.take(i)) {
                    assert(t.take(i)[0] == t[0]);
                    assert(is_digit(t[0]));
                }
            }
        }
        return false;
    }
    if d == n {
        // Digits all the way to the end.
        proof {
            assert(all_digits(t.take(dd)));
            assert(num_body(t));
        }
        return true;
    }
    // `d` is the first non-digit position; any witness for `num_body(t)`
    // can only be `d - start`.
    proof {
        assert forall|i: int|
            1 <= i <= t.len() && all_digits(#[trigger] t.take(i)) implies i <= dd by {
            if i > dd {
                assert(t.take(i)[dd] == t[dd]);
                assert(is_digit(t[dd]));
            }
        }
    }
    let c = s.get_char(d);
    if c != '.' {
        proof {
            assert forall|i: int|
                !(1 <= i <= t.len() && all_digits(#[trigger] t.take(i)) && (i == t.len() || (
                t[i] == '.' && i + 2 <= t.len() && all_digits(t.skip(i + 1))))) by {
                if 1 <= i <= t.len() && all_digits(t.take(i)) {
                    assert(i <= dd);
                    if i < dd {
                        assert(is_digit(t[i]));
                        assert(t[i] != '.');
                    } else {
                        assert(t[i] != '.');
                    }
                }
            }
        }
        return false;
    }
    if d + 1 == n {
        // Dot with nothing after it.
        proof {
            assert forall|i: int|
                !(1 <= i <= t.len() && all_digits(#[trigger] t.take(i)) && (i == t.len() || (
                t[i] == '.' && i + 2 <= t.len() && all_digits(t.skip(i + 1))))) by {
                if 1 <= i <= t.len() && all_digits(t.take(i)) {
                    assert(i <= dd);
                    if i < dd {
                        assert(is_digit(t[i]));
                    }
                }
            }
        }
        return false;
    }
    let f = scan_digits(s, n, d + 1);
    proof {
        assert(forall|j: int| dd + 1 <= j < f - start ==> is_digit(#[trigger] t[j]));
    }
    if f == n {
        proof {
            assert(all_digits(t.take(dd)));
            assert(t[dd] == '.');
            assert forall|j: int| 0 <= j < t.skip(dd + 1).len() implies is_digit(
                #[trigger] t.skip(dd + 1)[j],
            ) by {
                assert(t.skip(dd + 1)[j] == t[j + dd + 1]);
            }
            assert(num_body(t));
        }
        true
    } else {
        proof {
            assert(!is_digit(t[f - start]));
            assert forall|i: int|
                !(1 <= i <= t.len() && all_digits(#[trigger] t.take(i)) && (i == t.len() || (
                t[i] == '.' && i + 2 <= t.len() && all_digits(t.skip(i + 1))))) by {
                if 1 <= i <= t.len() && all_digits(t.take(i)) && (i == t.len() || (t[i] == '.'
                    && i + 2 <= t.len() && all_digits(t.skip(i + 1)))) {
                    assert(i <= dd);
                    if i < dd {
                        assert(is_digit(t[i]));
                        assert(false);
                    }
                    assert(i == dd);
                    assert(all_digits(t.skip(dd + 1)));
                    assert(t.skip(dd + 1)[f - start - dd - 1] == t[f - start]);
                }
            }
        }
        false
    }
}

/// The digit character for a value below ten.
pub open spec fn digit_char(d: int) -> char {
    if d == 0 {
        '0'
    } else if d == 1 {
        '1'
    } else if d == 2 {
        '2'
    } else if d == 3 {
        '3'
    } else if d == 4 {
        '4'
    } else if d == 5 {
        '5'
    } else if d == 6 {
        '6'
    } else if d == 7 {
        '7'
    } else if d == 8 {
        '8'
    } else {
        '9'
    }
}

/// Decimal rendering of a natural number, most significant digit first.
pub open spec fn dec(n: nat) -> Seq<char>
    decreases n,
{
    if n < 10 {
        seq![digit_char(n as int)]
    } else {
        dec(n / 10).push(digit_char((n % 10) as int))
    }
}

pub proof fn lemma_dec_len(n: nat)
    ensures
        dec(n).len() >= 1,
    decreases n,
{
    if n >= 10 {
        lemma_dec_len(n / 10);
    }
}

/// Distinct numbers render as distinct decimal text.
pub proof fn lemma_dec_injective(a: nat, b: nat)
    requires
        dec(a) == dec(b),
    ensures
        a == b,
    decreases a,
{
    lemma_dec_len(a);
    lemma_dec_len(b);
    if a < 10 && b < 10 {
        assert(dec(a)[0] == digit_char(a as int));
        assert(dec(b)[0] == digit_char(b as int));
    } else if a < 10 && b >= 10 {
        lemma_dec_len(b / 10);
        assert(dec(b).len() >= 2);
    } else if a >= 10 && b < 10 {
        lemma_dec_len(a / 10);
        assert(dec(a).len() >= 2);
    } else {
        assert(dec(a).last() == digit_char((a % 10) as int));
        assert(dec(b).last() == digit_char((b % 10) as int));
        assert(a % 10 == b % 10);
        assert(dec(a).drop_last() =~= dec(a / 10));
        assert(dec(b).drop_last() =~= dec(b / 10));
        lemma_dec_injective(a / 10, b / 10);
        assert(a == 10 * (a / 10) + a % 10);
        assert(b == 10 * (b / 10) + b % 10);
    }
}

/// The string slice holding one decimal digit.
fn digit_str(d: u64) -> (r: &'static str)
    requires
        d < 10,
    ensures
        r@ =~= seq![digit_char(d as int)],
{
    proof {
        reveal_strlit("0");
        reveal_strlit("1");
        reveal_strlit("2");
        reveal_strlit("3");
        reveal_strlit("4");
        reveal_strlit("5");
        reveal_strlit("6");
        reveal_strlit("7");
        reveal_strlit("8");
        reveal_strlit("9");
    }
    if d == 0 {
        "0"
    } else if d == 1 {
        "1"
    } else if d == 2 {
        "2"
    } else if d == 3 {
        "3"
    } else if d == 4 {
        "4"
    } else if d == 5 {
        "5"
    } else if d == 6 {
        "6"
    } else if d == 7 {
        "7"
    } else if d == 8 {
        "8"
    } else {
        "9"
    }
}

/// Renders `n` in decimal.
pub fn dec_u64(n: u64) -> (s: String)
    ensures
        s@ == dec(n as nat),
    decreases n,
{
    if n < 10 {
        String::from_str(digit_str(n))
    } else {
        let mut s = dec_u64(n / 10);
        s.append(digit_str(n % 10));
        proof {
            assert(s@ =~= dec(n as nat));
        }
        s
    }
}

} // verus!
