//! Plain-text utilities: lexicographic comparison of strings (the order
//! the per-day date keys are reported in) with its order laws.

use vstd::prelude::*;
use vstd::string::StrSliceExecFns;
use vstd::string::StringExecFns;

verus! {

/// Strict lexicographic order on character sequences, by code point: a
/// proper prefix precedes its extensions, and otherwise the first
/// differing position decides.
pub open spec fn lex_lt(a: Seq<char>, b: Seq<char>) -> bool
    decreases a.len(),
{
    if b.len() == 0 {
        false
    } else if a.len() == 0 {
        true
    } else if a[0] != b[0] {
        (a[0] as u32) < (b[0] as u32)
    } else {
        lex_lt(a.skip(1), b.skip(1))
    }
}

/// Distinct characters have distinct code points.
proof fn lemma_char_cast_distinct(c: char, d: char)
    requires
        c != d,
    ensures
        c as u32 != d as u32,
{
}

/// Two sequences with equal heads and equal tails are equal.
proof fn lemma_head_tail_eq(a: Seq<char>, b: Seq<char>)
    requires
        a.len() > 0,
        b.len() > 0,
        a[0] == b[0],
        a.skip(1) == b.skip(1),
    ensures
        a == b,
{
    assert(a.skip(1).len() == a.len() - 1);
    assert(b.skip(1).len() == b.len() - 1);
    assert(a.len() == b.len());
    assert forall|i: int| 0 <= i < a.len() implies a[i] == b[i] by {
        if i > 0 {
            assert(a.skip(1)[i - 1] == a[i]);
            assert(b.skip(1)[i - 1] == b[i]);
        }
    }
    assert(a =~= b);
}

/// The order is total: of two sequences, either one strictly precedes
/// the other or they are equal, and never both.
pub proof fn lemma_lex_lt_total(a: Seq<char>, b: Seq<char>)
    ensures
        lex_lt(a, b) || lex_lt(b, a) || a == b,
        lex_lt(a, b) ==> !lex_lt(b, a) && a != b,
    decreases a.len(),
{
    if b.len() == 0 || a.len() == 0 {
        if a.len() == 0 && b.len() == 0 {
            assert(a =~= b);
        } else if a.len() == 0 {
            assert(lex_lt(a, b));
        } else {
            assert(lex_lt(b, a));
        }
    } else if a[0] != b[0] {
        lemma_char_cast_distinct(a[0], b[0]);
    } else {
        lemma_lex_lt_total(a.skip(1), b.skip(1));
        if a.skip(1) == b.skip(1) {
            lemma_head_tail_eq(a, b);
        }
        if a == b {
            assert(a.skip(1) =~= b.skip(1));
        }
    }
}

/// The order is transitive.
pub proof fn lemma_lex_lt_trans(a: Seq<char>, b: Seq<char>, c: Seq<char>)
    requires
        lex_lt(a, b),
        lex_lt(b, c),
    ensures
        lex_lt(a, c),
    decreases a.len(),
{
    if c.len() == 0 {
    } else if a.len() == 0 {
    } else {
        if a[0] == b[0] && b[0] == c[0] {
            lemma_lex_lt_trans(a.skip(1), b.skip(1), c.skip(1));
        }
    }
}

/// Where two sequences first differ (or one runs out) decides the order.
proof fn lemma_lex_lt_at(a: Seq<char>, b: Seq<char>, i: int)
    requires
        0 <= i <= a.len(),
        i <= b.len(),
        forall|k: int| 0 <= k < i ==> a[k] == b[k],
        i == a.len() || i == b.len() || a[i] != b[i],
    ensures
        lex_lt(a, b) == (if i < a.len() && i < b.len() {
            (a[i] as u32) < (b[i] as u32)
        } else {
            a.len() < b.len()
        }),
    decreases i,
{
    if i == 0 {
    } else {
        assert(a[0] == b[0]);
        assert forall|k: int| 0 <= k < i - 1 implies a.skip(1)[k] == b.skip(1)[k] by {
            assert(a.skip(1)[k] == a[k + 1]);
            assert(b.skip(1)[k] == b[k + 1]);
        }
        if i < a.len() && i < b.len() {
            assert(a.skip(1)[i - 1] == a[i]);
            assert(b.skip(1)[i - 1] == b[i]);
        }
        lemma_lex_lt_at(a.skip(1), b.skip(1), i - 1);
    }
}

/// The lowercase folding of a character sequence.
pub uninterp spec fn lower_of(s: Seq<char>) -> Seq<char>;

/// Relies on `str::to_lowercase`: the folding is a function of the
/// characters alone.
#[verifier::external_body]
pub(crate) fn lowercase(s: &str) -> (r: String)
    ensures
        r@ == lower_of(s@),
{
    s.to_lowercase()
}

/// Case-insensitive equality, by comparing the lowercase foldings.
pub fn eq_ignore_case(a: &str, b: &str) -> (r: bool)
    ensures
        r == (lower_of(a@) == lower_of(b@)),
{
    let la = lowercase(a);
    let lb = lowercase(b);
    la == lb
}

/// Whether the character is a decimal digit.
pub open spec fn is_digit(c: char) -> bool {
    48 <= c as u32 <= 57
}

/// Whether every character of the sequence is a decimal digit.
pub open spec fn digits_only(s: Seq<char>) -> bool {
    forall|i: int| 0 <= i < s.len() ==> is_digit(#[trigger] s[i])
}

/// Whether the sequence is one or more decimal digits.
pub open spec fn all_digits(s: Seq<char>) -> bool {
    s.len() > 0 && digits_only(s)
}

/// The numeric value of a digit sequence, most significant first.
pub open spec fn digits_value(s: Seq<char>) -> int
    decreases s.len(),
{
    if s.len() == 0 {
        0
    } else {
        digits_value(s.drop_last()) * 10 + (s.last() as u32) - 48
    }
}

/// The digit part of a decimal integer literal: what follows an
/// optional leading plus sign.
pub open spec fn parse_u64_digits(s: Seq<char>) -> Seq<char> {
    if s.len() > 0 && s[0] == '+' {
        s.skip(1)
    } else {
        s
    }
}

/// Whether the string parses as a `u64`: an optional leading plus,
/// then at least one decimal digit, with a value that fits.
pub open spec fn parse_u64_ok(s: Seq<char>) -> bool {
    all_digits(parse_u64_digits(s)) && digits_value(parse_u64_digits(s)) <= u64::MAX
}

/// The value the string parses to.
pub open spec fn parse_u64_value(s: Seq<char>) -> int {
    digits_value(parse_u64_digits(s))
}

/// A digit sequence has a non-negative value.
proof fn lemma_digits_value_nonneg(s: Seq<char>)
    requires
        digits_only(s),
    ensures
        digits_value(s) >= 0,
    decreases s.len(),
{
    if s.len() > 0 {
        assert(digits_only(s.drop_last())) by {
            assert(forall|i: int| 0 <= i < s.len() - 1 ==> s.drop_last()[i] == s[i]);
        }
        lemma_digits_value_nonneg(s.drop_last());
    }
}

/// A digit sequence is worth at least any of its prefixes.
proof fn lemma_digits_prefix_le(s: Seq<char>, i: int)
    requires
        digits_only(s),
        0 <= i <= s.len(),
    ensures
        digits_value(s.take(i)) <= digits_value(s),
    decreases s.len() - i,
{
    if i == s.len() {
        assert(s.take(i) =~= s);
    } else {
        assert(digits_only(s.take(i))) by {
            assert(forall|k: int| 0 <= k < i ==> s.take(i)[k] == s[k]);
        }
        lemma_digits_value_nonneg(s.take(i));
        assert(s.take(i + 1).drop_last() =~= s.take(i));
        assert(s.take(i + 1).last() == s[i]);
        assert(digits_value(s.take(i + 1)) == digits_value(s.take(i)) * 10 + (s[i] as u32) - 48);
        lemma_digits_prefix_le(s, i + 1);
    }
}

/// Parses a decimal `u64`: an optional leading plus sign, then one or
/// more digits whose value fits; anything else is rejected.
#[verifier::loop_isolation(false)]
pub fn parse_u64(s: &str) -> (r: Option<u64>)
    ensures
        parse_u64_ok(s@) ==> r == Some((parse_u64_value(s@) as u64)),
        !parse_u64_ok(s@) ==> r is None,
{
    let n = s.unicode_len();
    if n == 0 {
        return None;
    }
    let first = s.get_char(0);
    let start: usize = if first == '+' {
        1
    } else {
        0
    };
    let ghost digits = parse_u64_digits(s@);
    proof {
        if start == 0 {
            assert(s@.skip(0) =~= s@);
        }
        assert(digits == s@.skip(start as int));
    }
    if start == 1 && n == 1 {
        proof {
            assert(digits.len() == 0);
        }
        return None;
    }
    let mut value: u64 = 0;
    let mut i: usize = start;
    while i < n
        invariant
            start <= i <= n,
            digits_only(digits.take(i - start)),
            value == digits_value(digits.take(i - start)),
        decreases n - i,
    {
        let c = s.get_char(i);
        let cv = c as u32;
        proof {
            assert(digits[i - start] == s@[i as int]);
        }
        if cv < 48 || cv > 57 {
            proof {
                assert(!is_digit(s@[i as int]));
                assert(!digits_only(digits));
                assert(!parse_u64_ok(s@));
            }
            return None;
        }
        let d: u64 = (cv - 48) as u64;
        proof {
            assert(digits.take(i - start + 1).drop_last() =~= digits.take(i - start));
            assert(digits.take(i - start + 1).last() == digits[i - start]);
            assert(digits_value(digits.take(i - start + 1)) == value * 10 + d);
            assert forall|k: int| 0 <= k < i - start + 1 implies is_digit(
                #[trigger] digits.take(i - start + 1)[k],
            ) by {
                assert(digits.take(i - start + 1)[k] == digits[k]);
                if k < i - start {
                    assert(digits.take(i - start)[k] == digits[k]);
                } else {
                    assert(digits[k] == s@[i as int]);
                }
            }
            assert(digits_only(digits.take(i - start + 1)));
        }
        let stepped = match value.checked_mul(10) {
            Some(v) => v.checked_add(d),
            None => None,
        };
        match stepped {
            Some(v) => {
                value = v;
            },
            None => {
                proof {
                    assert(digits_value(digits.take(i - start + 1)) > u64::MAX);
                    if digits_only(digits) {
                        lemma_digits_prefix_le(digits, i - start + 1);
                        assert(digits_value(digits) > u64::MAX);
                    }
                    assert(!parse_u64_ok(s@));
                }
                return None;
            },
        }
        i += 1;
    }
    proof {
        assert(digits.take(n - start) =~= digits);
        assert(digits.len() > 0);
        assert(parse_u64_ok(s@));
    }
    Some(value)
}

/// The character for one decimal digit.
pub open spec fn digit_char(d: nat) -> char {
    if d == 0 {
        '0'
    } else if d == 1 {
        '1'
    } else if d == 2 {
        '2'
    } else if d == 3 {
        '3'
    } else if d == 4 {
        '4'
    } else if d == 5 {
        '5'
    } else if d == 6 {
        '6'
    } else if d == 7 {
        '7'
    } else if d == 8 {
        '8'
    } else {
        '9'
    }
}

/// The canonical decimal rendering of an unsigned number: no sign, no
/// leading zero, most significant digit first. This is the form the
/// storage layer wires identifiers in.
pub open spec fn dec_of(n: nat) -> Seq<char>
    decreases n,
{
    if n < 10 {
        seq![digit_char(n)]
    } else {
        dec_of(n / 10).push(digit_char(n % 10))
    }
}

/// The one-character string for a decimal digit.
fn digit_str(d: u64) -> (r: &'static str)
    requires
        d < 10,
    ensures
        r@ == seq![digit_char(d as nat)],
{
    let r: &'static str = match d {
        0 => "0",
        1 => "1",
        2 => "2",
        3 => "3",
        4 => "4",
        5 => "5",
        6 => "6",
        7 => "7",
        8 => "8",
        _ => "9",
    };
    proof {
        reveal_strlit("0");
        reveal_strlit("1");
        reveal_strlit("2");
        reveal_strlit("3");
        reveal_strlit("4");
        reveal_strlit("5");
        reveal_strlit("6");
        reveal_strlit("7");
        reveal_strlit("8");
        reveal_strlit("9");
        assert(r@ =~= seq![digit_char(d as nat)]);
    }
    r
}

/// Renders an identifier in its canonical decimal form.
pub fn u64_to_dec(n: u64) -> (r: String)
    ensures
        r@ == dec_of(n as nat),
    decreases n,
{
    if n < 10 {
        String::from_str(digit_str(n))
    } else {
        let mut s = u64_to_dec(n / 10);
        s.append(digit_str(n % 10));
        proof {
            assert(s@ =~= dec_of((n / 10) as nat).push(digit_char((n % 10) as nat)));
        }
        s
    }
}

/// The canonical decimal form is digits only and is worth the number
/// it renders.
proof fn lemma_dec_of_digits(n: nat)
    ensures
        dec_of(n).len() >= 1,
        digits_only(dec_of(n)),
        digits_value(dec_of(n)) == n,
    decreases n,
{
    if n < 10 {
        assert(dec_of(n) =~= seq![digit_char(n)]);
        assert(dec_of(n).drop_last() =~= Seq::<char>::empty());
        assert(digits_value(Seq::<char>::empty()) == 0);
        assert(digit_char(n) as u32 == 48 + n);
        assert(digits_value(dec_of(n)) == digits_value(dec_of(n).drop_last()) * 10 + (dec_of(
            n,
        ).last() as u32) - 48);
    } else {
        lemma_dec_of_digits(n / 10);
        let s = dec_of(n / 10);
        let d = digit_char(n % 10);
        assert(dec_of(n) == s.push(d));
        assert(dec_of(n).drop_last() =~= s);
        assert(dec_of(n).last() == d);
        assert forall|i: int| 0 <= i < dec_of(n).len() implies is_digit(
            #[trigger] dec_of(n)[i],
        ) by {
            if i < s.len() {
                assert(dec_of(n)[i] == s[i]);
            }
        }
        assert(digits_value(dec_of(n)) == digits_value(s) * 10 + ((d as u32) - 48));
        assert((d as u32) - 48 == n % 10);
    }
}

/// Rendering an identifier and parsing it back loses nothing: the
/// decimal wire form preserves the full 64-bit value.
pub proof fn lemma_dec_round_trip(n: u64)
    ensures
        parse_u64_ok(dec_of(n as nat)),
        parse_u64_value(dec_of(n as nat)) == n,
        dec_of(n as nat).len() >= 1,
        digits_only(dec_of(n as nat)),
{
    lemma_dec_of_digits(n as nat);
    let s = dec_of(n as nat);
    assert(is_digit(s[0]));
    assert(s[0] != '+') by {
        if s[0] == '+' {
            assert(s[0] as u32 == 43) by {
                assert('+' as u32 == 43);
            }
        }
    }
    assert(parse_u64_digits(s) == s);
}

/// Decides whether `a` strictly precedes `b` in lexicographic
/// code-point order.
#[verifier::loop_isolation(false)]
pub fn str_lt(a: &str, b: &str) -> (r: bool)
    ensures
        r == lex_lt(a@, b@),
{
    let alen = a.unicode_len();
    let blen = b.unicode_len();
    let mut i: usize = 0;
    while i < alen && i < blen
        invariant
            i <= alen,
            i <= blen,
            forall|k: int| 0 <= k < i ==> a@[k] == b@[k],
        decreases alen - i,
    {
        let ca = a.get_char(i);
        let cb = b.get_char(i);
        if ca != cb {
            proof {
                lemma_lex_lt_at(a@, b@, i as int);
            }
            return (ca as u32) < (cb as u32);
        }
        i += 1;
    }
    proof {
        lemma_lex_lt_at(a@, b@, i as int);
    }
    alen < blen
}

} // verus!
