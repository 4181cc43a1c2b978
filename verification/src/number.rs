//! Unsigned numbers in decimal notation.

use vstd::prelude::*;
use vstd::slice::slice_subrange;

verus! {

pub open spec fn is_digit(c: char) -> bool {
    '0' <= c <= '9'
}

/// A run of one or more decimal digits.
pub open spec fn is_number(s: Seq<char>) -> bool {
    s.len() > 0 && forall|i: int| 0 <= i < s.len() ==> is_digit(#[trigger] s[i])
}

/// What a run of digits stands for.
pub open spec fn number_value(s: Seq<char>) -> nat
    decreases s.len(),
{
    if s.len() == 0 {
        0
    } else {
        number_value(s.drop_last()) * 10 + (s.last() as nat - '0' as nat) as nat
    }
}

/// The number that a text denotes: digits, after at most one plus sign, of a value up to `max`.
pub open spec fn parse_unsigned(s: Seq<char>, max: nat) -> Option<nat> {
    let digits = if s.len() > 0 && s.first() == '+' {
        s.drop_first()
    } else {
        s
    };
    if is_number(digits) && number_value(digits) <= max {
        Some(number_value(digits))
    } else {
        None
    }
}

/// The digit for a value below ten.
pub open spec fn digit_char(d: nat) -> char {
    (('0' as nat + d) as u8) as char
}

/// The decimal notation of `n`, without leading zeros.
pub open spec fn decimal(n: nat) -> Seq<char>
    decreases n,
{
    if n < 10 {
        seq![digit_char(n)]
    } else {
        decimal(n / 10).push(digit_char(n % 10))
    }
}

proof fn lemma_value_grows(s: Seq<char>, k: int)
    requires
        is_number(s),
        0 <= k <= s.len(),
    ensures
        number_value(s.take(k)) <= number_value(s),
    decreases s.len() - k,
{
    if k < s.len() {
        assert(s.take(k + 1).drop_last() =~= s.take(k));
        lemma_value_grows(s, k + 1);
    } else {
        assert(s.take(k) =~= s);
    }
}

/// How many digits of a run are among the first `i` where `pad` zeros are put in front of it.
spec fn padded(i: int, pad: int) -> int {
    if i < pad {
        0
    } else {
        i - pad
    }
}

/// One more digit counts ten times what was there, and itself.
proof fn lemma_next_digit(s: Seq<char>, i: int, pad: int)
    requires
        is_number(s),
        0 <= pad,
        0 <= i < pad + s.len(),
    ensures
        number_value(s.take(padded(i + 1, pad))) == number_value(s.take(padded(i, pad))) * 10 + (if i < pad {
            0
        } else {
            s[i - pad] as nat - '0' as nat
        }),
        i >= pad ==> is_digit(s[i - pad]),
{
    if i < pad {
        assert(s.take(0).len() == 0);
    } else {
        assert(s.take(i - pad + 1).drop_last() =~= s.take(i - pad));
    }
}

/// Whether the text is a run of one or more digits.
pub(crate) fn all_digits(s: &[char]) -> (r: bool)
    ensures
        r == is_number(s@),
{
    let n: usize = s.len();
    for i in 0..n
        invariant
            n == s@.len(),
            forall|j: int| 0 <= j < i ==> is_digit(#[trigger] s@[j]),
    {
        if s[i] < '0' || s[i] > '9' {
            assert(!is_digit(s@[i as int]));
            return false;
        }
    }
    n > 0
}

/// Whether one run of digits stands for more than another, however long the two are.
pub(crate) fn is_larger(a: &[char], b: &[char]) -> (r: bool)
    requires
        is_number(a@),
        is_number(b@),
    ensures
        r == (number_value(a@) > number_value(b@)),
{
    let n: usize = if a.len() < b.len() {
        b.len()
    } else {
        a.len()
    };
    let pad_a: usize = n - a.len();
    let pad_b: usize = n - b.len();
    let mut larger = false;
    let mut same = true;
    for i in 0..n
        invariant
            is_number(a@),
            is_number(b@),
            n == pad_a + a@.len() == pad_b + b@.len(),
            larger == (number_value(a@.take(padded(i as int, pad_a as int))) > number_value(
                b@.take(padded(i as int, pad_b as int)),
            )),
            same == (number_value(a@.take(padded(i as int, pad_a as int))) == number_value(
                b@.take(padded(i as int, pad_b as int)),
            )),
    {
        let x: char = if i < pad_a {
            '0'
        } else {
            a[i - pad_a]
        };
        let y: char = if i < pad_b {
            '0'
        } else {
            b[i - pad_b]
        };
        proof {
            lemma_next_digit(a@, i as int, pad_a as int);
            lemma_next_digit(b@, i as int, pad_b as int);
        }
        if same {
            larger = x > y;
            same = x == y;
        }
    }
    assert(a@.take(a@.len() as int) =~= a@);
    assert(b@.take(b@.len() as int) =~= b@);
    larger
}

/// Reads an unsigned number of at most `max`.
pub fn read_unsigned(s: &[char], max: u64) -> (r: Option<u64>)
    ensures
        match r {
            Some(n) => parse_unsigned(s@, max as nat) == Some(n as nat),
            None => parse_unsigned(s@, max as nat) is None,
        },
{
    let digits: &[char] = if s.len() > 0 && s[0] == '+' {
        slice_subrange(s, 1, s.len())
    } else {
        s
    };
    let ghost body = if s@.len() > 0 && s@.first() == '+' {
        s@.drop_first()
    } else {
        s@
    };
    assert(digits@ =~= body);
    if !all_digits(digits) {
        return None;
    }
    let n: usize = digits.len();
    let mut value: u64 = 0;
    assert(digits@.take(0).len() == 0);
    for k in 0..n
        invariant
            n == digits@.len(),
            is_number(digits@),
            digits@ == body,
            value == number_value(digits@.take(k as int)),
            value <= max,
            body == (if s@.len() > 0 && s@.first() == '+' {
                s@.drop_first()
            } else {
                s@
            }),
    {
        assert(is_digit(digits@[k as int]));
        let d: u64 = digits[k] as u64 - 48;
        assert(digits@.take(k + 1).drop_last() =~= digits@.take(k as int));
        assert(number_value(digits@.take(k + 1)) == value * 10 + d);
        if d > max || value > (max - d) / 10 {
            proof {
                lemma_value_grows(digits@, k + 1);
                assert(value * 10 + d > max);
            }
            return None;
        }
        value = value * 10 + d;
    }
    assert(digits@.take(n as int) =~= digits@);
    Some(value)
}

/// The decimal notation of a number.
pub fn decimal_text(n: u64) -> (r: String)
    ensures
        r@ == decimal(n as nat),
    decreases n,
{
    let mut out = if n < 10 {
        String::new()
    } else {
        decimal_text(n / 10)
    };
    let d: u8 = (n % 10) as u8;
    out.push((48 + d) as char);
    assert(out@ =~= decimal(n as nat));
    out
}

proof fn lemma_decimal_value(n: nat)
    ensures
        is_number(decimal(n)),
        number_value(decimal(n)) == n,
    decreases n,
{
    reveal_with_fuel(number_value, 2);
    if n < 10 {
        assert(seq![digit_char(n)].drop_last() =~= Seq::<char>::empty());
    } else {
        lemma_decimal_value(n / 10);
        assert(decimal(n).drop_last() =~= decimal(n / 10));
    }
}

/// Reading the decimal notation of a number gives the number back, whatever larger limit is set.
pub proof fn law_decimal_reads_back(n: nat, max: nat)
    requires
        n <= max,
    ensures
        parse_unsigned(decimal(n), max) == Some(n),
{
    lemma_decimal_value(n);
    assert(is_digit(decimal(n)[0]));
}

/// Decimal notation goes digit by digit: a number below ten is one of `0` to `9`, and a digit
/// behind a number counts ten times that number and itself.
pub proof fn law_decimal_notation(n: nat, d: nat)
    requires
        d < 10,
    ensures
        decimal(d) == seq![('0' as u8 + d) as u8 as char],
        n > 0 ==> decimal(n * 10 + d) == decimal(n).push(('0' as u8 + d) as u8 as char),
{
    if n > 0 {
        assert((n * 10 + d) / 10 == n && (n * 10 + d) % 10 == d);
    }
}

/// The digits of decimal notation, of which the first is no zero unless it is the only one.
pub proof fn law_decimal_digits(n: nat)
    ensures
        decimal(n).len() > 0,
        forall|i: int| 0 <= i < decimal(n).len() ==> '0' <= #[trigger] decimal(n)[i] <= '9',
        n > 0 ==> decimal(n)[0] != '0',
        n == 0 ==> decimal(n) == seq!['0'],
    decreases n,
{
    lemma_decimal_value(n);
    assert forall|i: int| 0 <= i < decimal(n).len() implies '0' <= #[trigger] decimal(n)[i] <= '9' by {
        assert(is_digit(decimal(n)[i]));
    }
    if n >= 10 {
        law_decimal_digits(n / 10);
        assert(decimal(n)[0] == decimal(n / 10)[0]);
    }
}

/// A number is read digit by digit: a digit behind one that is read adds itself to ten times its
/// value, as long as the limit is kept.
pub proof fn law_digit_counts(s: Seq<char>, v: nat, c: char, max: nat)
    requires
        parse_unsigned(s, max) == Some(v),
    ensures
        '0' <= c <= '9' && v * 10 + (c as int - 48) <= max ==> parse_unsigned(s.push(c), max) == Some(
            (v * 10 + (c as int - 48)) as nat,
        ),
        '0' <= c <= '9' && v * 10 + (c as int - 48) > max ==> parse_unsigned(s.push(c), max) is None,
        c < '0' || c > '9' ==> parse_unsigned(s.push(c), max) is None,
{
    let digits = if s.len() > 0 && s.first() == '+' {
        s.drop_first()
    } else {
        s
    };
    let more = if s.push(c).first() == '+' {
        s.push(c).drop_first()
    } else {
        s.push(c)
    };
    assert(more =~= digits.push(c));
    assert(more.drop_last() =~= digits);
    assert(forall|i: int| 0 <= i < digits.len() ==> more[i] == digits[i]);
    if '0' <= c <= '9' {
        assert forall|i: int| 0 <= i < more.len() implies is_digit(#[trigger] more[i]) by {
            if i < digits.len() {
                assert(is_digit(digits[i]));
            }
        }
    } else {
        assert(!is_digit(more[digits.len() as int]));
    }
}

/// One digit is a number, no digit is none, a plus sign may stand in front, and no other character
/// may stand anywhere.
pub proof fn law_number_shape(s: Seq<char>, c: char, i: int, max: nat)
    ensures
        '0' <= c <= '9' && c as int - 48 <= max ==> parse_unsigned(seq![c], max) == Some(
            (c as int - 48) as nat,
        ),
        parse_unsigned(Seq::empty(), max) is None,
        parse_unsigned(seq!['+'], max) is None,
        s.len() > 0 && s[0] != '+' ==> parse_unsigned(seq!['+'] + s, max) == parse_unsigned(s, max),
        0 <= i < s.len() && (s[i] < '0' || s[i] > '9') && (i > 0 || s[i] != '+') ==> parse_unsigned(s, max)
            is None,
{
    reveal_with_fuel(number_value, 2);
    assert(seq![c].drop_last() =~= Seq::<char>::empty());
    assert((seq!['+'] + s).drop_first() =~= s);
    assert(seq!['+'].drop_first() =~= Seq::<char>::empty());
    if 0 <= i < s.len() && (s[i] < '0' || s[i] > '9') && (i > 0 || s[i] != '+') {
        if s.first() == '+' {
            assert(!is_digit(s.drop_first()[i - 1]));
        } else {
            assert(!is_digit(s[i]));
        }
    }
}

/// A number above the limit is not read.
pub proof fn law_limit_is_kept(n: nat, max: nat)
    requires
        n > max,
    ensures
        parse_unsigned(decimal(n), max) is None,
{
    lemma_decimal_value(n);
    assert(is_digit(decimal(n)[0]));
}

/// Zeros in front do not count.
pub proof fn law_leading_zeros_do_not_count(s: Seq<char>, max: nat)
    requires
        s.len() > 0,
        s[0] != '+',
    ensures
        parse_unsigned(seq!['0'] + s, max) == parse_unsigned(s, max),
{
    let more = seq!['0'] + s;
    if is_number(s) {
        assert forall|i: int| 0 <= i < more.len() implies is_digit(#[trigger] more[i]) by {
            if i > 0 {
                assert(is_digit(s[i - 1]));
            }
        }
    }
    if is_number(more) {
        assert forall|i: int| 0 <= i < s.len() implies is_digit(#[trigger] s[i]) by {
            assert(is_digit(more[i + 1]));
        }
    }
    lemma_zero_in_front(s);
}

proof fn lemma_zero_in_front(s: Seq<char>)
    ensures
        number_value(seq!['0'] + s) == number_value(s),
    decreases s.len(),
{
    reveal_with_fuel(number_value, 2);
    let more = seq!['0'] + s;
    if s.len() > 0 {
        assert(more.drop_last() =~= seq!['0'] + s.drop_last());
        lemma_zero_in_front(s.drop_last());
    } else {
        assert(more =~= seq!['0']);
        assert(more.drop_last() =~= Seq::<char>::empty());
    }
}

} // verus!
