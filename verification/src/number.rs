//! Decimal numbers: reading them out of text and writing them.
use crate::text;
use crate::text::{next_in, Class};
use vstd::prelude::*;
use vstd::slice::slice_subrange;
use vstd::string::*;

verus! {

/// The value that a run of decimal digits writes.
pub open spec fn value(run: Seq<char>) -> nat
    decreases run.len(),
{
    if run.len() == 0 {
        0
    } else {
        value(run.drop_last()) * 10 + text::digit_value(run.last())
    }
}

/// Whether every character is a decimal digit.
pub open spec fn all_digits(run: Seq<char>) -> bool {
    forall|i: int| 0 <= i < run.len() ==> text::digit(#[trigger] run[i])
}

/// The number that `s` writes: an optional plus sign, then one or more decimal
/// digits, with a value of 64 bits.
pub open spec fn parsed_u64(s: Seq<char>) -> Option<u64> {
    let run = if s.len() > 0 && s[0] == '+' {
        s.skip(1)
    } else {
        s
    };
    if run.len() > 0 && all_digits(run) && value(run) <= u64::MAX {
        Some(value(run) as u64)
    } else {
        None
    }
}

/// A longer run writes no smaller number.
proof fn lemma_value_grows(run: Seq<char>, k: int)
    requires
        0 <= k <= run.len(),
    ensures
        value(run.take(k)) <= value(run),
    decreases run.len() - k,
{
    if k < run.len() {
        lemma_value_grows(run, k + 1);
        assert(run.take(k + 1).drop_last() == run.take(k));
    } else {
        assert(run.take(k) == run);
    }
}

/// The value of a run of digits, where it is at most `max`.
fn run_value(run: &[char], max: u64) -> (res: Option<u64>)
    requires
        all_digits(run@),
    ensures
        match res {
            Some(v) => v == value(run@) && v <= max,
            None => value(run@) > max,
        },
{
    let n: usize = run.len();
    let mut v: u64 = 0;
    for i in 0..n
        invariant
            n == run@.len(),
            all_digits(run@),
            v == value(run@.take(i as int)),
            v <= max,
    {
        let d: u64 = run[i] as u64 - 48;
        proof {
            assert(run@.take(i + 1).drop_last() == run@.take(i as int));
            lemma_value_grows(run@, i + 1);
        }
        if v > max / 10 {
            return None;
        }
        let tens: u64 = v * 10;
        if d > max - tens {
            return None;
        }
        v = tens + d;
    }
    assert(run@.take(n as int) == run@);
    Some(v)
}

fn digits_only(run: &[char]) -> (res: bool)
    ensures
        res == all_digits(run@),
{
    let n: usize = run.len();
    for i in 0..n
        invariant
            n == run@.len(),
            forall|j: int| 0 <= j < i ==> text::digit(#[trigger] run@[j]),
    {
        let c = run[i];
        if !('0' <= c && c <= '9') {
            assert(!text::digit(run@[i as int]));
            return false;
        }
    }
    true
}

/// Reads an unsigned number.
pub fn parse_u64(s: &[char]) -> (res: Option<u64>)
    ensures
        res == parsed_u64(s@),
{
    let b: usize = if s.len() > 0 && s[0] == '+' {
        1
    } else {
        0
    };
    let run = slice_subrange(s, b, s.len());
    assert(b == 0 ==> run@ == s@);
    if run.len() == 0 || !digits_only(run) {
        return None;
    }
    run_value(run, u64::MAX)
}

// ---------------------------------------------------- the numbers in a line

/// The numbers in `s`, in order: its longest runs of decimal digits, without
/// those whose value a `usize` cannot hold.
pub open spec fn numbers(s: Seq<char>) -> Seq<usize>
    decreases s.len(),
    via numbers_decreases
{
    let b = text::next(s, 0, Class::Digit);
    let e = text::next(s, b, Class::NonDigit);
    let v = value(s.subrange(b, e));
    if b >= s.len() {
        seq![]
    } else if v <= usize::MAX {
        seq![v as usize] + numbers(s.skip(e))
    } else {
        numbers(s.skip(e))
    }
}

#[via_fn]
proof fn numbers_decreases(s: Seq<char>) {
    let b = text::next(s, 0, Class::Digit);
    text::lemma_next(s, 0, Class::Digit);
    if b < s.len() {
        text::lemma_next(s, b + 1, Class::NonDigit);
        text::lemma_next(s, b, Class::NonDigit);
    }
}

pub fn numbers_in(s: &[char]) -> (res: Vec<usize>)
    ensures
        res@ == numbers(s@),
{
    let mut res: Vec<usize> = Vec::new();
    let n: usize = s.len();
    let mut at: usize = 0;
    assert(s@.skip(0) == s@);
    assert(res@ + numbers(s@) =~= numbers(s@));
    loop
        invariant
            at <= n,
            n == s@.len(),
            res@ + numbers(s@.skip(at as int)) == numbers(s@),
        decreases n - at,
    {
        let rest = slice_subrange(s, at, n);
        assert(rest@ == s@.skip(at as int));
        let b: usize = next_in(rest, 0, Class::Digit);
        if b == rest.len() {
            assert(res@ + seq![] =~= res@);
            return res;
        }
        let e: usize = next_in(rest, b, Class::NonDigit);
        proof {
            text::lemma_next(rest@, 0, Class::Digit);
            text::lemma_next(rest@, b as int, Class::NonDigit);
        }
        let ghost before = res@;
        let run = slice_subrange(rest, b, e);
        assert(all_digits(run@)) by {
            assert forall|i: int| 0 <= i < run@.len() implies text::digit(#[trigger] run@[i]) by {
                assert(run@[i] == rest@[b + i]);
            }
        }
        match run_value(run, usize::MAX as u64) {
            Some(v) => {
                res.push(v as usize);
            },
            None => {},
        }
        proof {
            assert(rest@.skip(e as int) =~= s@.skip(at + e));
            let tail = numbers(s@.skip(at + e));
            if value(run@) <= usize::MAX {
                assert(before + (seq![value(run@) as usize] + tail) =~= res@ + tail);
            }
        }
        at = at + e;
    }
}

// ------------------------------------------------------------ writing numbers

/// The decimal digits of `n`, without leading zeros.
pub open spec fn decimal(n: nat) -> Seq<char>
    decreases n,
{
    if n < 10 {
        seq![text::digit_char(n)]
    } else {
        decimal(n / 10).push(text::digit_char(n % 10))
    }
}

/// Writes `n` in decimal.
pub fn decimal_of(n: usize) -> (res: String)
    ensures
        res@ == decimal(n as nat),
    decreases n,
{
    let mut res = if n < 10 {
        String::new()
    } else {
        decimal_of(n / 10)
    };
    let d: u8 = (n % 10) as u8;
    let c = (48 + d) as char;
    res.push(c);
    assert(res@ =~= decimal(n as nat));
    res
}

/// Writing a number and reading the digits gives the number back.
pub proof fn decimal_reads_back(n: nat)
    ensures
        decimal(n).len() > 0,
        all_digits(decimal(n)),
        value(decimal(n)) == n,
    decreases n,
{
    if n < 10 {
        assert(decimal(n).drop_last() =~= seq![]);
        assert(value(decimal(n).drop_last()) == 0);
    } else {
        decimal_reads_back(n / 10);
        assert(decimal(n).drop_last() =~= decimal(n / 10));
    }
}

/// A run of digits between other characters is read as one number.
pub proof fn lemma_numbers_first(gap: Seq<char>, run: Seq<char>, rest: Seq<char>)
    requires
        forall|i: int| 0 <= i < gap.len() ==> !text::digit(#[trigger] gap[i]),
        run.len() > 0,
        all_digits(run),
        value(run) <= usize::MAX,
        rest.len() > 0 ==> !text::digit(rest[0]),
    ensures
        numbers(gap + run + rest) == seq![value(run) as usize] + numbers(rest),
{
    let s = gap + run + rest;
    let b = gap.len() as int;
    let e = b + run.len();
    assert(s[b] == run[0]);
    text::lemma_next_is(s, 0, Class::Digit, b);
    assert forall|i: int| b <= i < e implies !text::in_class(Class::NonDigit, #[trigger] s[i]) by {
        assert(s[i] == run[i - b]);
    }
    if rest.len() > 0 {
        assert(s[e] == rest[0]);
    }
    text::lemma_next_is(s, b, Class::NonDigit, e);
    assert(s.subrange(b, e) =~= run);
    assert(s.skip(e) =~= rest);
}

/// A digit behind a run counts once, and what stood there ten times.
pub proof fn value_is_decimal(run: Seq<char>, c: char)
    requires
        text::digit(c),
    ensures
        value(Seq::empty()) == 0,
        value(run.push(c)) == 10 * value(run) + (c as int - 48),
{
    assert(run.push(c).drop_last() =~= run);
}

/// A number is written without leading zeros.
pub proof fn decimal_has_no_leading_zero(n: nat)
    ensures
        n == 0 ==> decimal(n) == seq!['0'],
        n > 0 ==> decimal(n)[0] != '0',
    decreases n,
{
    decimal_reads_back(n);
    if n >= 10 {
        decimal_has_no_leading_zero(n / 10);
        decimal_reads_back(n / 10);
        assert(decimal(n)[0] == decimal(n / 10)[0]);
    }
}

/// What is read as a number is one or more digits that write it, with or
/// without a plus sign, and nothing else.
pub proof fn numbers_are_digits_with_or_without_plus(run: Seq<char>, n: u64)
    ensures
        run.len() > 0 && all_digits(run) && value(run) == n ==> parsed_u64(run) == Some(n)
            && parsed_u64(seq!['+'] + run) == Some(n),
        parsed_u64(run) == Some(n) ==> exists|d: Seq<char>|
            d.len() > 0 && #[trigger] all_digits(d) && value(d) == n && (run == d || run == seq!['+']
                + d),
{
    if run.len() > 0 && all_digits(run) {
        assert(text::digit(run[0]));
    }
    assert((seq!['+'] + run).skip(1) =~= run);
    if parsed_u64(run) == Some(n) {
        if run[0] == '+' {
            let d = run.skip(1);
            assert(all_digits(d));
            assert(run =~= seq!['+'] + d);
        } else {
            assert(all_digits(run));
        }
    }
}

/// The characters of a run of digits are digits.
pub proof fn runs_of_digits_are_digits(run: Seq<char>)
    ensures
        all_digits(run) <==> forall|i: int| 0 <= i < run.len() ==> 48 <= (#[trigger] run[i]) as int <= 57,
{
    if all_digits(run) {
        assert forall|i: int| 0 <= i < run.len() implies 48 <= (#[trigger] run[i]) as int <= 57 by {
            assert(text::digit(run[i]));
        }
    }
}

/// The numbers of a text are the values of its runs of digits, in order, but
/// for those that are too large. Without digits there are none.
pub proof fn numbers_are_the_runs(gap: Seq<char>, run: Seq<char>, rest: Seq<char>)
    requires
        forall|i: int| 0 <= i < gap.len() ==> !text::digit(#[trigger] gap[i]),
        all_digits(run),
        rest.len() > 0 ==> !text::digit(rest[0]),
    ensures
        numbers(gap) == Seq::<usize>::empty(),
        run.len() > 0 && value(run) <= usize::MAX ==> numbers(gap + run + rest) == seq![
            value(run) as usize,
        ] + numbers(rest),
        run.len() > 0 && value(run) > usize::MAX ==> numbers(gap + run + rest) == numbers(rest),
{
    assert forall|i: int| 0 <= i < gap.len() implies !text::in_class(
        Class::Digit,
        #[trigger] gap[i],
    ) by {}
    text::lemma_next_is(gap, 0, Class::Digit, gap.len() as int);
    if run.len() > 0 {
        if value(run) <= usize::MAX {
            lemma_numbers_first(gap, run, rest);
        }
        let s = gap + run + rest;
        let b = gap.len() as int;
        let e = b + run.len();
        assert(s[b] == run[0]);
        assert forall|i: int| 0 <= i < b implies !text::in_class(Class::Digit, #[trigger] s[i]) by {
            assert(s[i] == gap[i]);
        }
        text::lemma_next_is(s, 0, Class::Digit, b);
        assert forall|i: int| b <= i < e implies !text::in_class(
            Class::NonDigit,
            #[trigger] s[i],
        ) by {
            assert(s[i] == run[i - b]);
        }
        if rest.len() > 0 {
            assert(s[e] == rest[0]);
        }
        text::lemma_next_is(s, b, Class::NonDigit, e);
        assert(s.subrange(b, e) =~= run);
        assert(s.skip(e) =~= rest);
    }
}

} // verus!
