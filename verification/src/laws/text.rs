//! White space and numbers in texts.

use vstd::prelude::*;

use crate::text::{
    all_digits, decimal, digits_value, is_digit, is_space, numeral, padded, trim_end, trim_start,
    trimmed, unsigned_part, zeros,
};

verus! {

/// The code points of white space.
pub open spec fn is_white(code: u32) -> bool {
    (9 <= code <= 13) || code == 32 || code == 133 || code == 160 || code == 5760 || (8192 <= code
        <= 8202) || code == 8232 || code == 8233 || code == 8239 || code == 8287 || code == 12288
}

/// Whether `part` is `s` from `from` to `to`: what is left out is white space, and
/// what is kept neither starts nor ends in it.
pub open spec fn is_trimmed(s: Seq<char>, part: Seq<char>, from: int, to: int) -> bool {
    &&& 0 <= from <= to <= s.len()
    &&& part == s.subrange(from, to)
    &&& forall|i: int| 0 <= i < from ==> is_white(#[trigger] s[i] as u32)
    &&& forall|i: int| to <= i < s.len() ==> is_white(#[trigger] s[i] as u32)
    &&& from < to ==> !is_white(s[from] as u32) && !is_white(s[to - 1] as u32)
}

proof fn lemma_trim_start(s: Seq<char>) -> (from: int)
    ensures
        0 <= from <= s.len(),
        trim_start(s) == s.skip(from),
        forall|i: int| 0 <= i < from ==> is_white(#[trigger] s[i] as u32),
        from < s.len() ==> !is_white(s[from] as u32),
    decreases s.len(),
{
    if s.len() > 0 && is_space(s[0]) {
        let rest = s.drop_first();
        let from = lemma_trim_start(rest);
        assert(rest.skip(from) =~= s.skip(from + 1));
        assert forall|i: int| 0 <= i < from + 1 implies is_white(#[trigger] s[i] as u32) by {
            if i > 0 {
                assert(s[i] == rest[i - 1]);
            }
        }
        if from < rest.len() {
            assert(rest[from] == s[from + 1]);
        }
        from + 1
    } else {
        assert(s.skip(0) =~= s);
        0
    }
}

proof fn lemma_trim_end(s: Seq<char>) -> (to: int)
    ensures
        0 <= to <= s.len(),
        trim_end(s) == s.take(to),
        forall|i: int| to <= i < s.len() ==> is_white(#[trigger] s[i] as u32),
        to > 0 ==> !is_white(s[to - 1] as u32),
    decreases s.len(),
{
    if s.len() > 0 && is_space(s.last()) {
        let rest = s.drop_last();
        let to = lemma_trim_end(rest);
        assert(rest.take(to) =~= s.take(to));
        assert forall|i: int| to <= i < s.len() implies is_white(#[trigger] s[i] as u32) by {
            if i < rest.len() {
                assert(s[i] == rest[i]);
            }
        }
        to
    } else {
        assert(s.take(s.len() as int) =~= s);
        s.len() as int
    }
}

/// Trimming takes the white space off both ends of a text, and nothing else.
pub proof fn law_trimming_takes_white_space_off_the_ends(s: Seq<char>)
    ensures
        exists|from: int, to: int| #[trigger] is_trimmed(s, trimmed(s), from, to),
        trimmed(s).len() == 0 <==> forall|i: int|
            0 <= i < s.len() ==> is_white(#[trigger] s[i] as u32),
{
    let from = lemma_trim_start(s);
    let started = trim_start(s);
    let length = lemma_trim_end(started);
    let to = from + length;
    assert(started.take(length) =~= s.subrange(from, to));
    assert forall|i: int| to <= i < s.len() implies is_white(#[trigger] s[i] as u32) by {
        assert(started[i - from] == s[i]);
    }
    if length > 0 {
        assert(started[length - 1] == s[to - 1]);
    }
    assert(is_trimmed(s, trimmed(s), from, to));
    if from < to {
        assert(!is_white(s[from] as u32));
    }
}

/// Whether `digits` write the number `n` in decimal.
pub open spec fn writes(digits: Seq<char>, n: nat) -> bool
    decreases digits.len(),
{
    if digits.len() == 0 {
        n == 0
    } else {
        &&& '0' <= digits.last() <= '9'
        &&& n % 10 == digits.last() as nat - '0' as nat
        &&& writes(digits.drop_last(), n / 10)
    }
}

proof fn lemma_writes(digits: Seq<char>, n: nat)
    ensures
        writes(digits, n) <==> all_digits(digits) && digits_value(digits) == n,
    decreases digits.len(),
{
    if digits.len() > 0 {
        let front = digits.drop_last();
        lemma_writes(front, n / 10);
        if all_digits(digits) {
            assert(is_digit(digits[digits.len() - 1]));
            assert forall|i: int| 0 <= i < front.len() implies is_digit(#[trigger] front[i]) by {
                assert(is_digit(digits[i]));
            }
        }
        if writes(digits, n) {
            assert forall|i: int| 0 <= i < digits.len() implies is_digit(#[trigger] digits[i]) by {
                if i < front.len() {
                    assert(is_digit(front[i]));
                }
            }
        }
    }
}

/// A text reads as a number exactly where it is an optional plus sign and the decimal
/// digits of that number, and the number is not over the limit.
pub proof fn law_numbers_are_read_as_they_are_written(s: Seq<char>, max: nat, n: nat)
    ensures
        numeral(s, max) == Some(n) <==> n <= max && ((s.len() > 0 && writes(s, n)) || (s.len() > 1
            && s[0] == '+' && writes(s.skip(1), n))),
{
    let digits = unsigned_part(s);
    lemma_writes(digits, n);
    lemma_writes(s, n);
    if s.len() > 0 && s[0] == '+' {
        if all_digits(s) {
            assert(is_digit(s[0]));
        }
    }
}

/// The numeral of a number has its digits, without a zero in front, and a padded one
/// has zeros in front up to its width.
pub proof fn law_numerals_write_their_number(n: nat, width: nat)
    ensures
        decimal(n).len() > 0,
        writes(decimal(n), n),
        decimal(n)[0] == '0' ==> n == 0 && decimal(n).len() == 1,
        writes(padded(n, width), n),
        padded(n, width).len() >= width,
        padded(n, width).len() > width ==> padded(n, width) == decimal(n),
{
    crate::text::law_decimal_reads_back(n);
    lemma_writes(decimal(n), n);
    lemma_no_leading_zero(n);
    if decimal(n).len() < width {
        let k = (width - decimal(n).len()) as nat;
        lemma_zeros_in_front(decimal(n), n, k);
    }
}

proof fn lemma_no_leading_zero(n: nat)
    ensures
        decimal(n).len() > 0,
        decimal(n)[0] == '0' ==> n == 0,
        n < 10 ==> decimal(n).len() == 1,
    decreases n,
{
    if n >= 10 {
        lemma_no_leading_zero(n / 10);
        assert(decimal(n)[0] == decimal(n / 10)[0]);
    }
}

proof fn lemma_zeros_in_front(digits: Seq<char>, n: nat, k: nat)
    requires
        writes(digits, n),
        digits.len() > 0,
    ensures
        writes(zeros(k) + digits, n),
    decreases digits.len(),
{
    let all = zeros(k) + digits;
    assert(all.drop_last() =~= zeros(k) + digits.drop_last());
    if digits.len() == 1 {
        assert(digits.drop_last().len() == 0);
        assert(zeros(k) + digits.drop_last() =~= zeros(k));
        lemma_zeros(k);
    } else {
        lemma_zeros_in_front(digits.drop_last(), n / 10, k);
    }
}

proof fn lemma_zeros(k: nat)
    ensures
        writes(zeros(k), 0),
    decreases k,
{
    if k > 0 {
        lemma_zeros((k - 1) as nat);
        assert(zeros(k).drop_last() =~= zeros((k - 1) as nat));
    }
}

} // verus!
