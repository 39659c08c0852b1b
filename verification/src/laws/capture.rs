//! What is kept of the output of a command.

use vstd::prelude::*;
use vstd::utf8::decode_utf8;

use crate::text::{decimal, lossy};
use crate::tools::process::{
    decoded_text, fits_half, head_of, kept_text, law_head_is_longest, law_tail_is_longest,
    law_truncation_omits, line_count, newlines, omitted, tail_of,
};

verus! {

/// How many lines `s` holds: one for every line feed, and one for what follows the
/// last of them.
pub open spec fn lines_in(s: Seq<u8>) -> nat {
    s.filter(|b: u8| b == 10).len() + (if s.len() > 0 && s.last() != 10 {
        1nat
    } else {
        0nat
    })
}

proof fn lemma_lines(s: Seq<u8>)
    ensures
        newlines(s) == s.filter(|b: u8| b == 10).len(),
        line_count(s) == lines_in(s),
    decreases s.len(),
{
    reveal(Seq::filter);
    if s.len() > 0 {
        lemma_lines(s.drop_last());
    }
}

/// Whether `s` holds at most `bytes` bytes and `lines` lines.
pub open spec fn is_within(s: Seq<u8>, bytes: nat, lines: nat) -> bool {
    s.len() <= bytes && lines_in(s) <= lines
}

/// Whether the first `head` and the last `tail` bytes of `seen` are the most, from
/// the front and from the back, that hold 25600 bytes and 1000 lines at most; and
/// some bytes lie between them.
pub open spec fn is_cut(seen: Seq<u8>, head: int, tail: int) -> bool {
    &&& 0 <= head && 0 <= tail && head + tail < seen.len()
    &&& is_within(seen.take(head), 25_600, 1000)
    &&& !is_within(seen.take(head + 1), 25_600, 1000)
    &&& is_within(seen.skip(seen.len() - tail), 25_600, 1000)
    &&& !is_within(seen.skip(seen.len() - tail - 1), 25_600, 1000)
}

/// What stands in the place of `count` bytes that are not kept.
pub open spec fn gap(count: int) -> Seq<char> {
    "\n...[truncated: "@ + decimal(count as nat) + " bytes omitted]...\n"@
}

/// Output of at most 51200 bytes and 2000 lines is kept whole. Of more output the
/// beginning and the end are kept, each as long as its limits allow, and the bytes
/// that are not kept are counted: with those kept they make up the output.
pub proof fn law_output_keeps_its_head_and_its_tail(seen: Seq<u8>)
    ensures
        is_within(seen, 51_200, 2000) ==> {
            &&& kept_text(seen) == lossy(seen)
            &&& decoded_text(seen) == decode_utf8(seen)
            &&& omitted(seen) == 0
        },
        !is_within(seen, 51_200, 2000) ==> exists|head: int, tail: int|
            {
                &&& #[trigger] is_cut(seen, head, tail)
                &&& seen.len() <= u64::MAX ==> head + omitted(seen) + tail == seen.len()
                &&& kept_text(seen) == lossy(seen.take(head)) + gap(omitted(seen)) + lossy(
                    seen.skip(seen.len() - tail),
                )
                &&& decoded_text(seen) == decode_utf8(seen.take(head)) + gap(omitted(seen))
                    + decode_utf8(seen.skip(seen.len() - tail))
            },
{
    lemma_lines(seen);
    if !is_within(seen, 51_200, 2000) {
        law_head_is_longest(seen);
        law_tail_is_longest(seen);
        law_truncation_omits(seen);
        let head = head_of(seen).len() as int;
        let tail = tail_of(seen).len() as int;
        lemma_lines(seen.take(head));
        lemma_lines(seen.take(head + 1));
        lemma_lines(seen.skip(seen.len() - tail));
        lemma_lines(seen.skip(seen.len() - tail - 1));
        assert(!fits_half(seen.take(head + 1)));
        assert(!fits_half(seen.skip(seen.len() - tail - 1)));
        assert(is_cut(seen, head, tail));
        let (front, back) = (lossy(seen.take(head)), lossy(seen.skip(seen.len() - tail)));
        assert(kept_text(seen) =~= front + gap(omitted(seen)) + back);
        assert(decoded_text(seen) =~= decode_utf8(seen.take(head)) + gap(omitted(seen))
            + decode_utf8(seen.skip(seen.len() - tail)));
    }
}

} // verus!
