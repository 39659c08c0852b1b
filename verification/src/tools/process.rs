//! Bounded output capture and the run decisions for one subprocess.
//!
//! [`Capture`] keeps a stream's whole output while it is small, and its head
//! and tail once it is not. What it holds depends only on the bytes seen, never
//! on how they were cut into chunks.

use vstd::prelude::*;
use vstd::utf8::{decode_utf8, valid_utf8};

use crate::text::{concat5, decimal, decimal_text, decode_text, lossy, lossy_text};

verus! {

/// The most lines kept of one output stream.
pub const MAX_LINES: usize = 2000;

/// The most bytes kept of one output stream.
pub const MAX_BYTES: usize = 51_200;

/// The most lines kept of a truncated stream's head, and of its tail.
pub const HALF_LINES: usize = 1000;

/// The most bytes kept of a truncated stream's head, and of its tail.
pub const HALF_BYTES: usize = 25_600;

/// How many newline bytes `s` holds.
pub open spec fn newlines(s: Seq<u8>) -> nat
    decreases s.len(),
{
    if s.len() == 0 {
        0
    } else {
        newlines(s.drop_last()) + (if s.last() == 10 {
            1nat
        } else {
            0nat
        })
    }
}

/// How many lines `s` holds, an unterminated last one included.
pub open spec fn line_count(s: Seq<u8>) -> nat {
    newlines(s) + (if s.len() > 0 && s.last() != 10 {
        1nat
    } else {
        0nat
    })
}

/// Whether `s` holds at most `bytes` bytes and `lines` lines.
pub open spec fn fits(s: Seq<u8>, bytes: nat, lines: nat) -> bool {
    s.len() <= bytes && line_count(s) <= lines
}

/// Whether a whole stream is small enough to be kept.
pub open spec fn fits_whole(s: Seq<u8>) -> bool {
    fits(s, MAX_BYTES as nat, MAX_LINES as nat)
}

/// Whether a part is small enough to be a head or a tail.
pub open spec fn fits_half(s: Seq<u8>) -> bool {
    fits(s, HALF_BYTES as nat, HALF_LINES as nat)
}

/// The longest prefix of `s` that is small enough to be a head.
pub open spec fn head_of(s: Seq<u8>) -> Seq<u8>
    decreases s.len(),
{
    if s.len() == 0 || fits_half(s) {
        s
    } else {
        head_of(s.drop_last())
    }
}

/// The longest suffix of `s` that is small enough to be a tail.
pub open spec fn tail_of(s: Seq<u8>) -> Seq<u8>
    decreases s.len(),
{
    if s.len() == 0 || fits_half(s) {
        s
    } else {
        tail_of(s.drop_first())
    }
}

proof fn lemma_newlines_push(s: Seq<u8>, b: u8)
    ensures
        newlines(s.push(b)) == newlines(s) + (if b == 10 {
            1nat
        } else {
            0nat
        }),
{
    assert(s.push(b).drop_last() =~= s);
}

proof fn lemma_newlines_concat(a: Seq<u8>, b: Seq<u8>)
    ensures
        newlines(a + b) == newlines(a) + newlines(b),
    decreases b.len(),
{
    if b.len() == 0 {
        assert(a + b =~= a);
    } else {
        lemma_newlines_concat(a, b.drop_last());
        assert((a + b).drop_last() =~= a + b.drop_last());
    }
}

proof fn lemma_newlines_bound(s: Seq<u8>)
    ensures
        newlines(s) <= s.len(),
    decreases s.len(),
{
    if s.len() > 0 {
        lemma_newlines_bound(s.drop_last());
    }
}

proof fn lemma_no_newline(s: Seq<u8>)
    requires
        forall|i: int| 0 <= i < s.len() ==> s[i] != 10,
    ensures
        newlines(s) == 0,
    decreases s.len(),
{
    if s.len() > 0 {
        lemma_no_newline(s.drop_last());
    }
}

/// The line count of a part never exceeds that of the whole.
proof fn lemma_line_count_prefix(a: Seq<u8>, b: Seq<u8>)
    ensures
        line_count(a) <= line_count(a + b),
{
    lemma_newlines_concat(a, b);
    if b.len() == 0 {
        assert(a + b =~= a);
    } else {
        assert((a + b).last() == b.last());
        if b.last() == 10 {
            assert(newlines(b) >= 1);
        }
    }
}

proof fn lemma_line_count_suffix(a: Seq<u8>, b: Seq<u8>)
    ensures
        line_count(b) <= line_count(a + b) <= line_count(a) + line_count(b),
{
    lemma_newlines_concat(a, b);
    if b.len() == 0 {
        assert(a + b =~= a);
    } else {
        assert((a + b).last() == b.last());
    }
}

/// What does not fit does not fit either once it has grown.
proof fn lemma_fits_prefix(a: Seq<u8>, b: Seq<u8>, bytes: nat, lines: nat)
    requires
        !fits(a, bytes, lines),
    ensures
        !fits(a + b, bytes, lines),
{
    lemma_line_count_prefix(a, b);
}

/// A head is settled once the stream has outgrown it.
proof fn lemma_head_settled(a: Seq<u8>, b: Seq<u8>)
    requires
        !fits_half(a),
    ensures
        head_of(a + b) == head_of(a),
    decreases b.len(),
{
    if b.len() == 0 {
        assert(a + b =~= a);
    } else {
        lemma_fits_prefix(a, b, HALF_BYTES as nat, HALF_LINES as nat);
        assert((a + b).drop_last() =~= a + b.drop_last());
        lemma_head_settled(a, b.drop_last());
    }
}

/// Keeping a tail and appending to it gives the tail of the whole.
proof fn lemma_tail_append(a: Seq<u8>, b: Seq<u8>)
    ensures
        tail_of(tail_of(a) + b) == tail_of(a + b),
    decreases a.len(),
{
    if a.len() > 0 && !fits_half(a) {
        lemma_fits_prefix(a, b, HALF_BYTES as nat, HALF_LINES as nat);
        assert((a + b).drop_first() =~= a.drop_first() + b);
        lemma_tail_append(a.drop_first(), b);
    }
}

/// Leading bytes without which `s` still does not fit are not in its tail.
proof fn lemma_tail_skip(s: Seq<u8>, n: int)
    requires
        0 <= n <= s.len(),
        forall|i: int| 0 <= i < n ==> !fits_half(#[trigger] s.skip(i)),
    ensures
        tail_of(s) == tail_of(s.skip(n)),
    decreases n,
{
    if n == 0 {
        assert(s.skip(0) =~= s);
    } else {
        assert(s.skip(0) =~= s);
        assert(!fits_half(s.skip(0)));
        assert(s.drop_first().skip(n - 1) =~= s.skip(n));
        assert forall|i: int| 0 <= i < n - 1 implies !fits_half(
            #[trigger] s.drop_first().skip(i),
        ) by {
            assert(s.drop_first().skip(i) =~= s.skip(i + 1));
        }
        lemma_tail_skip(s.drop_first(), n - 1);
    }
}

/// A head is a prefix that fits, and no longer prefix does.
pub proof fn law_head_is_longest(s: Seq<u8>)
    ensures
        head_of(s).len() <= s.len(),
        head_of(s) == s.take(head_of(s).len() as int),
        fits_half(head_of(s)),
        forall|k: int| head_of(s).len() < k <= s.len() ==> !fits_half(#[trigger] s.take(k)),
    decreases s.len(),
{
    if s.len() == 0 || fits_half(s) {
        assert(s.take(s.len() as int) =~= s);
    } else {
        let rest = s.drop_last();
        law_head_is_longest(rest);
        assert(s.take(head_of(s).len() as int) =~= rest.take(head_of(rest).len() as int));
        assert forall|k: int| head_of(s).len() < k <= s.len() implies !fits_half(
            #[trigger] s.take(k),
        ) by {
            if k == s.len() {
                assert(s.take(k) =~= s);
            } else {
                assert(s.take(k) =~= rest.take(k));
            }
        }
    }
}

/// A tail is a suffix that fits, and no longer suffix does.
pub proof fn law_tail_is_longest(s: Seq<u8>)
    ensures
        tail_of(s).len() <= s.len(),
        tail_of(s) == s.skip(s.len() - tail_of(s).len()),
        fits_half(tail_of(s)),
        forall|k: int| 0 <= k < s.len() - tail_of(s).len() ==> !fits_half(#[trigger] s.skip(k)),
    decreases s.len(),
{
    if s.len() == 0 || fits_half(s) {
        assert(s.skip(0) =~= s);
    } else {
        let rest = s.drop_first();
        law_tail_is_longest(rest);
        assert(s.skip(s.len() - tail_of(s).len()) =~= rest.skip(rest.len() - tail_of(rest).len()));
        assert forall|k: int| 0 <= k < s.len() - tail_of(s).len() implies !fits_half(
            #[trigger] s.skip(k),
        ) by {
            if k == 0 {
                assert(s.skip(k) =~= s);
            } else {
                assert(s.skip(k) =~= rest.skip(k - 1));
            }
        }
    }
}

/// A stream that is too large to keep loses at least one byte: its head and
/// its tail do not meet.
pub proof fn law_truncation_omits(s: Seq<u8>)
    requires
        !fits_whole(s),
    ensures
        head_of(s).len() + tail_of(s).len() < s.len(),
{
    law_head_is_longest(s);
    law_tail_is_longest(s);
    let h = head_of(s);
    let t = tail_of(s);
    if h.len() + t.len() >= s.len() {
        let part = t.skip(h.len() + t.len() - s.len());
        assert(s =~= h + part);
        assert(t =~= t.take(h.len() + t.len() - s.len()) + part);
        lemma_line_count_suffix(t.take(h.len() + t.len() - s.len()), part);
        lemma_line_count_suffix(h, part);
    }
}

/// The captured text of one output stream.
#[derive(Debug)]
pub struct CappedOutput {
    /// The kept text; a truncated stream's parts with a marker between them.
    pub text: String,
    /// How many bytes were not kept.
    pub omitted_bytes: u64,
    /// Whether every kept part is UTF-8.
    pub valid_utf8: bool,
}

enum CaptureState {
    Full { bytes: Vec<u8>, newlines: usize },
    Truncated { head: Vec<u8>, tail: Vec<u8>, tail_newlines: usize },
}

/// A bounded record of one output stream.
pub struct Capture {
    state: CaptureState,
    total_bytes: u64,
    seen: Ghost<Seq<u8>>,
}

/// The number of bytes as the counter holds it.
pub open spec fn counted(n: nat) -> u64 {
    if n <= u64::MAX {
        n as u64
    } else {
        u64::MAX
    }
}

/// The output kept of a stream that held `seen`.
pub open spec fn kept_text(seen: Seq<u8>) -> Seq<char> {
    if fits_whole(seen) {
        lossy(seen)
    } else {
        lossy(head_of(seen)) + "\n...[truncated: "@ + decimal(omitted(seen) as nat)
            + " bytes omitted]...\n"@ + lossy(tail_of(seen))
    }
}

/// The output kept of a stream whose kept bytes are UTF-8: their decoding.
pub open spec fn decoded_text(seen: Seq<u8>) -> Seq<char> {
    if fits_whole(seen) {
        decode_utf8(seen)
    } else {
        decode_utf8(head_of(seen)) + "\n...[truncated: "@ + decimal(omitted(seen) as nat)
            + " bytes omitted]...\n"@ + decode_utf8(tail_of(seen))
    }
}

/// How many bytes of `seen` are not kept.
pub open spec fn omitted(seen: Seq<u8>) -> int {
    if fits_whole(seen) {
        0
    } else {
        counted(seen.len()) - head_of(seen).len() - tail_of(seen).len()
    }
}

impl Default for Capture {
    fn default() -> (capture: Self)
        ensures
            capture.wf(),
            capture.seen() == Seq::<u8>::empty(),
    {
        Capture {
            state: CaptureState::Full { bytes: Vec::new(), newlines: 0 },
            total_bytes: 0,
            seen: Ghost(Seq::empty()),
        }
    }
}

impl Capture {
    /// Every byte pushed so far.
    pub closed spec fn seen(&self) -> Seq<u8> {
        self.seen@
    }

    /// What the record holds is what the bytes seen call for.
    pub closed spec fn wf(&self) -> bool {
        &&& self.total_bytes == counted(self.seen@.len())
        &&& match self.state {
            CaptureState::Full { bytes, newlines: count } => {
                &&& fits_whole(self.seen@)
                &&& bytes@ == self.seen@
                &&& count == newlines(self.seen@)
            },
            CaptureState::Truncated { head, tail, tail_newlines } => {
                &&& !fits_whole(self.seen@)
                &&& head@ == head_of(self.seen@)
                &&& tail@ == tail_of(self.seen@)
                &&& tail_newlines == newlines(tail@)
            },
        }
    }

    /// Records `bytes` as the next part of the stream.
    pub fn push(&mut self, bytes: &[u8])
        requires
            old(self).wf(),
        ensures
            final(self).wf(),
            final(self).seen() == old(self).seen() + bytes@,
    {
        let ghost before = self.seen@;
        let mut index: usize = 0;
        assert(before + bytes@.take(0) =~= before);
        while index < bytes.len()
            invariant
                index <= bytes.len(),
                self.wf(),
                before == old(self).seen@,
                self.seen@ == before + bytes@.take(index as int),
            decreases bytes.len() - index,
        {
            let ghost seen = self.seen@;
            match &mut self.state {
                CaptureState::Full { bytes: output, newlines: count } => {
                    let byte = bytes[index];
                    proof {
                        lemma_newlines_push(seen, byte);
                        lemma_newlines_bound(seen);
                        assert(bytes@.take(index + 1) =~= bytes@.take(index as int).push(byte));
                        assert(before + bytes@.take(index + 1) =~= seen.push(byte));
                        assert(seen.push(byte).last() == byte);
                    }
                    output.push(byte);
                    if byte == 10 {
                        *count = *count + 1;
                    }
                    let open: usize = if byte == 10 {
                        0
                    } else {
                        1
                    };
                    let exceeded = output.len() > MAX_BYTES || *count + open > MAX_LINES;
                    index = index + 1;
                    self.total_bytes = self.total_bytes.saturating_add(1);
                    self.seen = Ghost(seen.push(byte));
                    if exceeded {
                        self.truncate();
                    }
                },
                CaptureState::Truncated { head: _, tail, tail_newlines } => {
                    let rest = vstd::slice::slice_subrange(bytes, index, bytes.len());
                    proof {
                        law_tail_is_longest(seen);
                    }
                    append_tail(tail, tail_newlines, rest);
                    self.total_bytes = self.total_bytes.saturating_add(
                        (bytes.len() - index) as u64,
                    );
                    self.seen = Ghost(seen + rest@);
                    proof {
                        lemma_tail_append(seen, rest@);
                        lemma_fits_prefix(seen, rest@, MAX_BYTES as nat, MAX_LINES as nat);
                        lemma_head_settled(seen, rest@);
                        assert(before + bytes@ =~= seen + rest@);
                    }
                    return ;
                },
            }
        }
        assert(bytes@.take(bytes@.len() as int) =~= bytes@);
    }

    /// Gives up the middle of a stream that has just become too large.
    fn truncate(&mut self)
        requires
            old(self).total_bytes == counted(old(self).seen@.len()),
            !fits_whole(old(self).seen@),
            old(self).state matches CaptureState::Full { bytes, .. } && bytes@ == old(self).seen@,
        ensures
            final(self).wf(),
            final(self).seen@ == old(self).seen@,
    {
        let mut split = (Vec::new(), Vec::new(), 0);
        if let CaptureState::Full { bytes, .. } = &self.state {
            split = split_initial(bytes.as_slice());
        }
        let (head, tail, tail_newlines) = split;
        self.state = CaptureState::Truncated { head, tail, tail_newlines };
    }

    /// The kept output.
    pub fn finish(self) -> (output: CappedOutput)
        requires
            self.wf(),
        ensures
            output.text@ == kept_text(self.seen()),
            output.valid_utf8 ==> output.text@ == decoded_text(self.seen()),
            output.omitted_bytes == omitted(self.seen()),
            output.valid_utf8 == (if fits_whole(self.seen()) {
                valid_utf8(self.seen())
            } else {
                valid_utf8(head_of(self.seen())) && valid_utf8(tail_of(self.seen()))
            }),
    {
        match self.state {
            CaptureState::Full { bytes, .. } => CappedOutput {
                text: lossy_text(bytes.as_slice()),
                omitted_bytes: 0,
                valid_utf8: decode_text(bytes.as_slice()).is_ok(),
            },
            CaptureState::Truncated { head, tail, .. } => {
                proof {
                    law_truncation_omits(self.seen@);
                    law_head_is_longest(self.seen@);
                    law_tail_is_longest(self.seen@);
                }
                let omitted_bytes: u64 = self.total_bytes - (head.len() + tail.len()) as u64;
                let before = lossy_text(head.as_slice());
                let after = lossy_text(tail.as_slice());
                let number = decimal_text(omitted_bytes);
                let text = concat5(
                    before.as_str(),
                    "\n...[truncated: ",
                    number.as_str(),
                    " bytes omitted]...\n",
                    after.as_str(),
                );
                let valid = decode_text(head.as_slice()).is_ok() && decode_text(
                    tail.as_slice(),
                ).is_ok();
                CappedOutput { text, omitted_bytes, valid_utf8: valid }
            },
        }
    }
}

/// The head and the tail of `bytes`, and the newlines in the tail.
fn split_initial(bytes: &[u8]) -> (parts: (Vec<u8>, Vec<u8>, usize))
    ensures
        parts.0@ == head_of(bytes@),
        parts.1@ == tail_of(bytes@),
        parts.2 == newlines(parts.1@),
{
    let mut head: Vec<u8> = Vec::new();
    let mut head_newlines: usize = 0;
    let mut i: usize = 0;
    assert(bytes@.take(0) =~= Seq::<u8>::empty());
    while i < bytes.len() && head.len() != HALF_BYTES && head_newlines != HALF_LINES
        invariant
            i <= bytes.len(),
            head@ == bytes@.take(i as int),
            head_newlines == newlines(head@),
            head.len() <= HALF_BYTES,
            head_newlines <= HALF_LINES,
            head_newlines == HALF_LINES ==> head@.len() > 0 && head@.last() == 10,
        decreases bytes.len() - i,
    {
        let byte = bytes[i];
        proof {
            lemma_newlines_push(head@, byte);
            assert(bytes@.take(i + 1) =~= head@.push(byte));
        }
        head.push(byte);
        if byte == 10 {
            head_newlines = head_newlines + 1;
        }
        i = i + 1;
    }
    proof {
        lemma_head_found(bytes@, i as int);
    }
    let mut tail: Vec<u8> = Vec::new();
    let mut tail_newlines: usize = 0;
    append_tail(&mut tail, &mut tail_newlines, bytes);
    assert(Seq::<u8>::empty() + bytes@ =~= bytes@);
    (head, tail, tail_newlines)
}

/// A prefix that fits and cannot grow is the head.
proof fn lemma_head_found(s: Seq<u8>, i: int)
    requires
        0 <= i <= s.len(),
        fits_half(s.take(i)),
        i == s.len() || i == HALF_BYTES || (newlines(s.take(i)) == HALF_LINES && i > 0 && s.take(
            i,
        ).last() == 10),
    ensures
        head_of(s) == s.take(i),
{
    if i < s.len() {
        let longer = s.take(i + 1);
        lemma_newlines_push(s.take(i), s[i]);
        assert(longer =~= s.take(i).push(s[i]));
        assert(longer.last() == s[i]);
        assert(!fits_half(longer));
        assert(s =~= longer + s.skip(i + 1));
        lemma_head_settled(longer, s.skip(i + 1));
        assert(longer.drop_last() =~= s.take(i));
        assert(head_of(longer) == head_of(s.take(i)));
    } else {
        assert(s.take(i) =~= s);
    }
}

/// How many newline bytes `bytes` holds.
fn count_newlines(bytes: &[u8]) -> (count: usize)
    ensures
        count == newlines(bytes@),
        count <= bytes@.len(),
{
    let mut count: usize = 0;
    let mut i: usize = 0;
    assert(bytes@.take(0) =~= Seq::<u8>::empty());
    while i < bytes.len()
        invariant
            i <= bytes.len(),
            count == newlines(bytes@.take(i as int)),
            count <= i,
        decreases bytes.len() - i,
    {
        proof {
            lemma_newlines_push(bytes@.take(i as int), bytes@[i as int]);
            assert(bytes@.take(i + 1) =~= bytes@.take(i as int).push(bytes@[i as int]));
        }
        if bytes[i] == 10 {
            count = count + 1;
        }
        i = i + 1;
    }
    assert(bytes@.take(bytes@.len() as int) =~= bytes@);
    count
}

/// Appends `bytes` to a tail and drops what no longer belongs to it: bytes
/// beyond the byte limit first, then whole leading lines.
fn append_tail(tail: &mut Vec<u8>, newline_count: &mut usize, bytes: &[u8])
    requires
        *old(newline_count) == newlines(old(tail)@),
    ensures
        final(tail)@ == tail_of(old(tail)@ + bytes@),
        *final(newline_count) == newlines(final(tail)@),
{
    let ghost all = tail@ + bytes@;
    tail.extend_from_slice(bytes);
    assert(tail@ =~= all);
    if tail.len() > HALF_BYTES {
        let excess: usize = tail.len() - HALF_BYTES;
        let kept = tail.split_off(excess);
        proof {
            assert(kept@ =~= all.skip(excess as int));
            lemma_tail_skip(all, excess as int);
        }
        *tail = kept;
    }
    let ghost capped = tail@;
    let count: usize = count_newlines(tail.as_slice());
    let open: usize = if tail.len() > 0 && tail[tail.len() - 1] != 10 {
        1
    } else {
        0
    };
    let mut remaining: usize = count;
    let mut from: usize = 0;
    assert(capped.skip(0) =~= capped);
    while remaining + open > HALF_LINES
        invariant
            tail@ == capped,
            capped.len() <= HALF_BYTES,
            from <= capped.len(),
            remaining == newlines(capped.skip(from as int)),
            remaining <= capped.len(),
            open == (if capped.len() > 0 && capped.last() != 10 {
                1usize
            } else {
                0usize
            }),
            tail_of(all) == tail_of(capped.skip(from as int)),
        decreases capped.len() - from,
    {
        let ghost part = capped.skip(from as int);
        proof {
            lemma_newlines_bound(part);
        }
        let mut at: usize = from;
        while at < tail.len() && tail[at] != 10
            invariant
                tail@ == capped,
                from <= at <= tail.len(),
                forall|i: int| from <= i < at ==> capped[i] != 10,
            decreases tail.len() - at,
        {
            at = at + 1;
        }
        proof {
            if at == capped.len() {
                lemma_no_newline(part);
                assert(false);
            }
            lemma_drop_line(part, at - from);
            assert(part.skip(at - from + 1) =~= capped.skip(at + 1));
        }
        from = at + 1;
        remaining = remaining - 1;
    }
    let kept = tail.split_off(from);
    assert(kept@ =~= capped.skip(from as int));
    proof {
        assert(kept@.len() > 0 ==> kept@.last() == capped.last());
        assert(fits_half(kept@));
    }
    *tail = kept;
    *newline_count = remaining;
}

/// A first line that is one too many is not in the tail.
proof fn lemma_drop_line(s: Seq<u8>, at: int)
    requires
        0 <= at < s.len(),
        s[at] == 10,
        forall|i: int| 0 <= i < at ==> s[i] != 10,
        line_count(s) > HALF_LINES,
    ensures
        newlines(s.skip(at + 1)) == newlines(s) - 1,
        tail_of(s) == tail_of(s.skip(at + 1)),
{
    assert forall|i: int| 0 <= i < at + 1 implies !fits_half(#[trigger] s.skip(i)) by {
        lemma_no_newline(s.take(i));
        assert(s =~= s.take(i) + s.skip(i));
        lemma_newlines_concat(s.take(i), s.skip(i));
        assert(s.skip(i).last() == s.last());
    }
    lemma_tail_skip(s, at + 1);
    lemma_no_newline(s.take(at));
    lemma_newlines_push(s.take(at), s[at]);
    assert(s =~= s.take(at).push(s[at]) + s.skip(at + 1));
    lemma_newlines_concat(s.take(at).push(s[at]), s.skip(at + 1));
}

/// How long a process may take to end after it was asked to, in nanoseconds.
pub const TERMINATION_GRACE: u128 = 50_000_000;

/// How long inherited output pipes are drained after the process is gone, in
/// nanoseconds.
pub const PIPE_DRAIN_GUARD: u128 = 2_000_000_000;

/// The exit code reported for a command that timed out.
pub const TIMEOUT_EXIT_CODE: i32 = 124;

/// Where one subprocess run stands. Times are nanoseconds since the start.
#[derive(Debug, Clone, Copy)]
pub struct RunState {
    /// How long the command may run.
    pub timeout: u128,
    /// When the process was seen to have exited.
    pub exited_at: Option<u128>,
    /// Whether the run was cut short by its timeout.
    pub timed_out: bool,
    /// When the process was asked to end.
    pub graceful_at: Option<u128>,
    /// When the process was forced to end.
    pub forced_at: Option<u128>,
}

/// What one look at the subprocess found.
#[derive(Debug, Clone, Copy)]
pub struct Poll {
    /// The time of the look.
    pub now: u128,
    /// Whether the process has exited.
    pub exited: bool,
    /// Whether both output pipes are closed.
    pub pipes_closed: bool,
    /// Whether an interrupt signal is pending.
    pub signaled: bool,
}

/// How a run goes on after a look.
#[derive(Debug, Clone, Copy, PartialEq, Eq, Structural)]
pub enum RunNext {
    /// Look again after a pause.
    Wait,
    /// The process is reaped and its pipes are closed.
    Done,
    /// Close the pipes, reap the process, and end.
    Abandon,
}

/// What to do after one look.
#[derive(Debug, Clone, Copy)]
pub struct RunStep {
    /// Ask the process group to end.
    pub terminate: bool,
    /// Force the process group to end.
    pub kill: bool,
    /// How the run goes on.
    pub next: RunNext,
}

/// Whether `at` lies at least `span` before `now`.
pub open spec fn past(at: Option<u128>, span: u128, now: u128) -> bool {
    at matches Some(at) && now - at >= span
}

impl RunState {
    /// Whether an interrupt is to end the process at this look.
    pub open spec fn interrupts(self, poll: Poll) -> bool {
        poll.signaled && self.graceful_at is None
    }

    /// Whether the timeout is to end the process at this look.
    pub open spec fn expires(self, poll: Poll) -> bool {
        &&& !self.timed_out
        &&& self.graceful_at is None
        &&& !poll.signaled
        &&& self.exited_at is None
        &&& !poll.exited
        &&& poll.now >= self.timeout
    }

    /// When the process was asked to end, this look included.
    pub open spec fn asked_at(self, poll: Poll) -> Option<u128> {
        if self.interrupts(poll) || self.expires(poll) {
            Some(poll.now)
        } else {
            self.graceful_at
        }
    }

    /// The state after a look.
    pub open spec fn after(self, poll: Poll) -> RunState {
        RunState {
            timeout: self.timeout,
            exited_at: if self.exited_at is None && poll.exited {
                Some(poll.now)
            } else {
                self.exited_at
            },
            timed_out: self.timed_out || self.expires(poll),
            graceful_at: self.asked_at(poll),
            forced_at: if self.forced_at is None && past(
                self.asked_at(poll),
                TERMINATION_GRACE,
                poll.now,
            ) {
                Some(poll.now)
            } else {
                self.forced_at
            },
        }
    }

    /// How the run goes on from this state: it is over once the process has
    /// exited and its pipes are closed, and it is abandoned once the pipes have
    /// been drained for the guard time, counted from the forced end where the
    /// run timed out and from the exit otherwise.
    pub open spec fn outlook(self, poll: Poll) -> RunNext {
        if self.exited_at is Some && poll.pipes_closed {
            RunNext::Done
        } else if past(
            if self.timed_out {
                self.forced_at
            } else {
                self.exited_at
            },
            PIPE_DRAIN_GUARD,
            poll.now,
        ) {
            RunNext::Abandon
        } else {
            RunNext::Wait
        }
    }

    /// No recorded time lies after `now`, and only a process that was asked to
    /// end is timed out or was forced to.
    pub open spec fn consistent(self, now: u128) -> bool {
        &&& self.exited_at matches Some(at) ==> at <= now
        &&& self.graceful_at matches Some(at) ==> at <= now
        &&& self.forced_at matches Some(at) ==> at <= now
        &&& self.timed_out ==> self.graceful_at is Some
        &&& self.forced_at matches Some(at) ==> past(self.graceful_at, TERMINATION_GRACE, at)
    }

    /// The state of a run that has just started.
    pub fn new(timeout: u128) -> (state: Self)
        ensures
            state == (RunState {
                timeout,
                exited_at: None,
                timed_out: false,
                graceful_at: None,
                forced_at: None,
            }),
            state.consistent(0),
    {
        RunState { timeout, exited_at: None, timed_out: false, graceful_at: None, forced_at: None }
    }

    /// Takes one look into account and says what to do.
    pub fn step(&mut self, poll: Poll) -> (step: RunStep)
        requires
            old(self).consistent(poll.now),
        ensures
            *final(self) == old(self).after(poll),
            final(self).consistent(poll.now),
            step.terminate == (old(self).interrupts(poll) || old(self).expires(poll)),
            step.kill == (old(self).forced_at is None && final(self).forced_at is Some),
            step.next == final(self).outlook(poll),
    {
        let mut terminate = false;
        let mut kill = false;
        if self.exited_at.is_none() && poll.exited {
            self.exited_at = Some(poll.now);
        }
        if poll.signaled && self.graceful_at.is_none() {
            self.graceful_at = Some(poll.now);
            terminate = true;
        }
        if !self.timed_out && self.graceful_at.is_none() && self.exited_at.is_none() && poll.now
            >= self.timeout {
            self.timed_out = true;
            self.graceful_at = Some(poll.now);
            terminate = true;
        }
        if self.forced_at.is_none() {
            if let Some(sent) = self.graceful_at {
                if poll.now - sent >= TERMINATION_GRACE {
                    self.forced_at = Some(poll.now);
                    kill = true;
                }
            }
        }
        let drain_started = if self.timed_out {
            self.forced_at
        } else {
            self.exited_at
        };
        let next = if self.exited_at.is_some() && poll.pipes_closed {
            RunNext::Done
        } else {
            match drain_started {
                Some(at) => {
                    if poll.now - at >= PIPE_DRAIN_GUARD {
                        RunNext::Abandon
                    } else {
                        RunNext::Wait
                    }
                },
                None => RunNext::Wait,
            }
        };
        RunStep { terminate, kill, next }
    }

    /// The status word of the finished run.
    pub fn status(&self) -> (status: &'static str)
        ensures
            status@ == (if self.timed_out {
                "timed_out"@
            } else {
                "exited"@
            }),
    {
        if self.timed_out {
            "timed_out"
        } else {
            "exited"
        }
    }

    /// The exit code of the finished run, from what the system reported of the
    /// process: its own code, or the signal that ended it.
    pub fn exit_code(&self, code: Option<i32>, signal: Option<i32>) -> (exit_code: i32)
        requires
            signal matches Some(signal) ==> signal <= i32::MAX - 128,
        ensures
            self.timed_out ==> exit_code == TIMEOUT_EXIT_CODE,
            !self.timed_out ==> exit_code == (match (code, signal) {
                (Some(code), _) => code as int,
                (None, Some(signal)) => 128 + signal,
                (None, None) => 1int,
            }),
    {
        if self.timed_out {
            return TIMEOUT_EXIT_CODE;
        }
        match (code, signal) {
            (Some(code), _) => code,
            (None, Some(signal)) => 128 + signal,
            (None, None) => 1,
        }
    }
}

/// A process is asked to end once at most: after that no look asks again.
pub proof fn law_terminates_once(state: RunState, first: Poll, second: Poll)
    requires
        state.interrupts(first) || state.expires(first),
    ensures
        !state.after(first).interrupts(second),
        !state.after(first).expires(second),
{
}

/// A timed-out run ends: a look made the grace time after the process was asked
/// to end forces it, and a look made the guard time after that ends the run.
pub proof fn law_timed_out_run_ends(state: RunState, poll: Poll)
    requires
        state.consistent(poll.now),
        state.timed_out,
    ensures
        past(state.graceful_at, TERMINATION_GRACE, poll.now) ==> state.after(poll).forced_at is Some,
        past(state.forced_at, PIPE_DRAIN_GUARD, poll.now) ==> state.after(poll).outlook(poll)
            != RunNext::Wait,
{
}

/// A run that has exited before its timeout never times out.
pub proof fn law_exit_settles_the_status(state: RunState, poll: Poll)
    requires
        state.exited_at is Some,
        !state.timed_out,
    ensures
        !state.after(poll).timed_out,
{
}

} // verus!
