//! Where the parts of a text stand.

use vstd::prelude::*;

use crate::text::{join_with, lemma_join_split, lemma_split_nonempty, lemma_split_parts, split_on};

verus! {

/// Whether the parts of `text` start at `starts`: one after the other, with `sep`
/// between two of them, and nothing else.
pub open spec fn is_laid_out(
    text: Seq<char>,
    parts: Seq<Seq<char>>,
    sep: Seq<char>,
    starts: Seq<int>,
) -> bool {
    &&& starts.len() == parts.len()
    &&& parts.len() == 0 ==> text.len() == 0
    &&& parts.len() > 0 ==> starts[0] == 0 && text.len() == starts.last() + parts.last().len()
    &&& forall|i: int|
        0 <= i < parts.len() ==> {
            &&& 0 <= #[trigger] starts[i]
            &&& starts[i] + parts[i].len() <= text.len()
            &&& text.subrange(starts[i], starts[i] + parts[i].len()) == parts[i]
        }
    &&& forall|i: int|
        0 <= i < parts.len() - 1 ==> {
            &&& #[trigger] starts[i] + parts[i].len() + sep.len() == starts[i + 1]
            &&& text.subrange(starts[i] + parts[i].len(), starts[i + 1]) == sep
        }
}

/// Whether `text` is made of `parts`, in order, with `sep` between two of them.
#[verifier::opaque]
pub open spec fn is_joined(text: Seq<char>, parts: Seq<Seq<char>>, sep: Seq<char>) -> bool {
    exists|starts: Seq<int>| #[trigger] is_laid_out(text, parts, sep, starts)
}

/// A text that is made of parts is made of one part more when that is appended.
pub proof fn lemma_joined_push(
    text: Seq<char>,
    parts: Seq<Seq<char>>,
    sep: Seq<char>,
    last: Seq<char>,
)
    requires
        is_joined(text, parts, sep),
    ensures
        parts.len() > 0 ==> is_joined(text + sep + last, parts.push(last), sep),
        parts.len() == 0 ==> is_joined(last, parts.push(last), sep),
{
    reveal(is_joined);
    let starts = choose|starts: Seq<int>| #[trigger] is_laid_out(text, parts, sep, starts);
    let more = parts.push(last);
    if parts.len() == 0 {
        assert(last.subrange(0, last.len() as int) =~= last);
        assert(is_laid_out(last, more, sep, seq![0]));
    } else {
        let whole = text + sep + last;
        let all = starts.push((text.len() + sep.len()) as int);
        assert forall|i: int| 0 <= i < more.len() implies {
            &&& 0 <= #[trigger] all[i]
            &&& all[i] + more[i].len() <= whole.len()
            &&& whole.subrange(all[i], all[i] + more[i].len()) == more[i]
        } by {
            if i < parts.len() {
                assert(all[i] == starts[i]);
                assert(whole.subrange(all[i], all[i] + more[i].len()) =~= text.subrange(
                    starts[i],
                    starts[i] + parts[i].len(),
                ));
            } else {
                assert(whole.subrange(all[i], all[i] + last.len()) =~= last);
            }
        }
        assert forall|i: int| 0 <= i < more.len() - 1 implies {
            &&& #[trigger] all[i] + more[i].len() + sep.len() == all[i + 1]
            &&& whole.subrange(all[i] + more[i].len(), all[i + 1]) == sep
        } by {
            assert(all[i] == starts[i]);
            if i < parts.len() - 1 {
                assert(starts[i] + parts[i].len() + sep.len() == starts[i + 1]);
                assert(starts[i + 1] + parts[i + 1].len() <= text.len());
                assert(whole.subrange(all[i] + more[i].len(), all[i + 1]) =~= text.subrange(
                    starts[i] + parts[i].len(),
                    starts[i + 1],
                ));
            } else {
                assert(whole.subrange(text.len() as int, (text.len() + sep.len()) as int) =~= sep);
            }
        }
        assert(is_laid_out(whole, more, sep, all));
    }
}

/// Joined parts stand in the text in order, each whole, with the separator between
/// two of them and nothing else.
pub proof fn law_join_lays_out_every_part(parts: Seq<Seq<char>>, sep: Seq<char>)
    ensures
        is_joined(join_with(parts, sep), parts, sep),
    decreases parts.len(),
{
    reveal(is_joined);
    if parts.len() == 0 {
        assert(is_laid_out(join_with(parts, sep), parts, sep, Seq::<int>::empty()));
    } else {
        let front = parts.drop_last();
        law_join_lays_out_every_part(front, sep);
        lemma_joined_push(join_with(front, sep), front, sep, parts.last());
        assert(front.push(parts.last()) =~= parts);
    }
}

/// Nothing but the joined parts is made of them.
pub proof fn lemma_joined_is_join(text: Seq<char>, parts: Seq<Seq<char>>, sep: Seq<char>)
    requires
        is_joined(text, parts, sep),
    ensures
        text == join_with(parts, sep),
{
    reveal(is_joined);
    let starts = choose|starts: Seq<int>| #[trigger] is_laid_out(text, parts, sep, starts);
    if parts.len() == 0 {
        assert(text =~= Seq::<char>::empty());
    } else {
        let n = parts.len() as int;
        lemma_laid_out_so_far(text, parts, sep, starts, n);
        assert(parts.take(n) =~= parts);
        assert(text.take(starts[n - 1] + parts[n - 1].len()) =~= text);
    }
}

proof fn lemma_laid_out_so_far(
    text: Seq<char>,
    parts: Seq<Seq<char>>,
    sep: Seq<char>,
    starts: Seq<int>,
    n: int,
)
    requires
        is_laid_out(text, parts, sep, starts),
        1 <= n <= parts.len(),
    ensures
        text.take(starts[n - 1] + parts[n - 1].len()) == join_with(parts.take(n), sep),
    decreases n,
{
    let (at, part) = (starts[n - 1], parts[n - 1]);
    let upto = text.take(at + part.len());
    assert(text.subrange(at, at + part.len()) == part);
    if n == 1 {
        assert(parts.take(1) =~= seq![part]);
        assert(upto =~= text.subrange(0, part.len() as int));
    } else {
        lemma_laid_out_so_far(text, parts, sep, starts, n - 1);
        let before = starts[n - 2] + parts[n - 2].len();
        assert(before + sep.len() == at);
        assert(parts.take(n).drop_last() =~= parts.take(n - 1));
        assert(upto =~= text.take(before) + text.subrange(before, at) + text.subrange(
            at,
            at + part.len(),
        ));
    }
}

/// Splitting cuts a text at every separator and nowhere else: the parts hold none,
/// and with one between any two of them they make up the text.
pub proof fn law_split_cuts_at_every_separator(s: Seq<char>, sep: char)
    ensures
        split_on(s, sep).len() > 0,
        is_joined(s, split_on(s, sep), seq![sep]),
        forall|i: int, k: int|
            0 <= i < split_on(s, sep).len() && 0 <= k < split_on(s, sep)[i].len()
                ==> #[trigger] split_on(s, sep)[i][k] != sep,
{
    lemma_split_nonempty(s, sep);
    lemma_join_split(s, sep);
    lemma_split_parts(s, sep);
    law_join_lays_out_every_part(split_on(s, sep), seq![sep]);
    assert forall|i: int, k: int|
        0 <= i < split_on(s, sep).len() && 0 <= k < split_on(s, sep)[i].len() implies
        #[trigger] split_on(s, sep)[i][k] != sep by {
        assert(!split_on(s, sep)[i].contains(sep));
    }
}

/// A part put in front of joined parts comes before the separator.
pub proof fn lemma_join_prepend(first: Seq<char>, parts: Seq<Seq<char>>, sep: Seq<char>)
    requires
        parts.len() > 0,
    ensures
        join_with(seq![first] + parts, sep) == first + sep + join_with(parts, sep),
    decreases parts.len(),
{
    let all = seq![first] + parts;
    assert(all.last() == parts.last());
    if parts.len() == 1 {
        assert(all.drop_last() =~= seq![first]);
        assert(join_with(seq![first], sep) == first);
    } else {
        lemma_join_prepend(first, parts.drop_last(), sep);
        assert(all.drop_last() =~= seq![first] + parts.drop_last());
        assert(join_with(all, sep) =~= first + sep + join_with(parts, sep));
    }
}

/// Joining two runs of parts is joining all of them.
pub proof fn lemma_join_concat(a: Seq<Seq<char>>, b: Seq<Seq<char>>, sep: Seq<char>)
    requires
        a.len() > 0,
        b.len() > 0,
    ensures
        join_with(a + b, sep) == join_with(a, sep) + sep + join_with(b, sep),
    decreases b.len(),
{
    assert((a + b).last() == b.last());
    if b.len() == 1 {
        assert((a + b).drop_last() =~= a);
    } else {
        lemma_join_concat(a, b.drop_last(), sep);
        assert((a + b).drop_last() =~= a + b.drop_last());
        assert(join_with(a + b, sep) =~= join_with(a, sep) + sep + join_with(b, sep));
    }
}

/// What is put in front of the first part is put in front of the text.
pub proof fn lemma_join_lead(lead: Seq<char>, parts: Seq<Seq<char>>, sep: Seq<char>)
    requires
        parts.len() > 0,
    ensures
        join_with(parts.update(0, lead + parts[0]), sep) == lead + join_with(parts, sep),
    decreases parts.len(),
{
    let led = parts.update(0, lead + parts[0]);
    if parts.len() > 1 {
        lemma_join_lead(lead, parts.drop_last(), sep);
        assert(led.drop_last() =~= parts.drop_last().update(0, lead + parts[0]));
        assert(join_with(led, sep) =~= lead + join_with(parts, sep));
    }
}

} // verus!
