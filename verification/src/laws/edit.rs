//! What an edit does to a file.

use vstd::prelude::*;

use crate::laws::layout::{
    is_joined, law_join_lays_out_every_part, lemma_join_lead, lemma_join_prepend,
    lemma_joined_is_join, lemma_joined_push,
};
use crate::laws::text::{law_numerals_write_their_number, writes};
use crate::text::{decimal, join_with, lemma_split_join};
use crate::tools::edit::{
    capped_rows, edit_answer, edit_count, edited, match_count, replace_every, replace_first,
    replaced_count, rows_of, starts_with, unified_diff, without_return, EditCall, EditPlan,
};
use crate::tools::read::{fault_text, FileFault};

verus! {

/// Whether `p` stands in `s` at place `i`.
pub open spec fn stands_at(s: Seq<char>, p: Seq<char>, i: int) -> bool {
    0 <= i && i + p.len() <= s.len() && s.subrange(i, i + p.len()) == p
}

/// Whether `p` stands nowhere in `s`.
pub open spec fn is_free_of(s: Seq<char>, p: Seq<char>) -> bool {
    forall|i: int| !#[trigger] stands_at(s, p, i)
}

/// Whether `old` is cut into `pieces` by the text `p`, and `new` is made of the same
/// pieces with `n` in the place of each `p`.
pub open spec fn is_rewritten(
    old: Seq<char>,
    new: Seq<char>,
    p: Seq<char>,
    n: Seq<char>,
    pieces: Seq<Seq<char>>,
) -> bool {
    &&& is_joined(old, pieces, p)
    &&& is_joined(new, pieces, n)
    &&& forall|k: int| 0 <= k < pieces.len() ==> is_free_of(#[trigger] pieces[k], p)
}

/// The pieces of `s` between the occurrences of `p` that a scan from the left finds.
spec fn pieces_of(s: Seq<char>, p: Seq<char>) -> Seq<Seq<char>>
    decreases s.len(),
{
    if s.len() == 0 || p.len() == 0 {
        seq![s]
    } else if starts_with(s, p) {
        seq![Seq::<char>::empty()] + pieces_of(s.skip(p.len() as int), p)
    } else {
        let rest = pieces_of(s.skip(1), p);
        rest.update(0, seq![s[0]] + rest[0])
    }
}

proof fn lemma_pieces(s: Seq<char>, p: Seq<char>, n: Seq<char>)
    requires
        p.len() > 0,
    ensures
        ({
            let pieces = pieces_of(s, p);
            &&& pieces.len() == replaced_count(s, p) + 1
            &&& join_with(pieces, p) == s
            &&& join_with(pieces, n) == replace_every(s, p, n)
            &&& pieces[0].len() <= s.len() && s.take(pieces[0].len() as int) == pieces[0]
            &&& forall|k: int| 0 <= k < pieces.len() ==> is_free_of(#[trigger] pieces[k], p)
        }),
    decreases s.len(),
{
    let pieces = pieces_of(s, p);
    if s.len() == 0 {
        assert(s.take(0) =~= s);
    } else if starts_with(s, p) {
        let rest = s.skip(p.len() as int);
        let later = pieces_of(rest, p);
        let none = Seq::<char>::empty();
        lemma_pieces(rest, p, n);
        lemma_join_prepend(none, later, p);
        lemma_join_prepend(none, later, n);
        assert(s =~= p + rest);
        assert(none + p + rest =~= s);
        assert(none + n + replace_every(rest, p, n) =~= n + replace_every(rest, p, n));
        assert(s.take(0) =~= none);
        assert forall|k: int| 0 <= k < pieces.len() implies is_free_of(#[trigger] pieces[k], p) by {
            if k > 0 {
                assert(pieces[k] == later[k - 1]);
            }
        }
    } else {
        let rest = s.skip(1);
        let later = pieces_of(rest, p);
        let lead = seq![s[0]];
        lemma_pieces(rest, p, n);
        lemma_join_lead(lead, later, p);
        lemma_join_lead(lead, later, n);
        assert(lead + rest =~= s);
        let first = lead + later[0];
        assert(pieces[0] == first);
        assert(s.take(first.len() as int) =~= first) by {
            assert forall|i: int| 0 < i < first.len() implies s[i] == first[i] by {
                assert(rest.take(later[0].len() as int)[i - 1] == later[0][i - 1]);
            }
        }
        assert forall|k: int| 0 <= k < pieces.len() implies is_free_of(#[trigger] pieces[k], p) by {
            if k > 0 {
                assert(pieces[k] == later[k]);
            } else {
                assert forall|i: int| !#[trigger] stands_at(first, p, i) by {
                    if stands_at(first, p, i) {
                        if i == 0 {
                            assert(s.take(p.len() as int) =~= first.subrange(0, p.len() as int));
                            assert(starts_with(s, p));
                        } else {
                            assert(later[0].subrange(i - 1, i - 1 + p.len()) =~= first.subrange(
                                i,
                                i + p.len(),
                            ));
                            assert(stands_at(later[0], p, i - 1));
                        }
                    }
                }
            }
        }
    }
}

proof fn lemma_replaced_len(s: Seq<char>, p: Seq<char>, n: Seq<char>)
    requires
        p.len() > 0,
    ensures
        replace_every(s, p, n).len() == s.len() + replaced_count(s, p) * (n.len() - p.len()),
    decreases s.len(),
{
    let d = n.len() - p.len();
    if s.len() == 0 {
        assert(0 * d == 0) by (nonlinear_arith);
    } else {
        if starts_with(s, p) {
            let rest = s.skip(p.len() as int);
            lemma_replaced_len(rest, p, n);
            let c = replaced_count(rest, p) as int;
            assert((1 + c) * d == d + c * d) by (nonlinear_arith);
        } else {
            lemma_replaced_len(s.skip(1), p, n);
        }
    }
}

/// Replacing every occurrence cuts the content at the replaced text, into pieces
/// that are free of it, and puts the replacement between the same pieces: one piece
/// more than the occurrences counted. The content grows by the difference of the
/// two texts for each of them. It is refused only where there is no occurrence.
pub proof fn law_replace_all_rewrites_every_occurrence(call: EditCall, old: Seq<char>)
    requires
        call.replace_all,
        call.old_string.len() > 0,
    ensures
        match edited(call, old) {
            Ok(new) => {
                &&& edit_count(call, old) > 0
                &&& new.len() == old.len() + edit_count(call, old) * (call.new_string.len()
                    - call.old_string.len())
                &&& exists|pieces: Seq<Seq<char>>|
                    pieces.len() == edit_count(call, old) + 1 && #[trigger] is_rewritten(
                        old,
                        new,
                        call.old_string,
                        call.new_string,
                        pieces,
                    )
            },
            Err(message) => {
                &&& is_free_of(old, call.old_string)
                &&& edit_count(call, old) == 0
                &&& message == "oldString not found in "@ + call.path
            },
        },
{
    let p = call.old_string;
    let n = call.new_string;
    let pieces = pieces_of(old, p);
    lemma_pieces(old, p, n);
    lemma_replaced_len(old, p, n);
    law_join_lays_out_every_part(pieces, p);
    law_join_lays_out_every_part(pieces, n);
    assert(is_rewritten(old, join_with(pieces, n), p, n, pieces));
    if replaced_count(old, p) == 0 {
        assert(pieces.len() == 1);
        assert(old == pieces[0]);
    }
}

/// Whether `places` are all the places of `p` in `s`, in order.
pub open spec fn are_places(s: Seq<char>, p: Seq<char>, places: Seq<int>) -> bool {
    &&& forall|k: int| 0 <= k < places.len() ==> stands_at(s, p, #[trigger] places[k])
    &&& forall|k: int, l: int| 0 <= k < l < places.len() ==> places[k] < places[l]
    &&& forall|i: int| #[trigger] stands_at(s, p, i) ==> places.contains(i)
}

proof fn lemma_places(s: Seq<char>, p: Seq<char>) -> (places: Seq<int>)
    requires
        p.len() > 0,
    ensures
        are_places(s, p, places),
        places.len() == match_count(s, p),
    decreases s.len(),
{
    if s.len() == 0 {
        Seq::empty()
    } else {
        let rest = s.skip(1);
        let later = lemma_places(rest, p);
        let moved = Seq::new(later.len(), |k: int| later[k] + 1);
        let places = if starts_with(s, p) {
            seq![0int] + moved
        } else {
            moved
        };
        let shift = if starts_with(s, p) {
            1int
        } else {
            0int
        };
        assert(s.subrange(0, p.len() as int) =~= s.take(p.len() as int) || p.len() > s.len());
        assert forall|k: int| 0 <= k < places.len() implies stands_at(s, p, #[trigger] places[k]) by {
            if k >= shift {
                let i = later[k - shift];
                assert(stands_at(rest, p, i));
                assert(s.subrange(i + 1, i + 1 + p.len()) =~= rest.subrange(i, i + p.len()));
            }
        }
        assert forall|k: int, l: int| 0 <= k < l < places.len() implies places[k] < places[l] by {
            if k >= shift {
                assert(later[k - shift] < later[l - shift]);
            } else {
                assert(stands_at(rest, p, later[l - shift]));
            }
        }
        assert forall|i: int| #[trigger] stands_at(s, p, i) implies places.contains(i) by {
            if i > 0 {
                assert(rest.subrange(i - 1, i - 1 + p.len()) =~= s.subrange(i, i + p.len()));
                assert(stands_at(rest, p, i - 1));
                let k = choose|k: int| 0 <= k < later.len() && later[k] == i - 1;
                assert(places[k + shift] == i);
            } else {
                assert(s.take(p.len() as int) =~= s.subrange(0, p.len() as int));
                assert(places[0] == 0);
            }
        }
        places
    }
}

proof fn lemma_first_replaced(s: Seq<char>, p: Seq<char>, n: Seq<char>, i: int)
    requires
        p.len() > 0,
        stands_at(s, p, i),
        forall|k: int| 0 <= k < i ==> !stands_at(s, p, k),
    ensures
        replace_first(s, p, n) == s.take(i) + n + s.skip(i + p.len()),
    decreases s.len(),
{
    if i == 0 {
        assert(s.take(p.len() as int) =~= s.subrange(0, p.len() as int));
        assert(s.take(0) + n + s.skip(p.len() as int) =~= n + s.skip(p.len() as int));
    } else {
        let rest = s.skip(1);
        assert(!stands_at(s, p, 0));
        assert(s.take(p.len() as int) =~= s.subrange(0, p.len() as int));
        assert(!starts_with(s, p));
        assert(rest.subrange(i - 1, i - 1 + p.len()) =~= s.subrange(i, i + p.len()));
        assert forall|k: int| 0 <= k < i - 1 implies !stands_at(rest, p, k) by {
            assert(!stands_at(s, p, k + 1));
            assert(rest.subrange(k, k + p.len()) =~= s.subrange(k + 1, k + 1 + p.len()));
        }
        lemma_first_replaced(rest, p, n, i - 1);
        assert(seq![s[0]] + (rest.take(i - 1) + n + rest.skip(i - 1 + p.len())) =~= s.take(i) + n
            + s.skip(i + p.len()));
    }
}

/// An edit of one place goes through exactly where the text stands at one place,
/// overlaps counted: that place is replaced, and what stands before and after it is
/// kept. Otherwise the refusal says that there is none, or how many there are.
pub proof fn law_single_edit_needs_one_place(call: EditCall, old: Seq<char>)
    requires
        !call.replace_all,
        call.old_string.len() > 0,
    ensures
        exists|places: Seq<int>|
            {
                &&& #[trigger] are_places(old, call.old_string, places)
                &&& edit_count(call, old) == places.len()
                &&& match edited(call, old) {
                    Ok(new) => {
                        &&& places.len() == 1
                        &&& new == old.take(places[0]) + call.new_string + old.skip(
                            places[0] + call.old_string.len(),
                        )
                    },
                    Err(message) => if places.len() == 0 {
                        message == "oldString not found in "@ + call.path
                    } else {
                        &&& places.len() > 1
                        &&& message == "oldString matches "@ + decimal(places.len()) + " times in "@
                            + call.path
                            + "; add surrounding context to make it unique, or set replaceAll to true"@
                    },
                }
            },
{
    let p = call.old_string;
    let places = lemma_places(old, p);
    if places.len() == 1 {
        let i = places[0];
        assert(stands_at(old, p, i));
        assert forall|k: int| 0 <= k < i implies !stands_at(old, p, k) by {
            if stands_at(old, p, k) {
                assert(places.contains(k));
            }
        }
        lemma_first_replaced(old, p, call.new_string, i);
    }
    assert(are_places(old, p, places));
}

/// Whether `row` is the line `line` without its end: a carriage return before the line
/// feed belongs to that.
pub open spec fn is_row_of(row: Seq<char>, line: Seq<char>) -> bool {
    if line.len() > 0 && line.last() == '\r' {
        line == row + seq!['\r']
    } else {
        line == row
    }
}

/// Whether `rows` are the rows of the text: it is made of `lines`, each with a line feed
/// behind it, and of `rest`, a last row where it is not empty.
pub open spec fn are_rows_of(
    text: Seq<char>,
    lines: Seq<Seq<char>>,
    rest: Seq<char>,
    rows: Seq<Seq<char>>,
) -> bool {
    &&& is_joined(text, lines.push(rest), seq!['\n'])
    &&& forall|i: int, k: int|
        0 <= i <= lines.len() && 0 <= k < lines.push(rest)[i].len() ==> #[trigger] lines.push(
            rest,
        )[i][k] != '\n'
    &&& forall|i: int| 0 <= i < lines.len() ==> is_row_of(#[trigger] rows[i], lines[i])
    &&& rows.len() == lines.len() + if rest.len() > 0 {
        1int
    } else {
        0
    }
    &&& rest.len() > 0 ==> rows.last() == rest
}

proof fn lemma_rows(
    text: Seq<char>,
    lines: Seq<Seq<char>>,
    rest: Seq<char>,
    rows: Seq<Seq<char>>,
)
    requires
        are_rows_of(text, lines, rest, rows),
    ensures
        rows_of(text) == rows,
{
    let parts = lines.push(rest);
    lemma_joined_is_join(text, parts, seq!['\n']);
    assert forall|i: int| 0 <= i < parts.len() implies !(#[trigger] parts[i]).contains('\n') by {
        if parts[i].contains('\n') {
            let k = parts[i].index_of('\n');
            assert(lines.push(rest)[i][k] != '\n');
        }
    }
    lemma_split_join(parts, '\n');
    assert forall|i: int| 0 <= i < lines.len() implies without_return(#[trigger] parts[i])
        == rows[i] by {
        assert(is_row_of(rows[i], lines[i]));
        assert(without_return(parts[i]) =~= rows[i]);
    }
    assert(rows_of(text) =~= rows);
}

/// A diff of up to thirty-two rows is shown whole, row by row. Of a longer one the first
/// thirty-one rows are shown, and a last row tells how many are not.
pub proof fn law_diffs_are_shown_up_to_their_limit(
    diff: Seq<char>,
    lines: Seq<Seq<char>>,
    rest: Seq<char>,
    rows: Seq<Seq<char>>,
)
    requires
        are_rows_of(diff, lines, rest, rows),
    ensures
        rows.len() <= 32 ==> is_joined(capped_rows(diff), rows, "\n"@),
        rows.len() > 32 ==> is_joined(
            capped_rows(diff),
            rows.take(31).push(
                "... [diff truncated: "@ + decimal((rows.len() - 31) as nat) + " more lines]"@,
            ),
            "\n"@,
        ),
{
    lemma_rows(diff, lines, rest, rows);
    if rows.len() <= 32 {
        law_join_lays_out_every_part(rows, "\n"@);
    } else {
        let shown = rows.take(31);
        let count = decimal((rows.len() - 31) as nat);
        let told = "... [diff truncated: "@ + count + " more lines]"@;
        law_join_lays_out_every_part(shown, "\n"@);
        lemma_joined_push(join_with(shown, "\n"@), shown, "\n"@, told);
        reveal_strlit("\n... [diff truncated: ");
        reveal_strlit("... [diff truncated: ");
        reveal_strlit("\n");
        assert("\n... [diff truncated: "@ =~= "\n"@ + "... [diff truncated: "@);
        assert(capped_rows(diff) =~= join_with(shown, "\n"@) + "\n"@ + told);
    }
}

/// An edit that was written says how many places it replaced, in which file, and shows
/// the diff of the old content to the new; one that was not says why.
pub proof fn law_edits_say_what_they_did(
    path: Seq<char>,
    full: Seq<char>,
    old: Seq<char>,
    plan: EditPlan,
    written: core::result::Result<(), FileFault>,
)
    ensures
        match (edit_answer(path, full, old, plan, written), written) {
            (Ok(answer), Ok(_)) => {
                let diff = unified_diff(path, old, plan.content@);
                let places = if plan.count == 1 {
                    " occurrence in "@
                } else {
                    " occurrences in "@
                };
                exists|number: Seq<char>|
                    {
                        &&& #[trigger] writes(number, plan.count as nat)
                        &&& number.len() > 0
                        &&& number[0] == '0' ==> number.len() == 1
                        &&& is_joined(
                            answer,
                            seq![
                                "Successfully replaced "@,
                                number,
                                places,
                                path,
                                ".\n"@,
                                capped_rows(diff),
                            ],
                            seq![],
                        )
                    }
            },
            (Err(message), Err(fault)) => message == "cannot write "@ + full + ": "@ + fault_text(
                fault,
            ),
            _ => false,
        },
{
    if written is Ok {
        let number = decimal(plan.count as nat);
        law_numerals_write_their_number(plan.count as nat, 0);
        let places = if plan.count == 1 {
            " occurrence in "@
        } else {
            " occurrences in "@
        };
        let shown = capped_rows(unified_diff(path, old, plan.content@));
        let start = "Successfully replaced "@;
        let none: Seq<char> = seq![];
        let p0: Seq<Seq<char>> = seq![];
        law_join_lays_out_every_part(p0, none);
        lemma_joined_push(seq![], p0, none, start);
        let p1 = p0.push(start);
        lemma_joined_push(start, p1, none, number);
        let p2 = p1.push(number);
        let t2 = start + none + number;
        lemma_joined_push(t2, p2, none, places);
        let p3 = p2.push(places);
        let t3 = t2 + none + places;
        lemma_joined_push(t3, p3, none, path);
        let p4 = p3.push(path);
        let t4 = t3 + none + path;
        lemma_joined_push(t4, p4, none, ".\n"@);
        let p5 = p4.push(".\n"@);
        let t5 = t4 + none + ".\n"@;
        lemma_joined_push(t5, p5, none, shown);
        let p6 = p5.push(shown);
        assert(p6 =~= seq![start, number, places, path, ".\n"@, shown]);
        assert(edit_answer(path, full, old, plan, written)->Ok_0 =~= t5 + none + shown);
        assert(writes(number, plan.count as nat));
    }
}

} // verus!
