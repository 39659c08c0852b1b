//! What a read shows of a file.

use vstd::prelude::*;
use vstd::utf8::encode_utf8;

use crate::laws::layout::{
    is_joined, law_join_lays_out_every_part, law_split_cuts_at_every_separator, lemma_join_concat,
    lemma_joined_is_join,
};
use crate::text::{
    byte_len, decimal, join_with, lemma_join_split, lemma_split_join, lemma_split_parts, split_on,
};
use crate::tools::read::{
    content_lines, fit_count, kept_count, law_truncated_content_is_maximal,
    law_truncation_withholds, lemma_content_cost, lines_cost, size_text, window_end, window_text,
    within_limits,
};

verus! {

/// The place, counted from zero, of the first line that a read from `offset` shows.
pub open spec fn first_shown(offset: Option<u64>) -> int {
    if offset is Some && offset.unwrap() > 0 {
        offset.unwrap() - 1
    } else {
        0
    }
}

/// Whether `content` is the `count` lines of a file of `lines` from place `first` on,
/// within the limits of one read: 2000 lines and 51200 bytes, where the end of the
/// last line counts as no line and as no byte.
pub open spec fn is_window(
    lines: Seq<Seq<char>>,
    first: int,
    count: int,
    content: Seq<char>,
) -> bool {
    &&& 0 <= first && 0 <= count && first + count <= lines.len()
    &&& is_joined(content, lines.subrange(first, first + count), seq!['\n'])
    &&& count <= 2000 || (count == 2001 && lines[first + 2000].len() == 0)
    &&& encode_utf8(content).len() <= 51_200 || (content.last() == '\n' && encode_utf8(
        content,
    ).len() == 51_201)
}

/// Whether `notice` says truly how a read from place `first` on goes on after the
/// `count` lines it showed.
///
/// Nothing is said where the file was shown to its end. Where the lines asked for
/// were shown and more follow, or the limits allowed no line more, it is said at
/// which line to go on. A first line that is over the limit alone is not shown.
pub open spec fn is_notice(
    lines: Seq<Seq<char>>,
    first: int,
    limit: Option<u64>,
    count: int,
    notice: Seq<char>,
) -> bool {
    let rest = lines.len() - first - count;
    let next = decimal((first + count + 1) as nat);
    let asked = limit is Some && count == limit.unwrap();
    &&& limit is Some ==> count <= limit.unwrap()
    &&& {
        ||| notice == ""@ && rest == 0
        ||| asked && rest > 0 && notice == "\n\n["@ + decimal(rest as nat)
            + " more lines in file. Use offset="@ + next + " to continue.]"@
        ||| !asked && rest > 0 && count > 0 && (count == 2000 || encode_utf8(
            join_with(lines.subrange(first, first + count + 1), seq!['\n']),
        ).len() > 51_200) && (exists|note: Seq<char>|
            notice == #[trigger] ("\n\n[Showing lines "@ + decimal((first + 1) as nat) + "-"@
                + decimal((first + count) as nat) + " of "@ + decimal(lines.len()) + note)
                + ". Use offset="@ + next + " to continue.]"@)
        ||| count == 0 && rest > 0 && encode_utf8(lines[first]).len() > 51_200 && notice
            == "[Line "@ + decimal((first + 1) as nat) + " is "@ + size_text(
            encode_utf8(lines[first]).len(),
        ) + ", exceeds "@ + size_text(51_200)
            + " limit. Inspect the line in smaller chunks with the bash tool.]"@
    }
}

/// Whether `shown` is lines of the file from place `first` on, then the notice that
/// says where to read on.
pub open spec fn is_shown(
    lines: Seq<Seq<char>>,
    first: int,
    limit: Option<u64>,
    shown: Seq<char>,
) -> bool {
    exists|count: int, content: Seq<char>, notice: Seq<char>|
        shown == content + notice && #[trigger] is_window(lines, first, count, content)
            && #[trigger] is_notice(lines, first, limit, count, notice)
}

/// A read shows the lines of the file from its offset on, in order and whole, then
/// the notice that says where to read on. It fails only where the offset is past the
/// last line.
pub proof fn law_window_shows_the_file_from_its_offset(
    text: Seq<char>,
    offset: Option<u64>,
    limit: Option<u64>,
)
    ensures
        match window_text(text, offset, limit) {
            Err(message) => first_shown(offset) >= split_on(text, '\n').len() && message
                == "Offset "@ + decimal(offset.unwrap() as nat) + " is beyond end of file ("@
                + decimal(split_on(text, '\n').len()) + " lines total)"@,
            Ok(shown) => is_shown(split_on(text, '\n'), first_shown(offset), limit, shown),
        },
{
    let lines = split_on(text, '\n');
    let first = first_shown(offset);
    law_split_cuts_at_every_separator(text, '\n');
    if window_text(text, offset, limit) is Ok {
        let shown = window_text(text, offset, limit)->Ok_0;
        let end = window_end(first, limit, lines.len());
        assert(first <= end <= lines.len());
        let selected = join_with(lines.subrange(first, end), "\n"@);
        lemma_selected(text, first, end);
        if within_limits(selected) {
            lemma_whole_shown(text, first, limit, end, shown);
        } else if byte_len(content_lines(selected)[0]) > 51_200 {
            lemma_long_line_shown(lines, first, limit, shown);
        } else {
            lemma_cut_shown(text, first, limit, end, shown);
        }
    }
}

/// What the lines selected come to when they are joined and looked at again.
proof fn lemma_selected(text: Seq<char>, first: int, end: int)
    requires
        0 <= first <= end <= split_on(text, '\n').len(),
    ensures
        ({
            let parts = split_on(text, '\n').subrange(first, end);
            let selected = join_with(parts, "\n"@);
            let kept = content_lines(selected);
            &&& "\n"@ == seq!['\n']
            &&& first == end ==> within_limits(selected)
            &&& first < end ==> {
                &&& split_on(selected, '\n') == parts
                &&& 1 <= kept.len() <= parts.len()
                &&& forall|i: int| 0 <= i < kept.len() ==> #[trigger] kept[i] == parts[i]
                &&& kept.len() < parts.len() ==> kept.len() == parts.len() - 1
                    && parts.last().len() == 0
            }
        }),
{
    reveal_strlit("\n");
    assert("\n"@ =~= seq!['\n']);
    let lines = split_on(text, '\n');
    let parts = lines.subrange(first, end);
    let selected = join_with(parts, "\n"@);
    if first < end {
        lemma_split_parts(text, '\n');
        assert forall|i: int| 0 <= i < parts.len() implies !(#[trigger] parts[i]).contains('\n') by {
            assert(parts[i] == lines[first + i]);
        }
        lemma_split_join(parts, '\n');
        lemma_content_cost(selected);
        if selected.len() > 0 && selected.last() == '\n' {
            if parts.len() == 1 {
                assert(parts[0].contains('\n'));
            } else {
                lemma_last_part(parts);
            }
        }
    } else {
        assert(selected =~= Seq::<char>::empty());
        assert(byte_len(Seq::<char>::empty()) == 0);
        lemma_content_cost(selected);
        assert(split_on(selected, '\n').len() == 1);
    }
}

proof fn lemma_whole_shown(
    text: Seq<char>,
    first: int,
    limit: Option<u64>,
    end: int,
    shown: Seq<char>,
)
    requires
        ({
            let lines = split_on(text, '\n');
            let selected = join_with(lines.subrange(first, end), "\n"@);
            &&& 0 <= first < lines.len()
            &&& end == window_end(first, limit, lines.len())
            &&& within_limits(selected)
            &&& shown == if limit is Some && end < lines.len() {
                selected + "\n\n["@ + decimal((lines.len() - end) as nat)
                    + " more lines in file. Use offset="@ + decimal((end + 1) as nat)
                    + " to continue.]"@
            } else {
                selected
            }
        }),
    ensures
        is_shown(split_on(text, '\n'), first, limit, shown),
{
    let lines = split_on(text, '\n');
    let parts = lines.subrange(first, end);
    let selected = join_with(parts, "\n"@);
    lemma_selected(text, first, end);
    law_join_lays_out_every_part(parts, seq!['\n']);
    let count = end - first;
    if parts.len() > 2000 {
        assert(parts.len() == 2001);
        assert(parts.last() == lines[first + 2000]);
    }
    assert(is_window(lines, first, count, selected));
    if limit is Some && end < lines.len() {
        let notice = "\n\n["@ + decimal((lines.len() - end) as nat)
            + " more lines in file. Use offset="@ + decimal((end + 1) as nat) + " to continue.]"@;
        assert(shown =~= selected + notice);
        assert(is_notice(lines, first, limit, count, notice));
    } else {
        reveal_strlit("");
        assert(shown =~= selected + ""@);
        assert(is_notice(lines, first, limit, count, ""@));
    }
}

proof fn lemma_long_line_shown(
    lines: Seq<Seq<char>>,
    first: int,
    limit: Option<u64>,
    shown: Seq<char>,
)
    requires
        0 <= first < lines.len(),
        byte_len(lines[first]) > 51_200,
        shown == "[Line "@ + decimal((first + 1) as nat) + " is "@ + size_text(
            byte_len(lines[first]),
        ) + ", exceeds "@ + size_text(51_200)
            + " limit. Inspect the line in smaller chunks with the bash tool.]"@,
    ensures
        is_shown(lines, first, limit, shown),
{
    let none = Seq::<char>::empty();
    law_join_lays_out_every_part(lines.subrange(first, first), seq!['\n']);
    assert(join_with(lines.subrange(first, first), seq!['\n']) =~= none);
    assert(byte_len(none) == 0);
    assert(shown =~= none + shown);
    assert(is_window(lines, first, 0, none));
    assert(is_notice(lines, first, limit, 0, shown));
}

proof fn lemma_cut_shown(
    text: Seq<char>,
    first: int,
    limit: Option<u64>,
    end: int,
    shown: Seq<char>,
)
    requires
        ({
            let lines = split_on(text, '\n');
            let selected = join_with(lines.subrange(first, end), "\n"@);
            let kept = content_lines(selected);
            let count = kept_count(kept);
            let note = if count < kept.len() && count < 2000 {
                " ("@ + size_text(51_200) + " limit)"@
            } else {
                ""@
            };
            &&& 0 <= first < lines.len()
            &&& end == window_end(first, limit, lines.len())
            &&& !within_limits(selected)
            &&& byte_len(kept[0]) <= 51_200
            &&& shown == join_with(kept.take(count), "\n"@) + "\n\n[Showing lines "@ + decimal(
                (first + 1) as nat,
            ) + "-"@ + decimal((first + count) as nat) + " of "@ + decimal(lines.len()) + note
                + ". Use offset="@ + decimal((first + count + 1) as nat) + " to continue.]"@
        }),
    ensures
        is_shown(split_on(text, '\n'), first, limit, shown),
{
    let lines = split_on(text, '\n');
    let selected = join_with(lines.subrange(first, end), "\n"@);
    let kept = content_lines(selected);
    let count = kept_count(kept);
    let note = if count < kept.len() && count < 2000 {
        " ("@ + size_text(51_200) + " limit)"@
    } else {
        ""@
    };
    lemma_selected(text, first, end);
    law_truncated_content_is_maximal(selected);
    law_truncation_withholds(selected);
    lemma_kept_some(kept);
    let content = join_with(kept.take(count), "\n"@);
    assert(kept.take(count) =~= lines.subrange(first, first + count));
    law_join_lays_out_every_part(kept.take(count), seq!['\n']);
    assert(is_window(lines, first, count, content));
    let head = "\n\n[Showing lines "@ + decimal((first + 1) as nat) + "-"@ + decimal(
        (first + count) as nat,
    ) + " of "@ + decimal(lines.len()) + note;
    let notice = head + ". Use offset="@ + decimal((first + count + 1) as nat) + " to continue.]"@;
    assert(shown =~= content + notice);
    if count < 2000 {
        assert(kept.take(count + 1) =~= lines.subrange(first, first + count + 1));
    }
    assert(limit is Some ==> count < limit.unwrap());
    assert(is_notice(lines, first, limit, count, notice));
}

/// Some line is kept where the first one fits alone.
proof fn lemma_kept_some(lines: Seq<Seq<char>>)
    requires
        lines.len() > 0,
        byte_len(lines[0]) <= 51_200,
    ensures
        kept_count(lines) >= 1,
{
    let n = if lines.len() <= 2000 {
        lines.len() as int
    } else {
        2000
    };
    lemma_fit_some(lines, n);
}

proof fn lemma_fit_some(lines: Seq<Seq<char>>, n: int)
    requires
        1 <= n <= lines.len(),
        byte_len(lines[0]) <= 51_200,
    ensures
        fit_count(lines, n) >= 1,
    decreases n,
{
    reveal_with_fuel(lines_cost, 2);
    if n > 1 {
        lemma_fit_some(lines, n - 1);
    }
}

/// A joined text that ends in the separator ends in an empty part.
proof fn lemma_last_part(parts: Seq<Seq<char>>)
    requires
        parts.len() > 1,
        forall|i: int| 0 <= i < parts.len() ==> !(#[trigger] parts[i]).contains('\n'),
        join_with(parts, seq!['\n']).last() == '\n',
    ensures
        parts.last().len() == 0,
{
    if parts.last().len() > 0 {
        assert(join_with(parts, seq!['\n']).last() == parts.last().last());
        assert(parts[parts.len() - 1].contains(parts.last().last()));
    }
}

/// Reading on where each read left off gives the file back: what the reads showed,
/// with the line ends between them, is the whole text.
pub proof fn law_reading_on_gives_the_file_back(
    text: Seq<char>,
    contents: Seq<Seq<char>>,
    places: Seq<int>,
)
    requires
        contents.len() > 0,
        places.len() == contents.len() + 1,
        places[0] == 0,
        places.last() == split_on(text, '\n').len(),
        forall|i: int|
            0 <= i < contents.len() ==> {
                &&& #[trigger] places[i] < places[i + 1]
                &&& is_window(
                    split_on(text, '\n'),
                    places[i],
                    places[i + 1] - places[i],
                    contents[i],
                )
            },
    ensures
        is_joined(text, contents, seq!['\n']),
{
    let lines = split_on(text, '\n');
    lemma_read_so_far(lines, contents, places, contents.len() as int);
    lemma_join_split(text, '\n');
    assert(lines.take(lines.len() as int) =~= lines);
    assert(contents.take(contents.len() as int) =~= contents);
    law_join_lays_out_every_part(contents, seq!['\n']);
}

proof fn lemma_read_so_far(
    lines: Seq<Seq<char>>,
    contents: Seq<Seq<char>>,
    places: Seq<int>,
    n: int,
)
    requires
        0 < n <= contents.len(),
        places.len() == contents.len() + 1,
        places[0] == 0,
        forall|i: int|
            0 <= i < contents.len() ==> {
                &&& #[trigger] places[i] < places[i + 1]
                &&& is_window(lines, places[i], places[i + 1] - places[i], contents[i])
            },
    ensures
        0 < places[n] <= lines.len(),
        join_with(contents.take(n), seq!['\n']) == join_with(lines.take(places[n]), seq!['\n']),
    decreases n,
{
    let sep = seq!['\n'];
    let (from, to) = (places[n - 1], places[n]);
    assert(from < to);
    lemma_joined_is_join(contents[n - 1], lines.subrange(from, to), sep);
    if n == 1 {
        assert(contents.take(1) =~= seq![contents[0]]);
        assert(lines.take(to) =~= lines.subrange(0, to));
    } else {
        lemma_read_so_far(lines, contents, places, n - 1);
        assert(contents.take(n).drop_last() =~= contents.take(n - 1));
        assert(lines.take(to) =~= lines.take(from) + lines.subrange(from, to));
        lemma_join_concat(lines.take(from), lines.subrange(from, to), sep);
    }
}

} // verus!
