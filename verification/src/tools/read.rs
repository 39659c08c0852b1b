//! The `read` tool: a capped, windowed view of one UTF-8 text file.

use vstd::prelude::*;
use vstd::utf8::{decode_utf8, valid_utf8};

use crate::json::{Json, JsonTree, JsonValue, NumberTree, add_member, field, member_trees, string};
use crate::model::ToolSpec;
use crate::tools::args::{
    property, property_tree, schema, schema_tree, string_arg, string_argument, text_trees,
};
use crate::text::{
    byte_len, concat2, concat3, concat4, concat5, decimal, decimal_text, decode_text, join_text,
    join_with, lemma_byte_len_ascii, lemma_byte_len_concat, lemma_join_split, lemma_split_join,
    lemma_split_nonempty, lemma_split_parts, same_text, split_on, split_text, text_bytes,
    text_result, views,
};

verus! {

/// The most file lines one `read` result may carry.
pub const MAX_LINES: usize = 2000;

/// The most UTF-8 bytes of file content one `read` result may carry.
pub const MAX_BYTES: usize = 51_200;

/// What the `read` declaration tells the model.
pub const DESCRIPTION: &'static str = "Read the contents of a file. For text files, output is truncated to 2000 lines or 50KB (whichever is hit first). Use offset/limit for large files. When you need the full file, continue with offset until complete.";

/// The absolute paths successfully read during one run. Each path is held
/// once.
#[derive(Debug, PartialEq, Eq)]
pub struct ReadSet {
    paths: Vec<String>,
}

impl View for ReadSet {
    type V = Set<Seq<char>>;

    closed spec fn view(&self) -> Set<Seq<char>> {
        views(self.paths@).to_set()
    }
}

impl ReadSet {
    /// No path is held twice.
    #[verifier::type_invariant]
    closed spec fn distinct(&self) -> bool {
        views(self.paths@).no_duplicates()
    }

    /// Creates an empty read-set.
    pub fn new() -> (reads: Self)
        ensures
            reads@ == Set::<Seq<char>>::empty(),
    {
        let reads = ReadSet { paths: Vec::new() };
        assert(reads@ =~= Set::<Seq<char>>::empty());
        reads
    }

    /// Whether `path` (a resolved absolute path) has been read.
    pub fn contains(&self, path: &str) -> (found: bool)
        ensures
            found == self@.contains(path@),
    {
        let mut i: usize = 0;
        while i < self.paths.len()
            invariant
                i <= self.paths.len(),
                forall|k: int| 0 <= k < i ==> (#[trigger] self.paths@[k])@ != path@,
            decreases self.paths.len() - i,
        {
            if same_text(self.paths[i].as_str(), path) {
                assert(views(self.paths@)[i as int] == path@);
                return true;
            }
            i = i + 1;
        }
        assert(!views(self.paths@).contains(path@));
        false
    }

    /// Records that `path` has been read.
    pub fn record(&mut self, path: &str)
        ensures
            final(self)@ == old(self)@.insert(path@),
    {
        if !self.contains(path) {
            proof {
                use_type_invariant(&*self);
            }
            let mut paths: Vec<String> = Vec::new();
            std::mem::swap(&mut self.paths, &mut paths);
            let ghost before = views(paths@);
            paths.push(path.to_owned());
            proof {
                assert(views(paths@) =~= before.push(path@));
                assert(before.push(path@).no_duplicates());
                assert(before.push(path@).to_set() =~= before.to_set().insert(path@)) by {
                    assert forall|p: Seq<char>| before.push(path@).contains(p) <==> (
                    before.contains(p) || p == path@) by {
                        if before.contains(p) {
                            let k = choose|k: int| 0 <= k < before.len() && before[k] == p;
                            assert(before.push(path@)[k] == p);
                        }
                        if p == path@ {
                            assert(before.push(path@)[before.len() as int] == p);
                        }
                    }
                }
            }
            self.paths = paths;
        } else {
            assert(self@.insert(path@) =~= self@);
        }
    }
}

/// `path` taken from the directory `base`, before it is normalised. An absolute
/// path stays what it is, and so does any path where there is no base.
pub open spec fn joined_path(base: Seq<char>, path: Seq<char>) -> Seq<char> {
    if base.len() == 0 || (path.len() > 0 && path[0] == '/') {
        path
    } else {
        base + "/"@ + path
    }
}

/// The components left of `parts` once `.` is dropped and `..` takes away the
/// component before it.
pub open spec fn normal_components(parts: Seq<Seq<char>>) -> Seq<Seq<char>>
    decreases parts.len(),
{
    if parts.len() == 0 {
        seq![]
    } else {
        let before = normal_components(parts.drop_last());
        let part = parts.last();
        if part == ""@ || part == "."@ {
            before
        } else if part == ".."@ {
            if before.len() > 0 {
                before.drop_last()
            } else {
                before
            }
        } else {
            before.push(part)
        }
    }
}

/// The normalised form of `path` taken from the directory `base`.
pub open spec fn resolved(base: Seq<char>, path: Seq<char>) -> Seq<char> {
    let full = joined_path(base, path);
    let names = join_with(normal_components(split_on(full, '/')), "/"@);
    if full.len() > 0 && full[0] == '/' {
        "/"@ + names
    } else {
        names
    }
}

/// Resolves `path` against `base`, normalising `.` and `..` lexically (no
/// `~` expansion, no symlink resolution). Components are separated by `/`.
pub fn resolve(base: &str, path: &str) -> (full: String)
    ensures
        full@ == resolved(base@, path@),
{
    let absolute = path.unicode_len() > 0 && path.get_char(0) == '/';
    let joined = if base.unicode_len() == 0 || absolute {
        path.to_owned()
    } else {
        concat3(base, "/", path)
    };
    let parts = split_text(joined.as_str(), '/');
    let ghost all = views(parts@);
    let mut names: Vec<String> = Vec::new();
    let mut i: usize = 0;
    assert(all.take(0) =~= Seq::<Seq<char>>::empty());
    assert(views(names@) =~= Seq::<Seq<char>>::empty());
    while i < parts.len()
        invariant
            i <= parts.len(),
            all == views(parts@),
            views(names@) == normal_components(all.take(i as int)),
        decreases parts.len() - i,
    {
        let part = parts[i].as_str();
        let ghost before = views(names@);
        assert(all.take(i + 1).drop_last() =~= all.take(i as int));
        if same_text(part, "") || same_text(part, ".") {
        } else if same_text(part, "..") {
            let dropped = names.pop();
            assert(before.len() > 0 ==> views(names@) =~= before.drop_last());
        } else {
            names.push(part.to_owned());
            assert(views(names@) =~= before.push(part@));
        }
        i = i + 1;
    }
    assert(all.take(all.len() as int) =~= all);
    let path_names = join_text(names.as_slice(), 0, names.len(), "/");
    assert(views(names@).subrange(0, names@.len() as int) =~= views(names@));
    if joined.as_str().unicode_len() > 0 && joined.as_str().get_char(0) == '/' {
        concat2("/", path_names.as_str())
    } else {
        path_names
    }
}

/// Why a file operation failed.
#[derive(Debug, Clone, Copy, PartialEq, Eq, Structural)]
pub enum FaultKind {
    /// There is no such file.
    NotFound,
    /// The operation is not permitted.
    PermissionDenied,
    /// Any other reason.
    Other,
}

/// A failed file operation.
#[derive(Debug)]
pub struct FileFault {
    /// Why it failed.
    pub kind: FaultKind,
    /// The system's message.
    pub message: String,
}

/// The message of `fault`, led by its errno name where one is known.
pub open spec fn fault_text(fault: FileFault) -> Seq<char> {
    match fault.kind {
        FaultKind::NotFound => "ENOENT: "@ + fault.message@,
        FaultKind::PermissionDenied => "EACCES: "@ + fault.message@,
        FaultKind::Other => fault.message@,
    }
}

/// The message of `fault` prefixed with its errno name where one is known.
pub fn os_error(fault: &FileFault) -> (text: String)
    ensures
        text@ == fault_text(*fault),
{
    match fault.kind {
        FaultKind::NotFound => concat2("ENOENT: ", fault.message.as_str()),
        FaultKind::PermissionDenied => concat2("EACCES: ", fault.message.as_str()),
        FaultKind::Other => fault.message.clone(),
    }
}

/// `bytes` in tenths of `unit`, rounded to the nearest, a tie to the even one.
pub open spec fn tenths(bytes: nat, unit: nat) -> nat {
    let q = 10 * bytes / unit;
    let r = 10 * bytes % unit;
    if 2 * r > unit || (2 * r == unit && q % 2 == 1) {
        q + 1
    } else {
        q
    }
}

/// `n` tenths with one decimal.
pub open spec fn one_decimal(n: nat) -> Seq<char> {
    decimal(n / 10) + "."@ + decimal(n % 10)
}

/// A byte count as `B`, `KB` or `MB`, the latter two with one decimal.
pub open spec fn size_text(bytes: nat) -> Seq<char> {
    if bytes < 1024 {
        decimal(bytes) + "B"@
    } else if bytes < 1_048_576 {
        one_decimal(tenths(bytes, 1024)) + "KB"@
    } else {
        one_decimal(tenths(bytes, 1_048_576)) + "MB"@
    }
}

fn rounded_tenths(bytes: u64, unit: u64, suffix: &str) -> (text: String)
    requires
        1024 <= unit <= 1_048_576,
    ensures
        text@ == one_decimal(tenths(bytes as nat, unit as nat)) + suffix@,
{
    let scaled: u128 = 10 * (bytes as u128);
    let wide: u128 = unit as u128;
    let mut q: u128 = scaled / wide;
    let r: u128 = scaled % wide;
    assert(q <= scaled / 1024) by (nonlinear_arith)
        requires
            q == scaled / wide,
            wide >= 1024,
    ;
    if 2 * r > wide || (2 * r == wide && q % 2 == 1) {
        q = q + 1;
    }
    let whole = decimal_text((q / 10) as u64);
    let tenth = decimal_text((q % 10) as u64);
    concat4(whole.as_str(), ".", tenth.as_str(), suffix)
}

/// Renders a byte count as `B`, `KB` or `MB` with one decimal.
pub fn format_size(bytes: usize) -> (text: String)
    ensures
        text@ == size_text(bytes as nat),
{
    if bytes < 1024 {
        let number = decimal_text(bytes as u64);
        concat2(number.as_str(), "B")
    } else if bytes < 1_048_576 {
        rounded_tenths(bytes as u64, 1024, "KB")
    } else {
        rounded_tenths(bytes as u64, 1_048_576, "MB")
    }
}

/// The lines of `content`. A trailing newline ends the last line and starts
/// none.
pub open spec fn content_lines(content: Seq<char>) -> Seq<Seq<char>> {
    if content.len() > 0 && content.last() == '\n' {
        split_on(content, '\n').drop_last()
    } else {
        split_on(content, '\n')
    }
}

/// The bytes of `content` that count against the limit: a trailing newline
/// does not.
pub open spec fn charged_bytes(content: Seq<char>) -> int {
    if content.len() > 0 && content.last() == '\n' {
        byte_len(content) - 1
    } else {
        byte_len(content) as int
    }
}

/// Whether `content` is within both limits.
pub open spec fn within_limits(content: Seq<char>) -> bool {
    content_lines(content).len() <= MAX_LINES && charged_bytes(content) <= MAX_BYTES
}

/// The bytes of the first `n` of `lines`, with a newline between two lines.
pub open spec fn lines_cost(lines: Seq<Seq<char>>, n: int) -> nat
    decreases n,
{
    if n <= 0 {
        0
    } else {
        lines_cost(lines, n - 1) + byte_len(lines[n - 1]) + (if n > 1 {
            1nat
        } else {
            0nat
        })
    }
}

/// The most leading lines, `n` at most, that are within the byte limit.
pub open spec fn fit_count(lines: Seq<Seq<char>>, n: int) -> int
    decreases n,
{
    if n <= 0 || lines_cost(lines, n) <= MAX_BYTES {
        n
    } else {
        fit_count(lines, n - 1)
    }
}

/// How many leading lines are kept of content that is over a limit.
pub open spec fn kept_count(lines: Seq<Seq<char>>) -> int {
    fit_count(
        lines,
        if lines.len() <= MAX_LINES {
            lines.len() as int
        } else {
            MAX_LINES as int
        },
    )
}

/// The byte count of joined lines is what was charged for them.
pub proof fn lemma_lines_cost(lines: Seq<Seq<char>>, n: int)
    requires
        0 <= n <= lines.len(),
    ensures
        lines_cost(lines, n) == byte_len(join_with(lines.take(n), "\n"@)),
    decreases n,
{
    reveal_strlit("\n");
    if n <= 0 {
        assert(byte_len(Seq::<char>::empty()) == 0);
    } else {
        lemma_lines_cost(lines, n - 1);
        let part = lines.take(n);
        assert(part.drop_last() =~= lines.take(n - 1));
        if n > 1 {
            let before = join_with(lines.take(n - 1), "\n"@);
            lemma_byte_len_concat(before, "\n"@);
            lemma_byte_len_concat(before + "\n"@, lines[n - 1]);
            assert("\n"@ =~= seq!['\n']);
            lemma_byte_len_ascii('\n');
        } else {
            assert(byte_len(Seq::<char>::empty()) == 0);
        }
    }
}

proof fn lemma_fit_count(lines: Seq<Seq<char>>, n: int, k: int)
    requires
        0 <= k <= n,
        lines_cost(lines, k) <= MAX_BYTES,
        k == n || lines_cost(lines, k + 1) > MAX_BYTES,
    ensures
        fit_count(lines, n) == k,
    decreases n,
{
    if k < n {
        lemma_cost_monotone(lines, k + 1, n);
        lemma_fit_count(lines, n - 1, k);
    }
}

proof fn lemma_cost_monotone(lines: Seq<Seq<char>>, a: int, b: int)
    requires
        a <= b,
    ensures
        lines_cost(lines, a) <= lines_cost(lines, b),
    decreases b - a,
{
    if a < b {
        lemma_cost_monotone(lines, a, b - 1);
    }
}

/// The file content of a truncated result is within both limits, and no more
/// whole lines would be.
pub proof fn law_truncated_content_is_maximal(content: Seq<char>)
    requires
        !within_limits(content),
    ensures
        ({
            let lines = content_lines(content);
            let kept = kept_count(lines);
            &&& 0 <= kept <= lines.len()
            &&& kept <= MAX_LINES
            &&& byte_len(join_with(lines.take(kept), "\n"@)) <= MAX_BYTES
            &&& kept < lines.len() && kept < MAX_LINES ==> byte_len(
                join_with(lines.take(kept + 1), "\n"@),
            ) > MAX_BYTES
        }),
{
    let lines = content_lines(content);
    lemma_split_nonempty(content, '\n');
    let n = if lines.len() <= MAX_LINES {
        lines.len() as int
    } else {
        MAX_LINES as int
    };
    lemma_fit_bounds(lines, n);
    let kept = fit_count(lines, n);
    lemma_lines_cost(lines, kept);
    if kept < lines.len() && kept < MAX_LINES {
        lemma_lines_cost(lines, kept + 1);
    }
}

pub proof fn lemma_fit_bounds(lines: Seq<Seq<char>>, n: int)
    requires
        0 <= n,
    ensures
        0 <= fit_count(lines, n) <= n,
        lines_cost(lines, fit_count(lines, n)) <= MAX_BYTES,
        fit_count(lines, n) < n ==> lines_cost(lines, fit_count(lines, n) + 1) > MAX_BYTES,
    decreases n,
{
    if n > 0 && lines_cost(lines, n) > MAX_BYTES {
        lemma_fit_bounds(lines, n - 1);
    }
}

/// The first line of a window, counted from zero.
pub open spec fn window_start(offset: Option<u64>) -> int {
    match offset {
        Some(o) => if o > 0 {
            o - 1
        } else {
            0
        },
        None => 0,
    }
}

/// The line after the last one of a window.
pub open spec fn window_end(start: int, limit: Option<u64>, total: nat) -> int {
    match limit {
        Some(l) => if start + l <= total {
            start + l
        } else {
            total as int
        },
        None => total as int,
    }
}

/// What the `read` tool shows of `text`: the window that `offset` and `limit`
/// select, cut to the limits, with a continuation notice when content was
/// withheld; or why there is no such window.
pub open spec fn window_text(text: Seq<char>, offset: Option<u64>, limit: Option<u64>) -> Result<
    Seq<char>,
    Seq<char>,
> {
    let all = split_on(text, '\n');
    let total = all.len();
    let start = window_start(offset);
    if start >= total {
        Err(
            "Offset "@ + decimal(offset.unwrap_or(0) as nat) + " is beyond end of file ("@
                + decimal(total) + " lines total)"@,
        )
    } else {
        let end = window_end(start, limit, total);
        let selected = join_with(all.subrange(start, end), "\n"@);
        let lines = content_lines(selected);
        if within_limits(selected) {
            if limit is Some && end < total {
                Ok(
                    selected + "\n\n["@ + decimal((total - end) as nat)
                        + " more lines in file. Use offset="@ + decimal((end + 1) as nat)
                        + " to continue.]"@,
                )
            } else {
                Ok(selected)
            }
        } else if byte_len(lines[0]) > MAX_BYTES {
            Ok(
                "[Line "@ + decimal((start + 1) as nat) + " is "@ + size_text(byte_len(all[start]))
                    + ", exceeds "@ + size_text(MAX_BYTES as nat)
                    + " limit. Inspect the line in smaller chunks with the bash tool.]"@,
            )
        } else {
            let kept = kept_count(lines);
            let note = if kept < lines.len() && kept < MAX_LINES {
                " ("@ + size_text(MAX_BYTES as nat) + " limit)"@
            } else {
                ""@
            };
            Ok(
                join_with(lines.take(kept), "\n"@) + "\n\n[Showing lines "@ + decimal(
                    (start + 1) as nat,
                ) + "-"@ + decimal((start + kept) as nat) + " of "@ + decimal(total) + note
                    + ". Use offset="@ + decimal((start + kept + 1) as nat) + " to continue.]"@,
            )
        }
    }
}

/// The cut of content that is over a limit.
enum Truncation {
    /// The content is within both limits.
    Whole,
    /// The leading `lines` lines are kept.
    Truncated { content: String, lines: usize, by_bytes: bool },
    /// The first line alone is over the byte limit.
    FirstLineExceedsLimit,
}

/// Keeps the leading whole lines of `content` within both limits, charging
/// each line after the first one extra byte for its joining newline.
fn truncate_head(content: &str) -> (cut: Truncation)
    ensures
        cut is Whole == within_limits(content@),
        cut is FirstLineExceedsLimit == (!within_limits(content@) && byte_len(
            content_lines(content@)[0],
        ) > MAX_BYTES),
        cut matches Truncation::Truncated { content: kept, lines, by_bytes } ==> {
            &&& lines == kept_count(content_lines(content@))
            &&& 1 <= lines <= content_lines(content@).len()
            &&& kept@ == join_with(content_lines(content@).take(lines as int), "\n"@)
            &&& by_bytes == (lines < content_lines(content@).len() && lines < MAX_LINES)
        },
{
    let mut lines = split_text(content, '\n');
    let mut budgeted: usize = text_bytes(content);
    let ghost all = split_on(content@, '\n');
    let chars: usize = content.unicode_len();
    if chars > 0 && content.get_char(chars - 1) == '\n' {
        proof {
            lemma_split_nonempty(content@.drop_last(), '\n');
            lemma_byte_len_concat(content@.drop_last(), seq!['\n']);
            lemma_byte_len_ascii('\n');
            assert(content@.drop_last() + seq!['\n'] =~= content@);
        }
        let dropped = lines.pop();
        budgeted = budgeted - 1;
        assert(views(lines@) =~= all.drop_last());
    }
    proof {
        lemma_split_nonempty(content@, '\n');
    }
    let ghost ls = content_lines(content@);
    assert(views(lines@) == ls);
    if lines.len() <= MAX_LINES && budgeted <= MAX_BYTES {
        return Truncation::Whole;
    }
    if text_bytes(lines[0].as_str()) > MAX_BYTES {
        return Truncation::FirstLineExceedsLimit;
    }
    let limit: usize = if lines.len() <= MAX_LINES {
        lines.len()
    } else {
        MAX_LINES
    };
    let mut kept: usize = 1;
    let mut bytes: usize = text_bytes(lines[0].as_str());
    assert(lines_cost(ls, 1) == byte_len(ls[0])) by {
        reveal_with_fuel(lines_cost, 2);
    }
    let mut full = false;
    while kept < limit && !full
        invariant
            1 <= kept <= limit <= lines.len(),
            limit <= MAX_LINES,
            ls == views(lines@),
            bytes == lines_cost(ls, kept as int),
            bytes <= MAX_BYTES,
            full ==> kept < limit && lines_cost(ls, kept + 1) > MAX_BYTES,
        decreases
            limit - kept,
            if full {
                0int
            } else {
                1int
            },
    {
        let line: usize = text_bytes(lines[kept].as_str());
        let room: usize = MAX_BYTES - bytes;
        assert(lines_cost(ls, kept + 1) == bytes + byte_len(ls[kept as int]) + 1);
        if line >= room {
            full = true;
        } else {
            bytes = bytes + line + 1;
            kept = kept + 1;
        }
    }
    proof {
        lemma_fit_count(ls, limit as int, kept as int);
        assert(ls.subrange(0, kept as int) =~= ls.take(kept as int));
    }
    Truncation::Truncated {
        content: join_text(lines.as_slice(), 0, kept, "\n"),
        lines: kept,
        by_bytes: full,
    }
}

/// The lines of `content` cost what is charged for it.
pub proof fn lemma_content_cost(content: Seq<char>)
    ensures
        content_lines(content).len() >= 1,
        lines_cost(content_lines(content), content_lines(content).len() as int) == charged_bytes(
            content,
        ),
{
    reveal_strlit("\n");
    assert("\n"@ =~= seq!['\n']);
    let all = split_on(content, '\n');
    let lines = content_lines(content);
    lemma_split_nonempty(content, '\n');
    lemma_join_split(content, '\n');
    if content.len() > 0 && content.last() == '\n' {
        lemma_split_nonempty(content.drop_last(), '\n');
        assert(lines =~= split_on(content.drop_last(), '\n'));
        lemma_join_split(content.drop_last(), '\n');
        lemma_byte_len_concat(content.drop_last(), seq!['\n']);
        lemma_byte_len_ascii('\n');
        assert(content.drop_last() + seq!['\n'] =~= content);
    }
    lemma_lines_cost(lines, lines.len() as int);
    assert(lines.take(lines.len() as int) =~= lines);
}

/// A truncated result withholds at least one line, so its continuation notice
/// names a line of the file.
pub proof fn law_truncation_withholds(content: Seq<char>)
    requires
        !within_limits(content),
    ensures
        kept_count(content_lines(content)) < content_lines(content).len(),
{
    let lines = content_lines(content);
    lemma_content_cost(content);
    if lines.len() <= MAX_LINES {
        lemma_fit_bounds(lines, lines.len() as int);
    } else {
        lemma_fit_bounds(lines, MAX_LINES as int);
    }
}

/// A window of whole lines holds as many lines as it selects.
proof fn lemma_window_lines(text: Seq<char>, start: int, end: int)
    requires
        0 <= start <= end <= split_on(text, '\n').len(),
    ensures
        ({
            let selected = join_with(split_on(text, '\n').subrange(start, end), "\n"@);
            if start < end {
                content_lines(selected).len() <= end - start
            } else {
                within_limits(selected)
            }
        }),
{
    reveal_strlit("\n");
    assert("\n"@ =~= seq!['\n']);
    let parts = split_on(text, '\n').subrange(start, end);
    if start < end {
        lemma_split_parts(text, '\n');
        assert forall|i: int| 0 <= i < parts.len() implies !(#[trigger] parts[i]).contains('\n') by {
            assert(parts[i] == split_on(text, '\n')[start + i]);
        }
        lemma_split_join(parts, '\n');
    } else {
        assert(join_with(parts, "\n"@) =~= Seq::<char>::empty());
        assert(byte_len(Seq::<char>::empty()) == 0);
    }
}

/// Selects the `offset`/`limit` window of `text`, caps it, and appends the
/// continuation notice when content was withheld.
pub fn read_window(text: &str, offset: Option<u64>, limit: Option<u64>) -> (result: Result<
    String,
    String,
>)
    ensures
        text_result(result) == window_text(text@, offset, limit),
{
    let all_lines = split_text(text, '\n');
    let ghost all = split_on(text@, '\n');
    let total: usize = all_lines.len();
    let start: u64 = match offset {
        Some(o) => o.saturating_sub(1),
        None => 0,
    };
    let total_text = decimal_text(total as u64);
    if start >= total as u64 {
        let number = decimal_text(offset.unwrap_or(0));
        return Err(
            concat5(
                "Offset ",
                number.as_str(),
                " is beyond end of file (",
                total_text.as_str(),
                " lines total)",
            ),
        );
    }
    let end: usize = match limit {
        Some(l) => {
            let room: u64 = total as u64 - start;
            if l <= room {
                (start + l) as usize
            } else {
                total
            }
        },
        None => total,
    };
    let first: usize = start as usize;
    let selected = join_text(all_lines.as_slice(), first, end, "\n");
    let shown_first = decimal_text(start + 1);
    match truncate_head(selected.as_str()) {
        Truncation::FirstLineExceedsLimit => {
            let size = format_size(text_bytes(all_lines[first].as_str()));
            let cap = format_size(MAX_BYTES);
            let head = concat4("[Line ", shown_first.as_str(), " is ", size.as_str());
            Ok(
                concat4(
                    head.as_str(),
                    ", exceeds ",
                    cap.as_str(),
                    " limit. Inspect the line in smaller chunks with the bash tool.]",
                ),
            )
        },
        Truncation::Truncated { content, lines, by_bytes } => {
            proof {
                lemma_window_lines(text@, first as int, end as int);
                law_truncation_withholds(selected@);
            }
            let last: u64 = start + lines as u64;
            let note = if by_bytes {
                let cap = format_size(MAX_BYTES);
                concat3(" (", cap.as_str(), " limit)")
            } else {
                "".to_owned()
            };
            let shown_last = decimal_text(last);
            let next = decimal_text(last + 1);
            let mut out = concat5(
                content.as_str(),
                "\n\n[Showing lines ",
                shown_first.as_str(),
                "-",
                shown_last.as_str(),
            );
            out.append(" of ");
            out.append(total_text.as_str());
            out.append(note.as_str());
            out.append(". Use offset=");
            out.append(next.as_str());
            out.append(" to continue.]");
            Ok(out)
        },
        Truncation::Whole => {
            if limit.is_some() && end < total {
                let more = decimal_text((total - end) as u64);
                let next = decimal_text(end as u64 + 1);
                let mut out = concat5(
                    selected.as_str(),
                    "\n\n[",
                    more.as_str(),
                    " more lines in file. Use offset=",
                    next.as_str(),
                );
                out.append(" to continue.]");
                Ok(out)
            } else {
                Ok(selected)
            }
        },
    }
}

/// A validated `read` call.
#[derive(Debug)]
pub struct ReadRequest {
    /// The path as the model gave it.
    pub path: String,
    /// The first line to show, counted from one.
    pub offset: Option<u64>,
    /// The most lines to show.
    pub limit: Option<u64>,
}

/// The optional non-negative integer argument `key`.
pub open spec fn count_arg(input: JsonValue, key: Seq<char>) -> Result<Option<u64>, Seq<char>> {
    match field(input, key) {
        None => Ok(None),
        Some(JsonValue::Null) => Ok(None),
        Some(JsonValue::Number(NumberTree::Unsigned(n))) => Ok(Some(n)),
        Some(_) => Err("read: `"@ + key + "` must be a non-negative integer"@),
    }
}

/// An optional non-negative integer argument.
fn optional_count(input: &Json, key: &str) -> (result: Result<Option<u64>, String>)
    ensures
        match result {
            Ok(count) => count_arg(input.value(), key@) == Ok::<Option<u64>, Seq<char>>(count),
            Err(message) => count_arg(input.value(), key@) == Err::<Option<u64>, Seq<char>>(
                message@,
            ),
        },
{
    match input.get(key) {
        None => Ok(None),
        Some(found) => match found {
            Json::Null => Ok(None),
            _ => match found.as_u64() {
                Some(n) => Ok(Some(n)),
                None => Err(concat3("read: `", key, "` must be a non-negative integer")),
            },
        },
    }
}

/// The call that `input` asks for, or what is wrong with it.
pub open spec fn read_call(input: JsonValue) -> Result<
    (Seq<char>, Option<u64>, Option<u64>),
    Seq<char>,
> {
    match string_arg(input, "path"@) {
        None => Err("read: `path` must be a string"@),
        Some(path) => match count_arg(input, "offset"@) {
            Err(message) => Err(message),
            Ok(offset) => match count_arg(input, "limit"@) {
                Err(message) => Err(message),
                Ok(limit) => Ok((path, offset, limit)),
            },
        },
    }
}

/// What a `read` call answers once the file at `full` has been looked at.
pub open spec fn read_answer(
    offset: Option<u64>,
    limit: Option<u64>,
    full: Seq<char>,
    file: Result<Vec<u8>, FileFault>,
) -> Result<Seq<char>, Seq<char>> {
    match file {
        Err(fault) => Err("cannot read "@ + full + ": "@ + fault_text(fault)),
        Ok(bytes) => if valid_utf8(bytes@) {
            window_text(decode_utf8(bytes@), offset, limit)
        } else {
            Err("cannot read "@ + full + ": not valid UTF-8 text"@)
        },
    }
}

/// The arguments that the `read` declaration names.
pub open spec fn read_schema() -> JsonTree {
    schema_tree(
        seq![
            ("limit"@, property_tree("integer"@, "Maximum number of lines to read"@)),
            (
                "offset"@,
                property_tree("integer"@, "Line number to start reading from (1-indexed)"@),
            ),
            ("path"@, property_tree("string"@, "Path to the file to read (relative or absolute)"@)),
        ],
        seq![JsonTree::Text("path"@)],
    )
}

/// The `read` tool.
#[derive(Debug, Clone, Copy)]
pub struct ReadTool;

impl ReadTool {
    /// The tool.
    pub fn new() -> (tool: Self)
        ensures
            tool == ReadTool,
    {
        ReadTool
    }

    /// The `read` declaration advertised to the model.
    pub fn spec() -> (spec: ToolSpec)
        ensures
            spec.name@ == "read"@,
            spec.description@ == DESCRIPTION@,
            spec.input_schema@ == read_schema(),
    {
        let mut properties: Vec<(String, Json)> = Vec::new();
        add_member(
            &mut properties,
            "limit",
            property("integer", "Maximum number of lines to read"),
        );
        add_member(
            &mut properties,
            "offset",
            property("integer", "Line number to start reading from (1-indexed)"),
        );
        add_member(
            &mut properties,
            "path",
            property("string", "Path to the file to read (relative or absolute)"),
        );
        let mut required: Vec<&str> = Vec::new();
        required.push("path");
        proof {
            assert(text_trees(required@) =~= seq![JsonTree::Text("path"@)]);
            assert(member_trees(properties@) =~= read_schema()->Object_0[0].1->Object_0);
        }
        ToolSpec::new("read", DESCRIPTION, schema(properties, required))
    }

    /// Validates the arguments of a call.
    pub fn request(&self, input: &Json) -> (result: Result<ReadRequest, String>)
        ensures
            match result {
                Ok(request) => read_call(input.value()) == Ok::<
                    (Seq<char>, Option<u64>, Option<u64>),
                    Seq<char>,
                >((request.path@, request.offset, request.limit)),
                Err(message) => read_call(input.value()) == Err::<
                    (Seq<char>, Option<u64>, Option<u64>),
                    Seq<char>,
                >(message@),
            },
    {
        match string_argument(input, "path") {
            None => Err("read: `path` must be a string".to_owned()),
            Some(path) => match optional_count(input, "offset") {
                Err(message) => Err(message),
                Ok(offset) => match optional_count(input, "limit") {
                    Err(message) => Err(message),
                    Ok(limit) => Ok(ReadRequest { path, offset, limit }),
                },
            },
        }
    }

    /// Answers a call from the content of the file at the resolved path `full`,
    /// or from the failure to read it. A successful read is recorded.
    pub fn answer(
        &self,
        request: &ReadRequest,
        full: &str,
        file: Result<Vec<u8>, FileFault>,
        reads: &mut ReadSet,
    ) -> (result: Result<String, String>)
        ensures
            text_result(result) == read_answer(request.offset, request.limit, full@, file),
            final(reads)@ == (if result is Ok {
                old(reads)@.insert(full@)
            } else {
                old(reads)@
            }),
    {
        match file {
            Err(fault) => {
                let message = os_error(&fault);
                Err(concat4("cannot read ", full, ": ", message.as_str()))
            },
            Ok(bytes) => match decode_text(bytes.as_slice()) {
                Err(_) => Err(concat3("cannot read ", full, ": not valid UTF-8 text")),
                Ok(text) => {
                    let result = read_window(text.as_str(), request.offset, request.limit);
                    if result.is_ok() {
                        reads.record(full);
                    }
                    result
                },
            },
        }
    }
}

/// One `read` call: its window, the path that it resolved to, and what became of
/// the file there.
pub struct ReadCallView {
    pub offset: Option<u64>,
    pub limit: Option<u64>,
    pub full: Seq<char>,
    pub file: Result<Vec<u8>, FileFault>,
}

/// Whether a `read` call succeeded.
pub open spec fn is_read(call: ReadCallView) -> bool {
    read_answer(call.offset, call.limit, call.full, call.file) is Ok
}

/// What a read-set that held `before` holds after `calls`, each of which does to it
/// what [`ReadTool::answer`] does.
pub open spec fn reads_after(before: Set<Seq<char>>, calls: Seq<ReadCallView>) -> Set<Seq<char>>
    decreases calls.len(),
{
    if calls.len() == 0 {
        before
    } else {
        let earlier = reads_after(before, calls.drop_last());
        if is_read(calls.last()) {
            earlier.insert(calls.last().full)
        } else {
            earlier
        }
    }
}

/// However many files are read, the read-set holds exactly the paths that it held
/// before and those of the reads that succeeded. Nothing leaves it, and a failed
/// read adds nothing.
pub proof fn law_read_set_holds_what_was_read(
    before: Set<Seq<char>>,
    calls: Seq<ReadCallView>,
    path: Seq<char>,
)
    ensures
        reads_after(before, calls).contains(path) <==> before.contains(path) || exists|i: int|
            0 <= i < calls.len() && is_read(#[trigger] calls[i]) && calls[i].full == path,
    decreases calls.len(),
{
    if calls.len() > 0 {
        let earlier = calls.drop_last();
        law_read_set_holds_what_was_read(before, earlier, path);
        if exists|i: int|
            0 <= i < earlier.len() && is_read(#[trigger] earlier[i]) && earlier[i].full == path {
            let i = choose|i: int|
                0 <= i < earlier.len() && is_read(#[trigger] earlier[i]) && earlier[i].full == path;
            assert(calls[i] == earlier[i]);
        }
        if exists|i: int|
            0 <= i < calls.len() && is_read(#[trigger] calls[i]) && calls[i].full == path {
            let i = choose|i: int|
                0 <= i < calls.len() && is_read(#[trigger] calls[i]) && calls[i].full == path;
            if i < earlier.len() {
                assert(earlier[i] == calls[i]);
            }
        }
        if is_read(calls.last()) && calls.last().full == path {
            assert(is_read(calls[calls.len() - 1]));
        }
    }
}

/// A normalised path stays what it is when it is resolved again.
pub proof fn law_resolve_idempotent(base: Seq<char>, path: Seq<char>)
    requires
        joined_path(base, path).len() > 0,
        joined_path(base, path)[0] == '/',
    ensures
        resolved(base, resolved(base, path)) == resolved(base, path),
{
    reveal_strlit("/");
    reveal_strlit("");
    reveal_strlit(".");
    reveal_strlit("..");
    let full = joined_path(base, path);
    let parts = split_on(full, '/');
    let names = normal_components(parts);
    let once = resolved(base, path);
    lemma_split_parts(full, '/');
    lemma_components_normal(parts);
    assert("/"@ =~= seq!['/']);
    assert(once[0] == '/');
    assert(joined_path(base, once) == once);
    if names.len() == 0 {
        assert(once =~= seq!['/']);
        reveal_with_fuel(split_on, 3);
        assert(once.drop_last() =~= Seq::<char>::empty());
        assert(split_on(once, '/') =~= seq![seq![], seq![]]);
        let again = split_on(once, '/');
        reveal_with_fuel(normal_components, 3);
        assert(again.drop_last() =~= seq![seq![]]);
        assert(""@ =~= Seq::<char>::empty());
        assert(again.last() == ""@);
        assert(again.drop_last().last() == ""@);
        assert(again.drop_last().drop_last() =~= Seq::<Seq<char>>::empty());
        assert(normal_components(again) =~= names);
    } else {
        let rooted = seq![Seq::<char>::empty()] + names;
        assert forall|i: int| 0 <= i < rooted.len() implies !(#[trigger] rooted[i]).contains(
            '/',
        ) by {
            if i > 0 {
                assert(rooted[i] == names[i - 1]);
            }
        }
        lemma_join_rooted(names);
        assert(join_with(rooted, seq!['/']) == once);
        lemma_split_join(rooted, '/');
        lemma_normal_stable(names, names.len() as int);
        assert(names.take(names.len() as int) =~= names);
    }
}

/// Whether `part` names a component: neither empty nor `.` nor `..`.
pub open spec fn is_name(part: Seq<char>) -> bool {
    part != ""@ && part != "."@ && part != ".."@
}

proof fn lemma_components_normal(parts: Seq<Seq<char>>)
    requires
        forall|i: int| 0 <= i < parts.len() ==> !(#[trigger] parts[i]).contains('/'),
    ensures
        forall|i: int|
            0 <= i < normal_components(parts).len() ==> is_name(
                #[trigger] normal_components(parts)[i],
            ) && !normal_components(parts)[i].contains('/'),
    decreases parts.len(),
{
    if parts.len() > 0 {
        let front = parts.drop_last();
        assert forall|i: int| 0 <= i < front.len() implies !(#[trigger] front[i]).contains(
            '/',
        ) by {
            assert(front[i] == parts[i]);
        }
        lemma_components_normal(front);
        assert(!parts[parts.len() - 1].contains('/'));
        let before = normal_components(front);
        let after = normal_components(parts);
        assert forall|i: int| 0 <= i < after.len() implies is_name(#[trigger] after[i])
            && !after[i].contains('/') by {
            if i < before.len() {
                assert(after[i] == before[i]);
            } else {
                assert(after[i] == parts.last());
            }
        }
    }
}

proof fn lemma_join_rooted(names: Seq<Seq<char>>)
    requires
        names.len() > 0,
    ensures
        join_with(seq![Seq::<char>::empty()] + names, seq!['/']) == seq!['/'] + join_with(
            names,
            seq!['/'],
        ),
    decreases names.len(),
{
    let rooted = seq![Seq::<char>::empty()] + names;
    assert(rooted.drop_last() =~= seq![Seq::<char>::empty()] + names.drop_last());
    if names.len() == 1 {
        assert(rooted.drop_last() =~= seq![Seq::<char>::empty()]);
        reveal_with_fuel(join_with, 2);
        assert(rooted.last() == names[0]);
        assert(join_with(rooted, seq!['/']) =~= seq!['/'] + names[0]);
    } else {
        lemma_join_rooted(names.drop_last());
        assert(join_with(rooted, seq!['/']) =~= seq!['/'] + join_with(names, seq!['/']));
    }
}

proof fn lemma_normal_stable(names: Seq<Seq<char>>, n: int)
    requires
        0 <= n <= names.len(),
        forall|i: int| 0 <= i < names.len() ==> is_name(#[trigger] names[i]),
    ensures
        normal_components(seq![Seq::<char>::empty()] + names.take(n)) == names.take(n),
    decreases n,
{
    reveal_strlit("");
    let rooted = seq![Seq::<char>::empty()] + names.take(n);
    if n == 0 {
        assert(rooted =~= seq![Seq::<char>::empty()]);
        assert(rooted.drop_last() =~= Seq::<Seq<char>>::empty());
        assert(""@ =~= Seq::<char>::empty());
        assert(rooted.last() == ""@);
        reveal_with_fuel(normal_components, 2);
        assert(normal_components(rooted) =~= names.take(0));
    } else {
        lemma_normal_stable(names, n - 1);
        assert(rooted.drop_last() =~= seq![Seq::<char>::empty()] + names.take(n - 1));
        assert(rooted.last() == names[n - 1]);
        assert(is_name(names[n - 1]));
        assert(names.take(n - 1).push(names[n - 1]) =~= names.take(n));
    }
}

} // verus!
