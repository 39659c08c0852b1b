//! The `edit` tool: replace an exact string in a file, returning a diff.

use vstd::prelude::*;

use crate::json::{Json, JsonTree, JsonValue, add_member, field, member_trees};
use crate::model::ToolSpec;
use crate::text::{
    chars_of, concat2, concat4, concat5, decimal, decimal_text, join_text, join_with,
    lemma_split_nonempty, same_text, split_on, split_text, text_of, text_result, views,
};
use crate::tools::args::{
    property, property_tree, schema, schema_tree, string_arg, string_argument, text_trees,
};
use crate::tools::read::{FileFault, fault_text, os_error};

verus! {

/// The most rows one `edit` diff may carry, truncation marker included.
pub const MAX_DIFF_ROWS: usize = 32;

/// What the `edit` declaration tells the model.
pub const DESCRIPTION: &'static str = "Edit a file by replacing an exact string. oldString must match the file content exactly (no regex, no whitespace normalization) and must be unique unless replaceAll is true. Returns a unified diff of the change, capped at 32 rows.";

/// A validated `edit` call. The replaced text is not empty and differs from
/// its replacement.
#[derive(Debug)]
pub struct EditRequest {
    /// The path as the model gave it.
    pub path: String,
    /// The text to replace.
    pub old_string: String,
    /// Its replacement.
    pub new_string: String,
    /// Whether every occurrence is replaced.
    pub replace_all: bool,
}

/// The view of an [`EditRequest`].
pub struct EditCall {
    pub path: Seq<char>,
    pub old_string: Seq<char>,
    pub new_string: Seq<char>,
    pub replace_all: bool,
}

impl View for EditRequest {
    type V = EditCall;

    open spec fn view(&self) -> EditCall {
        EditCall {
            path: self.path@,
            old_string: self.old_string@,
            new_string: self.new_string@,
            replace_all: self.replace_all,
        }
    }
}

/// The optional `replaceAll` argument; none where it is not a boolean.
pub open spec fn replace_all_arg(input: JsonValue) -> Option<bool> {
    match field(input, "replaceAll"@) {
        None => Some(false),
        Some(JsonValue::Bool(b)) => Some(b),
        Some(_) => None,
    }
}

/// The call that `input` asks for, or what is wrong with it.
pub open spec fn edit_call(input: JsonValue) -> Result<EditCall, Seq<char>> {
    match (
        string_arg(input, "path"@),
        string_arg(input, "oldString"@),
        string_arg(input, "newString"@),
        replace_all_arg(input),
    ) {
        (None, _, _, _) => Err("edit: `path` must be a string"@),
        (Some(_), None, _, _) => Err("edit: `oldString` must be a string"@),
        (Some(_), Some(_), None, _) => Err("edit: `newString` must be a string"@),
        (Some(_), Some(_), Some(_), None) => Err("edit: `replaceAll` must be a boolean"@),
        (Some(path), Some(old_string), Some(new_string), Some(replace_all)) => if old_string.len()
            == 0 {
            Err("edit: `oldString` must not be empty"@)
        } else if old_string == new_string {
            Err("edit: `oldString` and `newString` are identical"@)
        } else {
            Ok(EditCall { path, old_string, new_string, replace_all })
        },
    }
}

/// Whether `s` starts with `p`.
pub open spec fn starts_with(s: Seq<char>, p: Seq<char>) -> bool {
    p.len() <= s.len() && s.take(p.len() as int) == p
}

/// Whether `p` stands in `s` at `i`.
pub open spec fn occurs_at(s: Seq<char>, p: Seq<char>, i: int) -> bool {
    0 <= i <= s.len() && starts_with(s.skip(i), p)
}

/// How many positions `p` occurs at in `s`, overlaps included.
pub open spec fn match_count(s: Seq<char>, p: Seq<char>) -> nat
    decreases s.len(),
{
    if s.len() == 0 {
        0
    } else {
        match_count(s.skip(1), p) + (if starts_with(s, p) {
            1nat
        } else {
            0nat
        })
    }
}

/// How many occurrences of `p` a scan from the left replaces.
pub open spec fn replaced_count(s: Seq<char>, p: Seq<char>) -> nat
    decreases s.len(),
{
    if s.len() == 0 || p.len() == 0 {
        0
    } else if starts_with(s, p) {
        1 + replaced_count(s.skip(p.len() as int), p)
    } else {
        replaced_count(s.skip(1), p)
    }
}

/// `s` with every occurrence of `p`, found by a scan from the left, replaced by
/// `n`.
pub open spec fn replace_every(s: Seq<char>, p: Seq<char>, n: Seq<char>) -> Seq<char>
    decreases s.len(),
{
    if s.len() == 0 || p.len() == 0 {
        s
    } else if starts_with(s, p) {
        n + replace_every(s.skip(p.len() as int), p, n)
    } else {
        seq![s[0]] + replace_every(s.skip(1), p, n)
    }
}

/// `s` with the first occurrence of `p` replaced by `n`.
pub open spec fn replace_first(s: Seq<char>, p: Seq<char>, n: Seq<char>) -> Seq<char>
    decreases s.len(),
{
    if s.len() == 0 {
        s
    } else if starts_with(s, p) {
        n + s.skip(p.len() as int)
    } else {
        seq![s[0]] + replace_first(s.skip(1), p, n)
    }
}

/// How many occurrences count for `call`.
pub open spec fn edit_count(call: EditCall, old: Seq<char>) -> nat {
    if call.replace_all {
        replaced_count(old, call.old_string)
    } else {
        match_count(old, call.old_string)
    }
}

/// The content after the edit, or why the content is left as it is.
pub open spec fn edited(call: EditCall, old: Seq<char>) -> Result<Seq<char>, Seq<char>> {
    let count = edit_count(call, old);
    if count == 0 {
        Err("oldString not found in "@ + call.path)
    } else if count > 1 && !call.replace_all {
        Err(
            "oldString matches "@ + decimal(count) + " times in "@ + call.path
                + "; add surrounding context to make it unique, or set replaceAll to true"@,
        )
    } else if call.replace_all {
        Ok(replace_every(old, call.old_string, call.new_string))
    } else {
        Ok(replace_first(old, call.old_string, call.new_string))
    }
}

/// Where nothing matches, nothing is replaced.
pub proof fn law_no_match_no_change(s: Seq<char>, p: Seq<char>, n: Seq<char>)
    requires
        match_count(s, p) == 0,
    ensures
        replace_every(s, p, n) == s,
        replace_first(s, p, n) == s,
        replaced_count(s, p) == 0,
    decreases s.len(),
{
    if s.len() > 0 {
        law_no_match_no_change(s.skip(1), p, n);
        assert(seq![s[0]] + s.skip(1) =~= s);
    }
}

/// A unique match is the only place that changes: the text before and after it
/// is kept, and replacing every occurrence would do the same.
pub proof fn law_unique_match(s: Seq<char>, p: Seq<char>, n: Seq<char>)
    requires
        p.len() > 0,
        match_count(s, p) == 1,
    ensures
        exists|i: int|
            {
                &&& #[trigger] occurs_at(s, p, i)
                &&& replace_first(s, p, n) == s.take(i) + n + s.skip(i + p.len())
            },
        replace_every(s, p, n) == replace_first(s, p, n),
        replaced_count(s, p) == 1,
    decreases s.len(),
{
    if starts_with(s, p) {
        assert(s.skip(0) =~= s);
        assert(occurs_at(s, p, 0));
        assert(replace_first(s, p, n) =~= s.take(0) + n + s.skip(p.len() as int));
        lemma_match_count_skip(s.skip(1), p, p.len() - 1);
        assert(s.skip(1).skip(p.len() - 1) =~= s.skip(p.len() as int));
        law_no_match_no_change(s.skip(p.len() as int), p, n);
    } else {
        let rest = s.skip(1);
        law_unique_match(rest, p, n);
        let i = choose|i: int|
            {
                &&& #[trigger] occurs_at(rest, p, i)
                &&& replace_first(rest, p, n) == rest.take(i) + n + rest.skip(i + p.len())
            };
        assert(rest.skip(i) =~= s.skip(i + 1));
        assert(occurs_at(s, p, i + 1));
        assert(seq![s[0]] + (rest.take(i) + n + rest.skip(i + p.len())) =~= s.take(i + 1) + n
            + s.skip(i + 1 + p.len()));
    }
}

proof fn lemma_match_count_skip(s: Seq<char>, p: Seq<char>, k: int)
    requires
        0 <= k <= s.len(),
        match_count(s, p) == 0,
    ensures
        match_count(s.skip(k), p) == 0,
    decreases k,
{
    if k == 0 {
        assert(s.skip(0) =~= s);
    } else {
        lemma_match_count_skip(s.skip(1), p, k - 1);
        assert(s.skip(1).skip(k - 1) =~= s.skip(k));
    }
}

/// A scan from the left replaces at most as many occurrences as there are, and
/// none only where there is none.
pub proof fn law_replaced_count_bound(s: Seq<char>, p: Seq<char>)
    requires
        p.len() > 0,
    ensures
        replaced_count(s, p) <= match_count(s, p),
        replaced_count(s, p) == 0 <==> match_count(s, p) == 0,
    decreases s.len(),
{
    if s.len() > 0 {
        if starts_with(s, p) {
            law_replaced_count_bound(s.skip(p.len() as int), p);
            lemma_match_count_monotone(s, p, p.len() as int);
        } else {
            law_replaced_count_bound(s.skip(1), p);
        }
    }
}

proof fn lemma_match_count_monotone(s: Seq<char>, p: Seq<char>, k: int)
    requires
        0 < k <= s.len(),
    ensures
        match_count(s.skip(k), p) + (if starts_with(s, p) {
            1nat
        } else {
            0nat
        }) <= match_count(s, p),
    decreases k,
{
    if k > 1 {
        lemma_match_count_monotone(s.skip(1), p, k - 1);
        assert(s.skip(1).skip(k - 1) =~= s.skip(k));
    }
}

/// Whether `p` stands in `s` at `i`.
fn matches_at(s: &Vec<char>, p: &Vec<char>, i: usize) -> (found: bool)
    requires
        i <= s@.len(),
    ensures
        found == occurs_at(s@, p@, i as int),
{
    if p.len() > s.len() - i {
        return false;
    }
    let mut k: usize = 0;
    while k < p.len()
        invariant
            k <= p.len(),
            i + p.len() <= s.len(),
            forall|j: int| 0 <= j < k ==> s@[i + j] == p@[j],
        decreases p.len() - k,
    {
        if s[i + k] != p[k] {
            assert(s@.skip(i as int).take(p@.len() as int)[k as int] != p@[k as int]);
            return false;
        }
        k = k + 1;
    }
    assert(s@.skip(i as int).take(p@.len() as int) =~= p@);
    true
}

/// How many positions `needle` occurs at in `haystack`, overlaps included,
/// so `aa` in `aaa` is ambiguous rather than unique.
pub fn match_starts(haystack: &str, needle: &str) -> (count: usize)
    ensures
        count == match_count(haystack@, needle@),
{
    let s = chars_of(haystack);
    let p = chars_of(needle);
    let mut i: usize = s.len();
    let mut count: usize = 0;
    assert(s@.skip(s@.len() as int) =~= Seq::<char>::empty());
    while i > 0
        invariant
            i <= s.len(),
            p@ == needle@,
            count == match_count(s@.skip(i as int), p@),
            count <= s.len() - i,
        decreases i,
    {
        i = i - 1;
        assert(s@.skip(i as int).skip(1) =~= s@.skip(i + 1));
        if matches_at(&s, &p, i) {
            count = count + 1;
        }
    }
    assert(s@.skip(0) =~= s@);
    count
}

fn push_all(out: &mut Vec<char>, chars: &Vec<char>)
    ensures
        final(out)@ == old(out)@ + chars@,
{
    let mut i: usize = 0;
    let ghost before = out@;
    assert(before + chars@.take(0) =~= before);
    while i < chars.len()
        invariant
            i <= chars.len(),
            out@ == before + chars@.take(i as int),
        decreases chars.len() - i,
    {
        out.push(chars[i]);
        assert(chars@.take(i + 1) =~= chars@.take(i as int).push(chars@[i as int]));
        assert(out@ =~= before + chars@.take(i + 1));
        i = i + 1;
    }
    assert(chars@.take(chars@.len() as int) =~= chars@);
}

/// Replaces the occurrences of `needle` that a scan from the left finds, all of
/// them or only the first, and counts them.
fn replace(haystack: &str, needle: &str, replacement: &str, every: bool) -> (result: (
    String,
    usize,
))
    requires
        needle@.len() > 0,
    ensures
        every ==> result.0@ == replace_every(haystack@, needle@, replacement@) && result.1
            == replaced_count(haystack@, needle@),
        !every ==> result.0@ == replace_first(haystack@, needle@, replacement@),
{
    let s = chars_of(haystack);
    let p = chars_of(needle);
    let n = chars_of(replacement);
    let mut out: Vec<char> = Vec::new();
    let mut i: usize = 0;
    let mut count: usize = 0;
    let mut scanning = true;
    assert(s@.skip(0) =~= s@);
    assert(out@ + replace_every(s@, p@, n@) =~= replace_every(s@, p@, n@));
    assert(out@ + replace_first(s@, p@, n@) =~= replace_first(s@, p@, n@));
    while i < s.len()
        invariant
            i <= s.len(),
            s@ == haystack@,
            p@ == needle@,
            n@ == replacement@,
            p@.len() > 0,
            count <= i,
            every ==> scanning,
            every ==> out@ + replace_every(s@.skip(i as int), p@, n@) == replace_every(s@, p@, n@),
            every ==> count + replaced_count(s@.skip(i as int), p@) == replaced_count(s@, p@),
            !every && scanning ==> out@ + replace_first(s@.skip(i as int), p@, n@)
                == replace_first(s@, p@, n@),
            !every && !scanning ==> out@ + s@.skip(i as int) == replace_first(s@, p@, n@),
        decreases s.len() - i,
    {
        let ghost rest = s@.skip(i as int);
        let ghost done = out@;
        if scanning && matches_at(&s, &p, i) {
            push_all(&mut out, &n);
            assert(rest.skip(p@.len() as int) =~= s@.skip(i + p@.len()));
            proof {
                assert(out@ + replace_every(rest.skip(p@.len() as int), p@, n@) =~= done + (n@
                    + replace_every(rest.skip(p@.len() as int), p@, n@)));
                assert(out@ + rest.skip(p@.len() as int) =~= done + (n@ + rest.skip(
                    p@.len() as int,
                )));
            }
            i = i + p.len();
            count = count + 1;
            scanning = every;
        } else {
            out.push(s[i]);
            assert(rest.skip(1) =~= s@.skip(i + 1));
            proof {
                assert(out@ + replace_every(rest.skip(1), p@, n@) =~= done + (seq![rest[0]]
                    + replace_every(rest.skip(1), p@, n@)));
                assert(out@ + replace_first(rest.skip(1), p@, n@) =~= done + (seq![rest[0]]
                    + replace_first(rest.skip(1), p@, n@)));
                assert(out@ + rest.skip(1) =~= done + rest);
            }
            i = i + 1;
        }
    }
    proof {
        let rest = s@.skip(i as int);
        assert(rest =~= Seq::<char>::empty());
        assert(out@ + rest =~= out@);
    }
    (text_of(out.as_slice()), count)
}

/// The rows of a text: its lines without their terminators.
pub open spec fn rows_of(s: Seq<char>) -> Seq<Seq<char>> {
    let parts = split_on(s, '\n');
    let n = if parts.last().len() == 0 {
        parts.len() - 1
    } else {
        parts.len() as int
    };
    Seq::new(
        n as nat,
        |i: int|
            if i < parts.len() - 1 {
                without_return(parts[i])
            } else {
                parts[i]
            },
    )
}

/// `row` without a trailing carriage return.
pub open spec fn without_return(row: Seq<char>) -> Seq<char> {
    if row.len() > 0 && row.last() == '\r' {
        row.drop_last()
    } else {
        row
    }
}

/// `diff` cut to [`MAX_DIFF_ROWS`] rows, with a marker naming the rows dropped.
pub open spec fn capped_rows(diff: Seq<char>) -> Seq<char> {
    let rows = rows_of(diff);
    if rows.len() <= MAX_DIFF_ROWS {
        join_with(rows, "\n"@)
    } else {
        join_with(rows.take(MAX_DIFF_ROWS - 1), "\n"@) + "\n... [diff truncated: "@ + decimal(
            (rows.len() - (MAX_DIFF_ROWS - 1)) as nat,
        ) + " more lines]"@
    }
}

/// The rows of `s`.
fn rows(s: &str) -> (rows: Vec<String>)
    ensures
        views(rows@) == rows_of(s@),
{
    let parts = split_text(s, '\n');
    let ghost all = split_on(s@, '\n');
    proof {
        lemma_split_nonempty(s@, '\n');
    }
    let last: usize = parts.len() - 1;
    let mut rows: Vec<String> = Vec::new();
    let mut i: usize = 0;
    while i < last
        invariant
            i <= last,
            last == parts.len() - 1,
            all == views(parts@),
            rows@.len() == i,
            forall|k: int| 0 <= k < i ==> (#[trigger] rows@[k])@ == without_return(all[k]),
        decreases last - i,
    {
        let row = parts[i].as_str();
        let len: usize = row.unicode_len();
        if len > 0 && row.get_char(len - 1) == '\r' {
            let cut = row.substring_char(0, len - 1).to_owned();
            assert(cut@ =~= without_return(all[i as int]));
            rows.push(cut);
        } else {
            rows.push(row.to_owned());
        }
        i = i + 1;
    }
    let tail = parts[last].as_str();
    if !tail.is_empty() {
        rows.push(tail.to_owned());
    }
    assert(views(rows@) =~= rows_of(s@));
    rows
}

/// Cuts `diff` to at most [`MAX_DIFF_ROWS`] rows.
pub fn cap_rows(diff: &str) -> (text: String)
    ensures
        text@ == capped_rows(diff@),
{
    let rows = rows(diff);
    if rows.len() <= MAX_DIFF_ROWS {
        assert(views(rows@).subrange(0, rows@.len() as int) =~= views(rows@));
        return join_text(rows.as_slice(), 0, rows.len(), "\n");
    }
    let kept: usize = MAX_DIFF_ROWS - 1;
    assert(views(rows@).subrange(0, kept as int) =~= views(rows@).take(kept as int));
    let head = join_text(rows.as_slice(), 0, kept, "\n");
    let dropped = decimal_text((rows.len() - kept) as u64);
    concat4(head.as_str(), "\n... [diff truncated: ", dropped.as_str(), " more lines]")
}

/// The unified diff of `old` to `new` with one line of context, headed by
/// `path` on both sides.
pub uninterp spec fn unified_diff(path: Seq<char>, old: Seq<char>, new: Seq<char>) -> Seq<char>;

/// `similar::TextDiff::from_lines` and its `unified_diff` with a context radius
/// of one line and `path` on both header lines, as text. The result is named by
/// [`unified_diff`] and nothing else is claimed of it.
#[verifier::external_body]
fn diff_text(path: &str, old: &str, new: &str) -> (diff: String)
    ensures
        diff@ == unified_diff(path@, old@, new@),
{
    similar::TextDiff::from_lines(old, new).unified_diff().context_radius(1).header(path, path)
        .to_string()
}

/// The unified diff (context radius 1) of `old` to `new`, cut to at most
/// [`MAX_DIFF_ROWS`] rows with a marker naming the rows dropped.
pub fn capped_diff(path: &str, old: &str, new: &str) -> (text: String)
    ensures
        text@ == capped_rows(unified_diff(path@, old@, new@)),
{
    let diff = diff_text(path, old, new);
    cap_rows(diff.as_str())
}

/// A planned edit: the content to write, and how many occurrences it replaces.
#[derive(Debug)]
pub struct EditPlan {
    /// The content after the edit.
    pub content: String,
    /// How many occurrences are replaced.
    pub count: usize,
}

/// The arguments that the `edit` declaration names.
pub open spec fn edit_schema() -> JsonTree {
    schema_tree(
        seq![
            ("newString"@, property_tree("string"@, "Text to replace it with"@)),
            ("oldString"@, property_tree("string"@, "Exact text to replace"@)),
            ("path"@, property_tree("string"@, "Path to the file to edit (relative or absolute)"@)),
            (
                "replaceAll"@,
                property_tree(
                    "boolean"@,
                    "Replace every occurrence instead of requiring a unique match (default false)"@,
                ),
            ),
        ],
        seq![JsonTree::Text("path"@), JsonTree::Text("oldString"@), JsonTree::Text("newString"@)],
    )
}

/// What a planned edit of a file that held `old` answers.
pub open spec fn edit_answer(
    path: Seq<char>,
    full: Seq<char>,
    old: Seq<char>,
    plan: EditPlan,
    written: Result<(), FileFault>,
) -> Result<Seq<char>, Seq<char>> {
    match written {
        Err(fault) => Err("cannot write "@ + full + ": "@ + fault_text(fault)),
        Ok(_) => {
            let noun = if plan.count == 1 {
                " occurrence in "@
            } else {
                " occurrences in "@
            };
            Ok(
                "Successfully replaced "@ + decimal(plan.count as nat) + noun + path + ".\n"@
                    + capped_rows(unified_diff(path, old, plan.content@)),
            )
        },
    }
}

/// The `edit` tool.
#[derive(Debug, Clone, Copy)]
pub struct EditTool;

impl EditTool {
    /// The tool.
    pub fn new() -> (tool: Self)
        ensures
            tool == EditTool,
    {
        EditTool
    }

    /// The `edit` declaration advertised to the model.
    pub fn spec() -> (spec: ToolSpec)
        ensures
            spec.name@ == "edit"@,
            spec.description@ == DESCRIPTION@,
            spec.input_schema@ == edit_schema(),
    {
        let mut properties: Vec<(String, Json)> = Vec::new();
        add_member(&mut properties, "newString", property("string", "Text to replace it with"));
        add_member(&mut properties, "oldString", property("string", "Exact text to replace"));
        add_member(
            &mut properties,
            "path",
            property("string", "Path to the file to edit (relative or absolute)"),
        );
        add_member(
            &mut properties,
            "replaceAll",
            property(
                "boolean",
                "Replace every occurrence instead of requiring a unique match (default false)",
            ),
        );
        let mut required: Vec<&str> = Vec::new();
        required.push("path");
        required.push("oldString");
        required.push("newString");
        proof {
            assert(text_trees(required@) =~= seq![
                JsonTree::Text("path"@),
                JsonTree::Text("oldString"@),
                JsonTree::Text("newString"@),
            ]);
            assert(member_trees(properties@) =~= edit_schema()->Object_0[0].1->Object_0);
        }
        ToolSpec::new("edit", DESCRIPTION, schema(properties, required))
    }

    /// Validates the arguments of a call.
    pub fn request(&self, input: &Json) -> (result: Result<EditRequest, String>)
        ensures
            match result {
                Ok(request) => edit_call(input.value()) == Ok::<EditCall, Seq<char>>(request@),
                Err(message) => edit_call(input.value()) == Err::<EditCall, Seq<char>>(message@),
            },
    {
        let path = match string_argument(input, "path") {
            Some(path) => path,
            None => {
                return Err("edit: `path` must be a string".to_owned());
            },
        };
        let old_string = match string_argument(input, "oldString") {
            Some(text) => text,
            None => {
                return Err("edit: `oldString` must be a string".to_owned());
            },
        };
        let new_string = match string_argument(input, "newString") {
            Some(text) => text,
            None => {
                return Err("edit: `newString` must be a string".to_owned());
            },
        };
        let replace_all = match input.get("replaceAll") {
            None => false,
            Some(found) => match found.as_bool() {
                Some(b) => b,
                None => {
                    return Err("edit: `replaceAll` must be a boolean".to_owned());
                },
            },
        };
        if old_string.as_str().is_empty() {
            return Err("edit: `oldString` must not be empty".to_owned());
        }
        if same_text(old_string.as_str(), new_string.as_str()) {
            return Err("edit: `oldString` and `newString` are identical".to_owned());
        }
        Ok(EditRequest { path, old_string, new_string, replace_all })
    }

    /// Plans the edit of a file that holds `old`, or says why the file is left
    /// as it is.
    pub fn plan(&self, request: &EditRequest, old: &str) -> (result: Result<EditPlan, String>)
        requires
            request.old_string@.len() > 0,
        ensures
            match result {
                Ok(plan) => edited(request@, old@) == Ok::<Seq<char>, Seq<char>>(plan.content@)
                    && plan.count == edit_count(request@, old@),
                Err(message) => edited(request@, old@) == Err::<Seq<char>, Seq<char>>(message@),
            },
    {
        let path = request.path.as_str();
        let (content, replaced) = replace(
            old,
            request.old_string.as_str(),
            request.new_string.as_str(),
            request.replace_all,
        );
        let count: usize = if request.replace_all {
            replaced
        } else {
            match_starts(old, request.old_string.as_str())
        };
        if count == 0 {
            return Err(concat2("oldString not found in ", path));
        }
        if count > 1 && !request.replace_all {
            let number = decimal_text(count as u64);
            return Err(
                concat5(
                    "oldString matches ",
                    number.as_str(),
                    " times in ",
                    path,
                    "; add surrounding context to make it unique, or set replaceAll to true",
                ),
            );
        }
        Ok(EditPlan { content, count })
    }

    /// The answer where the file at the resolved path `full` cannot be read.
    pub fn unreadable(&self, full: &str, fault: &FileFault) -> (message: String)
        ensures
            message@ == "cannot read "@ + full@ + ": "@ + fault_text(*fault),
    {
        let detail = os_error(fault);
        concat4("cannot read ", full, ": ", detail.as_str())
    }

    /// Answers a planned edit from how writing the file at the resolved path
    /// `full` went.
    pub fn answer(
        &self,
        request: &EditRequest,
        full: &str,
        old: &str,
        plan: &EditPlan,
        written: Result<(), FileFault>,
    ) -> (result: Result<String, String>)
        ensures
            text_result(result) == edit_answer(request.path@, full@, old@, *plan, written),
    {
        match written {
            Err(fault) => {
                let detail = os_error(&fault);
                Err(concat4("cannot write ", full, ": ", detail.as_str()))
            },
            Ok(_) => {
                let noun = if plan.count == 1 {
                    " occurrence in "
                } else {
                    " occurrences in "
                };
                let number = decimal_text(plan.count as u64);
                let path = request.path.as_str();
                let diff = capped_diff(path, old, plan.content.as_str());
                let mut text = concat5(
                    "Successfully replaced ",
                    number.as_str(),
                    noun,
                    path,
                    ".\n",
                );
                text.append(diff.as_str());
                Ok(text)
            },
        }
    }
}

} // verus!
