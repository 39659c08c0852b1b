use leg::json::{parse_json, Json};
use leg::tools::edit::{EditTool, MAX_DIFF_ROWS};
use leg::tools::read::{
    resolve, FaultKind, FileFault, ReadSet, ReadTool, MAX_BYTES, MAX_LINES,
};
use leg::tools::write::{WriteAttempt, WriteTool};

fn json(text: &str) -> Json {
    parse_json(text).expect("json")
}

fn value(text: &str) -> serde_json::Value {
    serde_json::from_str(text).expect("json")
}

fn value_of(json: &Json) -> serde_json::Value {
    value(&json.to_text())
}

/// The arguments `extra` with the path of a file in the working directory.
fn with_path(extra: Json) -> Json {
    match extra {
        Json::Object(mut members) => {
            members.push(("path".to_string(), Json::Text("f.txt".to_string())));
            Json::Object(members)
        }
        other => other,
    }
}

/// Reads a file with the given contents by a relative path.
fn read(contents: &str, extra: Json) -> Result<String, String> {
    let tool = ReadTool::new();
    let mut reads = ReadSet::new();
    let request = tool.request(&with_path(extra))?;
    let full = resolve("/work", &request.path);
    assert_eq!(full, "/work/f.txt");
    tool.answer(&request, &full, Ok(contents.as_bytes().to_vec()), &mut reads)
}

/// Edits a file with the given contents.
fn edit(contents: &str, extra: Json) -> Result<String, String> {
    let tool = EditTool::new();
    let request = tool.request(&with_path(extra))?;
    let full = resolve("/work", &request.path);
    let plan = tool.plan(&request, contents)?;
    tool.answer(&request, &full, contents, &plan, Ok(()))
}

/// Splits a result into its file content and its notice, if any.
fn split_notice(output: &str) -> (&str, Option<&str>) {
    match output.rfind("\n\n[") {
        Some(at) if output.ends_with(']') => (&output[..at], Some(&output[at + 2..])),
        _ => (output, None),
    }
}

fn assert_within_caps(output: &str) {
    let (content, _) = split_notice(output);
    assert!(content.split('\n').count() <= MAX_LINES);
    assert!(content.len() <= MAX_BYTES);
}

fn numbered(n: usize) -> String {
    (1..=n).map(|i| format!("L{i}\n")).collect()
}

#[test]
fn spec_names_args_caps_and_continuation() {
    let spec = ReadTool::spec();
    let schema = value_of(&spec.input_schema);
    assert_eq!(spec.name, "read");
    for arg in ["path", "offset", "limit"] {
        assert!(schema["properties"][arg].is_object(), "{arg}");
    }
    assert_eq!(schema["required"], value(r#"["path"]"#));
    assert!(spec.description.contains("2000 lines or 50KB"));
    assert!(spec.description.contains("continue with offset"));
}

#[test]
fn fits_within_limits_returns_whole_file_without_notice() {
    assert_eq!(
        read("a\nb\nc\n", json(r#"{}"#)).unwrap(),
        "a\nb\nc\n"
    );
    assert_eq!(read("a\nb\nc", json(r#"{}"#)).unwrap(), "a\nb\nc");
}

#[test]
fn offset_alone_reads_to_end_of_file() {
    let out = read("a\nb\nc\n", json(r#"{"offset": 2}"#)).unwrap();
    assert_eq!(out, "b\nc\n");
}

#[test]
fn limit_alone_stops_early_with_more_lines_notice() {
    let out = read("1\n2\n3\n4\n5", json(r#"{"limit": 2}"#)).unwrap();
    assert_eq!(
        out,
        "1\n2\n\n[3 more lines in file. Use offset=3 to continue.]"
    );
}

#[test]
fn offset_and_limit_select_a_window() {
    let file = "1\n2\n3\n4\n5";
    let out = read(file, json(r#"{"offset": 2, "limit": 2}"#)).unwrap();
    assert_eq!(
        out,
        "2\n3\n\n[2 more lines in file. Use offset=4 to continue.]"
    );
    let out = read(file, json(r#"{"offset": 4, "limit": 5}"#)).unwrap();
    assert_eq!(out, "4\n5", "a window reaching EOF carries no notice");
}

#[test]
fn offset_boundary_counts_the_trailing_newline_element() {
    let with = "a\nb\nc\n";
    assert_eq!(read(with, json(r#"{"offset": 4}"#)).unwrap(), "");
    assert_eq!(
        read(with, json(r#"{"offset": 5}"#)).unwrap_err(),
        "Offset 5 is beyond end of file (4 lines total)"
    );
    assert_eq!(
        read(with, json(r#"{"limit": 1}"#)).unwrap(),
        "a\n\n[3 more lines in file. Use offset=2 to continue.]"
    );

    let without = "a\nb\nc";
    assert_eq!(
        read(without, json(r#"{"offset": 3}"#)).unwrap(),
        "c"
    );
    assert_eq!(
        read(without, json(r#"{"offset": 4}"#)).unwrap_err(),
        "Offset 4 is beyond end of file (3 lines total)"
    );
    assert_eq!(
        read(without, json(r#"{"limit": 1}"#)).unwrap(),
        "a\n\n[2 more lines in file. Use offset=2 to continue.]"
    );
}

#[test]
fn huge_offset_and_limit_do_not_wrap() {
    // 2^32 + 1 would narrow to 1 as a 32-bit `usize`.
    let huge = (1u64 << 32) + 1;
    assert_eq!(
        read("a\nb", json(&format!(r#"{{"offset": {huge}}}"#))).unwrap_err(),
        format!("Offset {huge} is beyond end of file (2 lines total)")
    );
    assert_eq!(
        read("a\nb", json(&format!(r#"{{"offset": {}}}"#, u64::MAX))).unwrap_err(),
        format!("Offset {} is beyond end of file (2 lines total)", u64::MAX)
    );
    assert_eq!(
        read("a\nb", json(&format!(r#"{{"limit": {huge}}}"#))).unwrap(),
        "a\nb"
    );
    assert_eq!(
        read("a\nb", json(&format!(r#"{{"offset": 2, "limit": {}}}"#, u64::MAX))).unwrap(),
        "b"
    );
}

#[test]
fn line_cap_reached_first() {
    let out = read(&numbered(3000), json(r#"{}"#)).unwrap();
    assert_within_caps(&out);
    let (content, notice) = split_notice(&out);
    assert_eq!(content.split('\n').count(), MAX_LINES);
    assert!(content.ends_with("L2000"));
    assert_eq!(
        notice,
        Some("[Showing lines 1-2000 of 3001. Use offset=2001 to continue.]")
    );
}

#[test]
fn byte_cap_reached_first_drops_the_cut_line_whole() {
    // 100 UTF-8 bytes (50 chars) per line: the first line costs 100,
    // each later one 101, so 506 lines fit in 51 200 bytes.
    let line = "é".repeat(50);
    let file = vec![line.as_str(); 1000].join("\n");
    let out = read(&file, json(r#"{}"#)).unwrap();
    assert_within_caps(&out);
    let (content, notice) = split_notice(&out);
    assert_eq!(content.split('\n').count(), 506);
    assert!(content.split('\n').all(|l| l == line), "no line is split");
    assert_eq!(
        notice,
        Some("[Showing lines 1-506 of 1000 (50.0KB limit). Use offset=507 to continue.]")
    );
}

#[test]
fn limit_never_lifts_the_cap() {
    let out = read(&numbered(3000), json(r#"{"limit": 2500}"#)).unwrap();
    assert_within_caps(&out);
    let (_, notice) = split_notice(&out);
    assert_eq!(
        notice,
        Some("[Showing lines 1-2000 of 3001. Use offset=2001 to continue.]")
    );
}

#[test]
fn trailing_newline_is_not_charged_to_the_byte_cap() {
    let file = format!("{}\n", "x".repeat(MAX_BYTES));
    assert_eq!(read(&file, json(r#"{}"#)).unwrap(), file);
}

#[test]
fn single_line_over_byte_cap_returns_no_file_bytes() {
    let long = "y".repeat(60_000);
    let out = read(
        &format!("short\n{long}\nend"),
        json(r#"{"offset": 2}"#),
    )
    .unwrap();
    assert_eq!(
        out,
        "[Line 2 is 58.6KB, exceeds 50.0KB limit. Inspect the line in smaller chunks with \
         the bash tool.]"
    );
}

#[test]
fn missing_file_is_an_error_naming_path_and_enoent() {
    let tool = ReadTool::new();
    let mut reads = ReadSet::new();
    let request = tool.request(&json(r#"{"path": "nope.txt"}"#)).unwrap();
    let full = resolve("/work", &request.path);
    let fault = FileFault {
        kind: FaultKind::NotFound,
        message: "No such file or directory (os error 2)".to_string(),
    };
    let err = tool
        .answer(&request, &full, Err(fault), &mut reads)
        .unwrap_err();
    assert!(err.contains("/work/nope.txt"), "{err}");
    assert!(err.contains("ENOENT"), "{err}");
    assert!(!reads.contains("/work/nope.txt"));
}

#[test]
fn spec_names_args() {
    let spec = EditTool::spec();
    let schema = value_of(&spec.input_schema);
    assert_eq!(spec.name, "edit");
    for arg in ["path", "oldString", "newString"] {
        assert_eq!(
            schema["properties"][arg]["type"], "string",
            "{arg}"
        );
    }
    assert_eq!(
        schema["properties"]["replaceAll"]["type"],
        "boolean"
    );
    assert_eq!(
        schema["required"],
        value(r#"["path", "oldString", "newString"]"#)
    );
}

#[test]
fn returns_a_unified_diff_with_one_line_of_context() {
    let file = "1\n2\n3\n4\n5\n";
    let out = edit(
        file,
        json(r#"{"oldString": "3\n", "newString": "three\n"}"#),
    )
    .unwrap();
    assert_eq!(
        out,
        "Successfully replaced 1 occurrence in f.txt.\n\
         --- f.txt\n\
         +++ f.txt\n\
         @@ -2,3 +2,3 @@\n\
         \x202\n\
         -3\n\
         +three\n\
         \x204"
    );
}

#[test]
fn diff_at_the_cap_is_not_truncated() {
    // 2 header + 1 hunk header + 14 removed + 14 added + 1 trailing
    // context = 32 rows exactly.
    let old: String = (0..14)
        .map(|n| format!("a{n}\n"))
        .chain(["end\n".into()])
        .collect();
    let file = old.as_str();
    let out = edit(
        file,
        json(r#"{"oldString": "a", "newString": "b", "replaceAll": true}"#),
    )
    .unwrap();
    let diff = out.split_once('\n').unwrap().1;
    assert_eq!(diff.lines().count(), MAX_DIFF_ROWS);
    assert!(!diff.contains("diff truncated"), "{diff}");
}

#[test]
fn spec_names_args_and_read_first_rule() {
    let spec = WriteTool::spec();
    let schema = value_of(&spec.input_schema);
    assert_eq!(spec.name, "write");
    for arg in ["path", "content"] {
        assert_eq!(
            schema["properties"][arg]["type"], "string",
            "{arg}"
        );
    }
    assert_eq!(
        schema["required"],
        value(r#"["path", "content"]"#)
    );
    assert!(
        spec.description
            .contains("must be read with the read tool first")
    );
}

#[test]
fn replaces_a_unique_exact_match() {
    let tool = EditTool::new();
    let request = tool
        .request(&json(
            r#"{"path": "f.txt", "oldString": "beta", "newString": "BETA"}"#,
        ))
        .unwrap();
    let plan = tool.plan(&request, "alpha beta gamma\n").unwrap();
    assert_eq!(plan.content, "alpha BETA gamma\n");
    assert_eq!(plan.count, 1);
}

#[test]
fn replace_all_replaces_every_occurrence() {
    let out = edit(
        "a b a b a\n",
        json(r#"{"oldString": "a", "newString": "x", "replaceAll": true}"#),
    )
    .unwrap();
    assert!(out.starts_with("Successfully replaced 3 occurrences in f.txt."));
}

#[test]
fn no_match_is_an_error_and_leaves_the_file() {
    let err = edit(
        "alpha\n",
        json(r#"{"oldString": "omega", "newString": "x"}"#),
    )
    .unwrap_err();
    assert!(err.contains("f.txt"), "{err}");
}

#[test]
fn overlapping_matches_are_ambiguous() {
    assert!(edit("aaa", json(r#"{"oldString": "aa", "newString": "b"}"#)).is_err());
    let out = edit(
        "aaa",
        json(r#"{"oldString": "aa", "newString": "b", "replaceAll": true}"#),
    )
    .unwrap();
    assert!(out.starts_with("Successfully replaced 1 occurrence in f.txt."));
}

#[test]
fn empty_or_identical_strings_are_rejected() {
    assert!(edit("a", json(r#"{"oldString": "", "newString": "b"}"#)).is_err());
    assert!(edit("a", json(r#"{"oldString": "a", "newString": "a"}"#)).is_err());
}

#[test]
fn non_boolean_replace_all_is_rejected() {
    assert!(edit(
        "a",
        json(r#"{"oldString": "a", "newString": "b", "replaceAll": "yes"}"#)
    )
    .is_err());
}

#[test]
fn long_diff_is_capped_with_a_truncation_marker() {
    let old: String = (0..50).map(|n| format!("line {n}\n")).collect();
    let out = edit(
        &old,
        json(r#"{"oldString": "line", "newString": "row", "replaceAll": true}"#),
    )
    .unwrap();
    let diff = out.split_once('\n').unwrap().1;
    let rows: Vec<&str> = diff.lines().collect();
    // Uncapped: 2 header + 1 hunk header + 50 removed + 50 added = 103 rows.
    assert_eq!(rows.len(), MAX_DIFF_ROWS);
    assert_eq!(rows[..3], ["--- f.txt", "+++ f.txt", "@@ -1,50 +1,50 @@"]);
    assert_eq!(rows[31], "... [diff truncated: 72 more lines]");
}

#[test]
fn rejects_overwrite_of_an_unread_file() {
    let tool = WriteTool::new();
    let mut reads = ReadSet::new();
    let request = tool
        .request(&json(r#"{"path": "notes.txt", "content": "new"}"#))
        .unwrap();
    let full = resolve("/work", &request.path);
    assert_eq!(
        tool.permit(&request, &full, true, &reads).unwrap_err(),
        "cannot write notes.txt: file exists and has not been read; read it first"
    );
    assert!(tool.permit(&request, &full, false, &reads).is_ok());

    let reader = ReadTool::new();
    let seen = reader
        .request(&json(r#"{"path": "./sub/../notes.txt"}"#))
        .unwrap();
    let seen_full = resolve("/work", &seen.path);
    reader
        .answer(&seen, &seen_full, Ok(b"old".to_vec()), &mut reads)
        .unwrap();
    assert!(tool.permit(&request, &full, true, &reads).is_ok());
    assert_eq!(
        tool.answer(&request, &full, WriteAttempt::Written).unwrap(),
        "Successfully wrote to notes.txt"
    );
}

#[test]
fn overwrites_a_file_read_earlier() {
    let tool = WriteTool::new();
    let reader = ReadTool::new();
    let mut reads = ReadSet::new();
    let mut file = b"old".to_vec();
    let seen = reader
        .request(&json(r#"{"path": "/overwrite/f.txt"}"#))
        .unwrap();
    let seen_full = resolve("/elsewhere", &seen.path);
    assert_eq!(
        reader
            .answer(&seen, &seen_full, Ok(file.clone()), &mut reads)
            .unwrap(),
        "old"
    );

    let request = tool
        .request(&json(r#"{"path": "f.txt", "content": "new"}"#))
        .unwrap();
    let full = resolve("/overwrite", &request.path);
    tool.permit(&request, &full, true, &reads).unwrap();
    file = request.content.as_bytes().to_vec();
    assert_eq!(
        tool.answer(&request, &full, WriteAttempt::Written).unwrap(),
        "Successfully wrote to f.txt"
    );
    assert_eq!(file, b"new");
}

#[test]
fn failed_read_does_not_permit_overwrite() {
    let tool = WriteTool::new();
    let reader = ReadTool::new();
    let mut reads = ReadSet::new();
    let seen = reader
        .request(&json(r#"{"path": "/work/notes.bin", "offset": 9}"#))
        .unwrap();
    assert!(reader
        .answer(&seen, "/work/notes.bin", Ok(vec![0xff, 0xfe]), &mut reads)
        .is_err());
    assert!(reader
        .answer(&seen, "/work/notes.bin", Ok(b"one".to_vec()), &mut reads)
        .is_err());
    let request = tool
        .request(&json(r#"{"path": "/work/notes.bin", "content": "new"}"#))
        .unwrap();
    assert!(tool.permit(&request, "/work/notes.bin", true, &reads).is_err());
}

#[test]
fn write_failures_name_the_path_and_the_errno() {
    let tool = WriteTool::new();
    let request = tool
        .request(&json(r#"{"path": "d/f.txt", "content": "new"}"#))
        .unwrap();
    let denied = || FileFault {
        kind: FaultKind::PermissionDenied,
        message: "Permission denied (os error 13)".to_string(),
    };
    assert_eq!(
        tool.answer(
            &request,
            "/work/d/f.txt",
            WriteAttempt::ParentFailed {
                parent: "/work/d".to_string(),
                fault: denied(),
            },
        )
        .unwrap_err(),
        "cannot create /work/d: EACCES: Permission denied (os error 13)"
    );
    assert_eq!(
        tool.answer(&request, "/work/d/f.txt", WriteAttempt::WriteFailed(denied()))
            .unwrap_err(),
        "cannot write /work/d/f.txt: EACCES: Permission denied (os error 13)"
    );
    assert_eq!(
        tool.request(&json(r#"{"path": "d/f.txt"}"#)).unwrap_err(),
        "write: `content` must be a string"
    );
}

#[test]
fn multiple_matches_without_replace_all_is_an_error() {
    for input in [
        json(r#"{"oldString": "dup", "newString": "x"}"#),
        json(r#"{"oldString": "dup", "newString": "x", "replaceAll": false}"#),
    ] {
        let err = edit("dup\ndup\n", input).unwrap_err();
        assert!(err.contains("matches 2 times"), "{err}");
        assert!(err.contains("replaceAll"), "{err}");
    }
}

#[test]
fn only_the_exact_match_counts() {
    // A trailing-space variant is neither a second match nor a fallback.
    let tool = EditTool::new();
    let request = tool
        .request(&with_path(json(
            r#"{"oldString": "foo\n", "newString": "bar\n"}"#,
        )))
        .unwrap();
    let plan = tool.plan(&request, "foo \nfoo\n").unwrap();
    assert_eq!(plan.content, "foo \nbar\n");

    let err = edit(
        "  indented\n",
        json(r#"{"oldString": "indented \n", "newString": "x"}"#),
    )
    .unwrap_err();
    assert_eq!(err, "oldString not found in f.txt");
}

#[test]
fn over_limit_notice_has_no_shell_command_or_path() {
    let tool = ReadTool::new();
    let mut reads = ReadSet::new();
    let path = "/a b;$(touch x)'\"`|&/big file $HOME.txt";
    let request = tool
        .request(&Json::Object(vec![(
            "path".to_string(),
            Json::Text(path.to_string()),
        )]))
        .unwrap();
    let out = tool
        .answer(&request, path, Ok("z".repeat(60_000).into_bytes()), &mut reads)
        .unwrap();

    assert!(out.starts_with("[Line 1 is 58.6KB"));
    assert!(!out.contains('z'));
    for needle in ["sed", "head", "big file", "$HOME", "a b;"] {
        assert!(!out.contains(needle), "{needle} in {out}");
    }
}

#[test]
fn equivalent_paths_record_one_read_set_entry_and_failures_none() {
    let tool = ReadTool::new();
    let mut reads = ReadSet::new();
    let mut read_path = |path: &str, offset: u64| {
        let request = tool
            .request(&json(&format!(
                r#"{{"path": "{path}", "offset": {offset}}}"#
            )))
            .unwrap();
        let full = resolve("/work", path);
        assert_eq!(full, "/work/a.txt");
        tool.answer(&request, &full, Ok(b"hi".to_vec()), &mut reads)
    };
    assert!(read_path("a.txt", 9).is_err());
    for path in ["a.txt", "./a.txt", "sub/../a.txt", "/work/a.txt"] {
        assert_eq!(read_path(path, 1).unwrap(), "hi");
    }
    assert!(reads.contains("/work/a.txt"));
    assert!(!reads.contains("/work/b.txt"));
}

#[test]
fn read_set_is_keyed_by_resolved_absolute_path() {
    let reader = ReadTool::new();
    let tool = WriteTool::new();
    let mut reads = ReadSet::new();
    let seen = reader.request(&json(r#"{"path": "/work/a.txt"}"#)).unwrap();
    reader
        .answer(&seen, "/work/a.txt", Ok(b"a".to_vec()), &mut reads)
        .unwrap();

    for path in ["a.txt", "./a.txt", "/work/a.txt"] {
        let request = tool
            .request(&json(&format!(r#"{{"path": "{path}", "content": "{path}"}}"#)))
            .unwrap();
        let full = resolve("/work", path);
        assert!(tool.permit(&request, &full, true, &reads).is_ok());
        assert_eq!(
            tool.answer(&request, &full, WriteAttempt::Written).unwrap(),
            format!("Successfully wrote to {path}")
        );
    }
    let request = tool
        .request(&json(r#"{"path": "b.txt", "content": "nope"}"#))
        .unwrap();
    assert!(tool
        .permit(&request, &resolve("/work", "b.txt"), true, &reads)
        .is_err());
}

#[test]
fn without_a_base_a_path_is_normalised_as_it_is() {
    assert_eq!(resolve("", "a/./b/../c"), "a/c");
    assert_eq!(resolve("", "/a/../b"), "/b");
    assert_eq!(resolve("", ""), "");
    assert_eq!(resolve("work", "f.txt"), "work/f.txt");
}
