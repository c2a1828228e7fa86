use comptime::deps::{dependency_table, merge_externs, DepEntry, MergeErrorKind};
use comptime::pipeline::result_for;
use comptime::syntax::{
    capture_declaration, capture_expression, captured_from_function, captured_from_statements, choose_splice, splice, Spliced,
};
use comptime::synth::{decimal_text, source_path_of};

fn strings(v: &[&str]) -> Vec<String> {
    v.iter().map(|s| s.to_string()).collect()
}

fn entry(name: &str, created: Option<i128>) -> DepEntry {
    DepEntry { file_name: name.to_string(), path: format!("/d/{}", name), created }
}

fn pairs(args: &[String], entries: &[DepEntry]) -> Vec<(String, String)> {
    match dependency_table(args, entries) {
        Ok(t) => t.into_iter().map(|e| (e.name, e.path)).collect(),
        Err(_) => panic!("the merge should succeed"),
    }
}

#[test]
fn explicit_declaration_wins_over_directory() {
    let args = strings(&["rustc", "--extern", "rand=/x/librand-1.rlib"]);
    let entries = vec![entry("librand-9.rlib", Some(100)), entry("liblog-2.rlib", Some(1))];
    assert_eq!(
        pairs(&args, &entries),
        vec![
            ("rand".to_string(), "/x/librand-1.rlib".to_string()),
            ("log".to_string(), "/d/liblog-2.rlib".to_string()),
        ]
    );
}

#[test]
fn newest_artifact_wins() {
    let entries = vec![
        entry("libserde-a.rlib", Some(5)),
        entry("libserde-b.rlib", Some(9)),
        entry("libserde-c.rlib", None),
        entry("libserde-d.rlib", Some(9)),
    ];
    assert_eq!(
        pairs(&[], &entries),
        vec![("serde".to_string(), "/d/libserde-b.rlib".to_string())]
    );
}

#[test]
fn merging_twice_gives_the_same_table() {
    let args = strings(&["rustc", "--extern", "a=/x/liba-1.rlib"]);
    let entries = vec![entry("libb-1.rlib", Some(3)), entry("libc-x-2.rlib", Some(4))];
    assert_eq!(pairs(&args, &entries), pairs(&args, &entries));
    assert_eq!(pairs(&args, &entries)[2], ("c-x".to_string(), "/d/libc-x-2.rlib".to_string()));
}

#[test]
fn other_files_and_non_archives_are_left_out() {
    let args = strings(&["rustc", "--extern", "m=/x/libm.so", "--extern", "n=/x/libn-1.rlib"]);
    let entries = vec![entry("foo.d", Some(1)), entry("libq-1.rmeta", Some(2))];
    assert_eq!(pairs(&args, &entries), vec![("n".to_string(), "/x/libn-1.rlib".to_string())]);
}

#[test]
fn later_explicit_declaration_replaces_earlier() {
    let args = strings(&["--extern", "a=/1/liba.rlib", "--extern", "a=/2/liba.rlib"]);
    assert_eq!(pairs(&args, &[]), vec![("a".to_string(), "/2/liba.rlib".to_string())]);
}

#[test]
fn merge_errors() {
    let kind = |args: &[&str], entries: &[DepEntry]| match merge_externs(&strings(args), entries) {
        Err(e) => (e.kind, e.subject),
        Ok(_) => panic!("the merge should fail"),
    };
    assert_eq!(kind(&["--extern", "alloc"], &[]), (MergeErrorKind::MissingPath, "alloc".to_string()));
    assert_eq!(kind(&["--extern", "a=/x/liba"], &[]), (MergeErrorKind::NoExtension, "/x/liba".to_string()));
    assert_eq!(kind(&["--extern", "a=/x.d/.hidden"], &[]).0, MergeErrorKind::NoExtension);
    assert_eq!(
        kind(&[], &[entry("libnodash.rlib", Some(1))]),
        (MergeErrorKind::NoDisambiguator, "libnodash.rlib".to_string())
    );
}

#[test]
fn merged_flags() {
    let args = strings(&["rustc", "--extern", "a=/x/liba-1.rlib=extra"]);
    let out = match merge_externs(&args, &[entry("libb-7.rlib", None)]) {
        Ok(v) => v,
        Err(_) => panic!(),
    };
    assert_eq!(out, strings(&["--extern", "a=/x/liba-1.rlib", "--extern", "b=/d/libb-7.rlib"]));
}

#[test]
fn decimal_and_source_names() {
    assert_eq!(decimal_text(0), "0");
    assert_eq!(decimal_text(1234567890), "1234567890");
    assert_eq!(decimal_text(u64::MAX), u64::MAX.to_string());
    assert_eq!(source_path_of("/o", 42), "/o/comptime/comptime-42.rs");
}

#[test]
fn splice_wraps_text_that_is_no_expression() {
    assert_eq!(splice("a b c".to_string()).tokens(), "\"a b c\"");
    assert_eq!(splice("say \"hi\"".to_string()).tokens(), "\"say \\\"hi\\\"\"");
    assert_eq!(splice("[1, 2, 3]".to_string()).tokens(), "[1, 2, 3]");
}

#[test]
fn capture_reprints_statements() {
    match capture_expression("let x = 1 ; x + 1") {
        Ok(c) => {
            assert!(c.header.is_none());
            assert_eq!(c.block, "let x = 1 ; x + 1");
        }
        Err(_) => panic!(),
    }
    match capture_expression("1+1") {
        Ok(c) => assert_eq!(c.block, "1 + 1"),
        Err(_) => panic!(),
    }
}

#[test]
fn merging_from_merged_flags_gives_the_same_table() {
    let args = strings(&["rustc", "--extern", "a=/x/liba-1.rlib", "-L", "dependency=/d"]);
    let entries = vec![entry("libb-1.rlib", Some(3)), entry("libb-2.rlib", Some(4)), entry("liba-3.rlib", Some(9))];
    let flags = match merge_externs(&args, &entries) {
        Ok(f) => f,
        Err(_) => panic!(),
    };
    assert_eq!(pairs(&flags, &entries), pairs(&args, &entries));
    assert_eq!(
        pairs(&flags, &entries),
        vec![
            ("a".to_string(), "/x/liba-1.rlib".to_string()),
            ("b".to_string(), "/d/libb-2.rlib".to_string()),
        ]
    );
}

#[test]
fn capture_declaration_splits_header_and_body() {
    match capture_declaration("#[inline] pub fn f() -> u32 { 1 }") {
        Ok(c) => {
            assert_eq!(c.header, Some("# [inline] pub fn f () -> u32".to_string()));
            assert_eq!(c.block, "{ 1 }");
        }
        Err(_) => panic!(),
    }
    assert!(capture_declaration("let x = 1;").is_err());
}

#[test]
fn result_for_both_forms() {
    assert_eq!(result_for(&None, "2".to_string()), "2");
    assert_eq!(result_for(&Some("fn two () -> u8".to_string()), "2u8".to_string()), "fn two () -> u8 { 2u8 }");
}

#[test]
fn creation_times_before_the_epoch_keep_their_order() {
    let entries = vec![
        entry("libold-a.rlib", Some(-10)),
        entry("libold-b.rlib", None),
        entry("libold-c.rlib", Some(-5)),
        entry("libold-d.rlib", Some(-7)),
    ];
    assert_eq!(pairs(&[], &entries), vec![("old".to_string(), "/d/libold-c.rlib".to_string())]);
}

#[test]
fn explicit_flag_is_emitted_once_with_lib_stripped() {
    let args = strings(&["rustc", "--extern", "libfoo=/x/libfoo-1.rlib"]);
    let entries = vec![entry("libbar-9f.rlib", Some(2)), entry("foo.d", Some(3)), entry("libfoo-2.rlib", Some(50))];
    match merge_externs(&args, &entries) {
        Ok(flags) => assert_eq!(
            flags,
            strings(&["--extern", "foo=/x/libfoo-1.rlib", "--extern", "bar=/d/libbar-9f.rlib"])
        ),
        Err(_) => panic!(),
    }
}

#[test]
fn captures_built_from_parse_results() {
    match captured_from_statements(Ok("1 + 1".to_string())) {
        Ok(c) => {
            assert!(c.header.is_none());
            assert_eq!(c.block, "1 + 1");
        }
        Err(_) => panic!(),
    }
    assert!(matches!(captured_from_statements(Err("bad".to_string())), Err(m) if m == "bad"));
    match captured_from_function(Ok(("fn f () -> u8".to_string(), "{ 1 }".to_string()))) {
        Ok(c) => {
            assert_eq!(c.header, Some("fn f () -> u8".to_string()));
            assert_eq!(c.block, "{ 1 }");
        }
        Err(_) => panic!(),
    }
}

#[test]
fn choose_splice_keeps_the_output() {
    assert!(matches!(choose_splice("x y".to_string(), false), Spliced::StrLit(t) if t == "x y"));
    assert!(matches!(choose_splice("1".to_string(), true), Spliced::Expr(t) if t == "1"));
    assert!(matches!(splice("1".to_string()), Spliced::Expr(t) if t == "1"));
    assert!(matches!(splice("x y".to_string()), Spliced::StrLit(t) if t == "x y"));
}
