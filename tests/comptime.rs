use comptime::deps::DepEntry;
use comptime::pipeline::{start_declaration, start_expression, Action, EvalError, Evaluation, Event};

const OUT: &str = "/work/target/debug/deps";

fn build_args() -> Vec<String> {
    [
        "rustc",
        "--crate-name",
        "tests",
        "--edition=2021",
        "src/lib.rs",
        "--crate-type",
        "lib",
        "--emit=dep-info,metadata,link",
        "-C",
        "extra-filename=-5f1c",
        "--out-dir",
        OUT,
        "--extern",
        "quote=/work/target/debug/deps/libquote-77aa.rlib",
    ]
    .iter()
    .map(|s| s.to_string())
    .collect()
}

fn listing() -> Vec<DepEntry> {
    vec![
        DepEntry {
            file_name: "libsyn-01.rlib".to_string(),
            path: format!("{}/libsyn-01.rlib", OUT),
            created: Some(10),
        },
        DepEntry {
            file_name: "tests-5f1c.d".to_string(),
            path: format!("{}/tests-5f1c.d", OUT),
            created: Some(11),
        },
    ]
}

fn expect_finish(a: Action) -> Result<String, Vec<EvalError>> {
    match a {
        Action::Finish(r) => r,
        _ => panic!("the evaluation should have finished"),
    }
}

/// Runs an evaluation to its end, answering each action as a host whose helper
/// prints `stdout`, and returns the result with the files it was asked to remove.
fn run_to_end(
    start: (Evaluation, Action),
    stdout: &str,
) -> (Result<String, Vec<EvalError>>, Vec<String>) {
    let (mut ev, mut action) = start;
    let mut removed = Vec::new();
    loop {
        let event = match action {
            Action::ListDir(d) => {
                assert_eq!(d, OUT);
                Event::Listed(listing())
            }
            Action::CreateDir(d) => {
                assert_eq!(d, format!("{}/comptime", OUT));
                Event::DirReady
            }
            Action::WriteFile { path, contents } => {
                assert!(path.starts_with(&format!("{}/comptime/comptime-", OUT)));
                assert!(contents.starts_with("fn main() { let result = {"));
                Event::Written
            }
            Action::Compile(args) => {
                assert!(args.contains(&"--crate-type".to_string()));
                assert!(args.contains(&"bin".to_string()));
                Event::Compiled { success: true, stderr: String::new() }
            }
            Action::Run(bin) => {
                assert_eq!(bin, format!("{}/comptime_bin-5f1c", OUT));
                Event::Ran { success: true, stdout: Some(stdout.to_string()), stderr: String::new() }
            }
            Action::Remove(files) => {
                removed = files;
                Event::Removed { failed: Vec::new() }
            }
            Action::Finish(r) => return (r, removed),
        };
        action = ev.step(event);
    }
}

fn string_value(tokens: &str) -> String {
    let lit: syn::LitStr = syn::parse_str(tokens).unwrap();
    lit.value()
}

#[test]
fn test_attribute() {
    let item = "fn at_comptime() -> &'static str { format!(\"5 + 6 = {}\", 5 + 6) }";
    let (r, _) = run_to_end(start_declaration(item, build_args(), 1), "\"5 + 6 = 11\"");
    let f: syn::ItemFn = syn::parse_str(&r.ok().unwrap()).unwrap();
    assert_eq!(f.sig.ident.to_string(), "at_comptime");
    assert_eq!(f.block.stmts.len(), 1);
    let body = match &f.block.stmts[0] {
        syn::Stmt::Expr(e, None) => e.clone(),
        _ => panic!("the body should be one expression"),
    };
    let value = match body {
        syn::Expr::Lit(syn::ExprLit { lit: syn::Lit::Str(s), .. }) => s.value(),
        _ => panic!("the body should be a string literal"),
    };
    assert_eq!("5 + 6 = 11", value)
}

#[test]
fn test_basic() {
    let (r, _) = run_to_end(start_expression("std::mem::size_of::<u32>()", build_args(), 2), "4usize");
    let tokens = r.ok().unwrap();
    let lit: syn::LitInt = syn::parse_str(&tokens).unwrap();
    assert_eq!(
        format!("{}{}{}", "u32 is ", lit.base10_digits(), " bytes"),
        "u32 is 4 bytes"
    );
}

#[test]
fn test_inner_mac() {
    let (r, _) = run_to_end(start_expression("stringify!(4)", build_args(), 3), "\"4\"");
    assert_eq!(string_value(&r.ok().unwrap()), "4");
}

#[test]
fn test_inner_crate() {
    let block = "use rand::{SeedableRng, RngCore}; rand::rngs::StdRng::seed_from_u64(42u64).next_u64()";
    let (r, _) = run_to_end(start_expression(block, build_args(), 19), "9482535800248027256u64");
    let tokens = r.ok().unwrap();
    assert_eq!(tokens, "9482535800248027256u64");
    let lit: syn::LitInt = syn::parse_str(&tokens).unwrap();
    assert_eq!(lit.base10_parse::<u64>().unwrap(), 9_482_535_800_248_027_256u64);
}

#[test]
fn integer_result_is_spliced_as_expression() {
    let (r, removed) = run_to_end(start_expression("1 + 1", build_args(), 4), "2");
    assert_eq!(r.ok().unwrap(), "2");
    assert_eq!(removed.len(), 2);
}

#[test]
fn quoted_date_is_a_string_literal() {
    let (r, _) = run_to_end(
        start_expression("chrono::Utc::now().format(\"%Y-%m-%d\").to_string()", build_args(), 5),
        "\"2024-01-01\"",
    );
    assert_eq!(string_value(&r.ok().unwrap()), "2024-01-01");
}

#[test]
fn unparseable_output_becomes_string_literal() {
    let (r, _) = run_to_end(start_expression("\"x\"", build_args(), 6), "hello, world!");
    let tokens = r.ok().unwrap();
    assert_ne!(tokens, "hello, world!");
    assert_eq!(string_value(&tokens), "hello, world!");
}

#[test]
fn declaration_keeps_signature_and_attributes() {
    let item = "#[inline] pub fn answer() -> u32 { 40 + 2 }";
    let (r, _) = run_to_end(start_declaration(item, build_args(), 7), "42u32");
    let f: syn::ItemFn = syn::parse_str(&r.ok().unwrap()).unwrap();
    assert_eq!(f.attrs.len(), 1);
    assert!(matches!(f.vis, syn::Visibility::Public(_)));
    assert_eq!(f.sig.ident.to_string(), "answer");
    assert_eq!(f.block.stmts.len(), 1);
}

#[test]
fn missing_out_dir_fails_before_any_file() {
    let args: Vec<String> = vec!["rustc".to_string(), "src/lib.rs".to_string()];
    let (ev, action) = start_expression("1 + 1", args, 8);
    assert!(ev.is_done());
    assert!(ev.temp_files.is_empty());
    match expect_finish(action) {
        Err(errors) => {
            assert_eq!(errors.len(), 1);
            assert!(matches!(errors[0], EvalError::MissingOutDir));
        }
        Ok(_) => panic!("a missing output directory is an error"),
    }
}

#[test]
fn invalid_input_fails_at_once() {
    let (ev, action) = start_expression("let = ;", build_args(), 9);
    assert!(ev.is_done());
    match expect_finish(action) {
        Err(errors) => assert!(matches!(errors[0], EvalError::InvalidInput(_))),
        Ok(_) => panic!("the input does not parse"),
    }
    let (ev, action) = start_declaration("struct S;", build_args(), 9);
    assert!(ev.is_done());
    assert!(matches!(expect_finish(action), Err(_)));
}

fn to_compile(start: (Evaluation, Action)) -> (Evaluation, String) {
    let (mut ev, _) = start;
    ev.step(Event::Listed(listing()));
    let source = match ev.step(Event::DirReady) {
        Action::WriteFile { path, .. } => path,
        _ => panic!("the helper source should be written next"),
    };
    assert!(matches!(ev.step(Event::Written), Action::Compile(_)));
    (ev, source)
}

#[test]
fn compile_failure_removes_source_and_reports_diagnostics() {
    let (mut ev, source) = to_compile(start_expression("undefined_name", build_args(), 10));
    let msg = "error[E0425]: cannot find value `undefined_name` in this scope".to_string();
    match ev.step(Event::Compiled { success: false, stderr: msg.clone() }) {
        Action::Remove(files) => assert_eq!(files, vec![source]),
        _ => panic!("cleanup should follow a failed build"),
    }
    match expect_finish(ev.step(Event::Removed { failed: Vec::new() })) {
        Err(errors) => {
            assert_eq!(errors.len(), 1);
            match &errors[0] {
                EvalError::Compile(m) => assert_eq!(m, &msg),
                _ => panic!("a compile error was expected"),
            }
        }
        Ok(_) => panic!("the build failed"),
    }
}

#[test]
fn cleanup_failure_is_reported_after_the_evaluation_error() {
    let (mut ev, source) = to_compile(start_expression("1", build_args(), 11));
    ev.step(Event::Compiled { success: true, stderr: String::new() });
    let files = match ev.step(Event::Ran { success: false, stdout: None, stderr: "panicked".to_string() }) {
        Action::Remove(files) => files,
        _ => panic!("cleanup should follow a failed run"),
    };
    assert_eq!(files.len(), 2);
    assert_eq!(files[0], source);
    match expect_finish(ev.step(Event::Removed { failed: vec![source.clone()] })) {
        Err(errors) => {
            assert_eq!(errors.len(), 2);
            assert!(matches!(&errors[0], EvalError::Run(m) if m == "panicked"));
            assert!(matches!(&errors[1], EvalError::Cleanup(f) if f == &vec![source.clone()]));
        }
        Ok(_) => panic!("the run failed"),
    }
}

#[test]
fn cleanup_failure_after_success_is_an_error() {
    let (mut ev, source) = to_compile(start_expression("1", build_args(), 12));
    ev.step(Event::Compiled { success: true, stderr: String::new() });
    assert!(matches!(
        ev.step(Event::Ran { success: true, stdout: Some("1".to_string()), stderr: String::new() }),
        Action::Remove(_)
    ));
    match expect_finish(ev.step(Event::Removed { failed: vec![source] })) {
        Err(errors) => {
            assert_eq!(errors.len(), 1);
            assert!(matches!(errors[0], EvalError::Cleanup(_)));
        }
        Ok(_) => panic!("a file was left behind"),
    }
}

#[test]
fn non_utf8_output_is_an_error() {
    let (mut ev, _) = to_compile(start_expression("1", build_args(), 13));
    ev.step(Event::Compiled { success: true, stderr: String::new() });
    ev.step(Event::Ran { success: true, stdout: None, stderr: String::new() });
    match expect_finish(ev.step(Event::Removed { failed: Vec::new() })) {
        Err(errors) => assert!(matches!(errors[0], EvalError::NotUtf8)),
        Ok(_) => panic!("the output was not UTF-8"),
    }
}

#[test]
fn spawn_and_filesystem_failures() {
    let (mut ev, _) = start_expression("1", build_args(), 14);
    match expect_finish(ev.step(Event::ListFailed)) {
        Err(errors) => assert!(matches!(errors[0], EvalError::UnreadableDir)),
        Ok(_) => panic!(),
    }
    let (mut ev, _) = start_expression("1", build_args(), 14);
    ev.step(Event::Listed(listing()));
    match expect_finish(ev.step(Event::DirFailed)) {
        Err(errors) => assert!(matches!(errors[0], EvalError::DirFailed)),
        Ok(_) => panic!(),
    }
    let (mut ev, _) = start_expression("1", build_args(), 14);
    ev.step(Event::Listed(listing()));
    ev.step(Event::DirReady);
    assert!(matches!(ev.step(Event::WriteFailed), Action::Remove(f) if f.len() == 1));
    let (mut ev, _) = to_compile(start_expression("1", build_args(), 14));
    assert!(matches!(ev.step(Event::CompilerMissing), Action::Remove(f) if f.len() == 1));
    let (mut ev, _) = to_compile(start_expression("1", build_args(), 14));
    ev.step(Event::Compiled { success: true, stderr: String::new() });
    assert!(matches!(ev.step(Event::HelperMissing), Action::Remove(f) if f.len() == 2));
}

#[test]
fn merge_error_fails_before_any_file() {
    let mut args = build_args();
    args.push("--extern".to_string());
    args.push("broken".to_string());
    let (mut ev, _) = start_expression("1", args, 15);
    match expect_finish(ev.step(Event::Listed(listing()))) {
        Err(errors) => assert!(matches!(errors[0], EvalError::Merge(_))),
        Ok(_) => panic!(),
    }
    assert!(ev.temp_files.is_empty());
}

#[test]
fn helper_build_arguments() {
    let (mut ev, _) = start_expression("1", build_args(), 16);
    ev.step(Event::Listed(listing()));
    let source = match ev.step(Event::DirReady) {
        Action::WriteFile { path, contents } => {
            assert_eq!(
                contents,
                "fn main() { let result = {1}; print!(\"{}\", quote::quote!(#result)) }"
            );
            path
        }
        _ => panic!(),
    };
    assert_eq!(source, format!("{}/comptime/comptime-16.rs", OUT));
    let args = match ev.step(Event::Written) {
        Action::Compile(a) => a,
        _ => panic!(),
    };
    let expected: Vec<String> = [
        "--edition=2021",
        "-C",
        "extra-filename=-5f1c",
        "--out-dir",
        OUT,
        "--crate-name",
        "comptime_bin",
        "--crate-type",
        "bin",
        "--emit=dep-info,link",
        "--extern",
        "quote=/work/target/debug/deps/libquote-77aa.rlib",
        "--extern",
        "syn=/work/target/debug/deps/libsyn-01.rlib",
        &source,
    ]
    .iter()
    .map(|s| s.to_string())
    .collect();
    assert_eq!(args, expected);
}

#[test]
fn different_salts_give_different_sources() {
    let (a, _) = start_expression("1", build_args(), 17);
    let (b, _) = start_expression("1", build_args(), 18);
    assert_ne!(a.source, b.source);
    assert_eq!(a.binary, b.binary);
}
