use comptime::args::{extra_filename_of, filter_rustc_args, helper_rustc_args, out_dir};

fn strings(v: &[&str]) -> Vec<String> {
    v.iter().map(|s| s.to_string()).collect()
}

#[test]
fn filter_drops_unit_specific_arguments() {
    let args = strings(&[
        "rustc", "--crate-name", "foo", "--edition=2021", "src/lib.rs", "--crate-type", "lib",
        "--test", "--emit=link", "-C", "opt-level=3", "--extern", "a=b.rlib", "-L", "deps",
    ]);
    assert_eq!(
        filter_rustc_args(&args),
        strings(&["--edition=2021", "-C", "opt-level=3", "-L", "deps"])
    );
}

#[test]
fn filter_of_empty_input_is_empty() {
    assert!(filter_rustc_args(&[]).is_empty());
    assert!(filter_rustc_args(&strings(&["/usr/bin/rustc"])).is_empty());
}

#[test]
fn filter_drops_the_program_path_even_if_it_looks_like_a_flag() {
    assert_eq!(filter_rustc_args(&strings(&["-C", "x"])), strings(&["x"]));
    assert_eq!(filter_rustc_args(&strings(&["p", "--extern", "--extern", "y"])), strings(&["y"]));
}

#[test]
fn helper_arguments_end_with_fixed_flags() {
    assert_eq!(
        helper_rustc_args(&[]),
        strings(&["--crate-name", "comptime_bin", "--crate-type", "bin", "--emit=dep-info,link"])
    );
}

#[test]
fn out_dir_and_extra_filename() {
    let args = strings(&["rustc", "-C", "extra-filename=-abc=def", "--out-dir", "/o", "--out-dir", "/p"]);
    assert_eq!(out_dir(&args), Some("/o".to_string()));
    assert_eq!(extra_filename_of(&args), "-abc");
    assert_eq!(out_dir(&strings(&["rustc", "--out-dir"])), None);
    assert_eq!(extra_filename_of(&strings(&["rustc"])), "");
}
