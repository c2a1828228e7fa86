//! The compiler arguments of the enclosing build, and those rebuilt from them for
//! the helper program.

use vstd::prelude::*;
use crate::text::{has_prefix, has_suffix, first_index, lemma_first_index, same_text, starts_with_text, ends_with_text, find_first, slice_text};

verus! {

/// The views of a list of strings.
pub open spec fn texts(v: Seq<String>) -> Seq<Seq<char>> {
    v.map_values(|s: String| s@)
}

/// A flag whose value, the next argument, is dropped together with it.
pub open spec fn is_paired_flag(a: Seq<char>) -> bool {
    a == "--crate-type"@ || a == "--crate-name"@ || a == "--extern"@
}

/// An argument that only makes sense for the crate being compiled: a source file,
/// test mode, the compiler's own name, or an emit mode.
pub open spec fn is_unit_arg(a: Seq<char>) -> bool {
    has_suffix(a, ".rs"@) || a == "--test"@ || a == "rustc"@ || has_prefix(a, "--emit"@)
}

/// The arguments kept from `args`, where `skip` says whether the first of them
/// is dropped unseen (the program path, or the value of a paired flag).
pub open spec fn kept_args(args: Seq<Seq<char>>, skip: bool) -> Seq<Seq<char>>
    decreases args.len(),
{
    if args.len() == 0 {
        Seq::empty()
    } else if skip {
        kept_args(args.drop_first(), false)
    } else if is_paired_flag(args[0]) {
        kept_args(args.drop_first(), true)
    } else if is_unit_arg(args[0]) {
        kept_args(args.drop_first(), false)
    } else {
        seq![args[0]] + kept_args(args.drop_first(), false)
    }
}

/// The fixed flags that make the helper a binary crate of its own name.
pub open spec fn helper_flags() -> Seq<Seq<char>> {
    seq!["--crate-name"@, "comptime_bin"@, "--crate-type"@, "bin"@, "--emit=dep-info,link"@]
}

/// The argument that follows the first occurrence of `flag`, if any follows it.
pub open spec fn value_after(args: Seq<Seq<char>>, flag: Seq<char>) -> Option<Seq<char>>
    decreases args.len(),
{
    if args.len() == 0 {
        None
    } else if args[0] == flag {
        if args.len() > 1 { Some(args[1]) } else { None }
    } else {
        value_after(args.drop_first(), flag)
    }
}

/// The text of `s` up to its first `=`, or all of it.
pub open spec fn before_eq(s: Seq<char>) -> Seq<char> {
    let k = first_index(s, '=');
    if k < 0 { s } else { s.subrange(0, k) }
}

/// The first argument that begins with `extra-filename=`, if there is one.
pub open spec fn first_extra_filename(args: Seq<Seq<char>>) -> Option<Seq<char>>
    decreases args.len(),
{
    if args.len() == 0 {
        None
    } else if has_prefix(args[0], "extra-filename="@) {
        Some(args[0])
    } else {
        first_extra_filename(args.drop_first())
    }
}

/// The build's file name disambiguator: the value of the first `extra-filename=`
/// argument up to any further `=`, or nothing.
pub open spec fn extra_filename(args: Seq<Seq<char>>) -> Seq<char> {
    match first_extra_filename(args) {
        Some(a) => before_eq(a.skip(15)),
        None => Seq::empty(),
    }
}

/// Returns the arguments of the current compilation that a standalone binary can
/// be built with: the program path, each crate type, crate name and extern flag
/// with its value, source files, test mode, the compiler's name and emit modes
/// are dropped; all else is kept in order.
pub fn filter_rustc_args(args: &[String]) -> (r: Vec<String>)
    ensures
        texts(r@) == kept_args(texts(args@), true),
{
    let mut rustc_args: Vec<String> = Vec::new();
    let mut skip = true;
    let mut i: usize = 0;
    assert(texts(args@).skip(0) == texts(args@));
    assert(texts(rustc_args@) == Seq::<Seq<char>>::empty());
    assert(Seq::<Seq<char>>::empty() + kept_args(texts(args@), true) == kept_args(texts(args@), true));
    while i < args.len()
        invariant
            i <= args@.len(),
            texts(rustc_args@) + kept_args(texts(args@).skip(i as int), skip) == kept_args(texts(args@), true),
        decreases args@.len() - i,
    {
        let arg = &args[i];
        let ghost rest = texts(args@).skip(i as int);
        assert(rest[0] == arg@);
        assert(rest.drop_first() == texts(args@).skip(i + 1));
        if skip {
            skip = false;
        } else if same_text(arg.as_str(), "--crate-type") || same_text(arg.as_str(), "--crate-name")
            || same_text(arg.as_str(), "--extern") {
            skip = true;
        } else if ends_with_text(arg.as_str(), ".rs") || same_text(arg.as_str(), "--test")
            || same_text(arg.as_str(), "rustc") || starts_with_text(arg.as_str(), "--emit") {
        } else {
            rustc_args.push(arg.clone());
            assert(texts(rustc_args@) == texts(rustc_args@).drop_last().push(arg@));
        }
        i = i + 1;
    }
    assert(texts(args@).skip(i as int) == Seq::<Seq<char>>::empty());
    assert(texts(rustc_args@) + Seq::<Seq<char>>::empty() == texts(rustc_args@));
    rustc_args
}

/// Returns the arguments for building the helper program: those that
/// `filter_rustc_args` keeps, then a synthetic crate name, the binary crate type
/// and an emit mode that yields a runnable artifact.
pub fn helper_rustc_args(args: &[String]) -> (r: Vec<String>)
    ensures
        texts(r@) == kept_args(texts(args@), true) + helper_flags(),
{
    let mut r = filter_rustc_args(args);
    let ghost kept = texts(r@);
    r.push("--crate-name".to_string());
    r.push("comptime_bin".to_string());
    r.push("--crate-type".to_string());
    r.push("bin".to_string());
    r.push("--emit=dep-info,link".to_string());
    assert(texts(r@) == kept + helper_flags());
    r
}

/// Returns the argument that follows the first `flag`, where one follows it.
pub fn arg_value(args: &[String], flag: &str) -> (r: Option<String>)
    ensures
        r is Some <==> value_after(texts(args@), flag@) is Some,
        r matches Some(v) ==> v@ == value_after(texts(args@), flag@)->Some_0,
{
    let mut i: usize = 0;
    assert(texts(args@).skip(0) == texts(args@));
    while i < args.len()
        invariant
            i <= args@.len(),
            value_after(texts(args@).skip(i as int), flag@) == value_after(texts(args@), flag@),
        decreases args@.len() - i,
    {
        let ghost rest = texts(args@).skip(i as int);
        assert(rest.drop_first() == texts(args@).skip(i + 1));
        if same_text(args[i].as_str(), flag) {
            if i + 1 < args.len() {
                assert(rest[1] == args@[i + 1]@);
                return Some(args[i + 1].clone());
            }
            return None;
        }
        i = i + 1;
    }
    None
}

/// Returns the output directory of the current compilation, the value of
/// `--out-dir`.
pub fn out_dir(args: &[String]) -> (r: Option<String>)
    ensures
        r is Some <==> value_after(texts(args@), "--out-dir"@) is Some,
        r matches Some(v) ==> v@ == value_after(texts(args@), "--out-dir"@)->Some_0,
{
    arg_value(args, "--out-dir")
}

/// Returns the build's file name disambiguator, from its `extra-filename=` flag.
pub fn extra_filename_of(args: &[String]) -> (r: String)
    ensures
        r@ == extra_filename(texts(args@)),
{
    let mut i: usize = 0;
    assert(texts(args@).skip(0) == texts(args@));
    while i < args.len()
        invariant
            i <= args@.len(),
            first_extra_filename(texts(args@).skip(i as int)) == first_extra_filename(texts(args@)),
        decreases args@.len() - i,
    {
        let ghost rest = texts(args@).skip(i as int);
        assert(rest.drop_first() == texts(args@).skip(i + 1));
        let a = args[i].as_str();
        if starts_with_text(a, "extra-filename=") {
            proof { reveal_strlit("extra-filename="); }
            let n = a.unicode_len();
            let tail = slice_text(a, 15, n);
            assert(tail@ == a@.skip(15));
            proof { lemma_first_index(tail@, '='); }
            return match find_first(tail.as_str(), '=') {
                Some(k) => slice_text(tail.as_str(), 0, k),
                None => tail,
            };
        }
        i = i + 1;
    }
    assert(texts(args@).skip(i as int).len() == 0);
    String::new()
}

} // verus!
