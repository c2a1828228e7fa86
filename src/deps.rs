//! The dependency table of the helper build: explicit `--extern` declarations of
//! the enclosing build first, then the library artifacts found in its output
//! directory, at most one artifact for each library name.

use vstd::prelude::*;
use crate::args::{texts, before_eq};
use crate::text::{
    contains_char, has_prefix, has_suffix, first_index, last_index, lemma_first_index, lemma_last_index,
    same_text, starts_with_text, ends_with_text, find_first, find_last, slice_text, join_text,
};

verus! {

/// A library name and the artifact it is linked from.
pub type NamedPath = (Seq<char>, Seq<char>);

/// A library name, an artifact, and when that artifact was created.
pub type DatedPath = (Seq<char>, Seq<char>, Option<i128>);

/// One entry of the output directory: its file name, its full path, and its
/// creation time in nanoseconds from the epoch (negative before it), where the
/// file system tells it.
pub struct DepEntry {
    pub file_name: String,
    pub path: String,
    pub created: Option<i128>,
}

impl View for DepEntry {
    type V = DatedPath;

    open spec fn view(&self) -> DatedPath {
        (self.file_name@, self.path@, self.created)
    }
}

/// A dependency of the helper build: `--extern name=path`.
pub struct Extern {
    pub name: String,
    pub path: String,
}

impl View for Extern {
    type V = NamedPath;

    open spec fn view(&self) -> NamedPath {
        (self.name@, self.path@)
    }
}

/// An artifact chosen from the directory, with its creation time.
struct Found {
    name: String,
    path: String,
    created: Option<i128>,
}

impl View for Found {
    type V = DatedPath;

    closed spec fn view(&self) -> DatedPath {
        (self.name@, self.path@, self.created)
    }
}

/// Why the dependencies could not be determined.
#[derive(Clone, Copy, PartialEq, Eq, Structural, Debug)]
pub enum MergeErrorKind {
    /// An explicit declaration has no `=` and so no path.
    MissingPath,
    /// The path of an explicit declaration has no extension.
    NoExtension,
    /// An artifact's file name has no `-` before its disambiguator.
    NoDisambiguator,
}

/// A failure of the merge, with the text it concerns.
pub struct MergeError {
    pub kind: MergeErrorKind,
    pub subject: String,
}

impl View for MergeError {
    type V = (MergeErrorKind, Seq<char>);

    open spec fn view(&self) -> (MergeErrorKind, Seq<char>) {
        (self.kind, self.subject@)
    }
}

pub open spec fn entries_view(v: Seq<DepEntry>) -> Seq<DatedPath> {
    v.map_values(|e: DepEntry| e@)
}

pub open spec fn externs_view(v: Seq<Extern>) -> Seq<NamedPath> {
    v.map_values(|e: Extern| e@)
}

spec fn found_view(v: Seq<Found>) -> Seq<DatedPath> {
    v.map_values(|e: Found| e@)
}

/// The last component of a path.
pub open spec fn file_part(p: Seq<char>) -> Seq<char> {
    p.skip(last_index(p, '/') + 1)
}

/// Whether the file name of `p` has an extension: a `.` that does not begin it.
pub open spec fn has_extension(p: Seq<char>) -> bool {
    last_index(file_part(p), '.') >= 1
}

/// Whether `p` names a static library archive, with the `rlib` extension.
pub open spec fn is_archive(p: Seq<char>) -> bool {
    let f = file_part(p);
    f.len() > 5 && has_suffix(f, ".rlib"@)
}

/// A library name without its one leading `lib`, where it has one.
pub open spec fn strip_lib(n: Seq<char>) -> Seq<char> {
    if has_prefix(n, "lib"@) { n.skip("lib"@.len() as int) } else { n }
}

/// The library name of an explicit declaration `name=path`, without a leading
/// `lib`, as artifact names are read.
pub open spec fn declared_name(v: Seq<char>) -> Seq<char> {
    strip_lib(v.subrange(0, first_index(v, '=')))
}

/// The path of an explicit declaration: what follows the first `=`, up to any
/// further `=`.
pub open spec fn declared_path(v: Seq<char>) -> Seq<char> {
    before_eq(v.skip(first_index(v, '=') + 1))
}

/// The position of the entry named `n` in a table, or -1.
pub open spec fn name_index(t: Seq<NamedPath>, n: Seq<char>) -> int
    decreases t.len(),
{
    if t.len() == 0 {
        -1
    } else if t.last().0 == n {
        t.len() - 1
    } else {
        name_index(t.drop_last(), n)
    }
}

/// The position of the artifact named `n` among those chosen so far, or -1.
pub open spec fn found_index(f: Seq<DatedPath>, n: Seq<char>) -> int
    decreases f.len(),
{
    if f.len() == 0 {
        -1
    } else if f.last().0 == n {
        f.len() - 1
    } else {
        found_index(f.drop_last(), n)
    }
}

/// The table with `n` bound to `p`, in place where `n` was bound already.
pub open spec fn bind(t: Seq<NamedPath>, n: Seq<char>, p: Seq<char>) -> Seq<NamedPath> {
    let k = name_index(t, n);
    if k < 0 { t.push((n, p)) } else { t.update(k, (n, p)) }
}

/// One explicit declaration `v` taken into the table `t`: an archive is bound
/// to its name, any other artifact is left out.
pub open spec fn explicit_step(t: Seq<NamedPath>, v: Seq<char>) -> Result<Seq<NamedPath>, (MergeErrorKind, Seq<char>)> {
    if first_index(v, '=') < 0 {
        Err((MergeErrorKind::MissingPath, v))
    } else if !has_extension(declared_path(v)) {
        Err((MergeErrorKind::NoExtension, declared_path(v)))
    } else if is_archive(declared_path(v)) {
        Ok(bind(t, declared_name(v), declared_path(v)))
    } else {
        Ok(t)
    }
}

/// The explicit table after the first `k` arguments: each argument that follows
/// `--extern` is a declaration.
pub open spec fn explicit_upto(args: Seq<Seq<char>>, k: int) -> Result<Seq<NamedPath>, (MergeErrorKind, Seq<char>)>
    decreases k,
{
    if k <= 0 {
        Ok(Seq::empty())
    } else {
        match explicit_upto(args, k - 1) {
            Err(e) => Err(e),
            Ok(t) => if k >= 2 && args[k - 2] == "--extern"@ {
                explicit_step(t, args[k - 1])
            } else {
                Ok(t)
            },
        }
    }
}

pub open spec fn explicit_table(args: Seq<Seq<char>>) -> Result<Seq<NamedPath>, (MergeErrorKind, Seq<char>)> {
    explicit_upto(args, args.len() as int)
}

/// Whether a file name follows the artifact convention `lib<name>-<hash>.rlib`.
pub open spec fn is_artifact_name(f: Seq<char>) -> bool {
    has_prefix(f, "lib"@) && has_suffix(f, ".rlib"@)
}

/// The library name of an artifact: its file name without the `lib` prefix and
/// without the segment from its last `-` on.
pub open spec fn artifact_name(f: Seq<char>) -> Seq<char> {
    f.subrange(3, last_index(f, '-'))
}

/// Whether creation time `a` is later than `b`; a known time is later than an
/// unknown one.
pub open spec fn newer(a: Option<i128>, b: Option<i128>) -> bool {
    match (a, b) {
        (Some(x), Some(y)) => x > y,
        (Some(_), None) => true,
        _ => false,
    }
}

/// One directory entry taken into the artifacts chosen so far: an artifact whose
/// name is explicit is passed over, and a name already chosen keeps the earlier
/// entry unless this one is newer.
pub open spec fn discover_step(t: Seq<NamedPath>, f: Seq<DatedPath>, e: DatedPath) -> Result<Seq<DatedPath>, (MergeErrorKind, Seq<char>)> {
    if !is_artifact_name(e.0) {
        Ok(f)
    } else if last_index(e.0, '-') < 0 {
        Err((MergeErrorKind::NoDisambiguator, e.0))
    } else {
        let n = artifact_name(e.0);
        let k = found_index(f, n);
        if name_index(t, n) >= 0 {
            Ok(f)
        } else if k < 0 {
            Ok(f.push((n, e.1, e.2)))
        } else if newer(e.2, f[k].2) {
            Ok(f.update(k, (n, e.1, e.2)))
        } else {
            Ok(f)
        }
    }
}

/// The artifacts chosen after the first `k` directory entries.
pub open spec fn discovered_upto(t: Seq<NamedPath>, es: Seq<DatedPath>, k: int) -> Result<Seq<DatedPath>, (MergeErrorKind, Seq<char>)>
    decreases k,
{
    if k <= 0 {
        Ok(Seq::empty())
    } else {
        match discovered_upto(t, es, k - 1) {
            Err(e) => Err(e),
            Ok(f) => discover_step(t, f, es[k - 1]),
        }
    }
}

pub open spec fn drop_dates(f: Seq<DatedPath>) -> Seq<NamedPath> {
    f.map_values(|x: DatedPath| (x.0, x.1))
}

/// The dependency table for build arguments `args` and output directory entries
/// `es`: the explicit table, then the chosen artifacts.
pub open spec fn dependency_table_of(args: Seq<Seq<char>>, es: Seq<DatedPath>) -> Result<Seq<NamedPath>, (MergeErrorKind, Seq<char>)> {
    match explicit_table(args) {
        Err(e) => Err(e),
        Ok(t) => match discovered_upto(t, es, es.len() as int) {
            Err(e) => Err(e),
            Ok(f) => Ok(t + drop_dates(f)),
        },
    }
}

/// The flags `--extern name=path` for each entry of a table, in order.
pub open spec fn extern_flags(t: Seq<NamedPath>) -> Seq<Seq<char>>
    decreases t.len(),
{
    if t.len() == 0 {
        Seq::empty()
    } else {
        extern_flags(t.drop_last()) + seq!["--extern"@, t.last().0 + "="@ + t.last().1]
    }
}

/// The flags for the merged dependencies of the helper build.
pub open spec fn merged_externs(args: Seq<Seq<char>>, es: Seq<DatedPath>) -> Result<Seq<Seq<char>>, (MergeErrorKind, Seq<char>)> {
    match dependency_table_of(args, es) {
        Err(e) => Err(e),
        Ok(t) => Ok(extern_flags(t)),
    }
}

fn merge_error(kind: MergeErrorKind, subject: String) -> (r: MergeError)
    ensures
        r@ == (kind, subject@),
{
    MergeError { kind, subject }
}

/// The last component of a path.
fn file_part_of(p: &str) -> (r: String)
    ensures
        r@ == file_part(p@),
{
    proof { lemma_last_index(p@, '/'); }
    let n = p.unicode_len();
    match find_last(p, '/') {
        Some(j) => slice_text(p, j + 1, n),
        None => {
            assert(p@.skip(0) == p@);
            p.to_string()
        },
    }
}

/// The position of the entry named `n` in a table.
fn name_position(t: &Vec<Extern>, n: &str) -> (r: Option<usize>)
    ensures
        r is Some <==> name_index(externs_view(t@), n@) >= 0,
        r matches Some(k) ==> k == name_index(externs_view(t@), n@),
{
    let mut i: usize = t.len();
    assert(externs_view(t@).subrange(0, i as int) == externs_view(t@));
    while i > 0
        invariant
            i <= t@.len(),
            name_index(externs_view(t@).subrange(0, i as int), n@) == name_index(externs_view(t@), n@),
        decreases i,
    {
        let ghost s = externs_view(t@).subrange(0, i as int);
        assert(s.drop_last() == externs_view(t@).subrange(0, i - 1));
        if same_text(t[i - 1].name.as_str(), n) {
            return Some(i - 1);
        }
        i = i - 1;
    }
    None
}

/// The position of the artifact named `n` among those chosen.
fn found_position(f: &Vec<Found>, n: &str) -> (r: Option<usize>)
    ensures
        r is Some <==> found_index(found_view(f@), n@) >= 0,
        r matches Some(k) ==> k == found_index(found_view(f@), n@),
{
    let mut i: usize = f.len();
    assert(found_view(f@).subrange(0, i as int) == found_view(f@));
    while i > 0
        invariant
            i <= f@.len(),
            found_index(found_view(f@).subrange(0, i as int), n@) == found_index(found_view(f@), n@),
        decreases i,
    {
        let ghost s = found_view(f@).subrange(0, i as int);
        assert(s.drop_last() == found_view(f@).subrange(0, i - 1));
        if same_text(f[i - 1].name.as_str(), n) {
            return Some(i - 1);
        }
        i = i - 1;
    }
    None
}

proof fn lemma_name_index_bounds(t: Seq<NamedPath>, n: Seq<char>)
    ensures
        -1 <= name_index(t, n) < t.len(),
        name_index(t, n) >= 0 ==> t[name_index(t, n)].0 == n,
        name_index(t, n) < 0 ==> forall|j: int| 0 <= j < t.len() ==> t[j].0 != n,
    decreases t.len(),
{
    if t.len() > 0 && t.last().0 != n {
        lemma_name_index_bounds(t.drop_last(), n);
        assert forall|j: int| 0 <= j < t.len() && name_index(t, n) < 0 implies t[j].0 != n by {
            if j < t.len() - 1 {
                assert(t[j] == t.drop_last()[j]);
            }
        }
    }
}

proof fn lemma_found_index_bounds(f: Seq<DatedPath>, n: Seq<char>)
    ensures
        -1 <= found_index(f, n) < f.len(),
        found_index(f, n) >= 0 ==> f[found_index(f, n)].0 == n,
        found_index(f, n) < 0 ==> forall|j: int| 0 <= j < f.len() ==> f[j].0 != n,
    decreases f.len(),
{
    if f.len() > 0 && f.last().0 != n {
        lemma_found_index_bounds(f.drop_last(), n);
        assert forall|j: int| 0 <= j < f.len() && found_index(f, n) < 0 implies f[j].0 != n by {
            if j < f.len() - 1 {
                assert(f[j] == f.drop_last()[j]);
            }
        }
    }
}

/// A library name without its one leading `lib`, where it has one.
fn strip_lib_of(n: String) -> (r: String)
    ensures
        r@ == strip_lib(n@),
{
    proof { reveal_strlit("lib"); }
    if starts_with_text(n.as_str(), "lib") {
        let len = n.as_str().unicode_len();
        slice_text(n.as_str(), 3, len)
    } else {
        n
    }
}

/// Takes one explicit declaration into the table.
fn take_declaration(t: &mut Vec<Extern>, v: &str) -> (r: Result<(), MergeError>)
    ensures
        explicit_step(externs_view(old(t)@), v@) matches Ok(nt) ==> r is Ok && externs_view(final(t)@) == nt,
        explicit_step(externs_view(old(t)@), v@) matches Err(e) ==> r matches Err(re) && re@ == e,
{
    proof { lemma_first_index(v@, '='); }
    let n = v.unicode_len();
    let k = match find_first(v, '=') {
        Some(k) => k,
        None => return Err(merge_error(MergeErrorKind::MissingPath, v.to_string())),
    };
    let name = strip_lib_of(slice_text(v, 0, k));
    let rest = slice_text(v, k + 1, n);
    assert(rest@ == v@.skip(k + 1));
    proof { lemma_first_index(rest@, '='); }
    let path = match find_first(rest.as_str(), '=') {
        Some(j) => slice_text(rest.as_str(), 0, j),
        None => rest,
    };
    assert(path@ == declared_path(v@));
    let file = file_part_of(path.as_str());
    proof { lemma_last_index(file@, '.'); }
    let has_ext = match find_last(file.as_str(), '.') {
        Some(i) => i >= 1,
        None => false,
    };
    if !has_ext {
        return Err(merge_error(MergeErrorKind::NoExtension, path));
    }
    let flen = file.unicode_len();
    if flen > 5 && ends_with_text(file.as_str(), ".rlib") {
        proof { lemma_name_index_bounds(externs_view(t@), name@); }
        match name_position(t, name.as_str()) {
            Some(i) => {
                t.set(i, Extern { name, path });
                assert(externs_view(t@) == externs_view(old(t)@).update(i as int, (declared_name(v@), declared_path(v@))));
            },
            None => {
                t.push(Extern { name, path });
                assert(externs_view(t@) == externs_view(old(t)@).push((declared_name(v@), declared_path(v@))));
            },
        }
    }
    Ok(())
}

/// The table of explicit declarations in the build arguments.
fn explicit_externs(args: &[String]) -> (r: Result<Vec<Extern>, MergeError>)
    ensures
        explicit_table(texts(args@)) matches Ok(t) ==> r matches Ok(v) && externs_view(v@) == t,
        explicit_table(texts(args@)) matches Err(e) ==> r matches Err(re) && re@ == e,
{
    let ghost a = texts(args@);
    let mut t: Vec<Extern> = Vec::new();
    let mut next_is_extern = false;
    let mut i: usize = 0;
    assert(externs_view(t@) == Seq::<NamedPath>::empty());
    while i < args.len()
        invariant
            a == texts(args@),
            i <= args@.len(),
            explicit_upto(a, i as int) == Ok::<Seq<NamedPath>, (MergeErrorKind, Seq<char>)>(externs_view(t@)),
            next_is_extern == (i >= 1 && a[i - 1] == "--extern"@),
        decreases args@.len() - i,
    {
        assert(a[i as int] == args@[i as int]@);
        if next_is_extern {
            match take_declaration(&mut t, args[i].as_str()) {
                Ok(()) => {},
                Err(e) => {
                    assert forall|k: int| i + 1 <= k <= a.len() implies explicit_upto(a, k) == Err::<Seq<NamedPath>, (MergeErrorKind, Seq<char>)>(e@) by {
                        lemma_explicit_err_stays(a, i + 1, k, e@);
                    }
                    return Err(e);
                },
            }
        }
        next_is_extern = same_text(args[i].as_str(), "--extern");
        i = i + 1;
    }
    Ok(t)
}

proof fn lemma_explicit_err_stays(a: Seq<Seq<char>>, i: int, k: int, e: (MergeErrorKind, Seq<char>))
    requires
        1 <= i <= k,
        explicit_upto(a, i) == Err::<Seq<NamedPath>, (MergeErrorKind, Seq<char>)>(e),
    ensures
        explicit_upto(a, k) == Err::<Seq<NamedPath>, (MergeErrorKind, Seq<char>)>(e),
    decreases k - i,
{
    if k > i {
        lemma_explicit_err_stays(a, i, k - 1, e);
    }
}

/// Takes one directory entry into the artifacts chosen so far.
fn take_entry(t: &Vec<Extern>, f: &mut Vec<Found>, e: &DepEntry) -> (r: Result<(), MergeError>)
    ensures
        discover_step(externs_view(t@), found_view(old(f)@), e@) matches Ok(nf) ==> r is Ok && found_view(final(f)@) == nf,
        discover_step(externs_view(t@), found_view(old(f)@), e@) matches Err(x) ==> r matches Err(re) && re@ == x,
{
    let fname = e.file_name.as_str();
    if !(starts_with_text(fname, "lib") && ends_with_text(fname, ".rlib")) {
        return Ok(());
    }
    proof {
        lemma_last_index(fname@, '-');
        reveal_strlit("lib");
    }
    let dash = match find_last(fname, '-') {
        Some(d) => d,
        None => return Err(merge_error(MergeErrorKind::NoDisambiguator, e.file_name.clone())),
    };
    proof { lemma_artifact_dash(fname@); }
    let name = slice_text(fname, 3, dash);
    if name_position(t, name.as_str()).is_some() {
        return Ok(());
    }
    proof { lemma_found_index_bounds(found_view(f@), name@); }
    match found_position(f, name.as_str()) {
        None => {
            f.push(Found { name, path: e.path.clone(), created: e.created });
            assert(found_view(f@) == found_view(old(f)@).push((artifact_name(fname@), e.path@, e.created)));
        },
        Some(k) => {
            let later = match (e.created, f[k].created) {
                (Some(x), Some(y)) => x > y,
                (Some(_), None) => true,
                _ => false,
            };
            if later {
                f.set(k, Found { name, path: e.path.clone(), created: e.created });
                assert(found_view(f@) == found_view(old(f)@).update(k as int, (artifact_name(fname@), e.path@, e.created)));
            }
        },
    }
    Ok(())
}

proof fn lemma_discovered_err_stays(t: Seq<NamedPath>, es: Seq<DatedPath>, i: int, k: int, e: (MergeErrorKind, Seq<char>))
    requires
        1 <= i <= k,
        discovered_upto(t, es, i) == Err::<Seq<DatedPath>, (MergeErrorKind, Seq<char>)>(e),
    ensures
        discovered_upto(t, es, k) == Err::<Seq<DatedPath>, (MergeErrorKind, Seq<char>)>(e),
    decreases k - i,
{
    if k > i {
        lemma_discovered_err_stays(t, es, i, k - 1, e);
    }
}

/// The artifacts chosen from the directory entries, given the explicit table.
fn discover(t: &Vec<Extern>, entries: &[DepEntry]) -> (r: Result<Vec<Found>, MergeError>)
    ensures
        discovered_upto(externs_view(t@), entries_view(entries@), entries@.len() as int) matches Ok(f)
            ==> r matches Ok(v) && found_view(v@) == f,
        discovered_upto(externs_view(t@), entries_view(entries@), entries@.len() as int) matches Err(e)
            ==> r matches Err(re) && re@ == e,
{
    let ghost es = entries_view(entries@);
    let mut f: Vec<Found> = Vec::new();
    let mut i: usize = 0;
    assert(found_view(f@) == Seq::<DatedPath>::empty());
    while i < entries.len()
        invariant
            es == entries_view(entries@),
            i <= entries@.len(),
            discovered_upto(externs_view(t@), es, i as int) == Ok::<Seq<DatedPath>, (MergeErrorKind, Seq<char>)>(found_view(f@)),
        decreases entries@.len() - i,
    {
        assert(es[i as int] == entries@[i as int]@);
        match take_entry(t, &mut f, &entries[i]) {
            Ok(()) => {},
            Err(e) => {
                proof { lemma_discovered_err_stays(externs_view(t@), es, i + 1, es.len() as int, e@); }
                return Err(e);
            },
        }
        i = i + 1;
    }
    Ok(f)
}

/// Returns the dependency table of the helper build: first each explicit
/// `--extern name=path` declaration of `args` whose path is an `rlib` archive,
/// under its name without one leading `lib` (a later declaration of a name
/// replaces an earlier one in place), then, for
/// each library name that no declaration gives, the newest `lib<name>-<hash>.rlib`
/// among `entries`, the output directory's listing, earliest listed first on equal
/// times. Fails on a declaration without a path or whose path has no extension,
/// and on an artifact file name without `-`.
pub fn dependency_table(args: &[String], entries: &[DepEntry]) -> (r: Result<Vec<Extern>, MergeError>)
    ensures
        dependency_table_of(texts(args@), entries_view(entries@)) matches Ok(t) ==> r matches Ok(v) && externs_view(v@) == t,
        dependency_table_of(texts(args@), entries_view(entries@)) matches Err(e) ==> r matches Err(re) && re@ == e,
{
    let mut t = explicit_externs(args)?;
    let f = discover(&t, entries)?;
    let ghost t0 = externs_view(t@);
    let ghost f0 = found_view(f@);
    let mut i: usize = 0;
    while i < f.len()
        invariant
            i <= f@.len(),
            f0 == found_view(f@),
            externs_view(t@) == t0 + drop_dates(f0.subrange(0, i as int)),
        decreases f@.len() - i,
    {
        let x = &f[i];
        let ghost prev = externs_view(t@);
        assert(f0[i as int] == x@);
        t.push(Extern { name: x.name.clone(), path: x.path.clone() });
        assert(externs_view(t@) == prev.push((f0[i as int].0, f0[i as int].1)));
        assert(drop_dates(f0.subrange(0, i + 1)) == drop_dates(f0.subrange(0, i as int)).push((f0[i as int].0, f0[i as int].1)));
        i = i + 1;
    }
    assert(f0.subrange(0, i as int) == f0);
    Ok(t)
}

/// Returns the flags `--extern name=path` for each entry of the table, in order.
pub fn extern_args(table: &[Extern]) -> (r: Vec<String>)
    ensures
        texts(r@) == extern_flags(externs_view(table@)),
{
    let ghost tv = externs_view(table@);
    let mut r: Vec<String> = Vec::new();
    let mut i: usize = 0;
    assert(tv.subrange(0, 0) == Seq::<NamedPath>::empty());
    while i < table.len()
        invariant
            i <= table@.len(),
            tv == externs_view(table@),
            texts(r@) == extern_flags(tv.subrange(0, i as int)),
        decreases table@.len() - i,
    {
        let e = &table[i];
        let named = join_text(e.name.as_str(), "=");
        let flag = join_text(named.as_str(), e.path.as_str());
        r.push("--extern".to_string());
        r.push(flag);
        assert(tv.subrange(0, i + 1).drop_last() == tv.subrange(0, i as int));
        i = i + 1;
    }
    assert(tv.subrange(0, i as int) == tv);
    r
}

/// Returns the dependency flags of the helper build: one `--extern name=path`
/// pair for each entry of `dependency_table`, in its order.
pub fn merge_externs(args: &[String], entries: &[DepEntry]) -> (r: Result<Vec<String>, MergeError>)
    ensures
        merged_externs(texts(args@), entries_view(entries@)) matches Ok(x) ==> r matches Ok(v) && texts(v@) == x,
        merged_externs(texts(args@), entries_view(entries@)) matches Err(e) ==> r matches Err(re) && re@ == e,
{
    let t = dependency_table(args, entries)?;
    Ok(extern_args(t.as_slice()))
}

/// Whether no two entries of a table share a library name.
pub open spec fn unique_names(t: Seq<NamedPath>) -> bool {
    forall|i: int, j: int| 0 <= i < j < t.len() ==> t[i].0 != t[j].0
}

/// Whether entry `m` of the listing is an artifact of library `n`.
pub open spec fn artifact_of(es: Seq<DatedPath>, m: int, n: Seq<char>) -> bool {
    0 <= m < es.len() && is_artifact_name(es[m].0) && last_index(es[m].0, '-') >= 0
        && artifact_name(es[m].0) == n
}

/// Whether entry `m` is an artifact of library `n` than which no artifact of `n`
/// in the listing is newer.
pub open spec fn newest_of(es: Seq<DatedPath>, m: int, n: Seq<char>) -> bool {
    artifact_of(es, m, n) && forall|m2: int| #[trigger] artifact_of(es, m2, n) ==> !newer(es[m2].2, es[m].2)
}

proof fn lemma_bind_unique(t: Seq<NamedPath>, n: Seq<char>, p: Seq<char>)
    requires
        unique_names(t),
    ensures
        unique_names(bind(t, n, p)),
        name_index(bind(t, n, p), n) >= 0,
        bind(t, n, p)[name_index(bind(t, n, p), n)] == (n, p),
        forall|j: int| 0 <= j < t.len() && t[j].0 != n ==> bind(t, n, p)[j] == t[j],
        forall|j: int| 0 <= j < bind(t, n, p).len() ==> bind(t, n, p)[j].0 == n || (j < t.len() && bind(t, n, p)[j] == t[j]),
{
    lemma_name_index_bounds(t, n);
    let b = bind(t, n, p);
    lemma_name_index_bounds(b, n);
    if name_index(b, n) >= 0 && b[name_index(b, n)] != (n, p) {
        let k = name_index(t, n);
        if k >= 0 {
            assert(b[k].0 == n);
        } else {
            assert(b[t.len() as int].0 == n);
        }
    }
    if name_index(b, n) < 0 {
        if name_index(t, n) >= 0 {
            assert(b[name_index(t, n)].0 == n);
        } else {
            assert(b[t.len() as int].0 == n);
        }
    }
}

proof fn lemma_explicit_unique(args: Seq<Seq<char>>, k: int)
    requires
        explicit_upto(args, k) is Ok,
    ensures
        unique_names(explicit_upto(args, k)->Ok_0),
    decreases k,
{
    if k > 0 {
        lemma_explicit_unique(args, k - 1);
        let t = explicit_upto(args, k - 1)->Ok_0;
        if k >= 2 && args[k - 2] == "--extern"@ {
            let v = args[k - 1];
            if first_index(v, '=') >= 0 && has_extension(declared_path(v)) && is_archive(declared_path(v)) {
                lemma_bind_unique(t, declared_name(v), declared_path(v));
            }
        }
    }
}

/// The chosen artifacts' names are not explicit, and no two are alike.
spec fn chosen_names(t: Seq<NamedPath>, f: Seq<DatedPath>) -> bool {
    &&& forall|j: int| 0 <= j < f.len() ==> name_index(t, #[trigger] f[j].0) < 0
    &&& forall|i: int, j: int| 0 <= i < j < f.len() ==> f[i].0 != f[j].0
}

/// Whether artifact `x` is one of the first `k` entries.
spec fn listed_in(es: Seq<DatedPath>, k: int, x: DatedPath) -> bool {
    exists|m: int| 0 <= m < k && artifact_of(es, m, x.0) && es[m].1 == x.1 && es[m].2 == x.2
}

/// Each chosen artifact is one of the first `k` entries.
spec fn chosen_listed(es: Seq<DatedPath>, k: int, f: Seq<DatedPath>) -> bool {
    forall|j: int| 0 <= j < f.len() ==> #[trigger] listed_in(es, k, f[j])
}

/// Each of the first `k` entries whose name is not explicit has a chosen artifact
/// of its name that is not older.
spec fn chosen_newest(t: Seq<NamedPath>, es: Seq<DatedPath>, k: int, f: Seq<DatedPath>) -> bool {
    forall|m: int, n: Seq<char>| 0 <= m < k && #[trigger] artifact_of(es, m, n) && name_index(t, n) < 0
        ==> exists|j: int| 0 <= j < f.len() && f[j].0 == n && !newer(es[m].2, f[j].2)
}

/// How one step changes the chosen artifacts.
proof fn lemma_step(t: Seq<NamedPath>, es: Seq<DatedPath>, k: int)
    requires
        0 < k <= es.len(),
        discovered_upto(t, es, k) is Ok,
    ensures
        discovered_upto(t, es, k - 1) is Ok,
        ({
            let f = discovered_upto(t, es, k - 1)->Ok_0;
            let g = discovered_upto(t, es, k)->Ok_0;
            let e = es[k - 1];
            let n = artifact_name(e.0);
            let q = found_index(f, n);
            ||| (g == f && !(artifact_of(es, k - 1, n) && name_index(t, n) < 0))
            ||| (g == f && artifact_of(es, k - 1, n) && name_index(t, n) < 0 && 0 <= q < f.len() && f[q].0 == n && !newer(e.2, f[q].2))
            ||| (artifact_of(es, k - 1, n) && name_index(t, n) < 0 && q < 0 && g == f.push((n, e.1, e.2))
                && forall|j: int| 0 <= j < f.len() ==> f[j].0 != n)
            ||| (artifact_of(es, k - 1, n) && name_index(t, n) < 0 && 0 <= q < f.len() && f[q].0 == n
                && newer(e.2, f[q].2) && g == f.update(q, (n, e.1, e.2)))
        }),
{
    let f = discovered_upto(t, es, k - 1)->Ok_0;
    let e = es[k - 1];
    lemma_found_index_bounds(f, artifact_name(e.0));
}

proof fn lemma_chosen_names(t: Seq<NamedPath>, es: Seq<DatedPath>, k: int)
    requires
        0 <= k <= es.len(),
        discovered_upto(t, es, k) is Ok,
    ensures
        chosen_names(t, discovered_upto(t, es, k)->Ok_0),
    decreases k,
{
    if k > 0 {
        lemma_step(t, es, k);
        lemma_chosen_names(t, es, k - 1);
        let f = discovered_upto(t, es, k - 1)->Ok_0;
        let g = discovered_upto(t, es, k)->Ok_0;
        assert forall|j: int| 0 <= j < g.len() implies name_index(t, #[trigger] g[j].0) < 0 by {
            if j < f.len() && g[j] != f[j] {
                assert(g[j].0 == artifact_name(es[k - 1].0));
            } else if j < f.len() {
                assert(name_index(t, f[j].0) < 0);
            }
        }
    }
}

proof fn lemma_chosen_listed(t: Seq<NamedPath>, es: Seq<DatedPath>, k: int)
    requires
        0 <= k <= es.len(),
        discovered_upto(t, es, k) is Ok,
    ensures
        chosen_listed(es, k, discovered_upto(t, es, k)->Ok_0),
    decreases k,
{
    if k > 0 {
        lemma_step(t, es, k);
        lemma_chosen_listed(t, es, k - 1);
        let f = discovered_upto(t, es, k - 1)->Ok_0;
        let g = discovered_upto(t, es, k)->Ok_0;
        assert forall|j: int| 0 <= j < g.len() implies #[trigger] listed_in(es, k, g[j]) by {
            if j < f.len() && g[j] == f[j] {
                assert(listed_in(es, k - 1, f[j]));
                let m = choose|m: int| 0 <= m < k - 1 && artifact_of(es, m, f[j].0) && es[m].1 == f[j].1 && es[m].2 == f[j].2;
                assert(artifact_of(es, m, g[j].0));
            } else {
                assert(artifact_of(es, k - 1, g[j].0));
            }
        }
    }
}

#[verifier::rlimit(50)]
proof fn lemma_chosen_newest(t: Seq<NamedPath>, es: Seq<DatedPath>, k: int)
    requires
        0 <= k <= es.len(),
        discovered_upto(t, es, k) is Ok,
    ensures
        chosen_newest(t, es, k, discovered_upto(t, es, k)->Ok_0),
    decreases k,
{
    if k > 0 {
        lemma_step(t, es, k);
        lemma_chosen_newest(t, es, k - 1);
        let f = discovered_upto(t, es, k - 1)->Ok_0;
        let g = discovered_upto(t, es, k)->Ok_0;
        let e = es[k - 1];
        let q = found_index(f, artifact_name(e.0));
        assert forall|m: int, n: Seq<char>| 0 <= m < k && #[trigger] artifact_of(es, m, n) && name_index(t, n) < 0
            implies exists|j: int| 0 <= j < g.len() && g[j].0 == n && !newer(es[m].2, g[j].2) by {
            if m == k - 1 {
                assert(n == artifact_name(e.0));
                if g.len() == f.len() + 1 {
                    assert(g[f.len() as int].0 == n);
                } else {
                    assert(g[q].0 == n);
                }
            } else {
                let j = choose|j: int| 0 <= j < f.len() && f[j].0 == n && !newer(es[m].2, f[j].2);
                if g.len() == f.len() + 1 {
                    assert(g[j] == f[j]);
                } else if g == f {
                } else if j == q {
                    assert(g[q].0 == n && !newer(es[m].2, g[q].2));
                } else {
                    assert(g[j] == f[j]);
                }
            }
        }
    }
}

proof fn lemma_table_parts(args: Seq<Seq<char>>, es: Seq<DatedPath>)
    requires
        dependency_table_of(args, es) is Ok,
    ensures
        explicit_table(args) is Ok,
        discovered_upto(explicit_table(args)->Ok_0, es, es.len() as int) is Ok,
        ({
            let t = explicit_table(args)->Ok_0;
            let f = discovered_upto(t, es, es.len() as int)->Ok_0;
            let table = dependency_table_of(args, es)->Ok_0;
            &&& table == t + drop_dates(f)
            &&& unique_names(t)
            &&& chosen_names(t, f)
            &&& chosen_listed(es, es.len() as int, f)
            &&& chosen_newest(t, es, es.len() as int, f)
        }),
{
    lemma_explicit_unique(args, args.len() as int);
    let t = explicit_table(args)->Ok_0;
    lemma_chosen_names(t, es, es.len() as int);
    lemma_chosen_listed(t, es, es.len() as int);
    lemma_chosen_newest(t, es, es.len() as int);
}

/// No two entries of the dependency table share a library name.
pub proof fn law_table_names_unique(args: Seq<Seq<char>>, es: Seq<DatedPath>)
    requires
        dependency_table_of(args, es) is Ok,
    ensures
        unique_names(dependency_table_of(args, es)->Ok_0),
{
    lemma_table_parts(args, es);
    let t = explicit_table(args)->Ok_0;
    let f = discovered_upto(t, es, es.len() as int)->Ok_0;
    let table = dependency_table_of(args, es)->Ok_0;
    assert forall|i: int, j: int| 0 <= i < j < table.len() implies table[i].0 != table[j].0 by {
        if j >= t.len() && i < t.len() {
            assert(table[j].0 == f[j - t.len()].0);
            assert(name_index(t, f[j - t.len()].0) < 0);
            lemma_name_index_bounds(t, f[j - t.len()].0);
        } else if i >= t.len() {
            assert(table[j].0 == f[j - t.len()].0);
            assert(table[i].0 == f[i - t.len()].0);
        }
    }
}

/// An explicit declaration takes precedence over the output directory: the
/// dependency table begins with the explicit table, a name that is declared
/// explicitly has one entry, which holds the declared path, and the flags hold
/// `--extern name=path` for each entry, in order.
pub proof fn law_explicit_declaration_wins(args: Seq<Seq<char>>, es: Seq<DatedPath>, n: Seq<char>)
    requires
        dependency_table_of(args, es) is Ok,
    ensures
        explicit_table(args) is Ok,
        ({
            let t = explicit_table(args)->Ok_0;
            let table = dependency_table_of(args, es)->Ok_0;
            &&& table.subrange(0, t.len() as int) == t
            &&& name_index(t, n) >= 0 ==> forall|j: int| 0 <= j < table.len() && table[j].0 == n
                ==> j == name_index(t, n) && table[j] == t[name_index(t, n)]
            &&& extern_flags(table).len() == 2 * table.len()
            &&& forall|j: int| 0 <= j < table.len() ==> #[trigger] flag_pair_at(extern_flags(table), table, j)
        }),
{
    lemma_extern_flags(dependency_table_of(args, es)->Ok_0);
    lemma_table_parts(args, es);
    law_table_names_unique(args, es);
    let t = explicit_table(args)->Ok_0;
    let f = discovered_upto(t, es, es.len() as int)->Ok_0;
    let table = dependency_table_of(args, es)->Ok_0;
    assert(table.subrange(0, t.len() as int) == t);
    lemma_name_index_bounds(t, n);
    if name_index(t, n) >= 0 {
        assert forall|j: int| 0 <= j < table.len() && table[j].0 == n implies j == name_index(t, n) && table[j] == t[name_index(t, n)] by {
            let k = name_index(t, n);
            assert(table[k] == t[k]);
            if j != k {
                assert(table[k].0 == n);
            }
        }
    }
}

/// Each entry of `table` past the explicit table `t` is the path of a newest listed
/// artifact of its name.
pub open spec fn discovered_are_newest(t: Seq<NamedPath>, es: Seq<DatedPath>, table: Seq<NamedPath>) -> bool {
    forall|j: int| t.len() <= j < table.len() ==> #[trigger] is_newest_entry(es, table[j])
}

/// Whether `x` binds a library name to the path of a newest listed artifact of it.
pub open spec fn is_newest_entry(es: Seq<DatedPath>, x: NamedPath) -> bool {
    exists|m: int| newest_of(es, m, x.0) && es[m].1 == x.1
}

/// Each listed artifact whose name the explicit table `t` lacks has an entry in
/// `table` past `t`.
pub open spec fn artifacts_all_entered(t: Seq<NamedPath>, es: Seq<DatedPath>, table: Seq<NamedPath>) -> bool {
    forall|m: int, n: Seq<char>| #[trigger] artifact_of(es, m, n) && name_index(t, n) < 0
        ==> exists|j: int| t.len() <= j < table.len() && table[j].0 == n
}

/// Among the artifacts of one library name in the output directory, the newest is
/// chosen: each entry of the table past the explicit ones is a listed artifact of
/// its name, and no listed artifact of that name was created later; every listed
/// artifact whose name is not declared explicitly has an entry; a name has one
/// entry; and the flags hold `--extern name=path` for each entry, in order.
pub proof fn law_newest_artifact_chosen(args: Seq<Seq<char>>, es: Seq<DatedPath>)
    requires
        dependency_table_of(args, es) is Ok,
    ensures
        explicit_table(args) is Ok,
        discovered_are_newest(explicit_table(args)->Ok_0, es, dependency_table_of(args, es)->Ok_0),
        artifacts_all_entered(explicit_table(args)->Ok_0, es, dependency_table_of(args, es)->Ok_0),
        unique_names(dependency_table_of(args, es)->Ok_0),
        extern_flags(dependency_table_of(args, es)->Ok_0).len() == 2 * dependency_table_of(args, es)->Ok_0.len(),
        forall|j: int| 0 <= j < dependency_table_of(args, es)->Ok_0.len()
            ==> #[trigger] flag_pair_at(extern_flags(dependency_table_of(args, es)->Ok_0), dependency_table_of(args, es)->Ok_0, j),
{
    lemma_extern_flags(dependency_table_of(args, es)->Ok_0);
    law_table_names_unique(args, es);
    lemma_table_parts(args, es);
    let t = explicit_table(args)->Ok_0;
    let f = discovered_upto(t, es, es.len() as int)->Ok_0;
    let table = dependency_table_of(args, es)->Ok_0;
    assert forall|j: int| t.len() <= j < table.len() implies #[trigger] is_newest_entry(es, table[j]) by {
        let i = j - t.len();
        assert(table[j] == (f[i].0, f[i].1));
        assert(listed_in(es, es.len() as int, f[i]));
        let m = choose|m: int| 0 <= m < es.len() && artifact_of(es, m, f[i].0) && es[m].1 == f[i].1 && es[m].2 == f[i].2;
        assert forall|m2: int| #[trigger] artifact_of(es, m2, table[j].0) implies !newer(es[m2].2, es[m].2) by {
            assert(name_index(t, f[i].0) < 0);
            assert(0 <= m2 < es.len());
            let i2 = choose|i2: int| 0 <= i2 < f.len() && f[i2].0 == f[i].0 && !newer(es[m2].2, f[i2].2);
            if i2 != i {
                if i2 < i {
                    assert(f[i2].0 != f[i].0);
                } else {
                    assert(f[i].0 != f[i2].0);
                }
            }
        }
        assert(newest_of(es, m, table[j].0));
    }
    assert(discovered_are_newest(t, es, table));
    assert forall|m: int, n: Seq<char>| #[trigger] artifact_of(es, m, n) && name_index(t, n) < 0
        implies exists|j: int| t.len() <= j < table.len() && table[j].0 == n by {
        assert(0 <= m < es.len());
        let i = choose|i: int| 0 <= i < f.len() && f[i].0 == n && !newer(es[m].2, f[i].2);
        assert(table[t.len() + i] == (f[i].0, f[i].1));
        assert(table[t.len() + i].0 == n);
    }
}

/// Whether an entry can be written as `--extern name=path` and read back: no
/// `=` in its name or path, and the path names an archive.
pub open spec fn plain_entry(x: NamedPath) -> bool {
    !contains_char(x.0, '=') && !contains_char(x.1, '=') && is_archive(x.1)
}

proof fn lemma_before_eq_plain(s: Seq<char>)
    ensures
        !contains_char(before_eq(s), '='),
        !contains_char(s, '=') ==> before_eq(s) == s,
{
    lemma_first_index(s, '=');
    let b = before_eq(s);
    if contains_char(b, '=') {
        let j = choose|j: int| 0 <= j < b.len() && b[j] == '=';
        assert(s[j] == '=');
    }
}

proof fn lemma_explicit_plain(args: Seq<Seq<char>>, k: int)
    requires
        explicit_upto(args, k) is Ok,
    ensures
        forall|j: int| 0 <= j < explicit_upto(args, k)->Ok_0.len() ==> #[trigger] plain_entry(explicit_upto(args, k)->Ok_0[j]),
    decreases k,
{
    if k > 0 {
        lemma_explicit_plain(args, k - 1);
        let t = explicit_upto(args, k - 1)->Ok_0;
        if k >= 2 && args[k - 2] == "--extern"@ {
            let v = args[k - 1];
            if first_index(v, '=') >= 0 && has_extension(declared_path(v)) && is_archive(declared_path(v)) {
                let n = declared_name(v);
                let p = declared_path(v);
                lemma_first_index(v, '=');
                lemma_before_eq_plain(v.skip(first_index(v, '=') + 1));
                let raw = v.subrange(0, first_index(v, '='));
                if contains_char(raw, '=') {
                    let j = choose|j: int| 0 <= j < raw.len() && raw[j] == '=';
                    assert(v[j] == '=');
                }
                if contains_char(n, '=') {
                    let j = choose|j: int| 0 <= j < n.len() && n[j] == '=';
                    if has_prefix(raw, "lib"@) {
                        assert(raw[j + "lib"@.len()] == '=');
                    } else {
                        assert(raw[j] == '=');
                    }
                }
                assert(plain_entry((n, p)));
                lemma_name_index_bounds(t, n);
                let b = bind(t, n, p);
                assert forall|j: int| 0 <= j < b.len() implies #[trigger] plain_entry(b[j]) by {
                    if j < t.len() && j != name_index(t, n) {
                        assert(b[j] == t[j]);
                    }
                }
            }
        }
    }
}

/// The last `-` of an artifact file name comes after its `lib` prefix.
proof fn lemma_artifact_dash(f: Seq<char>)
    requires
        is_artifact_name(f),
        last_index(f, '-') >= 0,
    ensures
        3 <= last_index(f, '-') < f.len(),
        f[last_index(f, '-')] == '-',
{
    reveal_strlit("lib");
    lemma_last_index(f, '-');
    let d = last_index(f, '-');
    if d < 3 {
        assert(f.subrange(0, 3)[d] == "lib"@[d]);
    }
}

proof fn lemma_no_dash_error(t: Seq<NamedPath>, es: Seq<DatedPath>, k: int, m: int)
    requires
        0 <= m < k <= es.len(),
        discovered_upto(t, es, k) is Ok,
        is_artifact_name(es[m].0),
    ensures
        last_index(es[m].0, '-') >= 0,
    decreases k,
{
    if m < k - 1 {
        lemma_no_dash_error(t, es, k - 1, m);
    }
}

/// Whether the flags `a` hold the pair for entry `i` of `t` at `2 * i`:
/// `--extern`, then `name=path`.
pub open spec fn flag_pair_at(a: Seq<Seq<char>>, t: Seq<NamedPath>, i: int) -> bool {
    a[2 * i] == "--extern"@ && a[2 * i + 1] == t[i].0 + "="@ + t[i].1
}

proof fn lemma_extern_flags(t: Seq<NamedPath>)
    ensures
        extern_flags(t).len() == 2 * t.len(),
        forall|i: int| 0 <= i < t.len() ==> #[trigger] flag_pair_at(extern_flags(t), t, i),
    decreases t.len(),
{
    if t.len() > 0 {
        lemma_extern_flags(t.drop_last());
        let e = extern_flags(t.drop_last());
        let tail = seq!["--extern"@, t.last().0 + "="@ + t.last().1];
        assert(extern_flags(t) == e + tail);
        assert forall|i: int| 0 <= i < t.len() implies #[trigger] flag_pair_at(extern_flags(t), t, i) by {
            if i < t.len() - 1 {
                assert(flag_pair_at(e, t.drop_last(), i));
                assert(t.drop_last()[i] == t[i]);
                assert(extern_flags(t)[2 * i] == e[2 * i]);
                assert(extern_flags(t)[2 * i + 1] == e[2 * i + 1]);
            } else {
                assert(extern_flags(t)[2 * i] == tail[0]);
                assert(extern_flags(t)[2 * i + 1] == tail[1]);
            }
        }
    }
}

proof fn lemma_archive_has_extension(p: Seq<char>)
    requires
        is_archive(p),
    ensures
        has_extension(p),
{
    let f = file_part(p);
    reveal_strlit(".rlib");
    lemma_last_index(f, '.');
    assert(f.subrange(f.len() - 5, f.len() as int)[0] == '.');
    assert(f[f.len() - 5] == '.');
}

proof fn lemma_read_back(n: Seq<char>, p: Seq<char>)
    requires
        plain_entry((n, p)),
    ensures
        first_index(n + "="@ + p, '=') == n.len(),
        declared_name(n + "="@ + p) == strip_lib(n),
        declared_path(n + "="@ + p) == p,
        n + "="@ + p != "--extern"@,
{
    reveal_strlit("=");
    reveal_strlit("--extern");
    let v = n + "="@ + p;
    lemma_first_index(v, '=');
    assert(v[n.len() as int] == '=');
    if first_index(v, '=') < n.len() {
        assert(n[first_index(v, '=')] == '=');
    }
    assert(v.subrange(0, n.len() as int) == n);
    assert(v.skip((n.len() + 1) as int) =~= p);
    lemma_before_eq_plain(p);
    if v == "--extern"@ {
        assert(!contains_char("--extern"@, '='));
        assert(contains_char(v, '='));
    }
}

/// The argument before each declaration of a table's flags is `--extern`, and
/// the argument before each `--extern` is not.
proof fn lemma_flags_odd(t: Seq<NamedPath>, k: int)
    requires
        0 <= k < t.len(),
        forall|j: int| 0 <= j < t.len() ==> #[trigger] plain_entry(t[j]),
        explicit_upto(extern_flags(t), 2 * k) is Ok,
    ensures
        explicit_upto(extern_flags(t), 2 * k + 1) == explicit_upto(extern_flags(t), 2 * k),
{
    lemma_extern_flags(t);
    if k > 0 {
        let a = extern_flags(t);
        assert(flag_pair_at(a, t, k - 1));
        assert(a[2 * (k - 1) + 1] == t[k - 1].0 + "="@ + t[k - 1].1);
        assert(plain_entry(t[k - 1]));
        lemma_read_back(t[k - 1].0, t[k - 1].1);
    }
}

proof fn lemma_step_read_back(prev: Seq<NamedPath>, n: Seq<char>, p: Seq<char>)
    requires
        plain_entry((n, p)),
        !has_prefix(n, "lib"@),
        name_index(prev, n) < 0,
    ensures
        explicit_step(prev, n + "="@ + p) == Ok::<Seq<NamedPath>, (MergeErrorKind, Seq<char>)>(prev.push((n, p))),
{
    lemma_read_back(n, p);
    lemma_archive_has_extension(p);
}

proof fn lemma_flags_even(t: Seq<NamedPath>, k: int)
    requires
        0 < k <= t.len(),
        unique_names(t),
        forall|j: int| 0 <= j < t.len() ==> #[trigger] plain_entry(t[j]),
        forall|j: int| 0 <= j < t.len() ==> !has_prefix(#[trigger] t[j].0, "lib"@),
        explicit_upto(extern_flags(t), 2 * k - 1) == Ok::<Seq<NamedPath>, (MergeErrorKind, Seq<char>)>(t.subrange(0, k - 1)),
    ensures
        explicit_upto(extern_flags(t), 2 * k) == Ok::<Seq<NamedPath>, (MergeErrorKind, Seq<char>)>(t.subrange(0, k)),
{
    let a = extern_flags(t);
    lemma_extern_flags(t);
    let prev = t.subrange(0, k - 1);
    let n = t[k - 1].0;
    let p = t[k - 1].1;
    assert(flag_pair_at(a, t, k - 1));
    assert(plain_entry(t[k - 1]));
    assert(!has_prefix(t[k - 1].0, "lib"@));
    lemma_name_index_bounds(prev, n);
    if name_index(prev, n) >= 0 {
        assert(t[name_index(prev, n)].0 == t[k - 1].0);
    }
    lemma_step_read_back(prev, n, p);
    assert(explicit_upto(a, 2 * k) == explicit_step(prev, a[2 * k - 1]));
    assert(prev.push((n, p)) == t.subrange(0, k));
}

/// Reading the flags of a table of plain entries with unique names gives back
/// the table, one declaration at a time.
proof fn lemma_explicit_of_flags(t: Seq<NamedPath>, k: int)
    requires
        0 <= k <= t.len(),
        unique_names(t),
        forall|j: int| 0 <= j < t.len() ==> #[trigger] plain_entry(t[j]),
        forall|j: int| 0 <= j < t.len() ==> !has_prefix(#[trigger] t[j].0, "lib"@),
    ensures
        explicit_upto(extern_flags(t), 2 * k) == Ok::<Seq<NamedPath>, (MergeErrorKind, Seq<char>)>(t.subrange(0, k)),
    decreases k,
{
    if k > 0 {
        lemma_explicit_of_flags(t, k - 1);
        lemma_flags_odd(t, k - 1);
        lemma_flags_even(t, k);
    } else {
        assert(t.subrange(0, 0) == Seq::<NamedPath>::empty());
    }
}

/// Resolving the dependencies again, with the flags of a resolved table as the
/// build context and the same directory listing, gives that table back, where
/// each table entry can be read back from its flag: no `=` in artifact file names
/// or paths, each artifact path names an archive, and no name in the table
/// begins with `lib` (reading it back would strip that prefix).
pub proof fn law_merge_idempotent(args: Seq<Seq<char>>, es: Seq<DatedPath>)
    requires
        dependency_table_of(args, es) is Ok,
        forall|m: int| 0 <= m < es.len() && is_artifact_name(#[trigger] es[m].0) ==> !contains_char(es[m].0, '=')
            && !contains_char(es[m].1, '=') && is_archive(es[m].1),
        forall|j: int| 0 <= j < dependency_table_of(args, es)->Ok_0.len()
            ==> !has_prefix(#[trigger] dependency_table_of(args, es)->Ok_0[j].0, "lib"@),
    ensures
        dependency_table_of(extern_flags(dependency_table_of(args, es)->Ok_0), es) == dependency_table_of(args, es),
{
    lemma_table_parts(args, es);
    law_table_names_unique(args, es);
    law_newest_artifact_chosen(args, es);
    law_explicit_declaration_wins(args, es, Seq::empty());
    let t0 = explicit_table(args)->Ok_0;
    let f = discovered_upto(t0, es, es.len() as int)->Ok_0;
    let t = dependency_table_of(args, es)->Ok_0;
    lemma_explicit_plain(args, args.len() as int);
    assert forall|j: int| 0 <= j < t.len() implies #[trigger] plain_entry(t[j]) by {
        if j < t0.len() {
            assert(t[j] == t0[j]);
        } else {
            let i = j - t0.len();
            assert(t[j] == (f[i].0, f[i].1));
            assert(listed_in(es, es.len() as int, f[i]));
            let m = choose|m: int| 0 <= m < es.len() && artifact_of(es, m, f[i].0) && es[m].1 == f[i].1 && es[m].2 == f[i].2;
            let fname = es[m].0;
            assert(!contains_char(fname, '='));
            lemma_artifact_dash(fname);
            if contains_char(f[i].0, '=') {
                let q = choose|q: int| 0 <= q < f[i].0.len() && f[i].0[q] == '=';
                assert(fname[q + 3] == '=');
            }
        }
    }
    let flags = extern_flags(t);
    lemma_extern_flags(t);
    lemma_explicit_of_flags(t, t.len() as int);
    assert(flags.len() == 2 * t.len());
    assert(t.subrange(0, t.len() as int) == t);
    assert(explicit_table(flags) == Ok::<Seq<NamedPath>, (MergeErrorKind, Seq<char>)>(t));
    assert forall|k: int| 0 <= k <= es.len() implies discovered_upto(t, es, k) == Ok::<Seq<DatedPath>, (MergeErrorKind, Seq<char>)>(Seq::empty()) by {
        lemma_nothing_discovered(args, es, k);
    }
    assert(drop_dates(Seq::<DatedPath>::empty()) == Seq::<NamedPath>::empty());
    assert(t + Seq::<NamedPath>::empty() == t);
}

proof fn lemma_nothing_discovered(args: Seq<Seq<char>>, es: Seq<DatedPath>, k: int)
    requires
        0 <= k <= es.len(),
        dependency_table_of(args, es) is Ok,
    ensures
        discovered_upto(dependency_table_of(args, es)->Ok_0, es, k) == Ok::<Seq<DatedPath>, (MergeErrorKind, Seq<char>)>(Seq::empty()),
    decreases k,
{
    if k > 0 {
        lemma_nothing_discovered(args, es, k - 1);
        lemma_table_parts(args, es);
        law_newest_artifact_chosen(args, es);
        let t0 = explicit_table(args)->Ok_0;
        let t = dependency_table_of(args, es)->Ok_0;
        let e = es[k - 1];
        if is_artifact_name(e.0) {
            lemma_no_dash_error(t0, es, es.len() as int, k - 1);
            let n = artifact_name(e.0);
            assert(artifact_of(es, k - 1, n));
            lemma_name_index_bounds(t0, n);
            lemma_name_index_bounds(t, n);
            if name_index(t0, n) >= 0 {
                assert(t[name_index(t0, n)] == t0[name_index(t0, n)]);
            } else {
                let j = choose|j: int| t0.len() <= j < t.len() && t[j].0 == n;
            }
        }
    }
}

} // verus!
