//! One evaluation as a machine of stages. Each step takes the outcome of the
//! last action and names the next: list the output directory, create the
//! directory of helper sources, write the helper, build it, run it, remove what
//! was created, finish. The caller performs each action and reports its outcome.

use vstd::prelude::*;
use crate::args::{texts, kept_args, helper_flags, value_after, extra_filename, helper_rustc_args, out_dir, extra_filename_of};
use crate::deps::{DepEntry, MergeError, merge_externs, merged_externs, entries_view};
use crate::synth::{temp_dir, source_path, binary_path, helper_program, temp_dir_of, source_path_of, binary_path_of, helper_program_text};
use crate::syntax::{Captured, capture_expression, capture_declaration, splice, quoted};
use crate::text::join_text;

verus! {

/// Where an evaluation stands: what it waits for.
#[derive(Clone, Copy, PartialEq, Eq, Structural, Debug)]
pub enum Stage {
    /// The listing of the output directory.
    Listing,
    /// The directory of helper sources.
    CreatingDir,
    /// The helper source written.
    Writing,
    /// The helper built.
    Compiling,
    /// The helper run.
    Running,
    /// The temporary files removed.
    CleaningUp,
    /// Nothing: the evaluation has finished.
    Done,
}

/// Why an evaluation failed.
pub enum EvalError {
    /// The captured code does not parse; the parser's message.
    InvalidInput(String),
    /// The build arguments name no output directory.
    MissingOutDir,
    /// The output directory could not be listed.
    UnreadableDir,
    /// The dependencies could not be determined.
    Merge(MergeError),
    /// The directory of helper sources could not be created.
    DirFailed,
    /// The helper source could not be written.
    WriteFailed,
    /// The compiler could not be started.
    CompilerMissing,
    /// The helper did not build; the compiler's diagnostics.
    Compile(String),
    /// The helper binary could not be started.
    HelperMissing,
    /// The helper failed; what it wrote to its error stream.
    Run(String),
    /// The helper's output is not UTF-8.
    NotUtf8,
    /// These temporary files could not be removed.
    Cleanup(Vec<String>),
}

/// The outcome of the last action.
pub enum Event {
    /// The output directory's entries.
    Listed(Vec<DepEntry>),
    ListFailed,
    /// The directory of helper sources exists.
    DirReady,
    DirFailed,
    Written,
    WriteFailed,
    CompilerMissing,
    /// The compiler ran; whether it succeeded, and its error stream.
    Compiled { success: bool, stderr: String },
    HelperMissing,
    /// The helper ran; whether it succeeded, its output where that is UTF-8, and
    /// its error stream.
    Ran { success: bool, stdout: Option<String>, stderr: String },
    /// The files that could not be removed.
    Removed { failed: Vec<String> },
}

/// What the caller is to do next.
pub enum Action {
    /// List the directory.
    ListDir(String),
    /// Create the directory, where it does not exist yet.
    CreateDir(String),
    /// Write the file.
    WriteFile { path: String, contents: String },
    /// Run the compiler with these arguments.
    Compile(Vec<String>),
    /// Run this program, without arguments.
    Run(String),
    /// Remove these files.
    Remove(Vec<String>),
    /// Hand this to the call site: the tokens that replace the captured code, or
    /// the errors, the evaluation's own first.
    Finish(Result<String, Vec<EvalError>>),
}

/// The state of one evaluation.
pub struct Evaluation {
    /// The build context: the arguments of the enclosing compilation.
    pub args: Vec<String>,
    pub captured: Captured,
    pub out_dir: String,
    /// The helper source file.
    pub source: String,
    /// The helper binary.
    pub binary: String,
    /// The arguments that build the helper, once the dependencies are known.
    pub rustc_args: Vec<String>,
    /// The temporary files that may exist.
    pub temp_files: Vec<String>,
    pub stage: Stage,
    /// The outcome that is handed on once cleanup is done.
    pub outcome: Option<Result<String, EvalError>>,
}

/// Whether `x` can be the tokens that replace the output `out`: the output
/// itself, taken as an expression, or a quoted string literal holding it.
pub open spec fn spliced_output(out: Seq<char>, x: Seq<char>) -> bool {
    x == out || quoted(x)
}

/// What the call site receives for `tokens`: the tokens themselves in the
/// expression form; in the declaration form, the function with its attributes,
/// visibility and signature and with `tokens` as its whole body.
pub open spec fn result_text(header: Option<Seq<char>>, tokens: Seq<char>) -> Seq<char> {
    match header {
        Some(h) => h + " { "@ + tokens + " }"@,
        None => tokens,
    }
}

/// The arguments that build the helper program.
pub open spec fn build_args(args: Seq<Seq<char>>, externs: Seq<Seq<char>>, source: Seq<char>) -> Seq<Seq<char>> {
    kept_args(args, true) + helper_flags() + externs + seq![source]
}

/// Whether the action ends the evaluation with exactly these errors.
pub open spec fn fails_with(a: Action, errors: Seq<EvalError>) -> bool {
    a matches Action::Finish(Err(v)) && v@ == errors
}

/// What cleanup hands on: the outcome, with a cleanup error after any error of
/// the evaluation where files were left.
pub open spec fn finish_result(outcome: Result<String, EvalError>, failed: Vec<String>, res: Result<String, Vec<EvalError>>) -> bool {
    if failed@.len() == 0 {
        match outcome {
            Ok(t) => res == Ok::<String, Vec<EvalError>>(t),
            Err(e) => res matches Err(v) && v@ == seq![e],
        }
    } else {
        match outcome {
            Ok(_) => res matches Err(v) && v@ == seq![EvalError::Cleanup(failed)],
            Err(e) => res matches Err(v) && v@ == seq![e, EvalError::Cleanup(failed)],
        }
    }
}

impl Evaluation {
    /// The files that exist at each stage, and an outcome awaits cleanup.
    pub open spec fn wf(&self) -> bool {
        match self.stage {
            Stage::Listing | Stage::CreatingDir => self.temp_files@.len() == 0,
            Stage::Writing | Stage::Compiling => texts(self.temp_files@) == seq![self.source@],
            Stage::Running => texts(self.temp_files@) == seq![self.source@, self.binary@],
            Stage::CleaningUp => self.outcome is Some,
            Stage::Done => true,
        }
    }

    /// Whether the evaluation waits for this kind of outcome.
    pub open spec fn awaits(&self, e: &Event) -> bool {
        match self.stage {
            Stage::Listing => e is Listed || e is ListFailed,
            Stage::CreatingDir => e is DirReady || e is DirFailed,
            Stage::Writing => e is Written || e is WriteFailed,
            Stage::Compiling => e is CompilerMissing || e is Compiled,
            Stage::Running => e is HelperMissing || e is Ran,
            Stage::CleaningUp => e is Removed,
            Stage::Done => false,
        }
    }

    /// Whether `next` and `a` go on to cleanup with the outcome `o`: every
    /// temporary file is to be removed.
    pub open spec fn cleans_up(&self, next: &Evaluation, a: Action, o: Result<String, EvalError>) -> bool {
        &&& next.stage == Stage::CleaningUp
        &&& next.temp_files == self.temp_files
        &&& next.outcome == Some(o)
        &&& a matches Action::Remove(fs) && texts(fs@) == texts(self.temp_files@)
    }

    /// Whether the evaluation is over.
    pub fn is_done(&self) -> (r: bool)
        ensures
            r == (self.stage == Stage::Done),
    {
        self.stage == Stage::Done
    }
}

/// Whether `e` and `a` are the start of an evaluation of `captured` in the build
/// context `args`, with the disambiguator `salt`: without an output directory it
/// fails at once, before any file exists; otherwise it lists that directory.
pub open spec fn begun(e: Evaluation, a: Action, args: Seq<Seq<char>>, salt: nat) -> bool {
    &&& e.wf()
    &&& e.temp_files@.len() == 0
    &&& match value_after(args, "--out-dir"@) {
        None => e.stage == Stage::Done && fails_with(a, seq![EvalError::MissingOutDir]),
        Some(d) => {
            &&& e.stage == Stage::Listing
            &&& e.out_dir@ == d
            &&& e.source@ == source_path(d, salt)
            &&& e.binary@ == binary_path(d, extra_filename(args))
            &&& a matches Action::ListDir(x) && x@ == d
        },
    }
}

fn copy_texts(v: &Vec<String>) -> (r: Vec<String>)
    ensures
        texts(r@) == texts(v@),
{
    let mut r: Vec<String> = Vec::new();
    let mut i: usize = 0;
    while i < v.len()
        invariant
            i <= v@.len(),
            texts(r@) == texts(v@).subrange(0, i as int),
        decreases v@.len() - i,
    {
        let ghost before = r@;
        let c = v[i].clone();
        assert(c@ == v@[i as int]@);
        r.push(c);
        assert(r@ == before.push(c));
        assert(texts(r@) =~= texts(before).push(c@));
        assert(texts(v@).subrange(0, i + 1) =~= texts(v@).subrange(0, i as int).push(v@[i as int]@));
        i = i + 1;
    }
    assert(texts(v@).subrange(0, i as int) == texts(v@));
    r
}

/// Starts the evaluation of a captured block in the build context `args`, with
/// `salt` to tell its helper source apart from those of other evaluations (a
/// value drawn from the block and the clock).
pub fn begin(captured: Captured, args: Vec<String>, salt: u64) -> (r: (Evaluation, Action))
    ensures
        begun(r.0, r.1, texts(args@), salt as nat),
        r.0.captured == captured,
        r.0.args == args,
{
    let dir = out_dir(args.as_slice());
    match dir {
        None => {
            let e = Evaluation {
                args, captured, out_dir: String::new(), source: String::new(), binary: String::new(),
                rustc_args: Vec::new(), temp_files: Vec::new(), stage: Stage::Done, outcome: None,
            };
            let errors = vec![EvalError::MissingOutDir];
            assert(errors@ =~= seq![EvalError::MissingOutDir]);
            (e, Action::Finish(Err(errors)))
        },
        Some(d) => {
            let source = source_path_of(d.as_str(), salt);
            let extra = extra_filename_of(args.as_slice());
            let binary = binary_path_of(d.as_str(), extra.as_str());
            let listed = d.clone();
            let e = Evaluation {
                args, captured, out_dir: d, source, binary,
                rustc_args: Vec::new(), temp_files: Vec::new(), stage: Stage::Listing, outcome: None,
            };
            (e, Action::ListDir(listed))
        },
    }
}

fn finished_early(captured: Captured, args: Vec<String>, error: EvalError) -> (r: (Evaluation, Action))
    ensures
        r.0.stage == Stage::Done,
        r.0.temp_files@.len() == 0,
        r.0.captured == captured,
        r.0.args == args,
        r.1 matches Action::Finish(Err(v)) && v@ == seq![error],
{
    let e = Evaluation {
        args, captured, out_dir: String::new(), source: String::new(), binary: String::new(),
        rustc_args: Vec::new(), temp_files: Vec::new(), stage: Stage::Done, outcome: None,
    };
    let errors = vec![error];
    assert(errors@ =~= seq![error]);
    (e, Action::Finish(Err(errors)))
}

/// Starts the expression form on the macro input `input`, a sequence of
/// statements. Where it does not parse, the evaluation fails at once with the
/// parser's message.
pub fn start_expression(input: &str, args: Vec<String>, salt: u64) -> (r: (Evaluation, Action))
    ensures
        (r.0.stage == Stage::Done && r.0.temp_files@.len() == 0
            && (r.1 matches Action::Finish(Err(v)) && v@.len() == 1 && v@[0] is InvalidInput))
        || (r.0.captured.header is None && begun(r.0, r.1, texts(args@), salt as nat)),
        r.0.args == args,
{
    match capture_expression(input) {
        Ok(c) => begin(c, args, salt),
        Err(msg) => finished_early(Captured { header: None, block: String::new() }, args, EvalError::InvalidInput(msg)),
    }
}

/// Starts the declaration form on the function `item`: its body is the block,
/// and the function is given back with the result as its body. Where it does not
/// parse as a function, the evaluation fails at once with the parser's message.
pub fn start_declaration(item: &str, args: Vec<String>, salt: u64) -> (r: (Evaluation, Action))
    ensures
        (r.0.stage == Stage::Done && r.0.temp_files@.len() == 0
            && (r.1 matches Action::Finish(Err(v)) && v@.len() == 1 && v@[0] is InvalidInput))
        || (r.0.captured.header is Some && begun(r.0, r.1, texts(args@), salt as nat)),
        r.0.args == args,
{
    match capture_declaration(item) {
        Ok(c) => begin(c, args, salt),
        Err(msg) => finished_early(Captured { header: None, block: String::new() }, args, EvalError::InvalidInput(msg)),
    }
}

/// Returns what the call site receives for the result tokens: the tokens in the
/// expression form; in the declaration form, the function's attributes,
/// visibility and signature with the tokens as its body.
pub fn result_for(header: &Option<String>, tokens: String) -> (r: String)
    ensures
        r@ == result_text(
            match header {
                Some(h) => Some(h@),
                None => None,
            },
            tokens@,
        ),
{
    match header {
        Some(h) => {
            let a = join_text(h.as_str(), " { ");
            let b = join_text(a.as_str(), tokens.as_str());
            join_text(b.as_str(), " }")
        },
        None => tokens,
    }
}

/// Whether `post` and `a` follow from `pre` on `event`.
pub open spec fn stepped(pre: Evaluation, event: Event, post: Evaluation, a: Action) -> bool {
    &&& post.wf()
    &&& post.args == pre.args
    &&& post.captured == pre.captured
    &&& post.out_dir == pre.out_dir
    &&& post.source == pre.source
    &&& post.binary == pre.binary
    &&& match event {
        Event::Listed(es) => match merged_externs(texts(pre.args@), entries_view(es@)) {
            Ok(flags) => {
                &&& post.stage == Stage::CreatingDir
                &&& texts(post.rustc_args@) == build_args(texts(pre.args@), flags, pre.source@)
                &&& a matches Action::CreateDir(d) && d@ == temp_dir(pre.out_dir@)
            },
            Err(e) => post.stage == Stage::Done
                && (a matches Action::Finish(Err(v)) && v@.len() == 1 && (v@[0] matches EvalError::Merge(m) && m@ == e)),
        },
        Event::ListFailed => post.stage == Stage::Done && fails_with(a, seq![EvalError::UnreadableDir]),
        Event::DirReady => {
            &&& post.stage == Stage::Writing
            &&& post.rustc_args == pre.rustc_args
            &&& a matches Action::WriteFile { path, contents } && path@ == pre.source@
                && contents@ == helper_program(pre.captured.block@)
        },
        Event::DirFailed => post.stage == Stage::Done && fails_with(a, seq![EvalError::DirFailed]),
        Event::Written => {
            &&& post.stage == Stage::Compiling
            &&& post.temp_files == pre.temp_files
            &&& post.rustc_args == pre.rustc_args
            &&& a matches Action::Compile(x) && texts(x@) == texts(pre.rustc_args@)
        },
        Event::WriteFailed => pre.cleans_up(&post, a, Err(EvalError::WriteFailed)),
        Event::CompilerMissing => pre.cleans_up(&post, a, Err(EvalError::CompilerMissing)),
        Event::Compiled { success, stderr } => if success {
            post.stage == Stage::Running && (a matches Action::Run(b) && b@ == pre.binary@)
        } else {
            pre.cleans_up(&post, a, Err(EvalError::Compile(stderr)))
        },
        Event::HelperMissing => pre.cleans_up(&post, a, Err(EvalError::HelperMissing)),
        Event::Ran { success, stdout, stderr } => if !success {
            pre.cleans_up(&post, a, Err(EvalError::Run(stderr)))
        } else {
            match stdout {
                None => pre.cleans_up(&post, a, Err(EvalError::NotUtf8)),
                Some(out) => {
                    &&& post.stage == Stage::CleaningUp
                    &&& post.temp_files == pre.temp_files
                    &&& a matches Action::Remove(fs) && texts(fs@) == texts(pre.temp_files@)
                    &&& post.outcome matches Some(Ok(t)) && exists|x: Seq<char>| spliced_output(out@, x)
                        && #[trigger] result_text(pre.captured@.0, x) == t@
                },
            }
        },
        Event::Removed { failed } => post.stage == Stage::Done
            && (pre.outcome matches Some(o) && (a matches Action::Finish(res) && finish_result(o, failed, res))),
    }
}

fn finish(o: Result<String, EvalError>, failed: Vec<String>) -> (r: Result<String, Vec<EvalError>>)
    ensures
        finish_result(o, failed, r),
{
    if failed.len() == 0 {
        match o {
            Ok(t) => Ok(t),
            Err(e) => {
                let v = vec![e];
                assert(v@ =~= seq![e]);
                Err(v)
            },
        }
    } else {
        let ghost f = failed;
        match o {
            Ok(_) => {
                let v = vec![EvalError::Cleanup(failed)];
                assert(v@ =~= seq![EvalError::Cleanup(f)]);
                Err(v)
            },
            Err(e) => {
                let v = vec![e, EvalError::Cleanup(failed)];
                assert(v@ =~= seq![e, EvalError::Cleanup(f)]);
                Err(v)
            },
        }
    }
}

impl Evaluation {
    /// Goes on to cleanup with the outcome `o`.
    fn clean_up(&mut self, o: Result<String, EvalError>) -> (r: Action)
        requires
            old(self).stage == Stage::Writing || old(self).stage == Stage::Compiling || old(self).stage == Stage::Running,
        ensures
            old(self).cleans_up(final(self), r, o),
            final(self).args == old(self).args,
            final(self).captured == old(self).captured,
            final(self).out_dir == old(self).out_dir,
            final(self).source == old(self).source,
            final(self).binary == old(self).binary,
    {
        let files = copy_texts(&self.temp_files);
        self.stage = Stage::CleaningUp;
        self.outcome = Some(o);
        Action::Remove(files)
    }

    fn on_listed(&mut self, es: Vec<DepEntry>) -> (r: Action)
        requires
            old(self).wf(),
            old(self).stage == Stage::Listing,
        ensures
            stepped(*old(self), Event::Listed(es), *final(self), r),
    {
        match merge_externs(self.args.as_slice(), es.as_slice()) {
            Ok(flags) => {
                let mut a = helper_rustc_args(self.args.as_slice());
                let ghost before = a@;
                let mut flags = flags;
                let ghost fv = flags@;
                a.append(&mut flags);
                assert(texts(a@) =~= texts(before) + texts(fv));
                let ghost mid = a@;
                a.push(self.source.clone());
                assert(texts(a@) =~= texts(mid).push(self.source@));
                assert(texts(a@) =~= build_args(texts(self.args@), texts(fv), self.source@));
                self.rustc_args = a;
                self.stage = Stage::CreatingDir;
                Action::CreateDir(temp_dir_of(self.out_dir.as_str()))
            },
            Err(e) => {
                self.stage = Stage::Done;
                let ghost ev = e@;
                let v = vec![EvalError::Merge(e)];
                assert(v@.len() == 1 && (v@[0] matches EvalError::Merge(m) && m@ == ev));
                Action::Finish(Err(v))
            },
        }
    }

    /// Takes the outcome of the last action and returns the next action. Once the
    /// helper source is to be written, every way on, success or failure, passes
    /// through the removal of every temporary file before the evaluation ends;
    /// files that could not be removed are reported after any error of the
    /// evaluation itself.
    pub fn step(&mut self, event: Event) -> (r: Action)
        requires
            old(self).wf(),
            old(self).awaits(&event),
        ensures
            stepped(*old(self), event, *final(self), r),
            r is Finish ==> final(self).stage == Stage::Done
                && (old(self).stage == Stage::CleaningUp || old(self).temp_files@.len() == 0),
            r matches Action::Remove(fs) ==> texts(fs@) == texts(old(self).temp_files@)
                && final(self).stage == Stage::CleaningUp,
    {
        match event {
            Event::Listed(es) => self.on_listed(es),
            Event::ListFailed => {
                self.stage = Stage::Done;
                let v = vec![EvalError::UnreadableDir];
                assert(v@ =~= seq![EvalError::UnreadableDir]);
                Action::Finish(Err(v))
            },
            Event::DirReady => {
                let s = self.source.clone();
                let files = vec![s];
                assert(texts(files@) =~= seq![self.source@]);
                self.temp_files = files;
                self.stage = Stage::Writing;
                let contents = helper_program_text(self.captured.block.as_str());
                Action::WriteFile { path: self.source.clone(), contents }
            },
            Event::DirFailed => {
                self.stage = Stage::Done;
                let v = vec![EvalError::DirFailed];
                assert(v@ =~= seq![EvalError::DirFailed]);
                Action::Finish(Err(v))
            },
            Event::Written => {
                self.stage = Stage::Compiling;
                Action::Compile(copy_texts(&self.rustc_args))
            },
            Event::WriteFailed => self.clean_up(Err(EvalError::WriteFailed)),
            Event::CompilerMissing => self.clean_up(Err(EvalError::CompilerMissing)),
            Event::Compiled { success, stderr } => {
                if success {
                    let ghost before = self.temp_files@;
                    self.temp_files.push(self.binary.clone());
                    assert(texts(self.temp_files@) =~= texts(before).push(self.binary@));
                    assert(texts(self.temp_files@) =~= seq![self.source@, self.binary@]);
                    self.stage = Stage::Running;
                    Action::Run(self.binary.clone())
                } else {
                    self.clean_up(Err(EvalError::Compile(stderr)))
                }
            },
            Event::HelperMissing => self.clean_up(Err(EvalError::HelperMissing)),
            Event::Ran { success, stdout, stderr } => {
                if !success {
                    self.clean_up(Err(EvalError::Run(stderr)))
                } else {
                    match stdout {
                        None => self.clean_up(Err(EvalError::NotUtf8)),
                        Some(out) => {
                            let ghost ov = out@;
                            let tokens = splice(out).tokens();
                            let ghost x = tokens@;
                            let text = result_for(&self.captured.header, tokens);
                            assert(spliced_output(ov, x) && result_text(self.captured@.0, x) == text@);
                            self.clean_up(Ok(text))
                        },
                    }
                }
            },
            Event::Removed { failed } => {
                self.stage = Stage::Done;
                match self.outcome.take() {
                    Some(o) => Action::Finish(finish(o, failed)),
                    None => Action::Finish(Err(Vec::new())),
                }
            },
        }
    }
}

} // verus!
