//! Executable code blocks: which runner a block's language selects, and how a
//! run's outcome is recorded on the block.
use vstd::prelude::*;

use crate::text::{chars_of, push_str, str_eq, string_of};

verus! {

/// A fenced code block marked executable, e.g. `{python}` or `{bash file="x.sh"}`.
#[derive(Clone, Debug)]
pub struct ExecutableBlock {
    pub language: String,
    pub source: String,
    /// A file, relative to the page's directory, whose contents replace `source`.
    pub file_ref: Option<String>,
    pub output: Option<String>,
    pub error: Option<String>,
}

/// The runner a language selects.
#[derive(Clone, Copy, Debug, PartialEq, Eq, Structural)]
pub enum Runner {
    Python,
    Shell,
    Unsupported,
}

/// What running a block gave.
#[derive(Clone, Debug)]
pub enum RunOutcome {
    /// The code ran; its captured standard output and error, and whether it
    /// exited with a success status.
    Ran { stdout: String, stderr: String, succeeded: bool },
    /// The code could not be run (missing file, interpreter failure).
    Failed(String),
    /// The runner is not available in this build; the message says why.
    Unavailable(String),
}

pub open spec fn runner_of(lang: Seq<char>) -> Runner {
    if lang == "python"@ {
        Runner::Python
    } else if lang == "bash"@ || lang == "sh"@ {
        Runner::Shell
    } else {
        Runner::Unsupported
    }
}

/// The runner for a block's language: `python`, `bash` or `sh`, else none.
pub fn runner_for(lang: &str) -> (r: Runner)
    ensures
        r == runner_of(lang@),
{
    if str_eq(lang, "python") {
        Runner::Python
    } else if str_eq(lang, "bash") || str_eq(lang, "sh") {
        Runner::Shell
    } else {
        Runner::Unsupported
    }
}

pub open spec fn failure_prefix(r: Runner) -> Seq<char> {
    match r {
        Runner::Python => "Python execution error: "@,
        Runner::Shell => "Bash execution error: "@,
        Runner::Unsupported => "Unsupported executable language: "@,
    }
}

pub open spec fn opt_text(t: Option<String>) -> Option<Seq<char>> {
    match t {
        Some(s) => Some(s@),
        None => None,
    }
}

/// What a failure status leaves as a block's error: the captured error
/// output, or a message saying the code failed when it wrote none.
pub open spec fn exit_error(stderr: Seq<char>) -> Seq<char> {
    if stderr.len() > 0 { stderr } else { EXIT_FAILURE@ }
}

/// The error of a run that failed without writing an error.
pub const EXIT_FAILURE: &'static str = "the code exited with a failure status";

/// The message that a failed run leaves on its block.
pub open spec fn failure_message(r: Runner, o: RunOutcome) -> Option<Seq<char>> {
    match o {
        RunOutcome::Ran { stdout: _, stderr, succeeded } => if succeeded {
            None
        } else {
            Some(exit_error(stderr@))
        },
        RunOutcome::Failed(m) => Some(failure_prefix(r) + m@),
        RunOutcome::Unavailable(m) => Some(m@),
    }
}

/// `after` is the block `b` with the outcome `o` of runner `r` recorded: the
/// captured output; as its error, the captured error output of a run that
/// failed or wrote one (a failed run that wrote none gets a message saying
/// so), or the failure's message when the code could not run.
pub open spec fn recorded(b: ExecutableBlock, r: Runner, o: RunOutcome, after: ExecutableBlock) -> bool {
    &&& after.language == b.language && after.source == b.source && after.file_ref == b.file_ref
    &&& match o {
        RunOutcome::Ran { stdout, stderr, succeeded } => {
            &&& opt_text(after.output) == Some(stdout@)
            &&& opt_text(after.error) == if !succeeded {
                Some(exit_error(stderr@))
            } else if stderr@.len() > 0 {
                Some(stderr@)
            } else {
                opt_text(b.error)
            }
        },
        _ => {
            &&& opt_text(after.output) == opt_text(b.output)
            &&& opt_text(after.error) == failure_message(r, o)
        },
    }
}

fn copy_opt(t: &Option<String>) -> (r: Option<String>)
    ensures
        opt_text(r) == opt_text(*t),
{
    match t {
        Some(s) => Some(s.clone()),
        None => None,
    }
}

/// `o` is an outcome that running `b` may give: what `run` answers for the
/// block's runner, source and file; for a language without runner, the
/// failure that names the language.
pub open spec fn obtained<F: Fn(Runner, String, Option<String>) -> RunOutcome>(run: F, b: ExecutableBlock, o: RunOutcome) -> bool {
    let r = runner_of(b.language@);
    if r == Runner::Unsupported {
        o == RunOutcome::Failed(b.language)
    } else {
        exists|s: String, f: Option<String>| s@ == b.source@ && opt_text(f) == opt_text(b.file_ref) && run.ensures((r, s, f), o)
    }
}

/// The failure messages of the blocks `bs` with outcomes `os`, in block order.
pub open spec fn warnings_of(bs: Seq<ExecutableBlock>, os: Seq<RunOutcome>) -> Seq<Seq<char>>
    decreases bs.len(),
{
    if bs.len() == 0 {
        Seq::empty()
    } else {
        let prev = warnings_of(bs.drop_last(), os.drop_last());
        match failure_message(runner_of(bs.last().language@), os.last()) {
            Some(m) => prev.push(m),
            None => prev,
        }
    }
}

/// Runs every block through `run` (in order, one at a time: runners change
/// process-wide state) and records each outcome on its block. A block whose
/// language has no runner gets an error without running. The message of every
/// failure is also returned, in block order, for the build to report.
pub fn execute_blocks<F>(blocks: &mut Vec<ExecutableBlock>, run: &F) -> (warnings: Vec<String>)
    where
        F: Fn(Runner, String, Option<String>) -> RunOutcome,
    requires
        forall|r: Runner, s: String, f: Option<String>| run.requires((r, s, f)),
    ensures
        final(blocks)@.len() == old(blocks)@.len(),
        exists|os: Seq<RunOutcome>| {
            &&& os.len() == old(blocks)@.len()
            &&& forall|i: int| 0 <= i < os.len() ==> obtained(*run, old(blocks)@[i], #[trigger] os[i])
                && recorded(old(blocks)@[i], runner_of(old(blocks)@[i].language@), os[i], final(blocks)@[i])
            &&& warnings@.map_values(|w: String| w@) == warnings_of(old(blocks)@, os)
        },
{
    let ghost initial = blocks@;
    let mut src: Vec<ExecutableBlock> = Vec::new();
    std::mem::swap(blocks, &mut src);
    let mut out: Vec<ExecutableBlock> = Vec::new();
    let mut warnings: Vec<String> = Vec::new();
    let ghost mut os: Seq<RunOutcome> = Seq::empty();
    while src.len() > 0
        invariant
            out@.len() + src@.len() == initial.len(),
            src@ == initial.subrange(out@.len() as int, initial.len() as int),
            forall|r: Runner, s: String, f: Option<String>| run.requires((r, s, f)),
            os.len() == out@.len(),
            forall|i: int| 0 <= i < os.len() ==> obtained(*run, initial[i], #[trigger] os[i])
                && recorded(initial[i], runner_of(initial[i].language@), os[i], out@[i]),
            warnings@.map_values(|w: String| w@) == warnings_of(initial.subrange(0, out@.len() as int), os),
        decreases src.len(),
    {
        let ghost n: int = out@.len() as int;
        let mut b = src.remove(0);
        assert(b == initial[n]);
        assert(src@ =~= initial.subrange(n + 1, initial.len() as int));
        let ghost b0 = b;
        let ghost w0 = warnings@;
        let r = runner_for(b.language.as_str());
        let ghost mut o_now: RunOutcome = RunOutcome::Failed(b.language);
        match r {
            Runner::Unsupported => {
                let mut msg = chars_of("Unsupported executable language: ");
                push_str(&mut msg, b.language.as_str());
                let m = string_of(&msg);
                warnings.push(m.clone());
                b.error = Some(m);
                assert(recorded(b0, r, o_now, b));
            },
            _ => {
                let s = b.source.clone();
                let f = copy_opt(&b.file_ref);
                let ghost gs = s;
                let ghost gf = f;
                let o = run(r, s, f);
                proof {
                    o_now = o;
                    assert(obtained(*run, b0, o_now));
                }
                match o {
                    RunOutcome::Ran { stdout, stderr, succeeded } => {
                        b.output = Some(stdout);
                        if !succeeded {
                            let e = if stderr.unicode_len() > 0 { stderr } else { String::from_str(EXIT_FAILURE) };
                            warnings.push(e.clone());
                            b.error = Some(e);
                        } else if stderr.unicode_len() > 0 {
                            b.error = Some(stderr);
                        }
                    },
                    RunOutcome::Failed(m) => {
                        let mut msg = if r == Runner::Python {
                            chars_of("Python execution error: ")
                        } else {
                            chars_of("Bash execution error: ")
                        };
                        push_str(&mut msg, m.as_str());
                        let m2 = string_of(&msg);
                        warnings.push(m2.clone());
                        b.error = Some(m2);
                    },
                    RunOutcome::Unavailable(m) => {
                        warnings.push(m.clone());
                        b.error = Some(m);
                    },
                }
                assert(recorded(b0, r, o_now, b));
            },
        }
        out.push(b);
        proof {
            let os_prev = os;
            os = os.push(o_now);
            assert(out@[n] == b);
            assert(os.drop_last() =~= os_prev);
            assert(initial.subrange(0, n + 1).drop_last() =~= initial.subrange(0, n));
            assert(initial.subrange(0, n + 1).last() == b0);
            match failure_message(r, o_now) {
                Some(m) => {
                    assert(warnings@.map_values(|w: String| w@) =~= w0.map_values(|w: String| w@).push(m));
                },
                None => {
                    assert(warnings@.map_values(|w: String| w@) =~= w0.map_values(|w: String| w@));
                },
            }
            assert forall|i: int| 0 <= i < os.len() implies obtained(*run, initial[i], #[trigger] os[i])
                && recorded(initial[i], runner_of(initial[i].language@), os[i], out@[i]) by {
                if i < n {
                    assert(os[i] == os_prev[i]);
                }
            }
        }
    }
    proof {
        assert(initial.subrange(0, initial.len() as int) =~= initial);
    }
    *blocks = out;
    warnings
}

} // verus!
