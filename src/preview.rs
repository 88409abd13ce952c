//! Assembly of preview text from the outcomes of the external commands that
//! describe a tool.

use vstd::prelude::*;
use vstd::string::StringExecFns;
use crate::text::{chars_are, chars_of, is_blank, trim};

verus! {

/// How a bounded external command ended.
#[derive(Debug)]
pub enum RunOutcome {
    /// It exited in time, successfully or not, with what it printed.
    Finished { success: bool, stdout: String, stderr: String },
    /// It ran past the deadline and was killed.
    TimedOut,
    /// It could not be started; the reason.
    Failed(String),
}

/// Text of the quick-reference helper, used when it succeeded and printed
/// something other than white space.
pub fn quick_reference_text(outcome: RunOutcome) -> (r: Option<String>)
    ensures
        r == match outcome {
            RunOutcome::Finished { success, stdout, stderr } => if success && !is_blank(stdout@) {
                Some(stdout)
            } else {
                None
            },
            _ => None,
        },
{
    match outcome {
        RunOutcome::Finished { success, stdout, stderr } => {
            if success && !trim(stdout.as_str()).is_empty() {
                Some(stdout)
            } else {
                None
            }
        },
        _ => None,
    }
}

/// Text shown for `name --help`: its standard output, or its error output
/// when the former is blank; a short message when it timed out or could not
/// start.
pub fn help_text(name: &str, outcome: RunOutcome) -> (r: String)
    ensures
        r@ == match outcome {
            RunOutcome::Finished { success, stdout, stderr } => if is_blank(stdout@) {
                stderr@
            } else {
                stdout@
            },
            RunOutcome::TimedOut => name@ + ": timed out (interactive tool?)"@,
            RunOutcome::Failed(reason) => "Could not run --help: "@ + reason@,
        },
{
    match outcome {
        RunOutcome::Finished { success, stdout, stderr } => {
            if trim(stdout.as_str()).is_empty() {
                stderr
            } else {
                stdout
            }
        },
        RunOutcome::TimedOut => {
            let r = String::from_str(name);
            r.concat(": timed out (interactive tool?)")
        },
        RunOutcome::Failed(reason) => {
            let r = String::from_str("Could not run --help: ");
            r.concat(reason.as_str())
        },
    }
}

/// Text of the package manager's description of a tool from `source`, given
/// what its info command printed (`None`: it could not run): for pacman the
/// standard output, or the error output when that is blank; for brew the
/// standard output; nothing for other sources.
pub fn package_info_text(source: &str, printed: Option<(String, String)>) -> (r: String)
    ensures
        r@ == match printed {
            Some((out, err)) => if source@ == "pacman"@ {
                if is_blank(out@) {
                    err@
                } else {
                    out@
                }
            } else if source@ == "brew"@ {
                out@
            } else {
                Seq::<char>::empty()
            },
            None => Seq::<char>::empty(),
        },
{
    let src = chars_of(source);
    assert(src@.subrange(0, src@.len() as int) =~= src@);
    match printed {
        Some((out, err)) => {
            if chars_are(&src, 0, src.len(), "pacman") {
                if trim(out.as_str()).is_empty() {
                    err
                } else {
                    out
                }
            } else if chars_are(&src, 0, src.len(), "brew") {
                out
            } else {
                String::new()
            }
        },
        None => String::new(),
    }
}

/// The rule between a tool's help text and its package information.
pub open spec fn info_rule() -> Seq<char> {
    "\u{1b}[0m\n\n── Package Info ──────────────────────\n"@
}

/// The full preview: the help text alone when the package information is
/// blank, else the help text, a style reset, a rule, and the information.
pub fn compose_preview(help: String, info: String) -> (r: String)
    ensures
        r@ == (if is_blank(info@) {
            help@
        } else {
            help@ + info_rule() + info@
        }),
{
    if trim(info.as_str()).is_empty() {
        help
    } else {
        let r = help.concat("\u{1b}[0m\n\n── Package Info ──────────────────────\n");
        r.concat(info.as_str())
    }
}

} // verus!
