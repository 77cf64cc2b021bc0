//! What a shell command run by the agent hands back to the model.

use vstd::prelude::*;
use crate::numbers::{push_signed_decimal, signed_decimal};

verus! {

/// An optional exit code as Rust's `{:?}` writes it: `None` or `Some(<code>)`.
pub open spec fn exit_code_text(code: Option<i32>) -> Seq<char> {
    match code {
        None => "None"@,
        Some(c) => "Some("@ + signed_decimal(c as int) + ")"@,
    }
}

/// The text of a finished command: its standard output when it succeeded,
/// else a line naming the exit code followed by its standard error.
pub open spec fn command_output_text(success: bool, code: Option<i32>, stdout: Seq<char>, stderr: Seq<char>) -> Seq<char> {
    if success {
        stdout
    } else {
        "Command failed with exit code "@ + exit_code_text(code) + ":\n"@ + stderr
    }
}

/// The text that a finished shell command hands back to the model (see
/// [`command_output_text`]); `stdout` and `stderr` are the command's outputs
/// decoded as UTF-8.
pub fn command_output(success: bool, exit_code: Option<i32>, stdout: &str, stderr: &str) -> (r: String)
    ensures
        r@ == command_output_text(success, exit_code, stdout@, stderr@),
{
    if success {
        stdout.to_owned()
    } else {
        let mut text = "Command failed with exit code ".to_owned();
        match exit_code {
            None => {
                text.append("None");
            },
            Some(c) => {
                text.append("Some(");
                push_signed_decimal(&mut text, c);
                text.append(")");
            },
        }
        text.append(":\n");
        text.append(stderr);
        proof {
            let t = "Command failed with exit code "@;
            match exit_code {
                None => {
                    assert(text@ =~= t + exit_code_text(exit_code) + ":\n"@ + stderr@);
                },
                Some(c) => {
                    assert(text@ =~= t + exit_code_text(exit_code) + ":\n"@ + stderr@);
                },
            }
        }
        text
    }
}

/// A command's text hands back its outputs whole: a successful command's
/// text is its standard output unchanged; a failed command's text is the
/// header `Command failed with exit code <code>:` and a newline, followed by
/// its standard error unchanged.
pub proof fn law_command_output_keeps_outputs(success: bool, code: Option<i32>, stdout: Seq<char>, stderr: Seq<char>)
    ensures
        success ==> command_output_text(success, code, stdout, stderr) == stdout,
        !success ==> ({
            let t = command_output_text(success, code, stdout, stderr);
            let h = t.len() - stderr.len();
            &&& t.len() == 30 + exit_code_text(code).len() + 2 + stderr.len()
            &&& t.take(30) == "Command failed with exit code "@
            &&& t.subrange(30, h - 2) == exit_code_text(code)
            &&& t.subrange(h - 2, h) == ":\n"@
            &&& t.skip(h) == stderr
        }),
{
    reveal_strlit("Command failed with exit code ");
    reveal_strlit(":\n");
    if !success {
        let t = command_output_text(success, code, stdout, stderr);
        let e = exit_code_text(code);
        let h = t.len() - stderr.len();
        assert(t =~= "Command failed with exit code "@ + e + ":\n"@ + stderr);
        assert(t.take(30) =~= "Command failed with exit code "@);
        assert(t.subrange(30, h - 2) =~= e);
        assert(t.subrange(h - 2, h) =~= ":\n"@);
        assert(t.skip(h) =~= stderr);
    }
}

} // verus!
