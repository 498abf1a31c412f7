//! The command result envelope: what a finished child process is turned
//! into before it is reported back. The envelope carries the exit code,
//! then the captured stdout and stderr when they are non-empty, and a
//! fixed notice when both are empty.

use vstd::prelude::*;
use vstd::string::StringSliceAdditionalSpecFns;
use crate::numfmt::dec_int;
use crate::text::push_all;

verus! {

/// What running a command produced: its exit code (`-1` when the process
/// ended without one, for example on a signal) and the two captured
/// output streams, decoded permissively by the caller.
pub struct CommandResult {
    pub exit_code: i32,
    pub stdout: Vec<u8>,
    pub stderr: Vec<u8>,
}

pub open spec fn msg_no_output() -> Seq<u8> {
    "Command executed successfully (no output)".spec_bytes()
}

/// The exact envelope text: `EXIT_CODE:<code>` and a newline; a `stdout:`
/// section when stdout is non-empty; a blank-line-separated `stderr:`
/// section when stderr is non-empty; the fixed notice when both are empty.
pub open spec fn envelope(code: int, out: Seq<u8>, err: Seq<u8>) -> Seq<u8> {
    let head = "EXIT_CODE:".spec_bytes() + dec_int(code) + seq![10u8];
    let with_out = if out.len() > 0 {
        head + "stdout:\n".spec_bytes() + out
    } else {
        head
    };
    let with_err = if err.len() > 0 {
        (if out.len() > 0 {
            with_out + "\n\n".spec_bytes()
        } else {
            with_out
        }) + "stderr:\n".spec_bytes() + err
    } else {
        with_out
    };
    if out.len() == 0 && err.len() == 0 {
        with_err + msg_no_output()
    } else {
        with_err
    }
}

/// Render a command result into its envelope.
pub fn command_envelope(res: &CommandResult) -> (r: Vec<u8>)
    ensures
        r@ == envelope(res.exit_code as int, res.stdout@, res.stderr@),
{
    let mut out: Vec<u8> = Vec::new();
    push_all(&mut out, "EXIT_CODE:".as_bytes());
    let digits = crate::numfmt::fmt_i32(res.exit_code);
    push_all(&mut out, digits.as_slice());
    out.push(10);
    if res.stdout.len() > 0 {
        push_all(&mut out, "stdout:\n".as_bytes());
        push_all(&mut out, res.stdout.as_slice());
    }
    if res.stderr.len() > 0 {
        if res.stdout.len() > 0 {
            push_all(&mut out, "\n\n".as_bytes());
        }
        push_all(&mut out, "stderr:\n".as_bytes());
        push_all(&mut out, res.stderr.as_slice());
    }
    if res.stdout.len() == 0 && res.stderr.len() == 0 {
        push_all(&mut out, "Command executed successfully (no output)".as_bytes());
    }
    proof {
        assert(out@ =~= envelope(res.exit_code as int, res.stdout@, res.stderr@));
    }
    out
}

} // verus!
