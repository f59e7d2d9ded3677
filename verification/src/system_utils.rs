//! What a finished shell command amounts to, and the list of applications
//! read from one.

use vstd::prelude::*;
use vstd::utf8::{decode_utf8, valid_utf8};

use crate::text::{join, newline_pieces, split_newline_pieces, trim, trim_text, views};

verus! {

/// The command that lists the applications installed by the user, one
/// package name per line.
pub const NON_SYSTEM_APPS_COMMAND: &'static str = "su -c pm list packages -3 | sed -e 's/^package://'";

/// Text put in front of the error output of a command that failed.
pub const COMMAND_FAILED_PREFIX: &'static str = "执行命令出错：";

/// A shell command that could not be run, failed, or printed text that is
/// not UTF-8; `message` says which.
#[derive(Debug)]
pub struct ShellError {
    pub message: String,
}

/// The text of `bytes` when they are UTF-8, and nothing otherwise.
pub open spec fn utf8_or_empty(bytes: Seq<u8>) -> Seq<char> {
    if valid_utf8(bytes) {
        decode_utf8(bytes)
    } else {
        Seq::empty()
    }
}

/// Valid UTF-8 reads as the characters it encodes, anything else as nothing.
pub proof fn lemma_utf8_or_empty(bytes: Seq<u8>)
    ensures
        valid_utf8(bytes) ==> utf8_or_empty(bytes) == decode_utf8(bytes),
        !valid_utf8(bytes) ==> utf8_or_empty(bytes).len() == 0,
{
}

/// `std::str::from_utf8`: succeeds exactly when `bytes` are UTF-8, with the
/// characters they encode. The text of the error it gives otherwise is not
/// stated.
#[verifier::external_body]
pub(crate) fn utf8_text(bytes: &[u8]) -> (r: Result<String, String>)
    ensures
        r is Ok <==> valid_utf8(bytes@),
        r matches Ok(s) ==> s@ == decode_utf8(bytes@),
{
    match std::str::from_utf8(bytes) {
        Ok(s) => Ok(s.to_string()),
        Err(e) => Err(e.to_string()),
    }
}

/// What a command that has finished amounts to, from whether it exited with
/// success and what it printed: its standard output, or an error that holds
/// its trimmed error output.
pub fn execute_shell_command(success: bool, stdout: &[u8], stderr: &[u8]) -> (r: Result<
    String,
    ShellError,
>)
    ensures
        success ==> (r is Ok <==> valid_utf8(stdout@)),
        success ==> (r matches Ok(s) ==> s@ == decode_utf8(stdout@)),
        !success ==> r is Err,
        !success && valid_utf8(stderr@) ==> (r matches Err(e) && e.message@
            == COMMAND_FAILED_PREFIX@ + trim(decode_utf8(stderr@))),
{
    if !success {
        return match utf8_text(stderr) {
            Ok(error_message) => {
                let trimmed = trim_text(error_message.as_str());
                Err(ShellError { message: join(COMMAND_FAILED_PREFIX, trimmed.as_str()) })
            },
            Err(decode_error) => Err(ShellError { message: decode_error }),
        };
    }
    match utf8_text(stdout) {
        Ok(output) => Ok(output),
        Err(decode_error) => Err(ShellError { message: decode_error }),
    }
}

/// The applications listed in the output of `NON_SYSTEM_APPS_COMMAND`: the
/// output trimmed and cut at each line feed. An error of the command is
/// passed on.
pub fn get_non_system_app_list(output: Result<String, ShellError>) -> (r: Result<
    Vec<String>,
    ShellError,
>)
    ensures
        match output {
            Ok(o) => r matches Ok(apps) && views(apps@) == newline_pieces(trim(o@)),
            Err(e) => r matches Err(e2) && e2 == e,
        },
{
    match output {
        Ok(o) => {
            let trimmed = trim_text(o.as_str());
            Ok(split_newline_pieces(trimmed.as_str()))
        },
        Err(e) => Err(e),
    }
}

} // verus!
