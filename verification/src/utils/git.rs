//! A run of the version-control tool in a working tree, seen from the
//! library: where it runs and what it gave back.

use crate::utils::future::Error;
use vstd::prelude::*;
use vstd::utf8::*;

verus! {

/// What one run of the tool gave back.
pub struct CommandOutput {
    /// The exit status of the tool, `None` where it has none: where it was
    /// ended from outside or could not be started.
    pub status: Option<i32>,
    /// What it wrote to its output stream.
    pub stdout: Vec<u8>,
    /// What it wrote to its error stream.
    pub stderr: Vec<u8>,
}

/// The tool, to be run in one working tree.
pub struct GitCommand {
    path: String,
}

/// The text that `String::from_utf8_lossy` makes of `bytes`.
pub uninterp spec fn lossy_text(bytes: Seq<u8>) -> Seq<char>;

/// `String::from_utf8`: the text that `bytes` encode in UTF-8, and `None`
/// exactly where they are no valid UTF-8.
#[verifier::external_body]
fn utf8_text(bytes: Vec<u8>) -> (text: Option<String>)
    ensures
        text is Some <==> valid_utf8(bytes@),
        text matches Some(t) ==> t@ == decode_utf8(bytes@),
{
    String::from_utf8(bytes).ok()
}

/// `String::from_utf8_lossy`: a text for any bytes, with a replacement
/// character wherever they are no valid UTF-8. The contract claims only that
/// the text is the one named `lossy_text`: that it depends on the bytes and
/// on nothing else.
#[verifier::external_body]
fn utf8_lossy(bytes: &[u8]) -> (text: String)
    ensures
        text@ == lossy_text(bytes@),
{
    String::from_utf8_lossy(bytes).into_owned()
}

impl View for GitCommand {
    type V = Seq<char>;

    /// The working tree in which the tool runs.
    closed spec fn view(&self) -> Seq<char> {
        self.path@
    }
}

impl GitCommand {
    /// The tool in the working tree at `path`.
    pub fn new(path: String) -> (command: GitCommand)
        ensures
            command@ == path@,
    {
        GitCommand { path }
    }

    /// The working tree in which the tool runs.
    pub fn path(&self) -> (path: &String)
        ensures
            path@ == self@,
    {
        &self.path
    }

    /// Whether a run ended in success: with the exit status zero.
    pub open spec fn succeeded(output: CommandOutput) -> bool {
        output.status == Some(0i32)
    }

    /// The text that a run printed: `None` where it did not end in success
    /// or printed no valid UTF-8.
    pub open spec fn printed(output: CommandOutput) -> Option<Seq<char>> {
        if Self::succeeded(output) && valid_utf8(output.stdout@) {
            Some(decode_utf8(output.stdout@))
        } else {
            None
        }
    }

    /// The text that a run printed. A run that did not end in success is a
    /// `CommandFailed` with the text of its error stream; output that is no
    /// valid UTF-8 is an `EncodingError`.
    pub fn read(output: CommandOutput) -> (text: Result<String, Error>)
        ensures
            match text {
                Ok(t) => Self::printed(output) == Some(t@),
                Err(Error::CommandFailed(diagnostic)) => !Self::succeeded(output) && diagnostic@
                    == lossy_text(output.stderr@),
                Err(Error::EncodingError) => Self::succeeded(output) && !valid_utf8(
                    output.stdout@,
                ),
                Err(_) => false,
            },
    {
        let success = match output.status {
            Some(code) => code == 0,
            None => false,
        };
        if !success {
            return Err(Error::CommandFailed(utf8_lossy(output.stderr.as_slice())));
        }
        match utf8_text(output.stdout) {
            Some(text) => Ok(text),
            None => Err(Error::EncodingError),
        }
    }
}

} // verus!
