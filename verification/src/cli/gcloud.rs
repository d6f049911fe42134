//! What the `gcloud` command says, and how errors are worded.
use vstd::prelude::*;
use vstd::string::*;
use vstd::utf8::*;

use crate::text::{chars_of, opt_text, string_of, trim, trim_chars};

verus! {

/// How a command ended.
pub struct CommandOutput {
    pub success: bool,
    pub stdout: Vec<u8>,
    pub stderr: Vec<u8>,
}

/// Why a command of the user cannot be carried out, and what lies behind that.
#[derive(Debug)]
pub struct CliError {
    pub message: String,
    pub cause: Option<String>,
}

impl CliError {
    /// An error with this message and cause.
    pub open spec fn says(&self, message: Seq<char>, cause: Option<Seq<char>>) -> bool {
        self.message@ == message && opt_text(self.cause) == cause
    }

    /// An error without a cause.
    pub fn new(message: String) -> (r: Self)
        ensures
            r.says(message@, None),
    {
        CliError { message, cause: None }
    }
}

/// Bytes as text, with replacement characters for what is not valid UTF-8.
pub uninterp spec fn lossy(bytes: Seq<u8>) -> Seq<char>;

/// `String::from_utf8_lossy` reads bytes as text. What it gives is determined by the bytes; valid
/// UTF-8 is kept as it is.
#[verifier::external_body]
fn lossy_text(bytes: &[u8]) -> (r: String)
    ensures
        r@ == lossy(bytes@),
        valid_utf8(bytes@) ==> encode_utf8(r@) == bytes@,
{
    String::from_utf8_lossy(bytes).into_owned()
}

/// A text in quotes, with escapes for what is not printable.
pub uninterp spec fn quoted(text: Seq<char>) -> Seq<char>;

/// `format!("{:?}", ..)` writes a text in quotes, with escapes. What it gives is determined by the
/// text.
#[verifier::external_body]
pub(crate) fn quote(text: &str) -> (r: String)
    ensures
        r@ == quoted(text@),
{
    format!("{:?}", text)
}

/// Read the output of a command as text, without white space around it.
pub fn trimmed(bytes: &[u8]) -> (r: String)
    ensures
        r@ == trim(lossy(bytes@)),
{
    string_of(trim_chars(chars_of(lossy_text(bytes).as_str()).as_slice()))
}

} // verus!
