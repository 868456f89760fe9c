//! Commands of the system, and what they put out.

use vstd::prelude::*;
use vstd::utf8::{decode_utf8, valid_utf8};

use crate::json::{document_in, read_document, Document, DocumentView};
use crate::text::{is_blank, texts, trim, trimmed};

verus! {

/// A command: a program and its arguments.
pub ghost struct CommandView {
    pub program: Seq<char>,
    pub arguments: Seq<Seq<char>>,
}

/// A command: a program and its arguments.
#[derive(Debug, PartialEq, Eq)]
pub struct CommandLine {
    pub program: String,
    pub arguments: Vec<String>,
}

impl View for CommandLine {
    type V = CommandView;

    open spec fn view(&self) -> CommandView {
        CommandView { program: self.program@, arguments: texts(self.arguments@) }
    }
}

/// What a command that ran put out.
pub ghost struct OutputView {
    pub success: bool,
    pub stdout: Seq<u8>,
    pub stderr: Seq<u8>,
}

/// What a command that ran put out.
pub struct CommandOutput {
    pub success: bool,
    pub stdout: Vec<u8>,
    pub stderr: Vec<u8>,
}

impl View for CommandOutput {
    type V = OutputView;

    open spec fn view(&self) -> OutputView {
        OutputView { success: self.success, stdout: self.stdout@, stderr: self.stderr@ }
    }
}

/// The view of the output of a command, if it ran.
pub open spec fn output_view(output: Option<&CommandOutput>) -> Option<OutputView> {
    match output {
        Some(o) => Some(o@),
        None => None,
    }
}

/// What `String::from_utf8_lossy` makes of some bytes.
pub uninterp spec fn utf8_lossy(bytes: Seq<u8>) -> Seq<char>;

/// Calls `String::from_utf8_lossy`. Claimed: the text depends on the bytes
/// alone, and is what they encode where they are valid UTF-8.
#[verifier::external_body]
fn lossy_text(bytes: &Vec<u8>) -> (r: String)
    ensures
        r@ == utf8_lossy(bytes@),
        valid_utf8(bytes@) ==> r@ == decode_utf8(bytes@),
{
    String::from_utf8_lossy(bytes).into_owned()
}

/// Bytes that a command put out, as a text without the white space around it.
pub open spec fn output_text(bytes: Seq<u8>) -> Seq<char> {
    trimmed(utf8_lossy(bytes))
}

/// Bytes that a command put out, as a text without the white space around it.
pub fn text_of_output(bytes: &Vec<u8>) -> (r: String)
    ensures
        r@ == output_text(bytes@),
        valid_utf8(bytes@) ==> r@ == trimmed(decode_utf8(bytes@)),
{
    let text = lossy_text(bytes);
    trim(&text).to_owned()
}

/// The text on the standard output of a command that ran with success.
pub open spec fn standard_text(output: Option<OutputView>) -> Option<Seq<char>> {
    match output {
        Some(o) => if o.success {
            Some(utf8_lossy(o.stdout))
        } else {
            None
        },
        None => None,
    }
}

/// The text on the standard output of a command that ran with success.
pub fn text_of_success(output: Option<&CommandOutput>) -> (r: Option<String>)
    ensures
        r is Some <==> standard_text(output_view(output)) is Some,
        r matches Some(text) ==> standard_text(output_view(output)) == Some(text@),
        output matches Some(o) ==> o.success && valid_utf8(o.stdout@) ==> standard_text(
            output_view(output),
        ) == Some(decode_utf8(o.stdout@)),
{
    match output {
        Some(o) => {
            if o.success {
                Some(lossy_text(&o.stdout))
            } else {
                None
            }
        },
        None => None,
    }
}

/// The document in a text that a command put out, if there is one.
pub open spec fn document_put_out(text: Option<Seq<char>>) -> Option<DocumentView> {
    match text {
        Some(raw) => if trimmed(raw).len() == 0 {
            None
        } else {
            document_in(trimmed(raw))
        },
        None => None,
    }
}

/// The document that a command put out, if it ran with success and put out
/// one.
pub fn document_of_success(output: Option<&CommandOutput>) -> (r: Option<Document>)
    ensures
        r is Some <==> document_put_out(standard_text(output_view(output))) is Some,
        r matches Some(document) ==> document_put_out(standard_text(output_view(output))) == Some(
            document@,
        ),
{
    match text_of_success(output) {
        Some(text) => {
            let raw = trim(&text);
            if raw.is_empty() {
                None
            } else {
                read_document(raw)
            }
        },
        None => None,
    }
}

/// The message for a program that could not be run.
pub open spec fn run_failure_text(program: Seq<char>, cause: Seq<char>) -> Seq<char> {
    "Failed to run "@ + program + ": "@ + cause
}

/// The message for a program that could not be run.
pub fn run_failure(program: &str, cause: &str) -> (r: String)
    ensures
        r@ == run_failure_text(program@, cause@),
{
    let mut r: String = "Failed to run ".to_owned();
    r.append(program);
    r.append(": ");
    r.append(cause);
    r
}

/// What a command put out counts only if it ran with success, and then it is
/// the text of its standard output; the document in it is that of the text
/// without the white space around it.
pub proof fn output_counts_after_success(output: OutputView, text: Seq<char>)
    ensures
        standard_text(None) is None,
        !output.success ==> standard_text(Some(output)) is None,
        output.success ==> standard_text(Some(output)) == Some(utf8_lossy(output.stdout)),
        document_put_out(None) is None,
        is_blank(text) ==> document_put_out(Some(text)) is None,
        !is_blank(text) ==> document_put_out(Some(text)) == document_in(trimmed(text)),
        output_text(output.stderr) == trimmed(utf8_lossy(output.stderr)),
{
}

/// The message for a program that could not be run names the program and the
/// cause, each as it is.
pub proof fn run_failures_name_program_and_cause(program: Seq<char>, cause: Seq<char>)
    ensures
        run_failure_text(program, cause) == "Failed to run "@ + program + ": "@ + cause,
{
}

} // verus!
