//! The document converter: its command lines and the reading of its
//! outcome.

use vstd::prelude::*;
use crate::text::{append, chars_of, decimal, format_number, string_of};

verus! {

/// `std::io::Error`, carried through as an opaque value.
#[verifier::external_type_specification]
#[verifier::external_body]
pub struct ExIoError(std::io::Error);

/// Errors that can occur when invoking pandoc.
#[derive(Debug)]
pub enum PandocError {
    /// Pandoc is not installed or not found on PATH.
    NotInstalled,
    /// Pandoc ran but exited with a non-zero status.
    ConversionFailed { stderr: String, exit_code: i32 },
    /// An I/O error occurred while spawning the process.
    Io(std::io::Error),
}

/// `std::io::Error::kind`: whether the error says that something was not
/// found.
#[verifier::external_body]
fn is_not_found(e: &std::io::Error) -> bool {
    e.kind() == std::io::ErrorKind::NotFound
}

/// `std::io::Error`'s text for users.
#[verifier::external_body]
fn io_error_text(e: &std::io::Error) -> String {
    e.to_string()
}

/// `n` in decimal, with a minus sign where it is negative.
pub open spec fn signed_decimal(n: int) -> Seq<char> {
    if n < 0 {
        seq!['-'] + decimal((-n) as nat)
    } else {
        decimal(n as nat)
    }
}

fn format_signed(n: i32) -> (r: Vec<char>)
    ensures
        r@ == signed_decimal(n as int),
{
    if n < 0 {
        let mut r: Vec<char> = Vec::new();
        r.push('-');
        append(&mut r, &format_number((-(n as i64)) as u128));
        r
    } else {
        format_number(n as u128)
    }
}

/// The error for a converter that could not be started with the I/O error
/// `e`: not installed where the program was not found, else the error
/// itself.
pub fn spawn_error(not_found: bool, e: std::io::Error) -> (r: PandocError)
    ensures
        r == if not_found {
            PandocError::NotInstalled
        } else {
            PandocError::Io(e)
        },
{
    if not_found {
        PandocError::NotInstalled
    } else {
        PandocError::Io(e)
    }
}

/// The message for an I/O error with the given text.
pub fn io_message(text: &str) -> (r: String)
    ensures
        r@ == "I/O error: "@ + text@,
{
    let mut t = chars_of("I/O error: ");
    append(&mut t, &chars_of(text));
    string_of(&t)
}

impl PandocError {
    /// The error for a converter that could not be started: not installed
    /// where the error says that the program was not found, else the I/O
    /// error.
    pub fn from_spawn(e: std::io::Error) -> (r: PandocError)
        ensures
            r is NotInstalled || r == PandocError::Io(e),
    {
        let not_found = is_not_found(&e);
        spawn_error(not_found, e)
    }

    /// The message for users.
    pub fn message(&self) -> (r: String)
        ensures
            self is NotInstalled ==> r@ == "pandoc is not installed"@,
            self matches PandocError::ConversionFailed { stderr, exit_code } ==> r@
                == "pandoc exited with code "@ + signed_decimal(exit_code as int) + ": "@
                + stderr@,
    {
        match self {
            PandocError::NotInstalled => string_of(&chars_of("pandoc is not installed")),
            PandocError::ConversionFailed { stderr, exit_code } => {
                let mut t = chars_of("pandoc exited with code ");
                append(&mut t, &format_signed(*exit_code));
                append(&mut t, &chars_of(": "));
                append(&mut t, &chars_of(stderr.as_str()));
                string_of(&t)
            },
            PandocError::Io(e) => io_message(io_error_text(e).as_str()),
        }
    }
}

impl From<std::io::Error> for PandocError {
    /// An I/O error as an error of the converter.
    fn from(e: std::io::Error) -> (r: PandocError) {
        PandocError::Io(e)
    }
}

impl vstd::std_specs::convert::FromSpecImpl<std::io::Error> for PandocError {
    open spec fn obeys_from_spec() -> bool {
        true
    }

    open spec fn from_spec(e: std::io::Error) -> PandocError {
        PandocError::Io(e)
    }
}

/// What a run of the converter amounts to: its output where it succeeded,
/// else a failure with what it wrote to its error stream and its exit code,
/// -1 where it has none.
pub fn conversion_result(success: bool, stdout: String, stderr: String, code: Option<i32>) -> (r:
    Result<String, PandocError>)
    ensures
        success ==> r == Ok::<String, PandocError>(stdout),
        !success ==> r == Err::<String, PandocError>(
            PandocError::ConversionFailed {
                stderr,
                exit_code: match code {
                    Some(c) => c,
                    None => -1i32,
                },
            },
        ),
{
    if success {
        Ok(stdout)
    } else {
        Err(
            PandocError::ConversionFailed {
                stderr,
                exit_code: match code {
                    Some(c) => c,
                    None => -1,
                },
            },
        )
    }
}

/// The arguments after the input file for turning markdown into a .docx
/// file; the reference document lends its styles.
pub open spec fn export_arguments(docx: Seq<char>, reference: Option<Seq<char>>) -> Seq<Seq<char>> {
    seq!["-o"@, docx, "--from=markdown"@, "--to=docx"@] + match reference {
        Some(r) => seq!["--reference-doc="@ + r],
        None => Seq::empty(),
    }
}

/// The converter's arguments for a markdown file to become a .docx file.
pub fn md_to_docx_args(md_path: &str, docx_path: &str, reference_doc: Option<&str>) -> (args: Vec<
    String,
>)
    ensures
        crate::text::string_texts(args@) == seq![md_path@] + export_arguments(
            docx_path@,
            match reference_doc {
                Some(r) => Some(r@),
                None => None,
            },
        ),
{
    let mut args: Vec<String> = Vec::new();
    args.push(string_of(&chars_of(md_path)));
    args.push(string_of(&chars_of("-o")));
    args.push(string_of(&chars_of(docx_path)));
    args.push(string_of(&chars_of("--from=markdown")));
    args.push(string_of(&chars_of("--to=docx")));
    if let Some(r) = reference_doc {
        let mut t = chars_of("--reference-doc=");
        append(&mut t, &chars_of(r));
        args.push(string_of(&t));
    }
    assert(crate::text::string_texts(args@) =~= seq![md_path@] + export_arguments(
        docx_path@,
        match reference_doc {
            Some(r) => Some(r@),
            None => None,
        },
    ));
    args
}

/// The converter's arguments for a .docx file to become markdown on the
/// converter's output, unwrapped.
pub fn docx_to_md_args(docx_path: &str) -> (args: Vec<String>)
    ensures
        crate::text::string_texts(args@) == seq![
            docx_path@,
            "--from=docx"@,
            "--to=gfm"@,
            "--wrap=none"@,
        ],
{
    let mut args: Vec<String> = Vec::new();
    args.push(string_of(&chars_of(docx_path)));
    args.push(string_of(&chars_of("--from=docx")));
    args.push(string_of(&chars_of("--to=gfm")));
    args.push(string_of(&chars_of("--wrap=none")));
    assert(crate::text::string_texts(args@) =~= seq![
        docx_path@,
        "--from=docx"@,
        "--to=gfm"@,
        "--wrap=none"@,
    ]);
    args
}

} // verus!
