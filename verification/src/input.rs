//! Input acquisition: from raw bytes to a text buffer, and the classes of
//! failure on the way.

use vstd::prelude::*;
use vstd::string::StringExecFns;
use vstd::utf8::{decode_utf8, valid_utf8};
use crate::text::byte_count;

verus! {

/// Why no buffer could be had from a source.
#[derive(Clone, Copy, Debug, PartialEq, Eq, Structural)]
pub enum InputError {
    /// The path does not exist.
    NotFound,
    /// The path exists and is no regular file.
    NotAFile,
    /// The bytes are no valid text.
    InvalidEncoding,
    /// Access was refused.
    PermissionDenied,
    /// Any other failure of reading.
    OtherIO,
}

/// How the operating system described a failed read.
#[derive(Clone, Copy, Debug, PartialEq, Eq, Structural)]
pub enum ReadFailure {
    InvalidData,
    NotFound,
    PermissionDenied,
    Other,
}

/// How loudly a failure is announced.
#[derive(Clone, Copy, Debug, PartialEq, Eq, Structural)]
pub enum Severity {
    Warning,
    Error,
}

/// The class of a path by what is found there: `None` for a regular file.
pub open spec fn path_class(exists: bool, is_file: bool) -> Option<InputError> {
    if !exists {
        Some(InputError::NotFound)
    } else if !is_file {
        Some(InputError::NotAFile)
    } else {
        None
    }
}

/// The class of a failed read.
pub open spec fn read_class(failure: ReadFailure) -> InputError {
    match failure {
        ReadFailure::InvalidData => InputError::InvalidEncoding,
        ReadFailure::NotFound => InputError::NotFound,
        ReadFailure::PermissionDenied => InputError::PermissionDenied,
        ReadFailure::Other => InputError::OtherIO,
    }
}

impl InputError {
    /// Failures with a name are warnings; the unexpected rest is an error.
    pub open spec fn spec_severity(self) -> Severity {
        if self == InputError::OtherIO {
            Severity::Error
        } else {
            Severity::Warning
        }
    }

    /// The severity with which this failure is announced, if it is.
    #[verifier::when_used_as_spec(spec_severity)]
    pub fn severity(self) -> (s: Severity)
        ensures
            s == self.spec_severity(),
    {
        match self {
            InputError::OtherIO => Severity::Error,
            _ => Severity::Warning,
        }
    }
}

/// Checks a path before it is read: it must exist and be a regular file.
/// Existence is asked first, so a missing path is never `NotAFile`.
pub fn check_path(exists: bool, is_file: bool) -> (r: Result<(), InputError>)
    ensures
        r is Ok <==> exists && is_file,
        r == Err::<(), InputError>(InputError::NotFound) <==> !exists,
        r == Err::<(), InputError>(InputError::NotAFile) <==> exists && !is_file,
        r.err() == path_class(exists, is_file),
{
    if !exists {
        Err(InputError::NotFound)
    } else if !is_file {
        Err(InputError::NotAFile)
    } else {
        Ok(())
    }
}

/// Classifies a read that the operating system refused.
pub fn classify_read_failure(failure: ReadFailure) -> (e: InputError)
    ensures
        e == read_class(failure),
        e != InputError::NotAFile,
{
    match failure {
        ReadFailure::InvalidData => InputError::InvalidEncoding,
        ReadFailure::NotFound => InputError::NotFound,
        ReadFailure::PermissionDenied => InputError::PermissionDenied,
        ReadFailure::Other => InputError::OtherIO,
    }
}

/// What is announced of a failure: nothing unless failures are to be shown,
/// else its severity. The invocation ends with success either way.
pub fn announcement(error: InputError, show_errors: bool) -> (r: Option<Severity>)
    ensures
        r is Some <==> show_errors,
        show_errors ==> r == Some(error.spec_severity()),
{
    if show_errors {
        Some(error.severity())
    } else {
        None
    }
}

/// The name under which a source appears in a message.
pub open spec fn shown_path(path: Option<Seq<char>>) -> Seq<char> {
    match path {
        Some(p) => p,
        None => "<stdin>"@,
    }
}

/// What the operating system said of a failure, set off by a colon; nothing
/// where it said nothing.
pub open spec fn reason(detail: Option<Seq<char>>) -> Seq<char> {
    match detail {
        Some(d) => ": "@ + d,
        None => Seq::empty(),
    }
}

/// The words in which a failure is announced. A missing path is told apart
/// by `detail`: without one it was found missing before any read, with one
/// the read itself failed.
pub open spec fn message_text(
    error: InputError,
    path: Option<Seq<char>>,
    detail: Option<Seq<char>>,
) -> Seq<char> {
    match error {
        InputError::NotFound => match detail {
            Some(d) => "Path '"@ + shown_path(path) + "' not found: "@ + d,
            None => "Path '"@ + shown_path(path) + "' doesn`t exist"@,
        },
        InputError::NotAFile => "Path '"@ + shown_path(path) + "' is not a file"@,
        InputError::InvalidEncoding => "Path '"@ + shown_path(path) + "' contains invalid data"@
            + reason(detail),
        InputError::PermissionDenied => "Missing permission to read path '"@ + shown_path(path)
            + "'"@ + reason(detail),
        InputError::OtherIO => match detail {
            Some(d) => "Failed to access path: '"@ + shown_path(path)
                + "'\nUnexpected error occurred: "@ + d,
            None => "Failed to access path: '"@ + shown_path(path) + "'"@,
        },
    }
}

fn append_reason(text: &mut String, detail: Option<&str>)
    ensures
        final(text)@ == old(text)@ + reason(
            match detail {
                Some(d) => Some(d@),
                None => None,
            },
        ),
{
    if let Some(d) = detail {
        text.append(": ");
        text.append(d);
        assert(text@ == old(text)@ + (": "@ + d@));
    } else {
        assert(text@ == old(text)@ + Seq::<char>::empty());
    }
}

/// Writes the message that announces `error` for the source `path`, with
/// what the operating system said of it where there is such a `detail`.
pub fn message(error: InputError, path: Option<&str>, detail: Option<&str>) -> (text: String)
    ensures
        text@ == message_text(
            error,
            match path {
                Some(p) => Some(p@),
                None => None,
            },
            match detail {
                Some(d) => Some(d@),
                None => None,
            },
        ),
{
    let shown: &str = match path {
        Some(p) => p,
        None => "<stdin>",
    };
    match error {
        InputError::NotFound => {
            let mut text = String::from_str("Path '");
            text.append(shown);
            match detail {
                Some(d) => {
                    text.append("' not found: ");
                    text.append(d);
                },
                None => {
                    text.append("' doesn`t exist");
                },
            }
            text
        },
        InputError::NotAFile => {
            let mut text = String::from_str("Path '");
            text.append(shown);
            text.append("' is not a file");
            text
        },
        InputError::InvalidEncoding => {
            let mut text = String::from_str("Path '");
            text.append(shown);
            text.append("' contains invalid data");
            append_reason(&mut text, detail);
            text
        },
        InputError::PermissionDenied => {
            let mut text = String::from_str("Missing permission to read path '");
            text.append(shown);
            text.append("'");
            append_reason(&mut text, detail);
            text
        },
        InputError::OtherIO => {
            let mut text = String::from_str("Failed to access path: '");
            text.append(shown);
            match detail {
                Some(d) => {
                    text.append("'\nUnexpected error occurred: ");
                    text.append(d);
                },
                None => {
                    text.append("'");
                },
            }
            text
        },
    }
}

/// `String::from_utf8` of std: takes the bytes as a string where they are
/// valid UTF-8 and refuses them otherwise. Assumed: it accepts exactly the
/// valid encodings, and the string then holds the characters that the bytes
/// encode.
#[verifier::external_body]
fn string_from_utf8(bytes: Vec<u8>) -> (r: Option<String>)
    ensures
        r is Some <==> valid_utf8(bytes@),
        r is Some ==> r->0@ == decode_utf8(bytes@),
{
    String::from_utf8(bytes).ok()
}

/// Turns the raw bytes of a source into the text buffer, decoding them once
/// as UTF-8. Nothing is trimmed or rejoined: the buffer has exactly the bytes
/// that were read.
pub fn decode(bytes: Vec<u8>) -> (r: Result<String, InputError>)
    ensures
        r is Ok <==> valid_utf8(bytes@),
        r is Ok ==> r->Ok_0@ == decode_utf8(bytes@) && byte_count(r->Ok_0@) == bytes@.len(),
        r is Err ==> r->Err_0 == InputError::InvalidEncoding,
{
    proof {
        if valid_utf8(bytes@) {
            vstd::utf8::decode_utf8_encode_utf8(bytes@);
        }
    }
    match string_from_utf8(bytes) {
        Some(text) => Ok(text),
        None => Err(InputError::InvalidEncoding),
    }
}

} // verus!
