//! What went wrong, and whether trying again may help.

use vstd::prelude::*;

verus! {

/// A failure as it is reported: what to say, and whether the same call may
/// succeed later.
#[derive(Clone, Debug)]
pub struct TransportError {
    pub message: String,
    pub retryable: bool,
}

/// A [`TransportError`] as contracts speak of it.
pub struct ErrorView {
    pub message: Seq<char>,
    pub retryable: bool,
}

impl View for TransportError {
    type V = ErrorView;

    open spec fn view(&self) -> ErrorView {
        ErrorView { message: self.message@, retryable: self.retryable }
    }
}

/// The failure that says `message` and that no second try will mend.
pub open spec fn permanent(message: Seq<char>) -> ErrorView {
    ErrorView { message, retryable: false }
}

impl TransportError {
    /// A failure that no second try will mend.
    pub fn permanent(message: String) -> (error: TransportError)
        ensures
            error@ == permanent(message@),
            error.message@ == message@,
            !error.retryable,
    {
        TransportError { message, retryable: false }
    }
}

/// The engine's error, carried as it comes.
#[verifier::external_type_specification]
#[verifier::external_body]
pub struct ExRusqliteError(rusqlite::Error);

/// The result codes of the engine that are told apart.
#[derive(Clone, Copy, Debug, PartialEq, Eq, Structural)]
pub enum EngineCode {
    /// Another connection holds the database file.
    DatabaseBusy,
    /// A table of the database is locked.
    DatabaseLocked,
    /// The disk failed.
    SystemIoFailure,
    /// Any other code.
    Other,
}

/// The result code that `rusqlite::Error::sqlite_error_code` finds in `error`.
pub uninterp spec fn engine_code(error: rusqlite::Error) -> Option<EngineCode>;

/// What `rusqlite::Error` shows of itself through `Display`.
pub uninterp spec fn engine_text(error: rusqlite::Error) -> Seq<char>;

/// Calls `rusqlite::Error::sqlite_error_code`, which gives the engine's result
/// code where the engine itself failed and nothing where the binding did. The
/// code depends on the error alone.
#[verifier::external_body]
fn sqlite_error_code(error: &rusqlite::Error) -> (code: Option<EngineCode>)
    ensures
        code == engine_code(*error),
{
    match error.sqlite_error_code() {
        Some(rusqlite::ErrorCode::DatabaseBusy) => Some(EngineCode::DatabaseBusy),
        Some(rusqlite::ErrorCode::DatabaseLocked) => Some(EngineCode::DatabaseLocked),
        Some(rusqlite::ErrorCode::SystemIoFailure) => Some(EngineCode::SystemIoFailure),
        Some(_) => Some(EngineCode::Other),
        None => None,
    }
}

/// Calls `Display` of `rusqlite::Error`. The text depends on the error alone.
/// Where the error holds another in a box, its text is that of the other, which
/// is taken to show itself without failing and the same each time; neither the
/// engine nor the values that a session binds and reads give such an error.
#[verifier::external_body]
fn sqlite_error_text(error: &rusqlite::Error) -> (text: String)
    ensures
        text@ == engine_text(*error),
{
    error.to_string()
}

/// Whether the engine's failure passes by itself: a busy or locked file will
/// free up and a disk may recover; a file that is not a database will not.
pub open spec fn passes(code: Option<EngineCode>) -> bool {
    ||| code == Some(EngineCode::DatabaseBusy)
    ||| code == Some(EngineCode::DatabaseLocked)
    ||| code == Some(EngineCode::SystemIoFailure)
}

/// The engine's failure, judged by its code and quoted.
pub open spec fn engine_failure(code: Option<EngineCode>, text: Seq<char>) -> ErrorView {
    ErrorView { message: "the engine: "@ + text, retryable: passes(code) }
}

/// What the engine said, judged: `code` decides whether to try again, `text`
/// is quoted.
pub fn judged(code: Option<EngineCode>, text: &str) -> (error: TransportError)
    ensures
        error@ == engine_failure(code, text@),
        error.message@ == "the engine: "@ + text@,
        error.retryable <==> code == Some(EngineCode::DatabaseBusy) || code == Some(
            EngineCode::DatabaseLocked,
        ) || code == Some(EngineCode::SystemIoFailure),
{
    let retryable: bool = match code {
        Some(EngineCode::DatabaseBusy) => true,
        Some(EngineCode::DatabaseLocked) => true,
        Some(EngineCode::SystemIoFailure) => true,
        Some(EngineCode::Other) => false,
        None => false,
    };
    TransportError { message: "the engine: ".to_owned().concat(text), retryable }
}

/// What the engine said, judged: a busy or locked file will free up, a file
/// that is not a database will not.
#[must_use]
pub fn engine_error(error: &rusqlite::Error) -> (judgement: TransportError)
    ensures
        judgement@ == engine_failure(engine_code(*error), engine_text(*error)),
        judgement.message@ == "the engine: "@ + engine_text(*error),
        judgement.retryable <==> engine_code(*error) == Some(EngineCode::DatabaseBusy)
            || engine_code(*error) == Some(EngineCode::DatabaseLocked) || engine_code(*error)
            == Some(EngineCode::SystemIoFailure),
{
    let code = sqlite_error_code(error);
    let text = sqlite_error_text(error);
    judged(code, text.as_str())
}

/// A failure is seen as it is: by its message and by whether to try again.
pub proof fn a_failure_is_seen_as_it_is(error: TransportError)
    ensures
        error@.message == error.message@,
        error@.retryable == error.retryable,
{
}

/// How a failure of the engine is judged: it is quoted whole behind the word
/// that the engine said it, and worth a second try just where the file is busy
/// or locked or the disk failed. What the library itself refuses is never worth
/// one.
pub proof fn only_what_passes_by_itself_is_tried_again(
    code: Option<EngineCode>,
    text: Seq<char>,
    message: Seq<char>,
)
    ensures
        engine_failure(code, text).message == "the engine: "@ + text,
        engine_failure(code, text).retryable <==> code is Some && code->0 != EngineCode::Other,
        permanent(message).message == message,
        !permanent(message).retryable,
{
}

} // verus!
