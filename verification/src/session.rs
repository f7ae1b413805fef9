//! One call, step by step. A session says which piece of work comes next; its
//! driver does the work on the file and hands the answer back, until the
//! session is finished.

use vstd::prelude::*;

use crate::arrived::{self, arrivals, Arrived, ArrivedView, Row, RowView};
use crate::claim::{Artefact, Claimed, ClaimedView};
use crate::error::{self, engine_error, ErrorView, TransportError};
use crate::statement::{Statement, StatementView};
use crate::text::{self, to_decimal};

verus! {

/// What a failure to make the file's directory is reported under.
pub const CREATING_DIRECTORY: &'static str = "creating the queue directory";

/// What a session is for.
#[derive(Debug)]
pub enum Task<'a> {
    /// Have the file open with its table in place.
    Open,
    /// Take the unclaimed rows, or those of them sent to `only`. Their origins
    /// start with `origin`.
    Take { origin: String, only: Option<&'a str> },
    /// Add one row.
    Send { target: &'a str, payload: &'a [u8] },
    /// Ask whether `row` is unclaimed.
    IsAvailable { row: i64 },
    /// Claim `row`, which `artefact` names.
    Claim { artefact: &'a Artefact, row: i64 },
    /// Give `row` up.
    Release { row: i64 },
}

/// A [`Task`] as contracts speak of it.
pub enum TaskView {
    Open,
    Take { origin: Seq<char>, only: Option<Seq<char>> },
    Send { target: Seq<char>, payload: Seq<u8> },
    IsAvailable { row: i64 },
    Claim { artefact: Seq<char>, row: i64 },
    Release { row: i64 },
}

impl<'a> View for Task<'a> {
    type V = TaskView;

    open spec fn view(&self) -> TaskView {
        match *self {
            Task::Open => TaskView::Open,
            Task::Take { origin, only } => TaskView::Take {
                origin: origin@,
                only: text_view(only),
            },
            Task::Send { target, payload } => TaskView::Send { target: target@, payload: payload@ },
            Task::IsAvailable { row } => TaskView::IsAvailable { row },
            Task::Claim { artefact, row } => TaskView::Claim { artefact: artefact@, row },
            Task::Release { row } => TaskView::Release { row },
        }
    }
}

/// How far a session has come: the work whose answer it waits for.
#[derive(Debug)]
pub enum Stage<'a> {
    /// Looking whether the file is there. The directory is the one that the
    /// file lies in.
    Looking(Option<&'a str>),
    /// Making the directory that the file lies in.
    MakingDirectory(&'a str),
    OpeningFile,
    CreatingTable,
    /// Beginning the transaction that rows are taken in.
    Beginning,
    /// Running the statement of the task.
    Running,
    /// Committing, with what was taken.
    Committing(Vec<Arrived>),
}

/// A [`Stage`] as contracts speak of it.
pub enum StageView {
    Looking(Option<Seq<char>>),
    MakingDirectory(Seq<char>),
    OpeningFile,
    CreatingTable,
    Beginning,
    Running,
    Committing(Seq<ArrivedView>),
}

/// A text that may not be there, as contracts speak of it.
pub open spec fn text_view(text: Option<&str>) -> Option<Seq<char>> {
    match text {
        Some(text) => Some(text@),
        None => None,
    }
}

impl<'a> View for Stage<'a> {
    type V = StageView;

    open spec fn view(&self) -> StageView {
        match *self {
            Stage::Looking(directory) => StageView::Looking(text_view(directory)),
            Stage::MakingDirectory(directory) => StageView::MakingDirectory(directory@),
            Stage::OpeningFile => StageView::OpeningFile,
            Stage::CreatingTable => StageView::CreatingTable,
            Stage::Beginning => StageView::Beginning,
            Stage::Running => StageView::Running,
            Stage::Committing(taken) => StageView::Committing(arrived::arrivals_view(taken@)),
        }
    }
}

/// A piece of work for the driver.
#[derive(Debug)]
pub enum Work<'s> {
    /// Say whether there is a file at the path.
    LookForFile(&'s str),
    /// Make the directory, and those above it, where they are missing. A
    /// failure is reported under [`CREATING_DIRECTORY`].
    CreateDirectory(&'s str),
    /// Open the database file at the path.
    OpenFile(&'s str),
    /// Run the statement, and say how many rows it changed.
    Execute(Statement<'s>),
    /// Run the statement, and hand back the first and third column of every
    /// row that it returns.
    Query(Statement<'s>),
    /// Run the statement, and hand back the one column of the one row that it
    /// returns.
    QueryRow(Statement<'s>),
    /// Begin a transaction that holds the write lock from the start.
    BeginImmediate,
    /// Commit that transaction.
    Commit,
}

/// A piece of [`Work`] as contracts speak of it.
pub enum WorkView {
    LookForFile(Seq<char>),
    CreateDirectory(Seq<char>),
    OpenFile(Seq<char>),
    Execute(StatementView),
    Query(StatementView),
    QueryRow(StatementView),
    BeginImmediate,
    Commit,
}

impl<'s> View for Work<'s> {
    type V = WorkView;

    open spec fn view(&self) -> WorkView {
        match *self {
            Work::LookForFile(path) => WorkView::LookForFile(path@),
            Work::CreateDirectory(directory) => WorkView::CreateDirectory(directory@),
            Work::OpenFile(path) => WorkView::OpenFile(path@),
            Work::Execute(statement) => WorkView::Execute(statement@),
            Work::Query(statement) => WorkView::Query(statement@),
            Work::QueryRow(statement) => WorkView::QueryRow(statement@),
            Work::BeginImmediate => WorkView::BeginImmediate,
            Work::Commit => WorkView::Commit,
        }
    }
}

/// What came of a piece of work.
#[derive(Debug)]
pub enum Answer {
    /// It was done, and there is nothing to tell.
    Done,
    /// Whether there is a file.
    File(bool),
    /// How many rows a statement changed.
    Changed(usize),
    /// The rows that a statement returned.
    Rows(Vec<Row>),
    /// The `claimed` column of the row that was asked for.
    Claimed(Option<i64>),
    /// It could not be done, and the failure is judged already.
    Failed(TransportError),
    /// The engine refused.
    Refused(rusqlite::Error),
}

/// An [`Answer`] as contracts speak of it. What the engine refused has failed
/// as the engine's error is judged.
pub enum AnswerView {
    Done,
    File(bool),
    Changed(usize),
    Rows(Seq<RowView>),
    Claimed(Option<i64>),
    Failed(ErrorView),
}

impl View for Answer {
    type V = AnswerView;

    open spec fn view(&self) -> AnswerView {
        match *self {
            Answer::Done => AnswerView::Done,
            Answer::File(there) => AnswerView::File(there),
            Answer::Changed(rows) => AnswerView::Changed(rows),
            Answer::Rows(rows) => AnswerView::Rows(arrived::rows_view(rows@)),
            Answer::Claimed(claimed) => AnswerView::Claimed(claimed),
            Answer::Failed(error) => AnswerView::Failed(error@),
            Answer::Refused(error) => AnswerView::Failed(
                error::engine_failure(error::engine_code(error), error::engine_text(error)),
            ),
        }
    }
}

/// What a finished session has to show.
#[derive(Debug)]
pub enum Outcome {
    Opened,
    Taken(Vec<Arrived>),
    Sent,
    Available(bool),
    Claimed(Claimed),
    Released,
}

/// An [`Outcome`] as contracts speak of it.
pub enum OutcomeView {
    Opened,
    Taken(Seq<ArrivedView>),
    Sent,
    Available(bool),
    Claimed(ClaimedView),
    Released,
}

impl View for Outcome {
    type V = OutcomeView;

    open spec fn view(&self) -> OutcomeView {
        match *self {
            Outcome::Opened => OutcomeView::Opened,
            Outcome::Taken(arrived) => OutcomeView::Taken(arrived::arrivals_view(arrived@)),
            Outcome::Sent => OutcomeView::Sent,
            Outcome::Available(available) => OutcomeView::Available(available),
            Outcome::Claimed(claimed) => OutcomeView::Claimed(claimed@),
            Outcome::Released => OutcomeView::Released,
        }
    }
}

/// A call under way.
#[derive(Debug)]
pub struct Session<'a> {
    path: &'a str,
    task: Task<'a>,
    stage: Stage<'a>,
}

/// A [`Session`] as contracts speak of it.
pub struct SessionView {
    pub path: Seq<char>,
    pub task: TaskView,
    pub stage: StageView,
}

impl<'a> View for Session<'a> {
    type V = SessionView;

    closed spec fn view(&self) -> SessionView {
        SessionView { path: self.path@, task: self.task@, stage: self.stage@ }
    }
}

/// What follows an answer.
#[derive(Debug)]
pub enum Turn<'a> {
    /// There is more work.
    Ask(Session<'a>),
    /// The call is over.
    Finished(Result<Outcome, TransportError>),
}

/// The end of a call as contracts speak of it.
pub type EndView = Result<OutcomeView, ErrorView>;

/// A [`Turn`] as contracts speak of it.
pub enum TurnView {
    Ask(SessionView),
    Finished(EndView),
}

impl<'a> View for Turn<'a> {
    type V = TurnView;

    open spec fn view(&self) -> TurnView {
        match *self {
            Turn::Ask(session) => TurnView::Ask(session@),
            Turn::Finished(Ok(outcome)) => TurnView::Finished(Ok(outcome@)),
            Turn::Finished(Err(error)) => TurnView::Finished(Err(error@)),
        }
    }
}

impl TaskView {
    /// The statement that the task runs once the table is in place. To open
    /// runs nothing but the statement of the table itself.
    pub open spec fn statement(self) -> StatementView {
        match self {
            TaskView::Open => StatementView::CreateTable,
            TaskView::Take { only: Some(target), .. } => StatementView::TakeTarget { target },
            TaskView::Take { only: None, .. } => StatementView::TakeAll,
            TaskView::Send { target, payload } => StatementView::Insert { target, payload },
            TaskView::IsAvailable { row } => StatementView::IsAvailable { row },
            TaskView::Claim { row, .. } => StatementView::Claim { row },
            TaskView::Release { row } => StatementView::Release { row },
        }
    }
}

impl TaskView {
    /// How the task ends once its statement was answered.
    pub open spec fn concludes(self, answer: AnswerView) -> EndView {
        match self {
            TaskView::Open => Ok(OutcomeView::Opened),
            TaskView::Take { origin, .. } => Ok(
                OutcomeView::Taken(arrived::arrivals_of(origin, answer->Rows_0)),
            ),
            TaskView::Send { .. } => Ok(OutcomeView::Sent),
            TaskView::IsAvailable { .. } => Ok(
                OutcomeView::Available(answer->Claimed_0 == Some(0i64)),
            ),
            TaskView::Claim { artefact, row } => if answer->Changed_0 == 1 {
                Ok(OutcomeView::Claimed(ClaimedView { artefact, token: text::decimal(row as int) }))
            } else {
                Err(not_claimed(artefact))
            },
            TaskView::Release { .. } => Ok(OutcomeView::Released),
        }
    }
}

/// The stage at which a file is opened: its directory is made first, where it
/// has one.
pub open spec fn opening_stage(directory: Option<Seq<char>>) -> StageView {
    match directory {
        Some(directory) => StageView::MakingDirectory(directory),
        None => StageView::OpeningFile,
    }
}

/// A session that opens the file at `path`, which lies in `directory`, and then
/// does `task`.
pub open spec fn opening_session(
    path: Seq<char>,
    directory: Option<Seq<char>>,
    task: TaskView,
) -> SessionView {
    SessionView { path, task, stage: opening_stage(directory) }
}

/// A session that looks for the file at `path`, which lies in `directory`, and
/// does `task` only where the file is there.
pub open spec fn looking_session(
    path: Seq<char>,
    directory: Option<Seq<char>>,
    task: TaskView,
) -> SessionView {
    SessionView { path, task, stage: StageView::Looking(directory) }
}

/// What is said of an artefact that could not be claimed.
pub open spec fn not_claimed(artefact: Seq<char>) -> ErrorView {
    error::permanent(artefact + " is held, or is no row"@)
}

impl SessionView {
    /// The work that the session waits for.
    pub open spec fn work(self) -> WorkView {
        match self.stage {
            StageView::Looking(_) => WorkView::LookForFile(self.path),
            StageView::MakingDirectory(directory) => WorkView::CreateDirectory(directory),
            StageView::OpeningFile => WorkView::OpenFile(self.path),
            StageView::CreatingTable => WorkView::Execute(StatementView::CreateTable),
            StageView::Beginning => WorkView::BeginImmediate,
            StageView::Running => match self.task {
                TaskView::Take { .. } => WorkView::Query(self.task.statement()),
                TaskView::IsAvailable { .. } => WorkView::QueryRow(self.task.statement()),
                _ => WorkView::Execute(self.task.statement()),
            },
            StageView::Committing(_) => WorkView::Commit,
        }
    }

    /// Whether `answer` is one to the work that the session waits for. All
    /// work but the look for the file may fail.
    pub open spec fn awaits(self, answer: AnswerView) -> bool {
        match self.work() {
            WorkView::LookForFile(_) => answer is File,
            WorkView::CreateDirectory(_) => answer is Done || answer is Failed,
            WorkView::OpenFile(_) => answer is Done || answer is Failed,
            WorkView::Execute(_) => answer is Changed || answer is Failed,
            WorkView::Query(_) => answer is Rows || answer is Failed,
            WorkView::QueryRow(_) => answer is Claimed || answer is Failed,
            WorkView::BeginImmediate => answer is Done || answer is Failed,
            WorkView::Commit => answer is Done || answer is Failed,
        }
    }

    /// The session with its next stage.
    pub open spec fn at(self, stage: StageView) -> TurnView {
        TurnView::Ask(SessionView { stage, ..self })
    }

    /// What follows once the statement of the task has run: the end, but for
    /// a take, which is committed first.
    pub open spec fn ran(self, answer: AnswerView) -> TurnView {
        match self.task {
            TaskView::Take { origin, .. } => self.at(
                StageView::Committing(arrived::arrivals_of(origin, answer->Rows_0)),
            ),
            _ => TurnView::Finished(self.task.concludes(answer)),
        }
    }

    /// What follows `answer`. A failure ends the session and is reported as it
    /// is; a file that is not there holds no rows.
    pub open spec fn next(self, answer: AnswerView) -> TurnView {
        match answer {
            AnswerView::Failed(error) => TurnView::Finished(Err(error)),
            _ => match self.stage {
                StageView::Looking(directory) => if answer == AnswerView::File(true) {
                    self.at(opening_stage(directory))
                } else {
                    TurnView::Finished(Ok(OutcomeView::Taken(seq![])))
                },
                StageView::MakingDirectory(_) => self.at(StageView::OpeningFile),
                StageView::OpeningFile => self.at(StageView::CreatingTable),
                StageView::CreatingTable => match self.task {
                    TaskView::Open => TurnView::Finished(Ok(OutcomeView::Opened)),
                    TaskView::Take { .. } => self.at(StageView::Beginning),
                    _ => self.at(StageView::Running),
                },
                StageView::Beginning => self.at(StageView::Running),
                StageView::Running => self.ran(answer),
                StageView::Committing(taken) => TurnView::Finished(Ok(OutcomeView::Taken(taken))),
            },
        }
    }
}

impl<'a> Task<'a> {
    /// The statement that the task runs once the table is in place.
    fn statement(&self) -> (statement: Statement<'a>)
        ensures
            statement@ == self@.statement(),
    {
        match self {
            Task::Open => Statement::CreateTable,
            Task::Take { only: Some(target), .. } => Statement::TakeTarget { target: *target },
            Task::Take { only: None, .. } => Statement::TakeAll,
            Task::Send { target, payload } => Statement::Insert {
                target: *target,
                payload: *payload,
            },
            Task::IsAvailable { row } => Statement::IsAvailable { row: *row },
            Task::Claim { row, .. } => Statement::Claim { row: *row },
            Task::Release { row } => Statement::Release { row: *row },
        }
    }
}

/// A text that may not be there is seen as it is.
pub proof fn a_text_is_seen_as_it_is(text: &str)
    ensures
        text_view(Some(text)) == Some(text@),
        text_view(None) is None,
{
}

/// Work is seen as the driver is given it.
pub proof fn work_is_seen_as_it_is(path: &str, statement: Statement)
    ensures
        Work::LookForFile(path)@ == WorkView::LookForFile(path@),
        Work::CreateDirectory(path)@ == WorkView::CreateDirectory(path@),
        Work::OpenFile(path)@ == WorkView::OpenFile(path@),
        Work::Execute(statement)@ == WorkView::Execute(statement@),
        Work::Query(statement)@ == WorkView::Query(statement@),
        Work::QueryRow(statement)@ == WorkView::QueryRow(statement@),
        Work::BeginImmediate@ == WorkView::BeginImmediate,
        Work::Commit@ == WorkView::Commit,
{
}

/// An answer is heard as the driver gives it. What the engine refused is heard
/// as a failure that quotes the engine, and that is worth a second try just
/// where the file is busy or locked or the disk failed.
pub proof fn an_answer_is_heard_as_it_is(
    there: bool,
    changed: usize,
    rows: Vec<Row>,
    claimed: Option<i64>,
    error: TransportError,
    refusal: rusqlite::Error,
)
    ensures
        Answer::Done@ == AnswerView::Done,
        Answer::File(there)@ == AnswerView::File(there),
        Answer::Changed(changed)@ == AnswerView::Changed(changed),
        Answer::Rows(rows)@ == AnswerView::Rows(arrived::rows_view(rows@)),
        Answer::Claimed(claimed)@ == AnswerView::Claimed(claimed),
        Answer::Failed(error)@ == AnswerView::Failed(error@),
        ({
            let code = error::engine_code(refusal);
            Answer::Refused(refusal)@ == AnswerView::Failed(
                ErrorView {
                    message: "the engine: "@ + error::engine_text(refusal),
                    retryable: code == Some(error::EngineCode::DatabaseBusy) || code == Some(
                        error::EngineCode::DatabaseLocked,
                    ) || code == Some(error::EngineCode::SystemIoFailure),
                },
            )
        }),
{
}

/// The end of a call is seen as it is told.
pub proof fn an_end_is_seen_as_it_is(
    taken: Vec<Arrived>,
    available: bool,
    claimed: Claimed,
    outcome: Outcome,
    error: TransportError,
)
    ensures
        Outcome::Opened@ == OutcomeView::Opened,
        Outcome::Taken(taken)@ == OutcomeView::Taken(arrived::arrivals_view(taken@)),
        Outcome::Sent@ == OutcomeView::Sent,
        Outcome::Available(available)@ == OutcomeView::Available(available),
        Outcome::Claimed(claimed)@ == OutcomeView::Claimed(claimed@),
        Outcome::Released@ == OutcomeView::Released,
        Turn::Finished(Ok(outcome))@ == TurnView::Finished(Ok(outcome@)),
        Turn::Finished(Err(error))@ == TurnView::Finished(Err(error@)),
{
}

/// The stage at which a file is opened: its directory is made first, where it
/// has one.
fn opening<'a>(directory: Option<&'a str>) -> (stage: Stage<'a>)
    ensures
        stage@ == opening_stage(text_view(directory)),
{
    match directory {
        Some(directory) => Stage::MakingDirectory(directory),
        None => Stage::OpeningFile,
    }
}

impl<'a> Session<'a> {
    /// A session that opens the file at `path`, which lies in `directory`, and
    /// then does `task`.
    pub(crate) fn new(path: &'a str, directory: Option<&'a str>, task: Task<'a>) -> (session:
        Session<'a>)
        ensures
            session@ == opening_session(path@, text_view(directory), task@),
    {
        Session { path, task, stage: opening(directory) }
    }

    /// A session that looks for the file at `path`, which lies in `directory`,
    /// and does `task` only where the file is there.
    pub(crate) fn looking(path: &'a str, directory: Option<&'a str>, task: Task<'a>) -> (session:
        Session<'a>)
        ensures
            session@ == looking_session(path@, text_view(directory), task@),
    {
        Session { path, task, stage: Stage::Looking(directory) }
    }

    /// The work that the session waits for.
    pub fn work<'s>(&'s self) -> (work: Work<'s>)
        ensures
            work@ == self@.work(),
    {
        match &self.stage {
            Stage::Looking(_) => Work::LookForFile(self.path),
            Stage::MakingDirectory(directory) => Work::CreateDirectory(*directory),
            Stage::OpeningFile => Work::OpenFile(self.path),
            Stage::CreatingTable => Work::Execute(Statement::CreateTable),
            Stage::Beginning => Work::BeginImmediate,
            Stage::Running => match &self.task {
                Task::Take { .. } => Work::Query(self.task.statement()),
                Task::IsAvailable { .. } => Work::QueryRow(self.task.statement()),
                _ => Work::Execute(self.task.statement()),
            },
            Stage::Committing(_) => Work::Commit,
        }
    }

    /// What follows `answer`, which is one to the work that the session waits
    /// for.
    pub fn next(self, answer: Answer) -> (turn: Turn<'a>)
        requires
            self@.awaits(answer@),
        ensures
            turn@ == self@.next(answer@),
            answer matches Answer::Failed(error) ==> turn == Turn::<'a>::Finished(Err(error)),
            answer matches Answer::Refused(refusal) ==> {
                &&& turn matches Turn::Finished(Err(error))
                &&& error.message@ == "the engine: "@ + error::engine_text(refusal)
                &&& error.retryable <==> (error::engine_code(refusal) matches Some(code) && code
                    != error::EngineCode::Other)
            },
    {
        let Session { path, task, stage } = self;
        let failure = match &answer {
            Answer::Refused(error) => Some(engine_error(error)),
            _ => None,
        };
        if let Some(error) = failure {
            return Turn::Finished(Err(error));
        }
        match (stage, answer) {
            (_, Answer::Failed(error)) => Turn::Finished(Err(error)),
            (Stage::Looking(directory), Answer::File(true)) => Turn::Ask(
                Session { path, task, stage: opening(directory) },
            ),
            (Stage::Looking(_), _) => {
                let none: Vec<Arrived> = Vec::new();
                assert(arrived::arrivals_view(none@) =~= seq![]);
                Turn::Finished(Ok(Outcome::Taken(none)))
            },
            (Stage::MakingDirectory(_), _) => Turn::Ask(
                Session { path, task, stage: Stage::OpeningFile },
            ),
            (Stage::OpeningFile, _) => Turn::Ask(
                Session { path, task, stage: Stage::CreatingTable },
            ),
            (Stage::CreatingTable, _) => match task {
                Task::Open => Turn::Finished(Ok(Outcome::Opened)),
                Task::Take { .. } => Turn::Ask(Session { path, task, stage: Stage::Beginning }),
                _ => Turn::Ask(Session { path, task, stage: Stage::Running }),
            },
            (Stage::Beginning, _) => Turn::Ask(Session { path, task, stage: Stage::Running }),
            (Stage::Running, answer) => Session::ran(path, task, answer),
            (Stage::Committing(taken), _) => Turn::Finished(Ok(Outcome::Taken(taken))),
        }
    }

    /// What follows once the statement of `task` has run.
    fn ran(path: &'a str, task: Task<'a>, answer: Answer) -> (turn: Turn<'a>)
        requires
            (SessionView { path: path@, task: task@, stage: StageView::Running }).awaits(answer@),
            !(answer@ is Failed),
        ensures
            turn@ == (SessionView { path: path@, task: task@, stage: StageView::Running }).ran(
                answer@,
            ),
    {
        match (task, answer) {
            (Task::Take { origin, only }, Answer::Rows(rows)) => {
                let taken = arrivals(origin.as_str(), rows);
                Turn::Ask(
                    Session {
                        path,
                        task: Task::Take { origin, only },
                        stage: Stage::Committing(taken),
                    },
                )
            },
            (Task::IsAvailable { .. }, Answer::Claimed(claimed)) => {
                let available: bool = match claimed {
                    Some(mark) => mark == 0,
                    None => false,
                };
                Turn::Finished(Ok(Outcome::Available(available)))
            },
            (Task::Claim { artefact, row }, Answer::Changed(flipped)) => if flipped == 1 {
                Turn::Finished(
                    Ok(Outcome::Claimed(Claimed::new(artefact.clone(), to_decimal(row)))),
                )
            } else {
                Turn::Finished(
                    Err(
                        TransportError::permanent(
                            artefact.address().to_owned().concat(" is held, or is no row"),
                        ),
                    ),
                )
            },
            (Task::Send { .. }, _) => Turn::Finished(Ok(Outcome::Sent)),
            (Task::Release { .. }, _) => Turn::Finished(Ok(Outcome::Released)),
            _ => Turn::Finished(Ok(Outcome::Opened)),
        }
    }
}

} // verus!
