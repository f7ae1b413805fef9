//! What a call does from its start to its end, and how the calls of several
//! nodes fall in line.

use vstd::prelude::*;

use crate::arrived::{self, ArrivedView, RowView};
use crate::claim::{ClaimedView, Named, RowClaimView};
use crate::error::{engine_code, engine_text, EngineCode, ErrorView};
use crate::laws::starts::lemma_origin;
use crate::session::{
    Answer, AnswerView, EndView, OutcomeView, SessionView, StageView, TaskView, TurnView, WorkView,
};
use crate::statement::{
    ParameterView, StatementView, CLAIM, CREATE, INSERT, IS_AVAILABLE, RELEASE, TAKE_ALL,
    TAKE_TARGET,
};
use crate::table::{self, Call, Entry, Event, Run, Step};
use crate::text;
use crate::transport::TransportView;

verus! {

/// Whether the call makes one change, in one of `steps`.
pub open spec fn takes_effect(task: TaskView, steps: Seq<Step>, end: EndView) -> bool {
    exists|call: Call, at: int|
        call.task == task && call.end == end && #[trigger] call.happens_at(steps, at)
}

proof fn lemma_later_effect(task: TaskView, steps: Seq<Step>, end: EndView)
    requires
        steps.len() > 0,
        steps[0].after.rows == steps[0].before.rows,
        takes_effect(task, steps.drop_first(), end),
    ensures
        takes_effect(task, steps, end),
{
    let rest = steps.drop_first();
    let (call, at) = choose|call: Call, at: int|
        call.task == task && call.end == end && #[trigger] call.happens_at(rest, at);
    assert forall|other: int| 0 <= other < steps.len() && other != at + 1 implies (
    #[trigger] steps[other]).after.rows == steps[other].before.rows by {
        if other > 0 {
            assert(rest[other - 1] == steps[other]);
        }
    }
    assert(steps[at + 1] == rest[at]);
    assert(call.happens_at(steps, at + 1));
}

proof fn lemma_later_steps(steps: Seq<Step>)
    requires
        steps.len() > 0,
    ensures
        table::unchanged(steps) <==> steps[0].after.rows == steps[0].before.rows
            && table::unchanged(steps.drop_first()),
        table::unfailing(steps) <==> !(steps[0].answer is Failed) && table::unfailing(
            steps.drop_first(),
        ),
{
    let rest = steps.drop_first();
    assert forall|i: int| 0 < i < steps.len() implies #[trigger] steps[i] == rest[i - 1] by {}
    assert forall|i: int| 0 <= i < rest.len() implies #[trigger] rest[i] == steps[i + 1] by {}
}

/// What holds of a call on a file that is being opened or is open.
proof fn lemma_open_call(session: SessionView, steps: Seq<Step>, end: EndView)
    requires
        table::comes_to(TurnView::Ask(session), steps, end),
        !(session.stage is Looking),
        !(session.stage is Committing),
        session.stage is Beginning ==> session.task is Take,
        steps[0].before.draft == (if session.stage is Running && session.task is Take {
            Some(steps[0].before.rows)
        } else {
            None
        }),
    ensures
        end is Err ==> table::unchanged(steps),
        end is Ok ==> table::unfailing(steps),
        session.task is Open && !(session.stage is Running) ==> table::unchanged(steps),
        !(session.task is Open) && table::unfailing(steps) ==> takes_effect(
            session.task,
            steps,
            end,
        ),
    decreases steps.len(),
{
    let step = steps[0];
    let rest = steps.drop_first();
    lemma_later_steps(steps);
    assert(table::comes_to(session.next(step.answer), rest, end));
    if session.work().failed_by(step) {
        assert(rest.len() == 0);
        assert(table::unchanged(rest));
    } else if session.stage is Running {
        if session.task is Take {
            let commit = rest[0];
            assert(commit == steps[1]);
            assert(table::follows(step, commit));
            let committing = session.next(step.answer)->Ask_0;
            assert(committing.work() == WorkView::Commit);
            assert(table::comes_to(committing.next(commit.answer), rest.drop_first(), end));
            assert(rest.drop_first().len() == 0);
            assert(steps.len() == 2);
            if committing.work().failed_by(commit) {
                lemma_later_steps(rest);
                assert(table::unchanged(rest.drop_first()));
            } else {
                let call = Call {
                    task: session.task,
                    before: commit.before.rows,
                    after: commit.after.rows,
                    answer: step.answer,
                    end,
                };
                assert(call.is_performed());
                assert(call.happens_at(steps, 1));
                assert(table::unfailing(steps));
            }
        } else {
            assert(rest.len() == 0);
            let call = Call {
                task: session.task,
                before: step.before.rows,
                after: step.after.rows,
                answer: step.answer,
                end,
            };
            assert(call.is_performed());
            assert(call.happens_at(steps, 0));
            assert(table::unfailing(rest));
            assert(table::unchanged(rest));
        }
    } else if let TurnView::Ask(following) = session.next(step.answer) {
        assert(rest.len() > 0);
        assert(table::follows(step, steps[1]));
        assert(rest[0] == steps[1]);
        lemma_open_call(following, rest, end);
        assert(following.task == session.task);
        if !(session.task is Open) && table::unfailing(steps) {
            lemma_later_effect(session.task, steps, end);
        }
    } else {
        assert(rest.len() == 0);
        assert(table::unchanged(rest));
        assert(table::unfailing(rest));
    }
}

/// A call changes the table all at once or not at all. Where none of its work
/// fails it makes one change, which is what its statement asks for, and ends by
/// what that statement was answered; this holds of a receive that finds no file
/// too, which takes every wanted row of a table without rows. A call that ends
/// in an error changes nothing: in particular, a take that fails leaves every
/// row unclaimed that was. A call that ends well had no work fail. To open the
/// file changes no row.
pub proof fn a_call_makes_one_change_or_none(run: Run)
    requires
        run.is_carried_out(),
    ensures
        run.end is Err ==> table::unchanged(run.steps),
        run.end is Ok ==> run.is_unfailing(),
        run.session.task is Open ==> table::unchanged(run.steps),
        !(run.session.task is Open) && run.is_unfailing() ==> takes_effect(
            run.session.task,
            run.steps,
            run.end,
        ),
{
    let session = run.session;
    let steps = run.steps;
    let end = run.end;
    if session.stage is Looking {
        let step = steps[0];
        let rest = steps.drop_first();
        lemma_later_steps(steps);
        assert(session.work() is LookForFile);
        assert(table::comes_to(session.next(step.answer), rest, end));
        if step.answer == AnswerView::File(true) {
            let opening = session.next(step.answer)->Ask_0;
            assert(rest[0] == steps[1]);
            lemma_open_call(opening, rest, end);
            if run.is_unfailing() {
                lemma_later_effect(session.task, steps, end);
            }
        } else {
            assert(rest.len() == 0);
            let origin = session.task->Take_origin;
            let none = Seq::<arrived::RowView>::empty();
            let empty = Map::<i64, Entry>::empty();
            assert(none.map_values(|row: arrived::RowView| arrived::arrival(origin, row))
                =~= Seq::<ArrivedView>::empty());
            assert(arrived::arrivals_of(origin, none) =~= Seq::<ArrivedView>::empty());
            let call = Call {
                task: session.task,
                before: empty,
                after: empty,
                answer: AnswerView::Rows(none),
                end,
            };
            table::lemma_take_of_no_rows(session.task.statement());
            assert(call.is_performed());
            assert(call.happens_at(steps, 0));
        }
    } else {
        lemma_open_call(session, steps, end);
    }
}

/// A failure ends a call, at whatever stage, and is reported as it is: with the
/// very message, and as worth a second try just where it was.
pub proof fn a_failure_is_reported_as_it_is(
    session: SessionView,
    message: Seq<char>,
    retryable: bool,
)
    ensures
        session.next(AnswerView::Failed(ErrorView { message, retryable })) == TurnView::Finished(
            Err(ErrorView { message, retryable }),
        ),
{
}

/// What the engine refuses, at whatever stage, ends the call with the engine's
/// own words behind the word that it said them. A file that another writer holds
/// may be tried again, be it when the transaction is begun, when a statement is
/// run or when rows are committed; a file that is not a database may not.
pub proof fn a_refusal_is_quoted_and_a_busy_file_may_be_tried_again(
    session: SessionView,
    refusal: rusqlite::Error,
)
    ensures
        session.next(Answer::Refused(refusal)@) matches TurnView::Finished(Err(error)) && {
            &&& error.message == "the engine: "@ + engine_text(refusal)
            &&& engine_code(refusal) == Some(EngineCode::DatabaseBusy) ==> error.retryable
            &&& engine_code(refusal) == Some(EngineCode::DatabaseLocked) ==> error.retryable
            &&& engine_code(refusal) == Some(EngineCode::SystemIoFailure) ==> error.retryable
            &&& engine_code(refusal) == Some(EngineCode::Other) ==> !error.retryable
            &&& engine_code(refusal) is None ==> !error.retryable
        },
{
}

/// A call is over once a piece of its work fails, and ends in that failure.
pub proof fn a_call_ends_in_the_failure_of_its_work(
    turn: TurnView,
    steps: Seq<Step>,
    end: EndView,
    at: int,
)
    requires
        table::comes_to(turn, steps, end),
        0 <= at < steps.len(),
        steps[at].answer is Failed,
    ensures
        at == steps.len() - 1,
        end == EndView::Err(steps[at].answer->Failed_0),
    decreases steps.len(),
{
    let rest = steps.drop_first();
    assert(table::comes_to(turn->Ask_0.next(steps[0].answer), rest, end));
    if steps[0].answer is Failed {
        assert(rest.len() == 0);
    } else {
        assert(rest[at - 1] == steps[at]);
        a_call_ends_in_the_failure_of_its_work(
            turn->Ask_0.next(steps[0].answer),
            rest,
            end,
            at - 1,
        );
    }
}

/// Whatever comes of the work that a session waits for, it is told: that the work
/// was done, with what there is to tell of it, or that it failed. Whether there
/// is a file can always be told.
pub proof fn whatever_comes_of_the_work_is_told(
    session: SessionView,
    there: bool,
    changed: usize,
    rows: Seq<RowView>,
    claimed: Option<i64>,
    error: ErrorView,
)
    ensures
        match session.work() {
            WorkView::LookForFile(_) => session.awaits(AnswerView::File(there)),
            WorkView::CreateDirectory(_) | WorkView::OpenFile(_) | WorkView::BeginImmediate
            | WorkView::Commit => session.awaits(AnswerView::Done),
            WorkView::Execute(_) => session.awaits(AnswerView::Changed(changed)),
            WorkView::Query(_) => session.awaits(AnswerView::Rows(rows)),
            WorkView::QueryRow(_) => session.awaits(AnswerView::Claimed(claimed)),
        },
        !(session.work() is LookForFile) ==> session.awaits(AnswerView::Failed(error)),
{
}

/// What follows once a call is given `answer`.
pub open spec fn answered(turn: TurnView, answer: AnswerView) -> TurnView {
    turn->Ask_0.next(answer)
}

/// Whether a call waits for `work`.
pub open spec fn asks_for(turn: TurnView, work: WorkView) -> bool {
    turn matches TurnView::Ask(session) && session.work() == work
}

/// Whether `statement` puts the text `sql` to the engine, with the values `bound`
/// to it.
pub open spec fn puts(
    statement: StatementView,
    sql: Seq<char>,
    bound: Seq<ParameterView>,
) -> bool {
    statement.sql() == sql && statement.parameters() == bound
}

/// Whether a call waits for what the text `sql` changes, with the values `bound`
/// to it.
pub open spec fn executes(turn: TurnView, sql: Seq<char>, bound: Seq<ParameterView>) -> bool {
    turn matches TurnView::Ask(session) && session.work() matches WorkView::Execute(statement)
        && puts(statement, sql, bound)
}

/// Whether a call waits for the rows that the text `sql` returns, with the values
/// `bound` to it.
pub open spec fn queries(turn: TurnView, sql: Seq<char>, bound: Seq<ParameterView>) -> bool {
    turn matches TurnView::Ask(session) && session.work() matches WorkView::Query(statement)
        && puts(statement, sql, bound)
}

/// Whether a call waits for the one row that the text `sql` returns, with the
/// values `bound` to it.
pub open spec fn queries_row(turn: TurnView, sql: Seq<char>, bound: Seq<ParameterView>) -> bool {
    turn matches TurnView::Ask(session) && session.work() matches WorkView::QueryRow(statement)
        && puts(statement, sql, bound)
}

/// What follows once the directory is made, where there is one.
pub open spec fn with_directory(turn: TurnView, directory: Option<Seq<char>>) -> TurnView {
    match directory {
        Some(_) => answered(turn, AnswerView::Done),
        None => turn,
    }
}

/// What follows once the directory is made, the file is open and its table is in
/// place.
pub open spec fn prepared(
    turn: TurnView,
    directory: Option<Seq<char>>,
    changed: usize,
) -> TurnView {
    answered(
        answered(with_directory(turn, directory), AnswerView::Done),
        AnswerView::Changed(changed),
    )
}

/// Whether a call makes the directory, where there is one, opens the file at
/// `path` and puts its table in place, in this order.
pub open spec fn prepares(
    turn: TurnView,
    path: Seq<char>,
    directory: Option<Seq<char>>,
) -> bool {
    let made = with_directory(turn, directory);
    &&& directory matches Some(directory) ==> asks_for(turn, WorkView::CreateDirectory(directory))
    &&& asks_for(made, WorkView::OpenFile(path))
    &&& executes(answered(made, AnswerView::Done), CREATE@, seq![])
}

/// The work of an open: the file is prepared, and that is all.
pub proof fn what_an_open_asks_for(transport: TransportView, changed: usize)
    ensures
        ({
            let turn = TurnView::Ask(transport.opening(TaskView::Open));
            &&& prepares(turn, transport.path, transport.directory)
            &&& prepared(turn, transport.directory, changed) == TurnView::Finished(
                Ok(OutcomeView::Opened),
            )
        }),
{
}

/// The work of a send: the file is prepared, and one row is inserted, to which
/// the whole target and every byte of the payload are bound as they were given.
/// It then ends well.
pub proof fn what_a_send_asks_for(
    transport: TransportView,
    target: Seq<char>,
    payload: Seq<u8>,
    changed: usize,
    added: usize,
)
    ensures
        ({
            let turn = TurnView::Ask(transport.send(target, payload));
            let ready = prepared(turn, transport.directory, changed);
            &&& prepares(turn, transport.path, transport.directory)
            &&& executes(
                ready,
                INSERT@,
                seq![ParameterView::Text(target), ParameterView::Blob(payload)],
            )
            &&& answered(ready, AnswerView::Changed(added)) == TurnView::Finished(
                Ok(OutcomeView::Sent),
            )
        }),
{
}

/// The work of a take: the file is prepared, a transaction is begun, the
/// unclaimed rows are claimed in it, and it is committed. Where the queue is
/// filtered, the whole target is bound as it was given, and nothing is bound
/// otherwise. What was taken is handed out with the queue's own origin, once it
/// is committed.
pub proof fn what_a_take_asks_for(transport: TransportView, changed: usize, rows: Seq<RowView>)
    ensures
        ({
            let turn = TurnView::Ask(transport.take());
            let ready = prepared(turn, transport.directory, changed);
            let begun = answered(ready, AnswerView::Done);
            let returned = answered(begun, AnswerView::Rows(rows));
            &&& prepares(turn, transport.path, transport.directory)
            &&& asks_for(ready, WorkView::BeginImmediate)
            &&& match transport.only {
                Some(target) => queries(begun, TAKE_TARGET@, seq![ParameterView::Text(target)]),
                None => queries(begun, TAKE_ALL@, seq![]),
            }
            &&& asks_for(returned, WorkView::Commit)
            &&& answered(returned, AnswerView::Done) == TurnView::Finished(
                Ok(
                    OutcomeView::Taken(
                        arrived::arrivals_of("sqlite://"@ + transport.uri_path + "?row="@, rows),
                    ),
                ),
            )
        }),
{
    lemma_origin(transport.uri_path);
}

/// The work of the question whether a row is available: the file is prepared, and
/// the column of the very row that the address names is read. The row is
/// available just where the column holds a zero.
pub proof fn what_the_question_after_a_row_asks_for(
    claim: RowClaimView,
    address: Seq<char>,
    id: i64,
    changed: usize,
    claimed: Option<i64>,
)
    requires
        claim.row_of(address) == Named::Ok(id),
    ensures
        ({
            let turn = claim.start(address, |row: i64| TaskView::IsAvailable { row });
            let ready = prepared(turn, claim.directory, changed);
            &&& prepares(turn, claim.path, claim.directory)
            &&& queries_row(ready, IS_AVAILABLE@, seq![ParameterView::Integer(id)])
            &&& answered(ready, AnswerView::Claimed(claimed)) == TurnView::Finished(
                Ok(OutcomeView::Available(claimed == Some(0i64))),
            )
        }),
{
}

/// The work of a claim: the file is prepared, and the column of the very row that
/// the address names is flipped. The claim is had where one row was changed, with
/// that row's id as the token; otherwise it is refused, which no second try will
/// mend.
pub proof fn what_a_claim_asks_for(
    claim: RowClaimView,
    address: Seq<char>,
    id: i64,
    changed: usize,
    flipped: usize,
)
    requires
        claim.row_of(address) == Named::Ok(id),
    ensures
        ({
            let turn = claim.start(address, |row: i64| TaskView::Claim { artefact: address, row });
            let ready = prepared(turn, claim.directory, changed);
            &&& prepares(turn, claim.path, claim.directory)
            &&& executes(ready, CLAIM@, seq![ParameterView::Integer(id)])
            &&& answered(ready, AnswerView::Changed(flipped)) == TurnView::Finished(
                if flipped == 1 {
                    Ok(
                        OutcomeView::Claimed(
                            ClaimedView { artefact: address, token: text::decimal(id as int) },
                        ),
                    )
                } else {
                    Err(
                        ErrorView {
                            message: address + " is held, or is no row"@,
                            retryable: false,
                        },
                    )
                },
            )
        }),
{
}

/// The work of a release: the file is prepared, and the column of the very row
/// that the address names is flipped back. It ends well once the table was asked,
/// whether the row was held or not, and not before.
pub proof fn what_a_release_asks_for(
    claim: RowClaimView,
    address: Seq<char>,
    id: i64,
    changed: usize,
    flipped: usize,
)
    requires
        claim.row_of(address) == Named::Ok(id),
    ensures
        ({
            let turn = claim.start(address, |row: i64| TaskView::Release { row });
            let ready = prepared(turn, claim.directory, changed);
            &&& prepares(turn, claim.path, claim.directory)
            &&& executes(ready, RELEASE@, seq![ParameterView::Integer(id)])
            &&& answered(ready, AnswerView::Changed(flipped)) == TurnView::Finished(
                Ok(OutcomeView::Released),
            )
        }),
{
}

/// A take that ends in an error was never told that it is committed, so no row
/// is claimed without being handed out.
pub proof fn a_failed_take_is_not_committed(session: SessionView, answer: AnswerView)
    requires
        session.awaits(answer),
        session.task is Take,
        session.next(answer) matches TurnView::Finished(Err(_)),
    ensures
        !(session.work() is Commit && answer is Done),
        answer is Failed,
{
}

/// Rows are taken in a transaction only: a take that has come to its statement
/// has just begun the transaction.
pub proof fn rows_are_taken_in_a_transaction(
    session: SessionView,
    answer: AnswerView,
    following: SessionView,
)
    requires
        session.awaits(answer),
        session.task is Take,
        session.next(answer) == TurnView::Ask(following),
        following.work() is Query,
    ensures
        session.work() == WorkView::BeginImmediate,
        answer == AnswerView::Done,
        following.work() == WorkView::Query(session.task.statement()),
{
}

/// Rows are handed out only once they are committed: a session that ends well
/// with rows had them in hand while it waited for the commit, and the commit did
/// not fail.
pub proof fn what_is_handed_out_is_committed(
    session: SessionView,
    answer: AnswerView,
    taken: Seq<ArrivedView>,
)
    requires
        session.awaits(answer),
        taken.len() > 0,
        session.next(answer) == TurnView::Finished(Ok(OutcomeView::Taken(taken))),
    ensures
        session.work() == WorkView::Commit,
        session.stage == StageView::Committing(taken),
        answer == AnswerView::Done,
{
}

/// Whether nobody else changes a row between two of `steps`.
pub open spec fn undisturbed(steps: Seq<Step>) -> bool {
    forall|i: int, j: int|
        0 <= i < steps.len() && j == i + 1 && j < steps.len() ==> (#[trigger] steps[i]).after.rows
            == (#[trigger] steps[j]).before.rows
}

proof fn lemma_rows_between(steps: Seq<Step>, from: int, to: int)
    requires
        undisturbed(steps),
        0 <= from < to < steps.len(),
        forall|i: int| from < i < to ==> (#[trigger] steps[i]).after.rows == steps[i].before.rows,
    ensures
        steps[to].before.rows == steps[from].after.rows,
    decreases to - from,
{
    if to > from + 1 {
        lemma_rows_between(steps, from, to - 1);
        assert(steps[to - 1].after.rows == steps[to - 1].before.rows);
    }
    assert(steps[to - 1].after.rows == steps[to].before.rows);
}

/// The one change of a call of which no work failed, while nobody else was at the
/// file: it leads from the rows at the start to the rows at the end.
pub proof fn lemma_alone(run: Run) -> (call: Call)
    requires
        run.is_carried_out(),
        run.end is Ok || run.is_unfailing(),
        !(run.session.task is Open),
        undisturbed(run.steps),
    ensures
        call.is_performed(),
        call.task == run.session.task,
        call.end == run.end,
        call.before == run.steps[0].before.rows,
        call.after == run.steps.last().after.rows,
{
    a_call_makes_one_change_or_none(run);
    let steps = run.steps;
    let (call, at) = choose|call: Call, at: int|
        call.task == run.session.task && call.end == run.end && #[trigger] call.happens_at(
            steps,
            at,
        );
    if at > 0 {
        lemma_rows_between(steps, 0, at);
        assert(steps[0].after.rows == steps[0].before.rows);
    }
    let last = steps.len() - 1;
    if at < last {
        lemma_rows_between(steps, at, last);
        assert(steps[last].after.rows == steps[last].before.rows);
    }
    call
}

/// Whether a call came to `end` by `steps`, from its start, while nobody else was
/// at the file.
pub open spec fn comes_alone(turn: TurnView, steps: Seq<Step>, end: EndView) -> bool {
    &&& table::comes_to(turn, steps, end)
    &&& undisturbed(steps)
    &&& steps.len() > 0 ==> steps[0].before.draft is None
}

/// What a call came to that asks for work: where it failed nothing has changed,
/// and where it did not it made its one change.
pub proof fn lemma_comes_alone(session: SessionView, steps: Seq<Step>, end: EndView) -> (call: Call)
    requires
        comes_alone(TurnView::Ask(session), steps, end),
        session.stage is MakingDirectory || session.stage is OpeningFile || (session.stage
            is Looking && session.task is Take),
        !(session.task is Open),
    ensures
        steps.len() > 0,
        end is Ok ==> table::unfailing(steps),
        end is Err ==> steps.last().after.rows == steps[0].before.rows,
        table::unfailing(steps) ==> {
            &&& call.is_performed()
            &&& call.task == session.task
            &&& call.end == end
            &&& call.before == steps[0].before.rows
            &&& call.after == steps.last().after.rows
        },
{
    let run = Run { session, steps, end };
    assert(run.is_carried_out());
    a_call_makes_one_change_or_none(run);
    if end is Err {
        let last = steps.len() - 1;
        if last > 0 {
            lemma_rows_between(steps, 0, last);
        }
        assert(steps[0].after.rows == steps[0].before.rows);
        assert(steps[last].after.rows == steps[last].before.rows);
    }
    if table::unfailing(steps) {
        lemma_alone(run)
    } else {
        arbitrary()
    }
}

/// Two calls that ended well, one after the other, while nobody else was at the
/// file: the second finds the rows as the first left them.
pub proof fn lemma_in_turn(first: Run, second: Run) -> (calls: (Call, Call))
    requires
        first.is_carried_out(),
        second.is_carried_out(),
        first.end is Ok,
        second.end is Ok,
        !(first.session.task is Open),
        !(second.session.task is Open),
        undisturbed(first.steps + second.steps),
    ensures
        calls.0.is_performed(),
        calls.0.task == first.session.task,
        calls.0.end == first.end,
        calls.0.before == first.steps[0].before.rows,
        calls.1.is_performed(),
        calls.1.task == second.session.task,
        calls.1.end == second.end,
        calls.1.before == calls.0.after,
        calls.1.after == second.steps.last().after.rows,
{
    let steps = first.steps + second.steps;
    let n = first.steps.len() as int;
    assert forall|i: int, j: int|
        0 <= i < n && j == i + 1 && j < n implies (#[trigger] first.steps[i]).after.rows == (
    #[trigger] first.steps[j]).before.rows by {
        assert(steps[i] == first.steps[i] && steps[j] == first.steps[j]);
    }
    assert forall|i: int, j: int|
        0 <= i < second.steps.len() && j == i + 1 && j < second.steps.len() implies (
    #[trigger] second.steps[i]).after.rows == (#[trigger] second.steps[j]).before.rows by {
        assert(steps[n + i] == second.steps[i] && steps[n + j] == second.steps[j]);
    }
    assert(steps[n - 1] == first.steps.last());
    assert(steps[n] == second.steps[0]);
    (lemma_alone(first), lemma_alone(second))
}

/// Whether the step `i` of all is the step `k` of the call `c`.
pub open spec fn stands_at(places: Seq<Seq<int>>, c: int, k: int, i: int) -> bool {
    0 <= c < places.len() && 0 <= k < places[c].len() && places[c][k] == i
}

/// Whether `all` are the steps of the calls `runs`, which go on at the same
/// time: the step `k` of the call `c` is the step `places[c][k]` of all.
pub open spec fn interleaves(all: Seq<Step>, runs: Seq<Run>, places: Seq<Seq<int>>) -> bool {
    &&& undisturbed(all)
    &&& places.len() == runs.len()
    &&& forall|c: int|
        0 <= c < runs.len() ==> (#[trigger] runs[c]).is_carried_out() && places[c].len()
            == runs[c].steps.len()
    &&& forall|c: int, k: int, i: int| #[trigger]
        stands_at(places, c, k, i) ==> 0 <= i < all.len() && all[i] == runs[c].steps[k]
    &&& forall|c: int, k: int, d: int, l: int, i: int| #[trigger]
        stands_at(places, c, k, i) && #[trigger] stands_at(places, d, l, i) ==> c == d && k == l
    &&& forall|c: int, k: int, l: int|
        0 <= c < places.len() && 0 <= k < l < places[c].len() ==> (#[trigger] places[c][k]) < (
        #[trigger] places[c][l])
    &&& forall|i: int|
        #![trigger all[i]]
        0 <= i < all.len() ==> exists|c: int, k: int| stands_at(places, c, k, i)
}

/// Whether the call makes a change: it does more than to open the file, and
/// none of its work fails.
pub open spec fn is_effective(run: Run) -> bool {
    !(run.session.task is Open) && run.is_unfailing()
}

/// The change that a call makes, and the step of the call in which it does.
pub open spec fn moment(run: Run) -> (Call, int) {
    choose|moment: (Call, int)|
        moment.0.task == run.session.task && moment.0.end == run.end
            && #[trigger] moment.0.happens_at(run.steps, moment.1)
}

/// Whether the call `c` makes its change in the step `i` of all.
pub open spec fn marks(runs: Seq<Run>, places: Seq<Seq<int>>, c: int, i: int) -> bool {
    &&& 0 <= c < runs.len()
    &&& is_effective(runs[c])
    &&& stands_at(places, c, moment(runs[c]).1, i)
}

/// What the steps of all calls mean to the file.
pub open spec fn events_of(all: Seq<Step>, runs: Seq<Run>, places: Seq<Seq<int>>) -> Seq<Event> {
    Seq::new(
        all.len(),
        |i: int|
            Event {
                before: all[i].before.rows,
                after: all[i].after.rows,
                call: if exists|c: int| marks(runs, places, c, i) {
                    Some(moment(runs[choose|c: int| marks(runs, places, c, i)]).0)
                } else {
                    None
                },
            },
    )
}

proof fn lemma_moment(run: Run)
    requires
        run.is_carried_out(),
        is_effective(run),
    ensures
        moment(run).0.happens_at(run.steps, moment(run).1),
        moment(run).0.task == run.session.task,
        moment(run).0.end == run.end,
{
    a_call_makes_one_change_or_none(run);
    let (call, at) = choose|call: Call, at: int|
        call.task == run.session.task && call.end == run.end && #[trigger] call.happens_at(
            run.steps,
            at,
        );
    let found = (call, at);
    assert(found.0.happens_at(run.steps, found.1));
}

/// The calls of any number of nodes, however their steps are mixed, fall in
/// line: every call that makes a change makes it in one event of a history of
/// the file, and nothing else happens in that history.
pub proof fn calls_fall_in_line(all: Seq<Step>, runs: Seq<Run>, places: Seq<Seq<int>>)
    requires
        interleaves(all, runs, places),
    ensures
        table::history(events_of(all, runs, places)),
        forall|c: int|
            0 <= c < runs.len() && is_effective(#[trigger] runs[c]) ==> exists|i: int| #[trigger]
                marks(runs, places, c, i),
        forall|c: int, i: int| #[trigger]
            marks(runs, places, c, i) ==> 0 <= i < all.len() && (events_of(
                all,
                runs,
                places,
            )[i].call matches Some(call) && call.task == runs[c].session.task && call.end
                == runs[c].end),
        forall|i: int|
            0 <= i < all.len() && (#[trigger] events_of(all, runs, places)[i]).call is Some
                ==> exists|c: int| marks(runs, places, c, i),
{
    let events = events_of(all, runs, places);
    assert forall|c: int| 0 <= c < runs.len() && is_effective(#[trigger] runs[c]) implies exists|
        i: int,
    | #[trigger] marks(runs, places, c, i) by {
        lemma_moment(runs[c]);
        let at = moment(runs[c]).1;
        assert(stands_at(places, c, at, places[c][at]));
        assert(marks(runs, places, c, places[c][at]));
    }
    assert forall|c: int, i: int| #[trigger] marks(runs, places, c, i) implies 0 <= i < all.len()
        && (events[i].call matches Some(call) && call.task == runs[c].session.task && call.end
        == runs[c].end) by {
        let chosen = choose|c: int| marks(runs, places, c, i);
        assert(marks(runs, places, chosen, i));
        assert(stands_at(places, c, moment(runs[c]).1, i));
        assert(stands_at(places, chosen, moment(runs[chosen]).1, i));
        assert(chosen == c);
        lemma_moment(runs[c]);
    }
    assert forall|i: int| 0 <= i < events.len() implies (#[trigger] events[i]).is_sound() by {
        if exists|c: int| marks(runs, places, c, i) {
            let c = choose|c: int| marks(runs, places, c, i);
            lemma_moment(runs[c]);
            assert(stands_at(places, c, moment(runs[c]).1, i));
        } else {
            assert(events[i].before == all[i].before.rows);
            assert(exists|c: int, k: int| stands_at(places, c, k, i));
            let (c, k) = choose|c: int, k: int| stands_at(places, c, k, i);
            assert(stands_at(places, c, k, i));
            let run = runs[c];
            assert(run.is_carried_out());
            a_call_makes_one_change_or_none(run);
            assert(all[i] == run.steps[k]);
            if is_effective(run) {
                lemma_moment(run);
                let at = moment(run).1;
                if at == k {
                    assert(marks(runs, places, c, i));
                }
                assert(run.steps[k].after.rows == run.steps[k].before.rows);
            } else {
                assert(run.steps[k].after.rows == run.steps[k].before.rows);
            }
        }
    }
    assert forall|i: int, j: int|
        0 <= i < events.len() && j == i + 1 && j < events.len() implies (#[trigger] events[i]).after
        == (#[trigger] events[j]).before by {
        assert(all[i].after.rows == all[j].before.rows);
    }
}

} // verus!
