//! The table behind the file, as laws speak of it: which rows it holds, what the
//! engine makes of them for a text that is put to it and the values bound to that
//! text, what a transaction keeps back until it is committed, and what a call
//! comes to. Nothing here runs; the laws say what follows where the engine does
//! as it is asked or fails.

use vstd::prelude::*;

use crate::arrived::RowView;
use crate::session::{AnswerView, EndView, SessionView, StageView, TaskView, TurnView, WorkView};
use crate::statement::{ParameterView, StatementView, TAKE_ALL, TAKE_TARGET};

verus! {

/// One row, without its id.
pub struct Entry {
    pub target: Seq<char>,
    pub payload: Seq<u8>,
    pub claimed: i64,
}

/// The rows by their ids.
pub type Table = Map<i64, Entry>;

/// What a statement did: the rows before and after it, and the answer.
pub struct Effect {
    pub before: Table,
    pub after: Table,
    pub answer: AnswerView,
}

/// Whether `id` is an unclaimed row, and one sent to `only` where that is given.
pub open spec fn wanted(table: Table, only: Option<Seq<char>>, id: i64) -> bool {
    &&& table.contains_key(id)
    &&& table[id].claimed == 0
    &&& only matches Some(target) ==> table[id].target == target
}

/// Whether `id` is a row that is claimed.
pub open spec fn held(table: Table, id: i64) -> bool {
    table.contains_key(id) && table[id].claimed == 1
}

/// `after` is `before` with the `claimed` column of `id` set to `claimed`.
pub open spec fn claim_set(before: Table, after: Table, id: i64, claimed: i64) -> bool {
    after == before.insert(id, Entry { claimed, ..before[id] })
}

/// `rows` are the wanted rows, each of them once, in any order.
pub open spec fn hands_back(
    table: Table,
    only: Option<Seq<char>>,
    rows: Seq<RowView>,
) -> bool {
    &&& forall|i: int, j: int|
        0 <= i < j < rows.len() ==> (#[trigger] rows[i]).id != (#[trigger] rows[j]).id
    &&& forall|i: int|
        #![trigger rows[i]]
        0 <= i < rows.len() ==> wanted(table, only, rows[i].id) && rows[i].payload
            == table[rows[i].id].payload
    &&& forall|id: i64| #[trigger]
        wanted(table, only, id) ==> exists|i: int|
            0 <= i < rows.len() && (#[trigger] rows[i]).id == id
}

/// Claiming the wanted rows: they are handed back, and nothing else changes.
pub open spec fn takes(effect: Effect, only: Option<Seq<char>>) -> bool {
    &&& effect.answer matches AnswerView::Rows(rows)
    &&& hands_back(effect.before, only, rows)
    &&& effect.after.dom() == effect.before.dom()
    &&& forall|id: i64| #[trigger]
        effect.after.contains_key(id) ==> effect.after[id] == (if wanted(effect.before, only, id) {
            Entry { claimed: 1, ..effect.before[id] }
        } else {
            effect.before[id]
        })
}

/// Whether `id` is the one that follows those of `rows`: the first is number
/// one, and each is one more than the largest before it.
pub open spec fn comes_next(rows: Table, id: i64) -> bool {
    &&& forall|other: i64| #[trigger] rows.contains_key(other) ==> other < id
    &&& if rows == Map::<i64, Entry>::empty() {
        id == 1
    } else {
        i64::MIN < id && rows.contains_key((id - 1) as i64)
    }
}

/// Adding the row `id`: an unclaimed one, and the next by its id unless there
/// is no id left behind the largest. It is then any that is not in use.
pub open spec fn adds(effect: Effect, target: Seq<char>, payload: Seq<u8>, id: i64) -> bool {
    &&& effect.answer == AnswerView::Changed(1)
    &&& !effect.before.contains_key(id)
    &&& effect.before.contains_key(i64::MAX) || comes_next(effect.before, id)
    &&& effect.after == effect.before.insert(id, Entry { target, payload, claimed: 0 })
}

/// Whether `effect` is what the engine makes of the text `sql` with the values
/// `bound` to it, `?1` first. The question after a row that is not there has no
/// answer but a failure. Nothing is said of any other text, nor of a text with
/// other values than it has places for.
pub open spec fn performs(sql: Seq<char>, bound: Seq<ParameterView>, effect: Effect) -> bool {
    &&& sql == "CREATE TABLE IF NOT EXISTS xmip_transport (\
        id INTEGER PRIMARY KEY, target TEXT NOT NULL, payload BLOB NOT NULL, \
        claimed INTEGER NOT NULL DEFAULT 0)"@ && bound.len() == 0 ==> {
        effect.answer is Changed && effect.after == effect.before
    }
    &&& sql == "INSERT INTO xmip_transport (target, payload, claimed) VALUES (?1, ?2, 0)"@
        && bound.len() == 2 && bound[0] is Text && bound[1] is Blob ==> exists|id: i64| #[trigger]
        adds(effect, bound[0]->Text_0, bound[1]->Blob_0, id)
    &&& sql == "UPDATE xmip_transport SET claimed = 1 \
        WHERE claimed = 0 RETURNING id, target, payload"@ && bound.len() == 0 ==> takes(
        effect,
        None,
    )
    &&& sql == "UPDATE xmip_transport SET claimed = 1 \
        WHERE claimed = 0 AND target = ?1 RETURNING id, target, payload"@ && bound.len() == 1
        && bound[0] is Text ==> takes(effect, Some(bound[0]->Text_0))
    &&& sql == "SELECT claimed FROM xmip_transport WHERE id = ?1"@ && bound.len() == 1
        && bound[0] is Integer ==> {
        let row = bound[0]->Integer_0;
        &&& effect.before.contains_key(row)
        &&& effect.answer == AnswerView::Claimed(Some(effect.before[row].claimed))
        &&& effect.after == effect.before
    }
    &&& sql == "UPDATE xmip_transport SET claimed = 1 WHERE id = ?1 AND claimed = 0"@
        && bound.len() == 1 && bound[0] is Integer ==> {
        let row = bound[0]->Integer_0;
        if wanted(effect.before, None, row) {
            &&& effect.answer == AnswerView::Changed(1)
            &&& claim_set(effect.before, effect.after, row, 1)
        } else {
            effect.answer == AnswerView::Changed(0) && effect.after == effect.before
        }
    }
    &&& sql == "UPDATE xmip_transport SET claimed = 0 WHERE id = ?1 AND claimed = 1"@
        && bound.len() == 1 && bound[0] is Integer ==> {
        let row = bound[0]->Integer_0;
        if held(effect.before, row) {
            &&& effect.answer == AnswerView::Changed(1)
            &&& claim_set(effect.before, effect.after, row, 0)
        } else {
            effect.answer == AnswerView::Changed(0) && effect.after == effect.before
        }
    }
}

impl StatementView {
    /// Whether `effect` is what the engine makes of the statement: of its text
    /// and the values that are bound to it.
    pub open spec fn done_by(self, effect: Effect) -> bool {
        performs(self.sql(), self.parameters(), effect)
    }
}

/// A take of a table without rows hands nothing back.
pub proof fn lemma_take_of_no_rows(statement: StatementView)
    requires
        statement is TakeAll || statement is TakeTarget,
    ensures
        statement.done_by(
            Effect { before: Map::empty(), after: Map::empty(), answer: AnswerView::Rows(seq![]) },
        ),
{
    // No other text is as long as that of a take.
    reveal_strlit(
        "CREATE TABLE IF NOT EXISTS xmip_transport (\
        id INTEGER PRIMARY KEY, target TEXT NOT NULL, payload BLOB NOT NULL, \
        claimed INTEGER NOT NULL DEFAULT 0)",
    );
    reveal_strlit("INSERT INTO xmip_transport (target, payload, claimed) VALUES (?1, ?2, 0)");
    reveal_strlit(
        "UPDATE xmip_transport SET claimed = 1 \
        WHERE claimed = 0 RETURNING id, target, payload",
    );
    reveal_strlit(
        "UPDATE xmip_transport SET claimed = 1 \
        WHERE claimed = 0 AND target = ?1 RETURNING id, target, payload",
    );
    reveal_strlit("SELECT claimed FROM xmip_transport WHERE id = ?1");
    reveal_strlit("UPDATE xmip_transport SET claimed = 1 WHERE id = ?1 AND claimed = 0");
    reveal_strlit("UPDATE xmip_transport SET claimed = 0 WHERE id = ?1 AND claimed = 1");
    let effect = Effect {
        before: Map::empty(),
        after: Map::empty(),
        answer: AnswerView::Rows(seq![]),
    };
    assert(statement.sql().len() == TAKE_ALL@.len() || statement.sql().len() == TAKE_TARGET@.len());
    assert(takes(effect, None));
    assert(statement is TakeTarget ==> takes(effect, Some(statement->TakeTarget_target)));
}

/// The table at one moment, as one connection has it.
pub struct Store {
    /// The rows as everyone sees them.
    pub rows: Table,
    /// What the transaction that is open has made of them, if one is open.
    pub draft: Option<Table>,
}

/// One piece of work, done or failed: the table before and after it, and the
/// answer.
pub struct Step {
    pub before: Store,
    pub after: Store,
    pub answer: AnswerView,
}

impl StatementView {
    /// Whether `step` does what the statement asks: to the draft where a
    /// transaction is open, to the rows themselves otherwise.
    pub open spec fn run_by(self, step: Step) -> bool {
        let answer = step.answer;
        match step.before.draft {
            None => {
                &&& self.done_by(
                    Effect { before: step.before.rows, after: step.after.rows, answer },
                )
                &&& step.after.draft is None
            },
            Some(before) => {
                &&& step.after.draft matches Some(after)
                &&& self.done_by(Effect { before, after, answer })
                &&& step.after.rows == step.before.rows
            },
        }
    }
}

impl WorkView {
    /// Whether `step` does the work.
    pub open spec fn done_by(self, step: Step) -> bool {
        match self {
            WorkView::LookForFile(_) => {
                &&& step.answer matches AnswerView::File(there)
                &&& !there ==> step.before.rows == Map::<i64, Entry>::empty()
                &&& step.after == step.before
            },
            WorkView::CreateDirectory(_) | WorkView::OpenFile(_) => {
                step.answer is Done && step.after == step.before
            },
            WorkView::Execute(statement) => statement.run_by(step),
            WorkView::Query(statement) => statement.run_by(step),
            WorkView::QueryRow(statement) => statement.run_by(step),
            WorkView::BeginImmediate => {
                &&& step.answer is Done
                &&& step.after.rows == step.before.rows
                &&& step.after.draft == Some(step.before.rows)
            },
            WorkView::Commit => {
                &&& step.answer is Done
                &&& step.before.draft == Some(step.after.rows)
                &&& step.after.draft is None
            },
        }
    }

    /// Whether `step` tries the work and fails at it: the rows are then as they
    /// were. Whether a file is there can always be told.
    pub open spec fn failed_by(self, step: Step) -> bool {
        &&& !(self is LookForFile)
        &&& step.answer is Failed
        &&& step.after.rows == step.before.rows
    }
}

/// Whether `later` can be the step that a connection takes after `earlier`. Its
/// transaction is its own, and while it holds the write lock nobody else
/// changes the rows; otherwise others may.
pub open spec fn follows(earlier: Step, later: Step) -> bool {
    &&& later.before.draft == earlier.after.draft
    &&& earlier.after.draft is Some ==> later.before.rows == earlier.after.rows
}

/// Whether a session that goes on with `turn` comes to `end` by `steps`, each of
/// which does the work that the session waits for, or fails at it.
pub open spec fn comes_to(turn: TurnView, steps: Seq<Step>, end: EndView) -> bool
    decreases steps.len(),
{
    match turn {
        TurnView::Finished(result) => steps.len() == 0 && result == end,
        TurnView::Ask(session) => {
            &&& steps.len() > 0
            &&& session.work().done_by(steps[0]) || session.work().failed_by(steps[0])
            &&& steps.len() > 1 ==> follows(steps[0], steps[1])
            &&& comes_to(session.next(steps[0].answer), steps.drop_first(), end)
        },
    }
}

/// A call from its start to its end.
pub struct Run {
    pub session: SessionView,
    pub steps: Seq<Step>,
    pub end: EndView,
}

impl Run {
    /// Whether the call was carried out: a session that opens the file, or looks
    /// for it to take from it, came to the end by the steps.
    pub open spec fn is_carried_out(self) -> bool {
        &&& match self.session.stage {
            StageView::MakingDirectory(_) | StageView::OpeningFile => true,
            StageView::Looking(_) => self.session.task is Take,
            _ => false,
        }
        &&& comes_to(TurnView::Ask(self.session), self.steps, self.end)
        &&& self.steps[0].before.draft is None
    }

    /// Whether no work failed.
    pub open spec fn is_unfailing(self) -> bool {
        unfailing(self.steps)
    }
}

/// Whether none of `steps` failed.
pub open spec fn unfailing(steps: Seq<Step>) -> bool {
    forall|i: int| 0 <= i < steps.len() ==> !((#[trigger] steps[i]).answer is Failed)
}

/// Whether none of `steps` changed a row.
pub open spec fn unchanged(steps: Seq<Step>) -> bool {
    forall|i: int|
        0 <= i < steps.len() ==> (#[trigger] steps[i]).after.rows == steps[i].before.rows
}

/// A call as it bears on the table: the one change that it made, and its end.
pub struct Call {
    pub task: TaskView,
    pub before: Table,
    pub after: Table,
    pub answer: AnswerView,
    pub end: EndView,
}

impl Call {
    /// What the statement of the call did.
    pub open spec fn effect(self) -> Effect {
        Effect { before: self.before, after: self.after, answer: self.answer }
    }

    /// Whether the statement of the task did what it asks for, and the call
    /// ended by what it was answered.
    pub open spec fn is_performed(self) -> bool {
        &&& self.task.statement().done_by(self.effect())
        &&& self.end == self.task.concludes(self.answer)
    }

    /// Whether the call made its change in the step `at` of `steps`, all at
    /// once, and no other step changed a row.
    pub open spec fn happens_at(self, steps: Seq<Step>, at: int) -> bool {
        &&& self.is_performed()
        &&& 0 <= at < steps.len()
        &&& steps[at].before.rows == self.before
        &&& steps[at].after.rows == self.after
        &&& forall|other: int|
            0 <= other < steps.len() && other != at ==> (#[trigger] steps[other]).after.rows
                == steps[other].before.rows
    }
}

/// One moment in the life of a file: a call makes its change, or nothing
/// changes.
pub struct Event {
    pub before: Table,
    pub after: Table,
    pub call: Option<Call>,
}

impl Event {
    /// Whether the call, if there is one, made the change.
    pub open spec fn is_sound(self) -> bool {
        match self.call {
            Some(call) => call.is_performed() && call.before == self.before && call.after
                == self.after,
            None => self.after == self.before,
        }
    }

    /// Whether a call that does `task` makes its change.
    pub open spec fn does(self, task: TaskView) -> bool {
        self.call matches Some(call) && call.task == task
    }

    /// Whether a call gives up the row `id`.
    pub open spec fn releases(self, id: i64) -> bool {
        self.does(TaskView::Release { row: id })
    }
}

/// Whether `events` are what happened to one file, one event after the other,
/// whichever nodes the calls come from.
pub open spec fn history(events: Seq<Event>) -> bool {
    &&& forall|i: int| 0 <= i < events.len() ==> (#[trigger] events[i]).is_sound()
    &&& forall|i: int, j: int|
        0 <= i < events.len() && j == i + 1 && j < events.len() ==> (#[trigger] events[i]).after
            == (#[trigger] events[j]).before
}

} // verus!
