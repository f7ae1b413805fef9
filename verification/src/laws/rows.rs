//! What becomes of rows: which of them are handed out, how often, and to whom
//! they belong meanwhile.

use vstd::prelude::*;

use crate::arrived::{self, ArrivedView, RowView};
use crate::claim::{ClaimedView, Named, RowClaimView};
use crate::error::ErrorView;
use crate::laws::calls::{comes_alone, lemma_comes_alone};
use crate::laws::order::{lemma_of_row_member, lemma_of_row_pushed, oldest_first_is_a_stable_order};
use crate::laws::starts::{address_of, an_origin_names_its_row, lemma_address};
use crate::session::{self, EndView, OutcomeView, TaskView, TurnView};
use crate::table::{self, Call, Entry, Event, Step, Table};
use crate::text;
use crate::transport::{self, TransportView};

verus! {

/// The Streams that `rows` carry, as they were handed back.
pub open spec fn unordered(
    uri_path: Seq<char>,
    rows: Seq<RowView>,
) -> Seq<ArrivedView> {
    rows.map_values(|row: RowView| arrived::arrival(transport::origin_of(uri_path), row))
}

pub proof fn lemma_of_row_among(uri_path: Seq<char>, rows: Seq<RowView>, id: i64)
    requires
        forall|i: int, j: int|
            0 <= i < j < rows.len() ==> (#[trigger] rows[i]).id != (#[trigger] rows[j]).id,
    ensures
        forall|i: int|
            0 <= i < rows.len() && (#[trigger] rows[i]).id == id ==> arrived::of_row(
                unordered(uri_path, rows),
                id,
            ) == seq![arrived::arrival(transport::origin_of(uri_path), rows[i])],
        (forall|i: int| 0 <= i < rows.len() ==> (#[trigger] rows[i]).id != id)
            ==> arrived::of_row(unordered(uri_path, rows), id) == Seq::<
            ArrivedView,
        >::empty(),
    decreases rows.len(),
{
    let all = unordered(uri_path, rows);
    let empty = Seq::<ArrivedView>::empty();
    if rows.len() == 0 {
        reveal(Seq::filter);
        assert(all =~= empty);
    } else {
        let front = rows.drop_last();
        assert forall|i: int, j: int| 0 <= i < j < front.len() implies (#[trigger] front[i]).id
            != (#[trigger] front[j]).id by {
            assert(front[i] == rows[i] && front[j] == rows[j]);
        }
        lemma_of_row_among(uri_path, front, id);
        let last = arrived::arrival(transport::origin_of(uri_path), rows.last());
        assert(all =~= unordered(uri_path, front).push(last));
        lemma_of_row_pushed(unordered(uri_path, front), last, id);
        lemma_address(uri_path, rows.last().id);
        if rows.last().id == id {
            assert forall|i: int| 0 <= i < front.len() implies (#[trigger] front[i]).id != id by {
                assert(front[i] == rows[i]);
                assert(rows[i].id != rows[rows.len() - 1].id);
            }
            assert(empty.push(last) =~= seq![last]);
        }
        assert forall|i: int| 0 <= i < rows.len() && (#[trigger] rows[i]).id == id implies
            arrived::of_row(all, id) == seq![
            arrived::arrival(transport::origin_of(uri_path), rows[i]),
        ] by {
            if i < front.len() {
                assert(front[i] == rows[i]);
                assert(rows[i].id != rows[rows.len() - 1].id);
            } else {
                assert(rows[i] == rows.last());
            }
        }
        if forall|i: int| 0 <= i < rows.len() ==> (#[trigger] rows[i]).id != id {
            assert forall|i: int| 0 <= i < front.len() implies (#[trigger] front[i]).id != id by {
                assert(front[i] == rows[i]);
            }
            assert(rows[rows.len() - 1].id != id);
        }
    }
}

/// What a call took.
pub open spec fn taken_by(call: Call) -> Seq<ArrivedView> {
    call.end->Ok_0->Taken_0
}

/// The Stream that the row `id` of `rows` carries.
pub open spec fn stream_of(uri_path: Seq<char>, rows: Table, id: i64) -> ArrivedView {
    ArrivedView { origin_uri: address_of(uri_path, id), bytes: rows[id].payload }
}

/// What a take gives of the rows that it was asked for: their Streams, each of
/// them once and whole, lowest row first, and nothing of any other row. It
/// claims those rows, and nothing else changes.
pub proof fn a_take_gives_the_wanted_rows(transport: TransportView, call: Call)
    requires
        call.is_performed(),
        call.task == transport.taking(),
    ensures
        call.end == EndView::Ok(OutcomeView::Taken(taken_by(call))),
        arrived::in_row_order(taken_by(call)),
        forall|id: i64| #[trigger]
            arrived::of_row(taken_by(call), id) == (if table::wanted(
                call.before,
                transport.only,
                id,
            ) {
                seq![stream_of(transport.uri_path, call.before, id)]
            } else {
                seq![]
            }),
        table::takes(call.effect(), transport.only),
{
    let rows = call.answer->Rows_0;
    let origin = transport::origin_of(transport.uri_path);
    let taken = taken_by(call);
    let all = unordered(transport.uri_path, rows);
    assert(table::takes(call.effect(), transport.only));
    assert(rows.map_values(|row: RowView| arrived::arrival(origin, row)) =~= all);
    oldest_first_is_a_stable_order(all);
    assert forall|id: i64| #[trigger]
        arrived::of_row(taken, id) == (if table::wanted(call.before, transport.only, id) {
            seq![stream_of(transport.uri_path, call.before, id)]
        } else {
            seq![]
        }) by {
        lemma_of_row_among(transport.uri_path, rows, id);
        lemma_address(transport.uri_path, id);
        assert(arrived::of_row(taken, id) == arrived::of_row(all, id));
        if table::wanted(call.before, transport.only, id) {
            let i = choose|i: int| 0 <= i < rows.len() && (#[trigger] rows[i]).id == id;
            assert(rows[i].payload == call.before[id].payload);
        } else {
            assert forall|i: int| 0 <= i < rows.len() implies (#[trigger] rows[i]).id != id by {
                assert(table::wanted(call.before, transport.only, rows[i].id));
            }
        }
    }
}

/// Each Stream of a take is that of a wanted row.
pub proof fn lemma_taken_member(transport: TransportView, call: Call, x: int)
    requires
        call.is_performed(),
        call.task == transport.taking(),
        0 <= x < taken_by(call).len(),
    ensures
        ({
            let id = arrived::row_named(taken_by(call)[x].origin_uri);
            &&& table::wanted(call.before, transport.only, id)
            &&& taken_by(call)[x] == stream_of(transport.uri_path, call.before, id)
        }),
{
    a_take_gives_the_wanted_rows(transport, call);
    lemma_of_row_member(taken_by(call), x);
    let id = arrived::row_named(taken_by(call)[x].origin_uri);
    assert(arrived::of_row(taken_by(call), id).contains(taken_by(call)[x]));
}

/// The oldest row comes first: of two rows that one take gives, the one with
/// the lower id is handed out before the other.
pub proof fn the_older_row_comes_first(transport: TransportView, call: Call, i: int, j: int)
    requires
        call.is_performed(),
        call.task == transport.taking(),
        0 <= i < taken_by(call).len(),
        0 <= j < taken_by(call).len(),
        arrived::row_named(taken_by(call)[i].origin_uri) < arrived::row_named(
            taken_by(call)[j].origin_uri,
        ),
    ensures
        i < j,
{
    a_take_gives_the_wanted_rows(transport, call);
}

/// A send gets the next row, so a later send gets a later row, as long as the
/// largest id there is has not been given out.
pub proof fn later_sends_get_later_rows(call: Call, target: Seq<char>, payload: Seq<u8>)
    requires
        call.is_performed(),
        call.task == (TaskView::Send { target, payload }),
        !call.before.contains_key(i64::MAX),
    ensures
        exists|later: i64| #[trigger]
            table::adds(call.effect(), target, payload, later) && table::comes_next(
                call.before,
                later,
            ) && forall|earlier: i64| #[trigger]
                call.before.contains_key(earlier) ==> earlier < later,
{
}

proof fn lemma_event_keeps(event: Event, id: i64)
    requires
        event.is_sound(),
        event.before.contains_key(id),
    ensures
        event.after.contains_key(id),
        event.after[id].target == event.before[id].target,
        event.after[id].payload == event.before[id].payload,
        !event.releases(id) && table::held(event.before, id) ==> table::held(event.after, id),
{
    assert(event.before.dom().contains(id));
    if let Some(call) = event.call {
        if let TaskView::Take { only, .. } = call.task {
            assert(table::takes(call.effect(), only));
            assert(event.after.dom().contains(id));
        }
    }
}

/// Nothing is deleted: whatever is asked of the engine, by however many nodes,
/// a row stays in the table with its target and its bytes.
pub proof fn nothing_is_deleted(events: Seq<Event>, i: int, j: int, id: i64)
    requires
        table::history(events),
        0 <= i <= j < events.len(),
        events[i].before.contains_key(id),
    ensures
        events[j].after.contains_key(id),
        events[j].after[id].target == events[i].before[id].target,
        events[j].after[id].payload == events[i].before[id].payload,
    decreases j - i,
{
    if i < j {
        nothing_is_deleted(events, i, j - 1, id);
        assert(events[j - 1].after == events[j].before);
    }
    lemma_event_keeps(events[j], id);
}

/// A claim holds until it is released: a row that is claimed stays so, whatever
/// is asked of the engine by however many nodes, as long as nobody releases it.
pub proof fn a_claim_holds_until_it_is_released(events: Seq<Event>, i: int, j: int, id: i64)
    requires
        table::history(events),
        0 <= i < j < events.len(),
        table::held(events[i].after, id),
        forall|k: int| i < k < j ==> !(#[trigger] events[k]).releases(id),
    ensures
        table::held(events[j].before, id),
    decreases j - i,
{
    if i + 1 < j {
        a_claim_holds_until_it_is_released(events, i, j - 1, id);
        lemma_event_keeps(events[j - 1], id);
    }
    assert(events[j - 1].after == events[j].before);
}

/// No row is taken twice, by one node or by two that poll the same file: of two
/// takes, whatever happens between them but a release of the row, the second
/// does not give what the first gave.
pub proof fn a_row_is_taken_once(
    events: Seq<Event>,
    i: int,
    j: int,
    first: TransportView,
    second: TransportView,
    id: i64,
)
    requires
        table::history(events),
        0 <= i < j < events.len(),
        events[i].does(first.taking()),
        events[j].does(second.taking()),
        forall|k: int| i < k < j ==> !(#[trigger] events[k]).releases(id),
        arrived::of_row(taken_by(events[i].call->0), id).len() > 0,
    ensures
        arrived::of_row(taken_by(events[j].call->0), id).len() == 0,
{
    let call = events[i].call->0;
    a_take_gives_the_wanted_rows(first, call);
    a_take_gives_the_wanted_rows(second, events[j].call->0);
    assert(events[i].is_sound() && events[j].is_sound());
    assert(table::wanted(call.before, first.only, id));
    assert(call.after.dom().contains(id));
    a_claim_holds_until_it_is_released(events, i, j, id);
}

/// A take that is filtered on a target leaves the rows of every other target as
/// they are.
pub proof fn a_filtered_take_leaves_the_rest(transport: TransportView, call: Call, id: i64)
    requires
        call.is_performed(),
        call.task == transport.taking(),
        call.before.contains_key(id),
        transport.only matches Some(target) && call.before[id].target != target,
    ensures
        call.after.contains_key(id),
        call.after[id] == call.before[id],
        arrived::of_row(taken_by(call), id).len() == 0,
{
    a_take_gives_the_wanted_rows(transport, call);
    assert(call.before.dom().contains(id));
    assert(call.after.dom().contains(id));
}

/// A row that is claimed is not received, and its claim is left as it is.
pub proof fn a_claimed_row_is_not_received(transport: TransportView, call: Call, id: i64)
    requires
        call.is_performed(),
        call.task == transport.taking(),
        table::held(call.before, id),
    ensures
        arrived::of_row(taken_by(call), id).len() == 0,
        table::held(call.after, id),
{
    a_take_gives_the_wanted_rows(transport, call);
    assert(call.before.dom().contains(id));
    assert(call.after.dom().contains(id));
}

/// A release undoes a claim: the table is as it was before the row was claimed.
pub proof fn a_release_undoes_a_claim(
    artefact: Seq<char>,
    id: i64,
    claimed: Call,
    released: Call,
)
    requires
        claimed.is_performed(),
        claimed.task == (TaskView::Claim { artefact, row: id }),
        claimed.end is Ok,
        released.is_performed(),
        released.task == (TaskView::Release { row: id }),
        released.before == claimed.after,
    ensures
        released.after == claimed.before,
        table::wanted(released.after, None, id),
{
    assert(table::wanted(claimed.before, None, id));
    assert(table::held(released.before, id));
    assert(released.after =~= claimed.before);
}

/// What a claim comes to: the row's own id as the token where the row was there
/// and unclaimed, and the row is then held; otherwise a refusal that no second
/// try will mend, and nothing has changed.
pub proof fn a_claim_is_had_where_the_row_is_free(call: Call, artefact: Seq<char>, row: i64)
    requires
        call.is_performed(),
        call.task == (TaskView::Claim { artefact, row }),
    ensures
        if table::wanted(call.before, None, row) {
            &&& table::held(call.after, row)
            &&& call.end == EndView::Ok(
                OutcomeView::Claimed(ClaimedView { artefact, token: text::decimal(row as int) }),
            )
        } else {
            &&& call.after == call.before
            &&& call.end == EndView::Err(session::not_claimed(artefact))
        },
{
}

/// What the question whether a row is available comes to: whether it is
/// unclaimed. The table is left alone. A row that is not there has no answer:
/// the call then fails.
pub proof fn a_row_is_available_where_it_is_unclaimed(call: Call, row: i64)
    requires
        call.is_performed(),
        call.task == (TaskView::IsAvailable { row }),
    ensures
        call.after == call.before,
        call.before.contains_key(row),
        call.end == EndView::Ok(OutcomeView::Available(table::wanted(call.before, None, row))),
{
}

/// What a release comes to: the row is unclaimed again where it was held, and
/// nothing changes where it was not. Either way the call ends well.
pub proof fn a_release_frees_the_row(call: Call, row: i64)
    requires
        call.is_performed(),
        call.task == (TaskView::Release { row }),
    ensures
        call.end == EndView::Ok(OutcomeView::Released),
        if table::held(call.before, row) {
            table::wanted(call.after, None, row)
        } else {
            call.after == call.before
        },
{
}

/// A claim on the address of a row holds that row: where it ends well, that row
/// was there and unclaimed, it is claimed now, nothing else has changed, and the
/// token is the row's own id. It ends well wherever the row is free and no work
/// fails, and a refusal changes nothing.
pub proof fn a_claim_on_an_address_holds_that_row(
    claim: RowClaimView,
    id: i64,
    steps: Seq<Step>,
    end: EndView,
)
    requires
        ({
            let address = address_of(claim.uri_path, id);
            comes_alone(
                claim.start(address, |row: i64| TaskView::Claim { artefact: address, row }),
                steps,
                end,
            )
        }),
    ensures
        steps.len() > 0,
        ({
            let before = steps[0].before.rows;
            let after = steps.last().after.rows;
            let address = address_of(claim.uri_path, id);
            let free = before.contains_key(id) && before[id].claimed == 0;
            &&& end is Ok ==> {
                &&& free
                &&& after == before.insert(id, Entry { claimed: 1, ..before[id] })
                &&& end == EndView::Ok(
                    OutcomeView::Claimed(
                        ClaimedView { artefact: address, token: text::decimal(id as int) },
                    ),
                )
            }
            &&& end is Err ==> after == before
            &&& table::unfailing(steps) && free ==> end is Ok
            &&& table::unfailing(steps) && !free ==> end == EndView::Err(
                ErrorView { message: address + " is held, or is no row"@, retryable: false },
            )
        }),
{
    let address = address_of(claim.uri_path, id);
    an_origin_names_its_row(claim, id);
    let session = claim.opening(TaskView::Claim { artefact: address, row: id });
    lemma_comes_alone(session, steps, end);
}

/// A release of the address of a row frees that row: where it ends well, the row
/// is unclaimed if it was held, and nothing else has changed. It ends well
/// wherever no work fails, and does not end without any.
pub proof fn a_release_of_an_address_frees_that_row(
    claim: RowClaimView,
    id: i64,
    steps: Seq<Step>,
    end: EndView,
)
    requires
        comes_alone(
            claim.start(
                address_of(claim.uri_path, id),
                |row: i64| TaskView::Release { row },
            ),
            steps,
            end,
        ),
    ensures
        steps.len() > 0,
        ({
            let before = steps[0].before.rows;
            let after = steps.last().after.rows;
            let held = before.contains_key(id) && before[id].claimed == 1;
            &&& end is Ok ==> {
                &&& end == EndView::Ok(OutcomeView::Released)
                &&& held ==> after == before.insert(id, Entry { claimed: 0, ..before[id] })
                &&& !held ==> after == before
            }
            &&& end is Err ==> after == before
            &&& table::unfailing(steps) ==> end is Ok
        }),
{
    an_origin_names_its_row(claim, id);
    let session = claim.opening(TaskView::Release { row: id });
    lemma_comes_alone(session, steps, end);
}

/// The question whether the row of an address is available is answered by that
/// row: where it ends well, the row is there, and it is available just where it
/// is unclaimed. Nothing changes.
pub proof fn the_question_after_an_address_is_answered_by_that_row(
    claim: RowClaimView,
    id: i64,
    steps: Seq<Step>,
    end: EndView,
)
    requires
        comes_alone(
            claim.start(
                address_of(claim.uri_path, id),
                |row: i64| TaskView::IsAvailable { row },
            ),
            steps,
            end,
        ),
    ensures
        steps.len() > 0,
        steps.last().after.rows == steps[0].before.rows,
        ({
            let rows = steps[0].before.rows;
            &&& end is Ok ==> rows.contains_key(id) && end == EndView::Ok(
                OutcomeView::Available(rows[id].claimed == 0),
            )
            &&& table::unfailing(steps) ==> end is Ok
        }),
{
    an_origin_names_its_row(claim, id);
    let session = claim.opening(TaskView::IsAvailable { row: id });
    lemma_comes_alone(session, steps, end);
}

/// What a claim gave, a release takes back: where both end well, the second on
/// what the first gave, the table is as it was before the claim, and the row is
/// there for the next receive.
pub proof fn what_a_claim_gave_a_release_takes_back(
    claim: RowClaimView,
    id: i64,
    claiming: Seq<Step>,
    claimed: ClaimedView,
    releasing: Seq<Step>,
    end: EndView,
)
    requires
        ({
            let address = address_of(claim.uri_path, id);
            comes_alone(
                claim.start(address, |row: i64| TaskView::Claim { artefact: address, row }),
                claiming,
                EndView::Ok(OutcomeView::Claimed(claimed)),
            )
        }),
        comes_alone(
            claim.start(claimed.artefact, |row: i64| TaskView::Release { row }),
            releasing,
            end,
        ),
        end is Ok,
        releasing[0].before.rows == claiming.last().after.rows,
    ensures
        releasing.len() > 0,
        releasing.last().after.rows == claiming[0].before.rows,
        releasing.last().after.rows.contains_key(id),
        releasing.last().after.rows[id].claimed == 0,
{
    let had = EndView::Ok(OutcomeView::Claimed(claimed));
    a_claim_on_an_address_holds_that_row(claim, id, claiming, had);
    assert(claimed.artefact == address_of(claim.uri_path, id));
    a_release_of_an_address_frees_that_row(claim, id, releasing, end);
    assert(releasing.last().after.rows =~= claiming[0].before.rows);
}

/// A send puts one row more into the table: an unclaimed one, with the whole
/// target and every byte of the payload, and it leaves the others as they are.
/// It ends well wherever no work fails.
pub proof fn a_send_adds_one_row_with_what_it_was_given(
    transport: TransportView,
    target: Seq<char>,
    payload: Seq<u8>,
    steps: Seq<Step>,
    end: EndView,
)
    requires
        comes_alone(TurnView::Ask(transport.send(target, payload)), steps, end),
    ensures
        steps.len() > 0,
        ({
            let before = steps[0].before.rows;
            let after = steps.last().after.rows;
            &&& end is Ok ==> {
                &&& end == EndView::Ok(OutcomeView::Sent)
                &&& exists|id: i64|
                    !before.contains_key(id) && after == #[trigger] before.insert(
                        id,
                        Entry { target, payload, claimed: 0 },
                    )
            }
            &&& end is Err ==> after == before
            &&& table::unfailing(steps) ==> end is Ok
        }),
{
    let call = lemma_comes_alone(transport.send(target, payload), steps, end);
    if table::unfailing(steps) {
        let id = choose|id: i64| table::adds(call.effect(), target, payload, id);
        assert(table::adds(call.effect(), target, payload, id));
    }
}

/// A receive gives every unclaimed row that was sent to the target that the queue
/// is filtered on, or every one where it is not: once and whole, lowest row
/// first, and nothing else. Those rows are claimed afterwards, all others are as
/// they were, and none is gone. It ends well wherever no work fails.
pub proof fn a_receive_gives_the_wanted_rows(
    transport: TransportView,
    steps: Seq<Step>,
    end: EndView,
)
    requires
        comes_alone(TurnView::Ask(transport.receive()), steps, end) || comes_alone(
            TurnView::Ask(transport.take()),
            steps,
            end,
        ),
    ensures
        steps.len() > 0,
        end is Err ==> steps.last().after.rows == steps[0].before.rows,
        table::unfailing(steps) ==> end is Ok,
        end is Ok ==> gives_the_wanted_rows(
            end,
            transport,
            steps[0].before.rows,
            steps.last().after.rows,
        ),
{
    let session = if comes_alone(TurnView::Ask(transport.receive()), steps, end) {
        transport.receive()
    } else {
        transport.take()
    };
    let call = lemma_comes_alone(session, steps, end);
    if table::unfailing(steps) {
        a_take_gives_the_wanted_rows(transport, call);
        let before = call.before;
        let after = call.after;
        assert forall|id: i64| #[trigger] before.contains_key(id) implies after.contains_key(id)
            && after[id] == (if table::wanted(before, transport.only, id) {
            Entry { claimed: 1, ..before[id] }
        } else {
            before[id]
        }) by {
            assert(before.dom().contains(id));
            assert(after.dom().contains(id));
        }
    }
}

/// Whether a call ended with the Streams of the rows that `transport` wants of
/// `before`, lowest first, and has claimed just these in `after`.
pub open spec fn gives_the_wanted_rows(
    end: EndView,
    transport: TransportView,
    before: Table,
    after: Table,
) -> bool {
    &&& end matches Ok(OutcomeView::Taken(taken))
    &&& arrived::in_row_order(taken)
    &&& forall|id: i64| #[trigger]
        arrived::of_row(taken, id) == (if table::wanted(before, transport.only, id) {
            seq![
                ArrivedView {
                    origin_uri: address_of(transport.uri_path, id),
                    bytes: before[id].payload,
                },
            ]
        } else {
            seq![]
        })
    &&& after.dom() == before.dom()
    &&& forall|id: i64| #[trigger]
        before.contains_key(id) ==> after.contains_key(id) && after[id] == (if table::wanted(
            before,
            transport.only,
            id,
        ) {
            Entry { claimed: 1, ..before[id] }
        } else {
            before[id]
        })
}

/// Whether the event is a claim on the row `id`.
pub open spec fn claims_row(event: Event, id: i64) -> bool {
    event.call matches Some(call) && call.task matches TaskView::Claim { row, .. } && row == id
}

/// A row is claimed once: of two claims, whatever happens between them but a
/// release of the row, the second is refused where the first was had, and
/// changes nothing.
pub proof fn a_row_is_claimed_once(events: Seq<Event>, i: int, j: int, id: i64)
    requires
        table::history(events),
        0 <= i < j < events.len(),
        claims_row(events[i], id),
        claims_row(events[j], id),
        events[i].call->0.end is Ok,
        forall|k: int| i < k < j ==> !(#[trigger] events[k]).releases(id),
    ensures
        events[j].call->0.end == EndView::Err(
            session::not_claimed(events[j].call->0.task->Claim_artefact),
        ),
        events[j].after == events[j].before,
{
    assert(events[i].is_sound() && events[j].is_sound());
    assert(table::held(events[i].after, id));
    a_claim_holds_until_it_is_released(events, i, j, id);
}

/// The first claim on a free row.
proof fn lemma_first_claim(events: Seq<Event>, id: i64, from: int, some: int) -> (winner: int)
    requires
        table::history(events),
        0 <= from <= some < events.len(),
        claims_row(events[some], id),
        table::wanted(events[from].before, None, id),
        forall|k: int|
            0 <= k < events.len() ==> !((#[trigger] events[k]).call matches Some(call)
                && call.task is Take),
    ensures
        from <= winner < events.len(),
        claims_row(events[winner], id),
        table::wanted(events[winner].before, None, id),
        forall|k: int| from <= k < winner ==> !claims_row(#[trigger] events[k], id),
    decreases some - from,
{
    if claims_row(events[from], id) {
        from
    } else {
        let event = events[from];
        assert(event.is_sound());
        assert(events[from].after == events[from + 1].before);
        assert(table::wanted(event.after, None, id)) by {
            if let Some(call) = event.call {
                assert(!(call.task is Take));
            }
        }
        lemma_first_claim(events, id, from + 1, some)
    }
}

/// Of any number of claims on a free row, by however many nodes, exactly one is
/// had, as long as the row is neither released nor taken meanwhile: all others
/// are refused.
pub proof fn exactly_one_claim_is_had(events: Seq<Event>, id: i64, some: int)
    requires
        table::history(events),
        0 <= some < events.len(),
        claims_row(events[some], id),
        table::wanted(events[0].before, None, id),
        forall|k: int|
            0 <= k < events.len() ==> !((#[trigger] events[k]).call matches Some(call)
                && call.task is Take) && !events[k].releases(id),
    ensures
        exists|winner: int|
            0 <= winner < events.len() && claims_row(#[trigger] events[winner], id)
                && events[winner].call->0.end is Ok && forall|other: int|
                0 <= other < events.len() && other != winner && claims_row(
                    #[trigger] events[other],
                    id,
                ) ==> events[other].call->0.end == EndView::Err(
                    session::not_claimed(events[other].call->0.task->Claim_artefact),
                ),
{
    let winner = lemma_first_claim(events, id, 0, some);
    assert(events[winner].is_sound());
    assert(table::held(events[winner].after, id));
    assert forall|other: int|
        0 <= other < events.len() && other != winner && claims_row(
            #[trigger] events[other],
            id,
        ) implies events[other].call->0.end == EndView::Err(
        session::not_claimed(events[other].call->0.task->Claim_artefact),
    ) by {
        assert(winner < other);
        a_row_is_claimed_once(events, winner, other, id);
    }
}

/// A row that was taken is held: its origin is an address of it that the claim
/// over the file accepts, and to anybody who asks the row is not available until
/// it is released.
pub proof fn a_taken_row_is_not_available(
    events: Seq<Event>,
    i: int,
    j: int,
    transport: TransportView,
    x: int,
)
    requires
        table::history(events),
        0 <= i < j < events.len(),
        events[i].does(transport.taking()),
        0 <= x < taken_by(events[i].call->0).len(),
        ({
            let id = arrived::row_named(taken_by(events[i].call->0)[x].origin_uri);
            &&& events[j].does(TaskView::IsAvailable { row: id })
            &&& forall|k: int| i < k < j ==> !(#[trigger] events[k]).releases(id)
        }),
    ensures
        ({
            let origin = taken_by(events[i].call->0)[x].origin_uri;
            transport.claim().row_of(origin) == Named::Ok(arrived::row_named(origin))
        }),
        events[j].call->0.end == EndView::Ok(OutcomeView::Available(false)),
{
    let call = events[i].call->0;
    assert(events[i].is_sound() && events[j].is_sound());
    lemma_taken_member(transport, call, x);
    a_take_gives_the_wanted_rows(transport, call);
    let id = arrived::row_named(taken_by(call)[x].origin_uri);
    lemma_address(transport.uri_path, id);
    assert(call.after.dom().contains(id));
    a_claim_holds_until_it_is_released(events, i, j, id);
}

} // verus!
