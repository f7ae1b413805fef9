//! What several calls give together: takes that follow one another, and sends
//! with the receive that follows them.

use vstd::prelude::*;

use crate::arrived::{self, ArrivedView, RowView};
use crate::laws::calls::{lemma_in_turn, undisturbed};
use crate::laws::order::{
    lemma_chosen_rows, lemma_kept_and_left, of_rows, the_order_is_settled_by_the_rows,
};
use crate::laws::rows::{
    a_take_gives_the_wanted_rows, lemma_of_row_among, lemma_taken_member, stream_of, taken_by,
    unordered,
};
use crate::laws::starts::{address_of, lemma_address};
use crate::session::{EndView, OutcomeView, TaskView};
use crate::table::{self, Call, Entry, Event, Run, Table};
use crate::transport::TransportView;

verus! {

/// Whether a take that is filtered on `only` would find nothing.
pub open spec fn nothing_wanted(rows: Table, only: Option<Seq<char>>) -> bool {
    forall|id: i64| !#[trigger] table::wanted(rows, only, id)
}

/// A take that finds nothing hands out nothing and changes nothing.
pub proof fn a_take_of_nothing_changes_nothing(transport: TransportView, call: Call)
    requires
        call.is_performed(),
        call.task == transport.taking(),
        nothing_wanted(call.before, transport.only),
    ensures
        call.end == EndView::Ok(OutcomeView::Taken(seq![])),
        call.after == call.before,
{
    a_take_gives_the_wanted_rows(transport, call);
    if taken_by(call).len() > 0 {
        lemma_taken_member(transport, call, 0);
    }
    assert(taken_by(call) =~= seq![]);
    assert forall|id: i64| #[trigger] call.after.contains_key(id) implies call.after[id]
        == call.before[id] by {
        assert(!table::wanted(call.before, transport.only, id));
    }
    assert(call.after =~= call.before);
}

proof fn lemma_nothing_left(transport: TransportView, call: Call)
    requires
        call.is_performed(),
        call.task == transport.taking(),
    ensures
        nothing_wanted(call.after, transport.only),
{
    a_take_gives_the_wanted_rows(transport, call);
    assert forall|id: i64| !#[trigger] table::wanted(call.after, transport.only, id) by {
        if call.after.contains_key(id) {
            assert(call.after.dom().contains(id));
            assert(call.before.dom().contains(id));
            assert(call.after[id].target == call.before[id].target);
        }
    }
}

/// Whether the event adds a row or gives one up.
pub open spec fn brings_rows(event: Event) -> bool {
    event.call matches Some(call) && (call.task is Send || call.task is Release)
}

proof fn lemma_still_nothing(events: Seq<Event>, i: int, j: int, only: Option<Seq<char>>)
    requires
        table::history(events),
        0 <= i < j < events.len(),
        nothing_wanted(events[i].after, only),
        forall|k: int| i < k < j ==> !brings_rows(#[trigger] events[k]),
    ensures
        nothing_wanted(events[j].before, only),
    decreases j - i,
{
    if i + 1 < j {
        lemma_still_nothing(events, i, j - 1, only);
        let event = events[j - 1];
        assert(event.is_sound());
        assert(!brings_rows(event));
        assert forall|id: i64| !#[trigger] table::wanted(event.after, only, id) by {
            assert(!table::wanted(event.before, only, id));
            if let Some(call) = event.call {
                if let TaskView::Take { only: filter, .. } = call.task {
                    assert(table::takes(call.effect(), filter));
                    if event.after.contains_key(id) {
                        assert(event.after.dom().contains(id));
                        assert(event.before.dom().contains(id));
                    }
                }
            }
        }
    }
    assert(events[j - 1].after == events[j].before);
}

/// A second take is empty: where nothing was sent and no row was released since
/// the first, a take with the same filter hands out nothing and changes nothing.
pub proof fn a_second_take_is_empty(
    events: Seq<Event>,
    i: int,
    j: int,
    first: TransportView,
    second: TransportView,
)
    requires
        table::history(events),
        0 <= i < j < events.len(),
        events[i].does(first.taking()),
        events[j].does(second.taking()),
        first.only == second.only,
        forall|k: int| i < k < j ==> !brings_rows(#[trigger] events[k]),
    ensures
        events[j].call->0.end == EndView::Ok(OutcomeView::Taken(seq![])),
        events[j].after == events[j].before,
{
    assert(events[i].is_sound() && events[j].is_sound());
    lemma_nothing_left(first, events[i].call->0);
    lemma_still_nothing(events, i, j, first.only);
    a_take_of_nothing_changes_nothing(second, events[j].call->0);
}

/// Whether nothing changes between the events `i` and `j`.
pub open spec fn quiet(events: Seq<Event>, i: int, j: int) -> bool {
    forall|k: int| i < k < j ==> (#[trigger] events[k]).after == events[k].before
}

proof fn lemma_quiet(events: Seq<Event>, i: int, j: int)
    requires
        table::history(events),
        0 <= i < j < events.len(),
        quiet(events, i, j),
    ensures
        events[j].before == events[i].after,
    decreases j - i,
{
    if i + 1 < j {
        lemma_quiet(events, i, j - 1);
        assert(events[j - 1].after == events[j - 1].before);
    }
    assert(events[j - 1].after == events[j].before);
}

/// What two takes give together, the first filtered on `first.only` and the
/// second on `second.only`: every row that either wanted at the start, each of
/// them once, from one of the two. Without filters that is every row that was
/// unclaimed. No origin is in both.
pub proof fn two_takes_share_the_rows(
    events: Seq<Event>,
    i: int,
    j: int,
    first: TransportView,
    second: TransportView,
)
    requires
        table::history(events),
        0 <= i < j < events.len(),
        events[i].does(first.taking()),
        events[j].does(second.taking()),
        quiet(events, i, j),
    ensures
        ({
            let start = events[i].before;
            let a = taken_by(events[i].call->0);
            let b = taken_by(events[j].call->0);
            &&& forall|id: i64|
                #![trigger table::wanted(start, first.only, id)]
                #![trigger table::wanted(start, second.only, id)]
                #![trigger arrived::of_row(a, id)]
                #![trigger arrived::of_row(b, id)]
                {
                    &&& arrived::of_row(a, id) == (if table::wanted(start, first.only, id) {
                        seq![stream_of(first.uri_path, start, id)]
                    } else {
                        seq![]
                    })
                    &&& arrived::of_row(b, id) == (if table::wanted(start, second.only, id)
                        && !table::wanted(start, first.only, id) {
                        seq![stream_of(second.uri_path, start, id)]
                    } else {
                        seq![]
                    })
                }
            &&& forall|x: int, y: int|
                0 <= x < a.len() && 0 <= y < b.len() ==> (#[trigger] a[x]).origin_uri != (
                #[trigger] b[y]).origin_uri
        }),
{
    let start = events[i].before;
    let one = events[i].call->0;
    let two = events[j].call->0;
    let a = taken_by(one);
    let b = taken_by(two);
    assert(events[i].is_sound() && events[j].is_sound());
    a_take_gives_the_wanted_rows(first, one);
    a_take_gives_the_wanted_rows(second, two);
    lemma_quiet(events, i, j);
    assert forall|id: i64|
        #![trigger table::wanted(start, first.only, id)]
        #![trigger table::wanted(start, second.only, id)]
        #![trigger arrived::of_row(a, id)]
        #![trigger arrived::of_row(b, id)]
        {
            &&& arrived::of_row(a, id) == (if table::wanted(start, first.only, id) {
                seq![stream_of(first.uri_path, start, id)]
            } else {
                seq![]
            })
            &&& arrived::of_row(b, id) == (if table::wanted(start, second.only, id)
                && !table::wanted(start, first.only, id) {
                seq![stream_of(second.uri_path, start, id)]
            } else {
                seq![]
            })
        } by {
        assert(one.after.dom().contains(id) == one.before.dom().contains(id));
        assert(one.after.contains_key(id) == one.before.contains_key(id));
        assert(table::wanted(two.before, second.only, id) == (table::wanted(
            start,
            second.only,
            id,
        ) && !table::wanted(start, first.only, id)));
    }
    assert forall|x: int, y: int| 0 <= x < a.len() && 0 <= y < b.len() implies (
    #[trigger] a[x]).origin_uri != (#[trigger] b[y]).origin_uri by {
        lemma_taken_member(first, one, x);
        lemma_taken_member(second, two, y);
        if a[x].origin_uri == b[y].origin_uri {
            let id = arrived::row_named(a[x].origin_uri);
            assert(table::wanted(start, first.only, id));
            assert(table::wanted(two.before, second.only, id));
            assert(one.after.dom().contains(id));
        }
    }
}

/// A take filtered on a target and the unfiltered one after it split what the
/// unfiltered one alone would have given at the start: the first gives what was
/// sent to the target and the second the rest, both in the order that they
/// would have had.
pub proof fn a_filtered_take_and_the_rest_make_up_a_take(
    events: Seq<Event>,
    i: int,
    j: int,
    filtered: TransportView,
    target: Seq<char>,
    rest: TransportView,
    alone: Call,
)
    requires
        table::history(events),
        0 <= i < j < events.len(),
        rest.only is None,
        filtered.only == Some(target),
        filtered.uri_path == rest.uri_path,
        events[i].does(filtered.taking()),
        events[j].does(rest.taking()),
        quiet(events, i, j),
        alone.is_performed(),
        alone.task == rest.taking(),
        alone.before == events[i].before,
    ensures
        ({
            let start = events[i].before;
            let sent = |id: i64| start[id].target == target;
            let others = |id: i64| start[id].target != target;
            let a = taken_by(events[i].call->0);
            let b = taken_by(events[j].call->0);
            &&& a == taken_by(alone).filter(of_rows(sent))
            &&& b == taken_by(alone).filter(of_rows(others))
            &&& a.len() + b.len() == taken_by(alone).len()
        }),
{
    let start = events[i].before;
    let sent = |id: i64| start[id].target == target;
    let others = |id: i64| start[id].target != target;
    let a = taken_by(events[i].call->0);
    let b = taken_by(events[j].call->0);
    let u = taken_by(alone);
    assert(events[i].is_sound() && events[j].is_sound());
    a_take_gives_the_wanted_rows(filtered, events[i].call->0);
    a_take_gives_the_wanted_rows(rest, events[j].call->0);
    a_take_gives_the_wanted_rows(rest, alone);
    two_takes_share_the_rows(events, i, j, filtered, rest);
    lemma_chosen_rows(u, sent);
    lemma_chosen_rows(u, others);
    assert forall|row: i64| #[trigger] arrived::of_row(a, row) == arrived::of_row(
        u.filter(of_rows(sent)),
        row,
    ) by {
        assert(table::wanted(start, filtered.only, row) == (table::wanted(start, None, row)
            && sent(row)));
        assert(arrived::of_row(u.filter(of_rows(sent)), row) == (if sent(row) {
            arrived::of_row(u, row)
        } else {
            Seq::<ArrivedView>::empty()
        }));
    }
    the_order_is_settled_by_the_rows(a, u.filter(of_rows(sent)));
    assert forall|row: i64| #[trigger] arrived::of_row(b, row) == arrived::of_row(
        u.filter(of_rows(others)),
        row,
    ) by {
        assert(table::wanted(start, filtered.only, row) == (table::wanted(start, None, row)
            && sent(row)));
        assert(others(row) == !sent(row));
        assert(arrived::of_row(u.filter(of_rows(others)), row) == (if others(row) {
            arrived::of_row(u, row)
        } else {
            Seq::<ArrivedView>::empty()
        }));
    }
    the_order_is_settled_by_the_rows(b, u.filter(of_rows(others)));
    lemma_kept_and_left(u, sent, others);
}

/// What one send after the other puts into a file, and the take after them,
/// while nobody else is at the file: the event `at[k]` is the send of `sent[k]`,
/// which is a target and a payload, and the last of `at` is the take.
pub open spec fn sends_and_a_take(
    events: Seq<Event>,
    at: Seq<int>,
    sent: Seq<(Seq<char>, Seq<u8>)>,
    transport: TransportView,
) -> bool {
    &&& table::history(events)
    &&& at.len() == sent.len() + 1
    &&& forall|k: int| 0 <= k < at.len() ==> 0 <= #[trigger] at[k] < events.len()
    &&& forall|k: int, l: int|
        0 <= k < at.len() && l == k + 1 && l < at.len() ==> (#[trigger] at[k]) < (#[trigger] at[l])
            && quiet(events, at[k], at[l])
    &&& forall|k: int|
        0 <= k < sent.len() ==> events[#[trigger] at[k]].does(
            TaskView::Send { target: sent[k].0, payload: sent[k].1 },
        )
    &&& events[at.last()].does(transport.taking())
}

/// The rows that the first `n` sends put in.
proof fn lemma_sent_rows(
    events: Seq<Event>,
    at: Seq<int>,
    sent: Seq<(Seq<char>, Seq<u8>)>,
    transport: TransportView,
    n: int,
) -> (ids: Seq<i64>)
    requires
        sends_and_a_take(events, at, sent, transport),
        0 <= n <= sent.len(),
        nothing_wanted(events[at[0]].before, None),
        forall|k: int|
            0 <= k < sent.len() ==> !events[#[trigger] at[k]].before.contains_key(i64::MAX),
    ensures
        ids.len() == n,
        forall|k: int, l: int| 0 <= k < l < n ==> (#[trigger] ids[k]) < (#[trigger] ids[l]),
        forall|k: int|
            0 <= k < n ==> table::wanted(events[at[n]].before, None, #[trigger] ids[k])
                && events[at[n]].before[ids[k]].payload == sent[k].1,
        forall|id: i64| #[trigger]
            table::wanted(events[at[n]].before, None, id) ==> ids.contains(id),
        events[at[0]].before == Map::<i64, Entry>::empty() ==> {
            &&& forall|k: int| 0 <= k < n ==> #[trigger] ids[k] == k + 1
            &&& forall|id: i64| #[trigger]
                events[at[n]].before.contains_key(id) <==> 1 <= id <= n
        },
    decreases n,
{
    if n == 0 {
        Seq::empty()
    } else {
        let before = events[at[n - 1]].before;
        let fewer = lemma_sent_rows(events, at, sent, transport, n - 1);
        let event = events[at[n - 1]];
        assert(event.is_sound());
        let call = event.call->0;
        let (target, payload) = sent[n - 1];
        let id = choose|id: i64| table::adds(call.effect(), target, payload, id);
        assert(table::adds(call.effect(), target, payload, id));
        lemma_quiet(events, at[n - 1], at[n]);
        let after = events[at[n]].before;
        assert(after == before.insert(id, Entry { target, payload, claimed: 0 }));
        let ids = fewer.push(id);
        assert forall|k: int| 0 <= k < n implies table::wanted(after, None, #[trigger] ids[k])
            && after[ids[k]].payload == sent[k].1 by {
            if k < n - 1 {
                assert(ids[k] == fewer[k]);
                assert(table::wanted(before, None, fewer[k]));
            }
        }
        assert forall|k: int, l: int| 0 <= k < l < n implies (#[trigger] ids[k]) < (
        #[trigger] ids[l]) by {
            assert(ids[k] == fewer[k]);
            if l == n - 1 {
                assert(table::wanted(before, None, fewer[k]));
                assert(before.contains_key(fewer[k]));
            } else {
                assert(ids[l] == fewer[l]);
            }
        }
        assert forall|other: i64| #[trigger] table::wanted(after, None, other) implies ids.contains(
            other,
        ) by {
            if other == id {
                assert(ids[n - 1] == id);
            } else {
                assert(table::wanted(before, None, other));
                let k = choose|k: int| 0 <= k < fewer.len() && fewer[k] == other;
                assert(ids[k] == other);
            }
        }
        if events[at[0]].before == Map::<i64, Entry>::empty() {
            assert(table::comes_next(before, id));
            if n > 1 {
                assert(before.contains_key(fewer[n - 2]));
                assert(before.contains_key((id - 1) as i64));
                assert(fewer[n - 2] == n - 1);
            }
            assert(id == n);
            assert forall|k: int| 0 <= k < n implies #[trigger] ids[k] == k + 1 by {
                if k < n - 1 {
                    assert(ids[k] == fewer[k]);
                }
            }
        }
        ids
    }
}

/// Whether `streams` come from the rows one, two and so on of one file.
pub open spec fn numbered_from_one(uri_path: Seq<char>, streams: Seq<ArrivedView>) -> bool {
    &&& streams.len() <= i64::MAX
    &&& forall|k: int|
        0 <= k < streams.len() ==> (#[trigger] streams[k]).origin_uri == address_of(
            uri_path,
            (k + 1) as i64,
        )
}

/// First in, first out: what is sent to a file without unclaimed rows, by any
/// number of sends to any targets, an unfiltered take gives in the order in
/// which it was sent, byte for byte, one Stream for each send, each with an
/// origin of its own. The rows of a file without any are numbered from one. The
/// largest id there is must not be given out yet when a row is sent.
pub proof fn what_is_sent_first_comes_first(
    events: Seq<Event>,
    at: Seq<int>,
    sent: Seq<(Seq<char>, Seq<u8>)>,
    transport: TransportView,
)
    requires
        sends_and_a_take(events, at, sent, transport),
        transport.only is None,
        nothing_wanted(events[at[0]].before, None),
        forall|k: int|
            0 <= k < sent.len() ==> !events[#[trigger] at[k]].before.contains_key(i64::MAX),
    ensures
        ({
            let taken = taken_by(events[at.last()].call->0);
            &&& events[at.last()].call->0.end == EndView::Ok(OutcomeView::Taken(taken))
            &&& taken.len() == sent.len()
            &&& forall|k: int| 0 <= k < sent.len() ==> (#[trigger] taken[k]).bytes == sent[k].1
            &&& forall|k: int, l: int|
                0 <= k < l < sent.len() ==> (#[trigger] taken[k]).origin_uri != (
                #[trigger] taken[l]).origin_uri
        }),
        events[at[0]].before == Map::<i64, Entry>::empty() ==> numbered_from_one(
            transport.uri_path,
            taken_by(events[at.last()].call->0),
        ),
{
    let n = sent.len() as int;
    let uri_path = transport.uri_path;
    let event = events[at.last()];
    let call = event.call->0;
    let taken = taken_by(call);
    assert(event.is_sound());
    a_take_gives_the_wanted_rows(transport, call);
    let ids = lemma_sent_rows(events, at, sent, transport, n);
    let rows = Seq::new(sent.len(), |k: int| RowView { id: ids[k], payload: sent[k].1 });
    let streams = unordered(uri_path, rows);
    assert forall|k: int| 0 <= k < n implies arrived::row_named(
        (#[trigger] streams[k]).origin_uri,
    ) == ids[k] by {
        lemma_address(uri_path, ids[k]);
    }
    assert(arrived::in_row_order(streams)) by {
        assert forall|i: int, j: int| 0 <= i < j < streams.len() implies arrived::row_named(
            #[trigger] streams[i].origin_uri,
        ) <= arrived::row_named(#[trigger] streams[j].origin_uri) by {
            assert(ids[i] < ids[j]);
        }
    }
    assert forall|i: int, j: int| 0 <= i < j < rows.len() implies (#[trigger] rows[i]).id != (
    #[trigger] rows[j]).id by {
        assert(ids[i] < ids[j]);
    }
    assert forall|row: i64| #[trigger] arrived::of_row(taken, row) == arrived::of_row(
        streams,
        row,
    ) by {
        lemma_of_row_among(uri_path, rows, row);
        lemma_address(uri_path, row);
        if table::wanted(call.before, None, row) {
            assert(ids.contains(row));
            let k = choose|k: int| 0 <= k < ids.len() && ids[k] == row;
            assert(rows[k].id == row);
            assert(table::wanted(call.before, None, ids[k]));
        } else {
            assert forall|k: int| 0 <= k < rows.len() implies (#[trigger] rows[k]).id != row by {
                assert(table::wanted(call.before, None, ids[k]));
            }
        }
    }
    the_order_is_settled_by_the_rows(taken, streams);
    assert forall|k: int, l: int| 0 <= k < l < n implies (#[trigger] taken[k]).origin_uri != (
    #[trigger] taken[l]).origin_uri by {
        assert(ids[k] < ids[l]);
    }
    if events[at[0]].before == Map::<i64, Entry>::empty() {
        if n > 0 {
            assert(ids[n - 1] == n);
        }
        assert forall|k: int| 0 <= k < taken.len() implies (#[trigger] taken[k]).origin_uri
            == address_of(uri_path, (k + 1) as i64) by {
            assert(ids[k] == k + 1);
            lemma_address(uri_path, ids[k]);
        }
    }
}

/// Whether a call ended with Streams taken, of which just one came from the row
/// `id`, and that one with the bytes of `payload`.
pub open spec fn delivers(
    end: EndView,
    uri_path: Seq<char>,
    id: i64,
    payload: Seq<u8>,
) -> bool {
    match end {
        Ok(OutcomeView::Taken(taken)) => arrived::of_row(taken, id) == seq![
            ArrivedView { origin_uri: address_of(uri_path, id), bytes: payload },
        ],
        _ => false,
    }
}

/// A send and the receive after it: where both end well and nobody else is at
/// the file, the receive gives the bytes that were sent, once, from a row that
/// was not there before, whether every row is received or those of the target
/// that was sent to. The row stays, claimed.
pub proof fn a_receive_gives_what_was_sent(
    sender: TransportView,
    receiver: TransportView,
    target: Seq<char>,
    payload: Seq<u8>,
    sending: Run,
    receiving: Run,
)
    requires
        sender.path == receiver.path,
        sending.is_carried_out(),
        receiving.is_carried_out(),
        sending.session == sender.send(target, payload),
        receiving.session == receiver.receive() || receiving.session == receiver.take(),
        receiver.only is None || receiver.only == Some(target),
        sending.end is Ok,
        receiving.end is Ok,
        undisturbed(sending.steps + receiving.steps),
    ensures
        exists|id: i64|
            !sending.steps[0].before.rows.contains_key(id) && table::held(
                receiving.steps.last().after.rows,
                id,
            ) && #[trigger] delivers(receiving.end, receiver.uri_path, id, payload),
{
    let (sent, taken) = lemma_in_turn(sending, receiving);
    let id = choose|id: i64| table::adds(sent.effect(), target, payload, id);
    assert(table::adds(sent.effect(), target, payload, id));
    a_take_gives_the_wanted_rows(receiver, taken);
    assert(table::wanted(taken.before, receiver.only, id));
    assert(arrived::of_row(taken_by(taken), id) == seq![
        stream_of(receiver.uri_path, taken.before, id),
    ]);
    assert(taken.before.dom().contains(id));
    assert(taken.after.dom().contains(id));
    assert(delivers(receiving.end, receiver.uri_path, id, payload));
}

} // verus!
