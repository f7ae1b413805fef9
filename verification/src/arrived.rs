//! What arrives: one Stream per row, with the origin that names the row, and
//! the order in which rows are handed out.

use vstd::prelude::*;

use crate::text::{self, parse_number, rsplit_at_mark, to_decimal};

verus! {

/// A row as the engine hands it back.
#[derive(Clone, Debug)]
pub struct Row {
    pub id: i64,
    pub payload: Vec<u8>,
}

/// A [`Row`] as contracts speak of it.
pub struct RowView {
    pub id: i64,
    pub payload: Seq<u8>,
}

impl View for Row {
    type V = RowView;

    open spec fn view(&self) -> RowView {
        RowView { id: self.id, payload: self.payload@ }
    }
}

/// The rows of a vector, as contracts speak of them.
pub open spec fn rows_view(rows: Seq<Row>) -> Seq<RowView> {
    rows.map_values(|row: Row| row@)
}

/// One Stream that came in.
#[derive(Clone, Debug)]
pub struct Arrived {
    /// Names the row that it came from.
    pub origin_uri: String,
    pub bytes: Vec<u8>,
}

/// An [`Arrived`] as contracts speak of it.
pub struct ArrivedView {
    pub origin_uri: Seq<char>,
    pub bytes: Seq<u8>,
}

impl View for Arrived {
    type V = ArrivedView;

    open spec fn view(&self) -> ArrivedView {
        ArrivedView { origin_uri: self.origin_uri@, bytes: self.bytes@ }
    }
}

/// The arrivals of a vector, as contracts speak of them.
pub open spec fn arrivals_view(arrivals: Seq<Arrived>) -> Seq<ArrivedView> {
    arrivals.map_values(|arrived: Arrived| arrived@)
}

/// A row and a Stream are seen whole, alone and among others.
pub proof fn rows_and_streams_are_seen_whole(rows: Seq<Row>, arrivals: Seq<Arrived>, i: int)
    ensures
        rows_view(rows).len() == rows.len(),
        0 <= i < rows.len() ==> rows_view(rows)[i] == (RowView {
            id: rows[i].id,
            payload: rows[i].payload@,
        }),
        arrivals_view(arrivals).len() == arrivals.len(),
        0 <= i < arrivals.len() ==> arrivals_view(arrivals)[i] == (ArrivedView {
            origin_uri: arrivals[i].origin_uri@,
            bytes: arrivals[i].bytes@,
        }),
{
}

/// The row that an origin names, or zero where it names none.
pub open spec fn row_named(origin: Seq<char>) -> i64 {
    match text::split_at_mark(origin) {
        Some((_, id)) => match text::number(id) {
            Some(row) => row,
            None => 0,
        },
        None => 0,
    }
}

/// The row an origin names, or zero where it names none.
pub fn row_of(origin: &str) -> (row: i64)
    ensures
        row == row_named(origin@),
{
    match rsplit_at_mark(origin) {
        Some((_, id)) => match parse_number(id) {
            Some(row) => row,
            None => 0,
        },
        None => 0,
    }
}

/// The Stream that `row` carries, where `origin` is what the origins of its
/// file share.
pub open spec fn arrival(origin: Seq<char>, row: RowView) -> ArrivedView {
    ArrivedView { origin_uri: origin + text::decimal(row.id as int), bytes: row.payload }
}

/// `arrived` put behind everything in `queue` that is not of a later row.
pub open spec fn queued(queue: Seq<ArrivedView>, arrived: ArrivedView) -> Seq<ArrivedView>
    decreases queue.len(),
{
    if queue.len() == 0 || row_named(queue.last().origin_uri) <= row_named(arrived.origin_uri) {
        queue.push(arrived)
    } else {
        queued(queue.drop_last(), arrived).push(queue.last())
    }
}

/// `arrivals` by the rows that they name, lowest first; those that name the
/// same row keep the order they have.
pub open spec fn oldest_first(arrivals: Seq<ArrivedView>) -> Seq<ArrivedView>
    decreases arrivals.len(),
{
    if arrivals.len() == 0 {
        arrivals
    } else {
        queued(oldest_first(arrivals.drop_last()), arrivals.last())
    }
}

/// The Streams that `rows` carry, oldest first.
pub open spec fn arrivals_of(origin: Seq<char>, rows: Seq<RowView>) -> Seq<ArrivedView> {
    oldest_first(rows.map_values(|row: RowView| arrival(origin, row)))
}

/// Whether no arrival stands behind one of a later row.
pub open spec fn in_row_order(arrivals: Seq<ArrivedView>) -> bool {
    forall|i: int, j: int|
        0 <= i < j < arrivals.len() ==> row_named(#[trigger] arrivals[i].origin_uri) <= row_named(
            #[trigger] arrivals[j].origin_uri,
        )
}

/// Those of `arrivals` that name `row`, in the order in which they stand.
pub open spec fn of_row(arrivals: Seq<ArrivedView>, row: i64) -> Seq<ArrivedView> {
    arrivals.filter(|arrived: ArrivedView| row_named(arrived.origin_uri) == row)
}

/// Where `arrived` goes is settled by the last place in `queue` that is not of
/// a later row.
proof fn lemma_queued_at(queue: Seq<ArrivedView>, arrived: ArrivedView, at: int)
    requires
        0 <= at <= queue.len(),
        at > 0 ==> row_named(queue[at - 1].origin_uri) <= row_named(arrived.origin_uri),
        forall|k: int|
            at <= k < queue.len() ==> row_named(arrived.origin_uri) < row_named(
                #[trigger] queue[k].origin_uri,
            ),
    ensures
        queued(queue, arrived) == queue.insert(at, arrived),
    decreases queue.len(),
{
    if at == queue.len() {
        assert(queue.insert(at, arrived) =~= queue.push(arrived));
    } else {
        assert(row_named(queue[queue.len() - 1].origin_uri) > row_named(arrived.origin_uri));
        lemma_queued_at(queue.drop_last(), arrived, at);
        assert(queue.insert(at, arrived) =~= queue.drop_last().insert(at, arrived).push(
            queue.last(),
        ));
    }
}

/// Put `arrived` behind everything in `queue` that is not of a later row.
/// `named` holds the rows that `queue` names. The search starts from the back:
/// rows mostly come in order.
fn enqueue(queue: &mut Vec<Arrived>, named: &mut Vec<i64>, arrived: Arrived)
    requires
        old(named).len() == old(queue).len(),
        forall|k: int|
            0 <= k < old(queue).len() ==> #[trigger] old(named)@[k] == row_named(
                old(queue)@[k].origin_uri@,
            ),
    ensures
        arrivals_view(final(queue)@) == queued(arrivals_view(old(queue)@), arrived@),
        final(named).len() == final(queue).len(),
        forall|k: int|
            0 <= k < final(queue).len() ==> #[trigger] final(named)@[k] == row_named(
                final(queue)@[k].origin_uri@,
            ),
{
    let row: i64 = row_of(arrived.origin_uri.as_str());
    let mut at: usize = queue.len();
    while at > 0 && row < named[at - 1]
        invariant
            at <= queue.len(),
            named.len() == queue.len(),
            forall|k: int| at <= k < queue.len() ==> row < #[trigger] named@[k],
        decreases at,
    {
        at = at - 1;
    }
    proof {
        let view = arrivals_view(queue@);
        if at > 0 {
            assert(named@[at - 1] == row_named(queue@[at - 1].origin_uri@));
        }
        assert forall|k: int| at <= k < view.len() implies row_named(arrived@.origin_uri)
            < row_named(#[trigger] view[k].origin_uri) by {
            assert(row < named@[k]);
        }
        lemma_queued_at(view, arrived@, at as int);
        assert(arrivals_view(queue@.insert(at as int, arrived)) =~= view.insert(
            at as int,
            arrived@,
        ));
    }
    queue.insert(at, arrived);
    named.insert(at, row);
}

/// The Streams that `rows` carry, oldest first: rows are handed back in no
/// promised order, and the queue has one.
pub fn arrivals(origin: &str, rows: Vec<Row>) -> (arrived: Vec<Arrived>)
    ensures
        arrivals_view(arrived@) == arrivals_of(origin@, rows_view(rows@)),
{
    let ghost all = rows_view(rows@).map_values(|row: RowView| arrival(origin@, row));
    let mut queue: Vec<Arrived> = Vec::new();
    let mut named: Vec<i64> = Vec::new();
    assert(arrivals_view(queue@) =~= all.take(0));
    for row in it: rows
        invariant
            it.seq() == rows@,
            all == rows_view(rows@).map_values(|row: RowView| arrival(origin@, row)),
            arrivals_view(queue@) == oldest_first(all.take(it.index() as int)),
            named.len() == queue.len(),
            forall|k: int|
                0 <= k < queue.len() ==> #[trigger] named@[k] == row_named(queue@[k].origin_uri@),
    {
        let origin_uri = origin.to_owned().concat(to_decimal(row.id).as_str());
        proof {
            let n = it.index() as int;
            assert(all.take(n + 1).drop_last() =~= all.take(n));
            assert(all.take(n + 1).last() == arrival(origin@, row@));
        }
        enqueue(&mut queue, &mut named, Arrived { origin_uri, bytes: row.payload });
    }
    assert(all.take(all.len() as int) =~= all);
    queue
}

} // verus!
