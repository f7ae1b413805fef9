//! The order in which Streams are handed out.

use vstd::prelude::*;

use crate::arrived::{self, ArrivedView, RowView};
use crate::text;

verus! {

pub proof fn lemma_of_row_pushed(
    arrivals: Seq<ArrivedView>,
    arrived: ArrivedView,
    row: i64,
)
    ensures
        arrived::of_row(arrivals.push(arrived), row) == (
        if arrived::row_named(arrived.origin_uri) == row {
            arrived::of_row(arrivals, row).push(arrived)
        } else {
            arrived::of_row(arrivals, row)
        }),
{
    reveal(Seq::filter);
    assert(arrivals.push(arrived).drop_last() =~= arrivals);
}

proof fn lemma_queued(
    queue: Seq<ArrivedView>,
    arrived: ArrivedView,
)
    requires
        arrived::in_row_order(queue),
    ensures
        arrived::in_row_order(arrived::queued(queue, arrived)),
        arrived::queued(queue, arrived).len() == queue.len() + 1,
        forall|row: i64| #[trigger]
            arrived::of_row(arrived::queued(queue, arrived), row)
                == arrived::of_row(queue.push(arrived), row),
        forall|i: int|
            0 <= i < queue.len() + 1 ==> {
                ||| #[trigger] arrived::queued(queue, arrived)[i] == arrived
                ||| queue.contains(arrived::queued(queue, arrived)[i])
            },
    decreases queue.len(),
{
    let all = arrived::queued(queue, arrived);
    if queue.len() == 0 || arrived::row_named(queue.last().origin_uri)
        <= arrived::row_named(arrived.origin_uri) {
        assert forall|i: int| 0 <= i < all.len() implies #[trigger] all[i] == arrived
            || queue.contains(all[i]) by {
            if i < queue.len() {
                assert(queue[i] == all[i]);
            }
        }
        assert forall|i: int, j: int| 0 <= i < j < all.len() implies arrived::row_named(
            #[trigger] all[i].origin_uri,
        ) <= arrived::row_named(#[trigger] all[j].origin_uri) by {
            assert(all[i] == queue[i]);
            if j == queue.len() {
                if i < queue.len() - 1 {
                    assert(arrived::row_named(queue[i].origin_uri)
                        <= arrived::row_named(queue[queue.len() - 1].origin_uri));
                }
            } else {
                assert(all[j] == queue[j]);
            }
        }
    } else {
        let front = queue.drop_last();
        lemma_queued(front, arrived);
        let rest = arrived::queued(front, arrived);
        assert(all == rest.push(queue.last()));
        assert forall|i: int| 0 <= i < all.len() implies #[trigger] all[i] == arrived
            || queue.contains(all[i]) by {
            if i < rest.len() {
                assert(all[i] == rest[i]);
                if rest[i] != arrived {
                    let k = choose|k: int| 0 <= k < front.len() && front[k] == rest[i];
                    assert(queue[k] == rest[i]);
                }
            } else {
                assert(queue[queue.len() - 1] == all[i]);
            }
        }
        assert forall|i: int, j: int| 0 <= i < j < all.len() implies arrived::row_named(
            #[trigger] all[i].origin_uri,
        ) <= arrived::row_named(#[trigger] all[j].origin_uri) by {
            assert(all[i] == rest[i]);
            if j < rest.len() {
                assert(all[j] == rest[j]);
            } else if rest[i] != arrived {
                let k = choose|k: int| 0 <= k < front.len() && front[k] == rest[i];
                assert(queue[k] == front[k]);
                assert(arrived::row_named(queue[k].origin_uri) <= arrived::row_named(
                    queue[queue.len() - 1].origin_uri,
                ));
            }
        }
        assert forall|row: i64| #[trigger] arrived::of_row(all, row)
            == arrived::of_row(queue.push(arrived), row) by {
            assert(arrived::of_row(rest, row) == arrived::of_row(front.push(arrived), row));
            lemma_of_row_pushed(rest, queue.last(), row);
            lemma_of_row_pushed(front, arrived, row);
            lemma_of_row_pushed(front, queue.last(), row);
            lemma_of_row_pushed(queue, arrived, row);
            assert(front.push(queue.last()) =~= queue);
        }
    }
}

/// The order in which rows are handed out: by the rows they name, lowest first,
/// with every arrival in it, and those of one row in the order they had.
pub proof fn oldest_first_is_a_stable_order(arrivals: Seq<ArrivedView>)
    ensures
        arrived::in_row_order(arrived::oldest_first(arrivals)),
        arrived::oldest_first(arrivals).len() == arrivals.len(),
        forall|row: i64| #[trigger]
            arrived::of_row(arrived::oldest_first(arrivals), row)
                == arrived::of_row(arrivals, row),
    decreases arrivals.len(),
{
    if arrivals.len() > 0 {
        let front = arrivals.drop_last();
        oldest_first_is_a_stable_order(front);
        let sorted = arrived::oldest_first(front);
        lemma_queued(sorted, arrivals.last());
        assert forall|row: i64| #[trigger]
            arrived::of_row(arrived::oldest_first(arrivals), row)
                == arrived::of_row(arrivals, row) by {
            lemma_of_row_pushed(sorted, arrivals.last(), row);
            lemma_of_row_pushed(front, arrivals.last(), row);
            assert(front.push(arrivals.last()) =~= arrivals);
            assert(arrived::of_row(sorted, row) == arrived::of_row(front, row));
        }
    }
}

/// What becomes of the rows that the engine hands back, in whatever order: each
/// gives one Stream, with its own id in decimal behind the `origin` and with its
/// own bytes, and the Streams come by the rows that they name, lowest first.
pub proof fn rows_become_streams_oldest_first(origin: Seq<char>, rows: Seq<RowView>)
    ensures
        ({
            let streams = Seq::new(
                rows.len(),
                |i: int|
                    ArrivedView {
                        origin_uri: origin + text::decimal(rows[i].id as int),
                        bytes: rows[i].payload,
                    },
            );
            let arrivals = arrived::arrivals_of(origin, rows);
            &&& arrivals.len() == rows.len()
            &&& arrived::in_row_order(arrivals)
            &&& forall|row: i64| #[trigger]
                arrived::of_row(arrivals, row) == arrived::of_row(streams, row)
        }),
{
    let streams = Seq::new(
        rows.len(),
        |i: int|
            ArrivedView {
                origin_uri: origin + text::decimal(rows[i].id as int),
                bytes: rows[i].payload,
            },
    );
    assert(rows.map_values(|row: RowView| arrived::arrival(origin, row)) =~= streams);
    oldest_first_is_a_stable_order(streams);
}

/// Whether `row` is named by an arrival shows in what there is of it.
pub proof fn lemma_of_row_member(arrivals: Seq<ArrivedView>, i: int)
    requires
        0 <= i < arrivals.len(),
    ensures
        arrived::of_row(arrivals, arrived::row_named(arrivals[i].origin_uri)).contains(arrivals[i]),
{
    let row = arrived::row_named(arrivals[i].origin_uri);
    let names = |arrived: ArrivedView| arrived::row_named(arrived.origin_uri) == row;
    arrivals.lemma_filter_contains(names, i);
}

proof fn lemma_last_row(a: Seq<ArrivedView>, b: Seq<ArrivedView>)
    requires
        a.len() > 0,
        arrived::in_row_order(b),
        forall|row: i64| #[trigger] arrived::of_row(a, row) == arrived::of_row(b, row),
    ensures
        b.len() > 0,
        arrived::row_named(a.last().origin_uri) <= arrived::row_named(b.last().origin_uri),
{
    let row = arrived::row_named(a.last().origin_uri);
    lemma_of_row_member(a, a.len() - 1);
    let found = arrived::of_row(b, row);
    assert(found.contains(a.last()));
    let k = choose|k: int| 0 <= k < found.len() && found[k] == a.last();
    lemma_of_row_found(b, row, k);
    let i = choose|i: int| 0 <= i < b.len() && b[i] == found[k];
    if i < b.len() - 1 {
        assert(arrived::row_named(b[i].origin_uri) <= arrived::row_named(
            b[b.len() - 1].origin_uri,
        ));
    }
}

/// What there is of a row is among the arrivals, and names the row.
pub proof fn lemma_of_row_found(arrivals: Seq<ArrivedView>, row: i64, k: int)
    requires
        0 <= k < arrived::of_row(arrivals, row).len(),
    ensures
        arrivals.contains(arrived::of_row(arrivals, row)[k]),
        arrived::row_named(arrived::of_row(arrivals, row)[k].origin_uri) == row,
    decreases arrivals.len(),
{
    let found = arrived::of_row(arrivals, row);
    if arrivals.len() == 0 {
        reveal(Seq::filter);
    } else {
        let front = arrivals.drop_last();
        assert(front.push(arrivals.last()) =~= arrivals);
        lemma_of_row_pushed(front, arrivals.last(), row);
        if k < arrived::of_row(front, row).len() {
            lemma_of_row_found(front, row, k);
            let i = choose|i: int| 0 <= i < front.len() && front[i] == found[k];
            assert(arrivals[i] == found[k]);
        } else {
            assert(arrivals[arrivals.len() - 1] == found[k]);
        }
    }
}

/// There is one such order: arrivals that stand in the order of their rows are
/// the same where they hold the same of every row.
pub proof fn the_order_is_settled_by_the_rows(a: Seq<ArrivedView>, b: Seq<ArrivedView>)
    requires
        arrived::in_row_order(a),
        arrived::in_row_order(b),
        forall|row: i64| #[trigger] arrived::of_row(a, row) == arrived::of_row(b, row),
    ensures
        a == b,
    decreases a.len(),
{
    if a.len() > 0 {
        lemma_last_row(a, b);
        assert forall|row: i64| #[trigger] arrived::of_row(b, row) == arrived::of_row(a, row) by {
            assert(arrived::of_row(a, row) == arrived::of_row(b, row));
        }
        lemma_last_row(b, a);
        let front_a = a.drop_last();
        let front_b = b.drop_last();
        assert(front_a.push(a.last()) =~= a);
        assert(front_b.push(b.last()) =~= b);
        let last = arrived::row_named(a.last().origin_uri);
        lemma_of_row_pushed(front_a, a.last(), last);
        lemma_of_row_pushed(front_b, b.last(), last);
        assert(arrived::of_row(a, last) == arrived::of_row(b, last));
        assert(arrived::of_row(a, last).last() == a.last());
        assert(arrived::of_row(b, last).last() == b.last());
        assert forall|row: i64| #[trigger] arrived::of_row(front_a, row) == arrived::of_row(
            front_b,
            row,
        ) by {
            lemma_of_row_pushed(front_a, a.last(), row);
            lemma_of_row_pushed(front_b, b.last(), row);
            assert(arrived::of_row(a, row) == arrived::of_row(b, row));
            if row == last {
                assert(arrived::of_row(a, row).drop_last() =~= arrived::of_row(front_a, row));
                assert(arrived::of_row(b, row).drop_last() =~= arrived::of_row(front_b, row));
            }
        }
        lemma_order_front(a);
        lemma_order_front(b);
        the_order_is_settled_by_the_rows(front_a, front_b);
    } else if b.len() > 0 {
        assert forall|row: i64| #[trigger] arrived::of_row(b, row) == arrived::of_row(a, row) by {
            assert(arrived::of_row(a, row) == arrived::of_row(b, row));
        }
        lemma_last_row(b, a);
    }
}

proof fn lemma_order_front(a: Seq<ArrivedView>)
    requires
        arrived::in_row_order(a),
        a.len() > 0,
    ensures
        arrived::in_row_order(a.drop_last()),
{
    let front = a.drop_last();
    assert forall|i: int, j: int| 0 <= i < j < front.len() implies arrived::row_named(
        #[trigger] front[i].origin_uri,
    ) <= arrived::row_named(#[trigger] front[j].origin_uri) by {
        assert(a[i] == front[i] && a[j] == front[j]);
    }
}

/// Whether an arrival is of a row of which `chosen` holds.
pub open spec fn of_rows(chosen: spec_fn(i64) -> bool) -> spec_fn(ArrivedView) -> bool {
    |arrived: ArrivedView| chosen(arrived::row_named(arrived.origin_uri))
}

/// Leaving out rows leaves the order, and what there is of the other rows.
pub proof fn lemma_chosen_rows(a: Seq<ArrivedView>, chosen: spec_fn(i64) -> bool)
    requires
        arrived::in_row_order(a),
    ensures
        arrived::in_row_order(a.filter(of_rows(chosen))),
        forall|row: i64| #[trigger]
            arrived::of_row(a.filter(of_rows(chosen)), row) == (if chosen(row) {
                arrived::of_row(a, row)
            } else {
                Seq::<ArrivedView>::empty()
            }),
        forall|i: int|
            0 <= i < a.filter(of_rows(chosen)).len() ==> a.contains(
                #[trigger] a.filter(of_rows(chosen))[i],
            ),
    decreases a.len(),
{
    let kept = a.filter(of_rows(chosen));
    reveal(Seq::filter);
    if a.len() > 0 {
        let front = a.drop_last();
        let last = a.last();
        lemma_order_front(a);
        lemma_chosen_rows(front, chosen);
        let kept_front = front.filter(of_rows(chosen));
        assert(front.push(last) =~= a);
        assert forall|i: int| 0 <= i < kept.len() implies a.contains(#[trigger] kept[i]) by {
            if i < kept_front.len() {
                assert(kept[i] == kept_front[i]);
                let k = choose|k: int| 0 <= k < front.len() && front[k] == kept_front[i];
                assert(a[k] == kept[i]);
            } else {
                assert(a[a.len() - 1] == kept[i]);
            }
        }
        if chosen(arrived::row_named(last.origin_uri)) {
            assert(kept == kept_front.push(last));
            assert forall|i: int, j: int| 0 <= i < j < kept.len() implies arrived::row_named(
                #[trigger] kept[i].origin_uri,
            ) <= arrived::row_named(#[trigger] kept[j].origin_uri) by {
                assert(kept[i] == kept_front[i]);
                if j < kept_front.len() {
                    assert(kept[j] == kept_front[j]);
                } else {
                    assert(front.contains(kept_front[i]));
                    let k = choose|k: int| 0 <= k < front.len() && front[k] == kept_front[i];
                    assert(a[k] == kept[i]);
                    assert(arrived::row_named(a[k].origin_uri) <= arrived::row_named(
                        a[a.len() - 1].origin_uri,
                    ));
                }
            }
        }
        assert forall|row: i64| #[trigger]
            arrived::of_row(kept, row) == (if chosen(row) {
                arrived::of_row(a, row)
            } else {
                Seq::<ArrivedView>::empty()
            }) by {
            lemma_of_row_pushed(front, last, row);
            lemma_of_row_pushed(kept_front, last, row);
            assert(arrived::of_row(kept_front, row) == (if chosen(row) {
                arrived::of_row(front, row)
            } else {
                Seq::<ArrivedView>::empty()
            }));
        }
    } else {
        assert forall|row: i64| #[trigger]
            arrived::of_row(kept, row) == Seq::<ArrivedView>::empty() by {
            assert(kept =~= Seq::<ArrivedView>::empty());
        }
    }
}

/// What is left out and what is kept make up the whole.
pub proof fn lemma_kept_and_left(
    a: Seq<ArrivedView>,
    kept: spec_fn(i64) -> bool,
    left: spec_fn(i64) -> bool,
)
    requires
        forall|row: i64| #[trigger] kept(row) == !left(row),
    ensures
        a.filter(of_rows(kept)).len() + a.filter(of_rows(left)).len() == a.len(),
    decreases a.len(),
{
    reveal(Seq::filter);
    if a.len() > 0 {
        lemma_kept_and_left(a.drop_last(), kept, left);
        let row = arrived::row_named(a.last().origin_uri);
        assert(kept(row) == !left(row));
    }
}

} // verus!
