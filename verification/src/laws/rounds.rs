//! The rounds of a loopback.

use vstd::prelude::*;

use crate::arrived::{self, ArrivedView};
use crate::laws::calls::{lemma_alone, lemma_in_turn, undisturbed};
use crate::laws::rows::{
    a_filtered_take_leaves_the_rest, a_take_gives_the_wanted_rows, lemma_taken_member, stream_of,
    taken_by,
};
use crate::laws::order::lemma_of_row_found;
use crate::laws::starts::{address_of, lemma_address};
use crate::laws::takes::{a_take_of_nothing_changes_nothing, nothing_wanted};
use crate::place;
use crate::session::{EndView, OutcomeView};
use crate::table::{self, Run};
use crate::text;
use crate::transport::{self, TransportView};

verus! {

/// Every round of a loopback has a target of its own.
pub proof fn rounds_have_their_own_targets(a: u64, b: u64)
    requires
        a != b,
    ensures
        transport::round_name(a) != transport::round_name(b),
{
    let prefix = "round-"@;
    let x = text::decimal(a as int);
    let y = text::decimal(b as int);
    assert((prefix + x).skip(prefix.len() as int) =~= x);
    assert((prefix + y).skip(prefix.len() as int) =~= y);
    text::lemma_decimal_nat(a as nat);
    text::lemma_decimal_nat(b as nat);
}

/// A round is addressed by its number, and the next round has the next number,
/// until the numbers start over.
pub proof fn a_round_is_addressed_by_its_number(round: u64)
    ensures
        transport::round_name(round) == "round-"@ + text::decimal(round as int),
        round < u64::MAX ==> transport::round_after(round) == round + 1,
        round == u64::MAX ==> transport::round_after(round) == 0,
{
}

/// A thread's file is named by the thread, and lies directly under the root: the
/// name stands behind the root, with a separator between them or none.
pub proof fn a_threads_file_is_named_by_the_thread(
    root: Seq<char>,
    thread: Seq<char>,
    file: Seq<char>,
)
    requires
        is_shown_plainly(thread),
        !starts_in_two_separators(root),
        transport::is_thread_file(root, thread, file),
    ensures
        ({
            let name = "t"@ + thread + ".sqlite"@;
            ||| file == root + name
            ||| file == root + seq!['/'] + name
            ||| file == root + seq!['\\'] + name
        }),
        root.len() == 0 || root.last() == '/' ==> file == root + ("t"@ + thread + ".sqlite"@),
{
    lemma_plain_name(thread);
}

/// Whether the shown id of a thread holds neither a separator of any platform nor
/// a colon.
pub open spec fn is_shown_plainly(thread: Seq<char>) -> bool {
    !thread.contains('/') && !thread.contains('\\') && !thread.contains(':')
}

/// Whether `root` starts with two separators, of whichever platform.
pub open spec fn starts_in_two_separators(root: Seq<char>) -> bool {
    root.len() > 1 && (root[0] == '/' || root[0] == '\\') && (root[1] == '/' || root[1] == '\\')
}

proof fn lemma_plain_name(thread: Seq<char>)
    requires
        is_shown_plainly(thread),
    ensures
        place::is_plain(transport::thread_name(thread)),
{
    reveal_strlit("t");
    reveal_strlit(".sqlite");
    let name = transport::thread_name(thread);
    let n = thread.len() as int;
    assert forall|i: int| 0 <= i < name.len() implies !place::is_separator(#[trigger] name[i])
        && name[i] != ':' by {
        if 0 < i <= n {
            assert(name[i] == thread[i - 1]);
            assert(thread.contains(thread[i - 1]));
        } else if i > n {
            assert(name[i] == ".sqlite"@[i - n - 1]);
        }
    }
}

/// Every thread has a file of its own: two threads differ in the names of their
/// files, and so in the files under one root.
pub proof fn threads_have_their_own_files(
    root: Seq<char>,
    a: Seq<char>,
    b: Seq<char>,
    file_a: Seq<char>,
    file_b: Seq<char>,
)
    requires
        a != b,
        is_shown_plainly(a),
        is_shown_plainly(b),
        !starts_in_two_separators(root),
        transport::is_thread_file(root, a, file_a),
        transport::is_thread_file(root, b, file_b),
    ensures
        transport::thread_name(a) != transport::thread_name(b),
        place::joined(root, transport::thread_name(a)) != place::joined(
            root,
            transport::thread_name(b),
        ),
        file_a != file_b,
{
    reveal_strlit("t");
    reveal_strlit(".sqlite");
    lemma_plain_name(a);
    lemma_plain_name(b);
    let x = transport::thread_name(a);
    let y = transport::thread_name(b);
    assert(x.subrange(1, x.len() - 7) =~= a);
    assert(y.subrange(1, y.len() - 7) =~= b);
    let n = root.len() as int;
    assert(place::joined(root, x).skip(n + 1) =~= x);
    assert(place::joined(root, y).skip(n + 1) =~= y);
    assert((root + seq!['\\'] + x).skip(n + 1) =~= x);
    assert((root + seq!['\\'] + y).skip(n + 1) =~= y);
    assert((root + x).skip(n) =~= x);
    assert((root + y).skip(n) =~= y);
    // Behind the root stands a separator, or the letter that names start with.
    assert((root + x)[n] == 't' && (root + y)[n] == 't');
    assert(place::joined(root, x)[n] == '/' && place::joined(root, y)[n] == '/');
    assert((root + seq!['\\'] + x)[n] == '\\' && (root + seq!['\\'] + y)[n] == '\\');
}

/// A thread's file lies in the loopback's directory, where the two are parted by
/// a slash: that is the directory that is made before the file is opened.
pub proof fn a_threads_file_lies_in_the_root(
    root: Seq<char>,
    thread: Seq<char>,
    queue: TransportView,
)
    requires
        place::ends_in_part(root),
        is_shown_plainly(thread),
        queue.is_placed(),
        queue.path == place::joined(root, transport::thread_name(thread)),
    ensures
        queue.directory == Some(root),
{
    lemma_plain_name(thread);
}

/// Whether `rounds` are numbers of rounds that were begun one after the other.
pub open spec fn begun_in_turn(rounds: Seq<u64>) -> bool {
    forall|i: int, j: int|
        0 <= i < rounds.len() && j == i + 1 && j < rounds.len() ==> #[trigger] rounds[j]
            == transport::round_after(#[trigger] rounds[i])
}

proof fn lemma_round_numbers(rounds: Seq<u64>, i: int, j: int)
    requires
        begun_in_turn(rounds),
        0 <= i <= j < rounds.len(),
        rounds.len() <= u64::MAX + 1,
    ensures
        rounds[j] == if rounds[i] + (j - i) <= u64::MAX {
            rounds[i] + (j - i)
        } else {
            rounds[i] + (j - i) - u64::MAX - 1
        },
    decreases j - i,
{
    if i < j {
        lemma_round_numbers(rounds, i, j - 1);
        assert(rounds[j] == transport::round_after(rounds[j - 1]));
    }
}

/// No two rounds of one count share a target, as long as there are no more
/// rounds than numbers; and the numbers go up until they start over.
pub proof fn no_two_rounds_share_a_target(rounds: Seq<u64>, i: int, j: int)
    requires
        begun_in_turn(rounds),
        rounds.len() <= u64::MAX + 1,
        0 <= i < j < rounds.len(),
    ensures
        transport::round_name(rounds[i]) != transport::round_name(rounds[j]),
        rounds[i] + (j - i) <= u64::MAX ==> rounds[i] < rounds[j],
{
    lemma_round_numbers(rounds, i, j);
    rounds_have_their_own_targets(rounds[i], rounds[j]);
}

/// Whether `far` takes what is addressed to `round`.
pub open spec fn is_far_end(far: TransportView, round: u64) -> bool {
    far.only == Some(transport::round_name(round))
}

/// A round gives back what was sent into it, whole: where the send to the
/// round's target and the far end's receive both end well, nobody else is at the
/// file, and nothing addressed to that round was left there before, the far end
/// takes one Stream, with the bytes that were sent, from a row of its own.
pub proof fn a_round_gives_back_what_was_sent(
    near: TransportView,
    far: TransportView,
    round: u64,
    payload: Seq<u8>,
    sending: Run,
    receiving: Run,
)
    requires
        is_far_end(far, round),
        near.path == far.path,
        sending.is_carried_out(),
        receiving.is_carried_out(),
        sending.session == near.send(transport::round_name(round), payload),
        receiving.session == far.receive(),
        sending.end is Ok,
        receiving.end is Ok,
        undisturbed(sending.steps + receiving.steps),
        nothing_wanted(sending.steps[0].before.rows, far.only),
    ensures
        exists|id: i64|
            !sending.steps[0].before.rows.contains_key(id) && receiving.end == EndView::Ok(
                OutcomeView::Taken(
                    seq![
                        ArrivedView {
                            origin_uri: #[trigger] address_of(far.uri_path, id),
                            bytes: payload,
                        },
                    ],
                ),
            ),
{
    let target = transport::round_name(round);
    let (sent, taken) = lemma_in_turn(sending, receiving);
    let id = choose|id: i64| table::adds(sent.effect(), target, payload, id);
    assert(table::adds(sent.effect(), target, payload, id));
    a_take_gives_the_wanted_rows(far, taken);
    let streams = taken_by(taken);
    let stream = stream_of(far.uri_path, taken.before, id);
    assert(table::wanted(taken.before, far.only, id));
    assert forall|other: i64| #[trigger] table::wanted(taken.before, far.only, other) implies other
        == id by {
        assert(!table::wanted(sent.before, far.only, other));
    }
    let only = seq![stream];
    assert(arrived::of_row(streams, id) == only);
    lemma_of_row_found(streams, id, 0);
    assert forall|y: int| 0 <= y < streams.len() implies #[trigger] streams[y] == stream by {
        lemma_taken_member(far, taken, y);
    }
    assert(streams.len() == 1) by {
        lemma_address(far.uri_path, id);
        lemma_all_of_row(streams, id);
    }
    assert(streams =~= only);
    assert(stream.origin_uri == address_of(far.uri_path, id));
}

proof fn lemma_all_of_row(streams: Seq<ArrivedView>, id: i64)
    requires
        forall|y: int|
            0 <= y < streams.len() ==> arrived::row_named((#[trigger] streams[y]).origin_uri) == id,
    ensures
        arrived::of_row(streams, id) == streams,
    decreases streams.len(),
{
    reveal(Seq::filter);
    if streams.len() > 0 {
        let front = streams.drop_last();
        assert forall|y: int| 0 <= y < front.len() implies arrived::row_named(
            (#[trigger] front[y]).origin_uri,
        ) == id by {
            assert(front[y] == streams[y]);
        }
        lemma_all_of_row(front, id);
        assert(arrived::row_named(streams[streams.len() - 1].origin_uri) == id);
        assert(front.push(streams.last()) =~= streams);
    }
}

/// A round takes nothing of another: the row of a round that failed after its
/// send is left as it is by every other round. Where nothing was sent to a
/// round, its far end takes nothing and changes nothing.
pub proof fn a_round_takes_nothing_of_another(
    far: TransportView,
    round: u64,
    other: u64,
    receiving: Run,
    id: i64,
)
    requires
        is_far_end(far, round),
        round != other,
        receiving.is_carried_out(),
        receiving.session == far.receive(),
        receiving.end is Ok,
        undisturbed(receiving.steps),
        table::wanted(receiving.steps[0].before.rows, Some(transport::round_name(other)), id),
    ensures
        table::wanted(receiving.steps.last().after.rows, Some(transport::round_name(other)), id),
        receiving.end matches Ok(OutcomeView::Taken(taken)) && arrived::of_row(taken, id).len()
            == 0,
        nothing_wanted(receiving.steps[0].before.rows, far.only) ==> receiving.end == EndView::Ok(
            OutcomeView::Taken(seq![]),
        ) && receiving.steps.last().after.rows == receiving.steps[0].before.rows,
{
    let taken = lemma_alone(receiving);
    rounds_have_their_own_targets(round, other);
    a_take_gives_the_wanted_rows(far, taken);
    a_filtered_take_leaves_the_rest(far, taken, id);
    if nothing_wanted(taken.before, far.only) {
        a_take_of_nothing_changes_nothing(far, taken);
    }
}

} // verus!
