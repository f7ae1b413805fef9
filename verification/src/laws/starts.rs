//! How a row is addressed, and how a call starts.

use vstd::prelude::*;

use crate::arrived;
use crate::claim::{self, Named, RowClaimView};
use crate::error::ErrorView;
use crate::place;
use crate::session::{AnswerView, OutcomeView, SessionView, StageView, TaskView, TurnView, WorkView};
use crate::statement::StatementView;
use crate::text;
use crate::transport::{self, TransportView};

verus! {

/// The address of a row: the URI of its file, and its id in decimal.
pub open spec fn address_of(uri_path: Seq<char>, id: i64) -> Seq<char> {
    "sqlite://"@ + uri_path + "?row="@ + text::decimal(id as int)
}

/// A row's origin names that row, and the claim over its file finds it there.
pub proof fn an_origin_names_its_row(claim: RowClaimView, id: i64)
    ensures
        arrived::row_named(address_of(claim.uri_path, id)) == id,
        claim.row_of(address_of(claim.uri_path, id)) == Named::Ok(id),
{
    lemma_address(claim.uri_path, id);
}

/// The address of a row is split into its file and its row.
pub proof fn lemma_address(uri_path: Seq<char>, id: i64)
    ensures
        text::split_at_mark(address_of(uri_path, id)) == Some(
            (claim::file_uri(uri_path), text::decimal(id as int)),
        ),
        text::number(text::decimal(id as int)) == Some(id),
        arrived::row_named(address_of(uri_path, id)) == id,
        transport::origin_of(uri_path) + text::decimal(id as int) == address_of(uri_path, id),
{
    lemma_origin(uri_path);
    text::lemma_decimal_is_plain(id as int);
    text::lemma_split_joined(claim::file_uri(uri_path), text::decimal(id as int));
    text::decimal_is_read_back(id);
}

/// What the origins of one file share is the URI of the file and the mark.
pub proof fn lemma_origin(uri_path: Seq<char>)
    ensures
        transport::origin_of(uri_path) == "sqlite://"@ + uri_path + "?row="@,
{
    reveal_strlit("?row=");
    assert("?row="@ =~= text::row_mark());
}

/// No two rows share an origin: neither two of one file, nor two of different
/// files.
pub proof fn rows_have_their_own_origins(a: Seq<char>, i: i64, b: Seq<char>, j: i64)
    requires
        a != b || i != j,
    ensures
        address_of(a, i) != address_of(b, j),
{
    lemma_address(a, i);
    lemma_address(b, j);
    if address_of(a, i) == address_of(b, j) {
        lemma_file_uri(a, b);
    }
}

proof fn lemma_file_uri(a: Seq<char>, b: Seq<char>)
    requires
        a != b,
    ensures
        claim::file_uri(a) != claim::file_uri(b),
{
    let scheme = "sqlite://"@;
    assert((scheme + a).skip(scheme.len() as int) =~= a);
    assert((scheme + b).skip(scheme.len() as int) =~= b);
}

/// A row id means nothing outside the file that issued it: the claim over one
/// file refuses every row of another.
pub proof fn a_row_of_another_file_is_refused(claim: RowClaimView, other: Seq<char>, id: i64)
    requires
        other != claim.uri_path,
    ensures
        claim.row_of(address_of(other, id)) == Named::Err(
            claim::names_another_file(address_of(other, id), claim.path),
        ),
{
    lemma_address(other, id);
    lemma_file_uri(other, claim.uri_path);
}

/// What an address names: the number behind its last mark, where the rest is the
/// URI of the file. One of another file is refused, and so is one that ends in no
/// number; neither refusal is worth a second try.
pub proof fn an_address_names_the_number_behind_its_last_mark(
    claim: RowClaimView,
    file: Seq<char>,
    row: Seq<char>,
)
    requires
        !text::holds_mark(row),
    ensures
        ({
            let address = file + "?row="@ + row;
            claim.row_of(address) == (if file != "sqlite://"@ + claim.uri_path {
                Named::Err(
                    ErrorView {
                        message: address + " is not a row of "@ + claim.path,
                        retryable: false,
                    },
                )
            } else {
                match text::number(row) {
                    Some(id) => Named::Ok(id),
                    None => Named::Err(
                        ErrorView {
                            message: address + " does not name a row"@,
                            retryable: false,
                        },
                    ),
                }
            })
        }),
        arrived::row_named(file + "?row="@ + row) == (match text::number(row) {
            Some(id) => id,
            None => 0,
        }),
{
    text::lemma_split_joined(file, row);
}

/// An address without a mark names no row: a claim refuses it, which no second
/// try will mend, and as an origin it counts as that of row zero.
pub proof fn an_address_without_a_mark_names_no_row(claim: RowClaimView, address: Seq<char>)
    requires
        !text::holds_mark(address),
    ensures
        claim.row_of(address) == Named::Err(
            ErrorView { message: address + " does not name a row"@, retryable: false },
        ),
        arrived::row_named(address) == 0,
{
    text::a_text_is_parted_at_its_last_mark(address);
    if let Some((file, row)) = text::split_at_mark(address) {
        assert(address == file + "?row="@ + row);
    }
}

/// A queue and the claim over its rows are about one file, and the origin that
/// the queue's rows share is the beginning of the addresses that the claim
/// accepts.
pub proof fn the_claim_is_over_the_queues_own_rows(transport: TransportView, id: i64)
    ensures
        transport.claim().path == transport.path,
        transport.claim().directory == transport.directory,
        transport.claim().uri_path == transport.uri_path,
        transport::origin_of(transport.uri_path) == "sqlite://"@ + transport.uri_path + "?row="@,
        transport.claim().row_of(
            transport::origin_of(transport.uri_path) + text::decimal(id as int),
        ) == Named::Ok(id),
{
    lemma_address(transport.uri_path, id);
    lemma_origin(transport.uri_path);
}

/// A call on an address that names a row of the file starts with a session that
/// opens that file for the task on that very row, whatever the task, and does
/// not end before. A call on any other address ends at once with the reason, and
/// asks for no work.
pub proof fn a_call_is_on_the_row_that_its_address_names(
    claim: RowClaimView,
    address: Seq<char>,
    task: spec_fn(i64) -> TaskView,
)
    ensures
        match claim.row_of(address) {
            Ok(row) => claim.start(address, task) == TurnView::Ask(
                SessionView {
                    path: claim.path,
                    task: task(row),
                    stage: match claim.directory {
                        Some(directory) => StageView::MakingDirectory(directory),
                        None => StageView::OpeningFile,
                    },
                },
            ),
            Err(error) => claim.start(address, task) == TurnView::Finished(Err(error)),
        },
{
}

/// Whether `name` is one part of a path: not empty, not a dot alone, and without
/// a separator of any platform.
pub open spec fn names_one_part(name: Seq<char>) -> bool {
    name.len() > 0 && name != seq!['.'] && !name.contains('/') && !name.contains('\\')
}

/// The directory of a file is a shorter beginning of its path: the empty path for
/// a name alone, the root for a name behind it. Neither the root nor the empty
/// path lies in any.
pub proof fn a_file_lies_in_a_beginning_of_its_path(transport: TransportView, name: Seq<char>)
    requires
        transport.is_placed(),
    ensures
        transport.directory matches Some(directory) ==> directory.len() < transport.path.len()
            && transport.path.take(directory.len() as int) == directory,
        transport.path == seq!['/'] || transport.path == Seq::<char>::empty()
            ==> transport.directory is None,
        names_one_part(name) && transport.path == seq!['/'] + name ==> transport.directory == Some(
            seq!['/'],
        ),
        names_one_part(name) && !name.contains(':') && transport.path == name
            ==> transport.directory == Some(Seq::<char>::empty()),
{
    if let Some(directory) = transport.directory {
        assert(transport.path.take(directory.len() as int) =~= directory);
    }
    if names_one_part(name) {
        lemma_one_part(name);
        assert(place::in_root(name) == seq!['/'] + name);
    }
}

proof fn lemma_one_part(name: Seq<char>)
    requires
        names_one_part(name),
    ensures
        place::is_part(name),
{
    if name.len() == 1 && name[0] == '.' {
        assert(name =~= seq!['.']);
    }
    assert forall|i: int| 0 <= i < name.len() implies !place::is_separator(#[trigger] name[i]) by {
        assert(name.contains(name[i]));
    }
}

/// A file lies in the directory that its path is joined to, and a call on it
/// goes about its work in this order: it makes that directory, opens the file,
/// puts the table in place, and only then turns to its task.
pub proof fn a_call_makes_the_directory_the_file_and_the_table(
    transport: TransportView,
    parent: Seq<char>,
    name: Seq<char>,
    task: TaskView,
    changed: usize,
)
    requires
        transport.is_placed(),
        transport.path == parent + seq!['/'] + name,
        parent.len() > 0,
        parent.last() != '/' && parent.last() != '\\' && parent.last() != ':',
        parent.len() > 1 ==> {
            let (first, second, before_last) = (parent[0], parent[1], parent[parent.len() - 2]);
            &&& !(parent.last() == '.' && (before_last == '/' || before_last == '\\'))
            &&& !((first == '/' || first == '\\') && (second == '/' || second == '\\'))
        },
        names_one_part(name),
    ensures
        transport.directory == Some(parent),
        transport.opening(task).work() == WorkView::CreateDirectory(parent),
        ({
            let made = SessionView { stage: StageView::OpeningFile, ..transport.opening(task) };
            let opened = SessionView { stage: StageView::CreatingTable, ..transport.opening(task) };
            &&& transport.opening(task).next(AnswerView::Done) == TurnView::Ask(made)
            &&& made.work() == WorkView::OpenFile(transport.path)
            &&& made.next(AnswerView::Done) == TurnView::Ask(opened)
            &&& opened.work() == WorkView::Execute(StatementView::CreateTable)
            &&& opened.next(AnswerView::Changed(changed)) == (match task {
                TaskView::Open => TurnView::Finished(Ok(OutcomeView::Opened)),
                TaskView::Take { .. } => opened.at(StageView::Beginning),
                _ => opened.at(StageView::Running),
            })
        }),
{
    lemma_one_part(name);
    assert(place::joined(parent, name) == parent + seq!['/'] + name);
}

/// A receive is a take where the file is there: it goes on with the very
/// session that a take starts with. Where the file is not there it ends at once
/// with nothing taken.
pub proof fn a_receive_is_a_take_where_the_file_is_there(transport: TransportView)
    ensures
        transport.receive().work() == WorkView::LookForFile(transport.path),
        transport.receive().next(AnswerView::File(true)) == TurnView::Ask(transport.take()),
        transport.receive().next(AnswerView::File(false)) == TurnView::Finished(
            Ok(OutcomeView::Taken(seq![])),
        ),
{
}

} // verus!
