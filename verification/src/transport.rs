//! The queue in one database file: what is sent to it, what is received.

use vstd::prelude::*;

use crate::claim::{self, uri_of, RowClaim, RowClaimView};
use crate::place::{self, is_join_of, is_parent_of, lies_in, under};
use crate::session::{self, Session, SessionView, Task, TaskView};
use crate::text::{self, push_decimal};

verus! {

/// Which ways Streams go.
#[derive(Clone, Copy, Debug, PartialEq, Eq, Structural)]
pub enum Directions {
    Receive,
    Send,
    Both,
}

/// The queue in the database file at one path.
#[derive(Debug)]
pub struct SqliteTransport {
    claim: RowClaim,
    only: Option<String>,
}

/// A [`SqliteTransport`] as contracts speak of it.
pub struct TransportView {
    /// Where the file is.
    pub path: Seq<char>,
    /// The directory that the file lies in, if there is one.
    pub directory: Option<Seq<char>>,
    /// The path as it stands in a URI.
    pub uri_path: Seq<char>,
    /// The one target whose rows are taken; every row otherwise.
    pub only: Option<Seq<char>>,
}

impl View for SqliteTransport {
    type V = TransportView;

    closed spec fn view(&self) -> TransportView {
        TransportView {
            path: self.claim@.path,
            directory: self.claim@.directory,
            uri_path: self.claim@.uri_path,
            only: match self.only {
                Some(target) => Some(target@),
                None => None,
            },
        }
    }
}

/// What the origins of the rows of one file share, up to the row id.
pub open spec fn origin_of(uri_path: Seq<char>) -> Seq<char> {
    claim::file_uri(uri_path) + text::row_mark()
}

impl TransportView {
    /// The claim over the rows of the queue.
    pub open spec fn claim(self) -> RowClaimView {
        RowClaimView { path: self.path, directory: self.directory, uri_path: self.uri_path }
    }

    /// Whether the directory is that of the file.
    pub open spec fn is_placed(self) -> bool {
        lies_in(self.path, self.directory)
    }

    /// The session that opens the file for `task`.
    pub open spec fn opening(self, task: TaskView) -> SessionView {
        session::opening_session(self.path, self.directory, task)
    }

    /// Taking from the queue.
    pub open spec fn taking(self) -> TaskView {
        TaskView::Take { origin: origin_of(self.uri_path), only: self.only }
    }

    /// The session that takes from the queue.
    pub open spec fn take(self) -> SessionView {
        self.opening(self.taking())
    }

    /// The session that takes from the queue where its file is there.
    pub open spec fn receive(self) -> SessionView {
        session::looking_session(self.path, self.directory, self.taking())
    }

    /// The session that adds a row.
    pub open spec fn send(self, target: Seq<char>, payload: Seq<u8>) -> SessionView {
        self.opening(TaskView::Send { target, payload })
    }
}

impl SqliteTransport {
    /// The queue in the database file at `path`, which stands in a URI as
    /// `uri_path`; the file, its directory and the table are created on first
    /// send.
    #[must_use]
    pub fn new(path: String, uri_path: String) -> (transport: SqliteTransport)
        ensures
            transport@.path == path@,
            transport@.uri_path == uri_path@,
            transport@.only is None,
            transport@.is_placed(),
            is_parent_of(path@, transport@.directory),
    {
        SqliteTransport { claim: RowClaim::new(path, uri_path), only: None }
    }

    /// Take only rows sent to `target`; every row otherwise.
    #[must_use]
    pub fn only(self, target: String) -> (transport: SqliteTransport)
        ensures
            transport@ == (TransportView { only: Some(target@), ..self@ }),
    {
        SqliteTransport { claim: self.claim, only: Some(target) }
    }

    /// Both ends in one directory: send a row into a file there, take it back
    /// from the same file. Nothing listens; the file is the wire, so there is
    /// no port and no timeout.
    #[must_use]
    pub fn loopback(root: String, uri_root: String) -> (transport: SqliteTransport)
        ensures
            transport@.path == root@,
            transport@.uri_path == uri_root@,
            transport@.only is None,
            transport@.is_placed(),
            is_parent_of(root@, transport@.directory),
    {
        SqliteTransport::new(root, uri_root)
    }

    /// Where the queue is.
    #[must_use]
    pub fn path(&self) -> (path: &str)
        ensures
            path@ == self@.path,
    {
        self.claim.path()
    }

    /// The origin every row of this file shares, up to the row id:
    /// `sqlite:///<path>?row=`.
    #[must_use]
    pub fn origin(&self) -> (origin: String)
        ensures
            origin@ == origin_of(self@.uri_path),
            origin@ == "sqlite://"@ + self@.uri_path + "?row="@,
    {
        proof {
            reveal_strlit("?row=");
        }
        let origin = uri_of(self.claim.uri_path()).concat("?row=");
        assert("?row="@ =~= text::row_mark());
        origin
    }

    /// Have the file open with its table in place; its directory is made where
    /// it is missing.
    pub fn open<'a>(&'a self) -> (session: Session<'a>)
        ensures
            session@ == self@.opening(TaskView::Open),
            self@.is_placed(),
    {
        self.claim.opening(Task::Open)
    }

    /// Taking from the queue.
    fn taking<'a>(&'a self) -> (task: Task<'a>)
        ensures
            task@ == self@.taking(),
    {
        let only = match &self.only {
            Some(target) => Some(target.as_str()),
            None => None,
        };
        Task::Take { origin: self.origin(), only }
    }

    /// Take the oldest unclaimed rows, marking them claimed in the same
    /// transaction, oldest first.
    pub fn take<'a>(&'a self) -> (session: Session<'a>)
        ensures
            session@ == self@.take(),
            self@.is_placed(),
    {
        self.claim.opening(self.taking())
    }

    /// The oldest unclaimed rows, claimed. A file nobody has sent to yet is
    /// not an error: it holds no rows, and it is not created.
    pub fn receive<'a>(&'a self) -> (session: Session<'a>)
        ensures
            session@ == self@.receive(),
            self@.is_placed(),
    {
        Session::looking(self.claim.path(), self.claim.directory(), self.taking())
    }

    /// Insert the bytes as one row addressed to `target`.
    pub fn send<'a>(&'a self, target: &'a str, bytes: &'a [u8]) -> (session: Session<'a>)
        ensures
            session@ == self@.send(target@, bytes@),
            self@.is_placed(),
    {
        self.claim.opening(Task::Send { target, payload: bytes })
    }

    /// The row's own claim: its `claimed` column.
    pub fn claims(&self) -> (claim: &RowClaim)
        ensures
            claim@ == self@.claim(),
    {
        &self.claim
    }

    /// The technology's name.
    pub fn name(&self) -> (name: &'static str)
        ensures
            name@ == "sqlite"@,
    {
        "sqlite"
    }

    /// A queue is sent to and received from.
    pub fn directions(&self) -> (directions: Directions)
        ensures
            directions == Directions::Both,
    {
        Directions::Both
    }

    /// The file that a thread keeps to itself in a loopback's directory: one per
    /// thread rather than one per round, so that the table is made once.
    /// `thread` is the thread's id as it is shown.
    #[must_use]
    pub fn thread_file(&self, thread: &str) -> (file: String)
        ensures
            is_thread_file(self@.path, thread@, file@),
            is_join_of(self@.path, "t"@ + thread@ + ".sqlite"@, file@),
    {
        under(self.path(), thread_file_name(thread).as_str())
    }

    /// The far end of a loopback's round, in the file that the round's thread
    /// keeps to itself: the target that the round is addressed to, and the
    /// queue that takes what was sent there and nothing else. Nothing waits:
    /// the round is in order.
    #[must_use]
    pub fn far_end(round: u64, file: String, uri_file: String) -> (end: (String, SqliteTransport))
        ensures
            end.0@ == round_name(round),
            end.0@ == "round-"@ + text::decimal(round as int),
            end.1@.path == file@,
            end.1@.uri_path == uri_file@,
            end.1@.only == Some(round_name(round)),
            end.1@.is_placed(),
            is_parent_of(file@, end.1@.directory),
    {
        let target = round_target(round);
        let queue = SqliteTransport::new(file, uri_file).only(target.clone());
        (target, queue)
    }

    /// In order on one thread: a file does not listen, so the insert goes
    /// first and the take finds it.
    pub fn exchanges_in_order(&self) -> (in_order: bool)
        ensures
            in_order,
    {
        true
    }
}

/// The name of the file of a thread, whose id is shown as `thread`.
pub open spec fn thread_name(thread: Seq<char>) -> Seq<char> {
    "t"@ + thread + ".sqlite"@
}

/// Whether `file` is the one that a thread keeps to itself directly under `root`.
/// `thread` is the thread's id as it is shown.
pub open spec fn is_thread_file(root: Seq<char>, thread: Seq<char>, file: Seq<char>) -> bool {
    place::is_plain(thread_name(thread)) && !place::starts_in_share(root) ==> place::adjoins(
        root,
        thread_name(thread),
        file,
    )
}

/// The name of the file that a thread keeps to itself in a loopback's
/// directory. Pairs driven at once from several threads would otherwise contend
/// for one file's write lock, which the engine answers with busy rather than
/// waiting. `thread` is the thread's id as it is shown.
pub fn thread_file_name(thread: &str) -> (name: String)
    ensures
        name@ == thread_name(thread@),
        name@ == "t"@ + thread@ + ".sqlite"@,
{
    "t".to_owned().concat(thread).concat(".sqlite")
}

/// What is missing where a round's far end takes nothing.
pub const NOT_BACK: &'static str = "sent, but it did not come back";

/// The number that follows `round`.
pub open spec fn round_after(round: u64) -> u64 {
    if round == u64::MAX {
        0
    } else {
        (round + 1) as u64
    }
}

/// The rounds begun, so that each has a number of its own.
#[derive(Debug)]
pub struct Rounds {
    next: u64,
}

impl View for Rounds {
    type V = u64;

    closed spec fn view(&self) -> u64 {
        self.next
    }
}

impl Rounds {
    /// No round begun yet; the first is number one.
    pub fn new() -> (rounds: Rounds)
        ensures
            rounds@ == 1,
    {
        Rounds { next: 1 }
    }

    /// Begin a round, and say its number. The numbers start over once there are
    /// none left.
    pub fn begin(&mut self) -> (round: u64)
        ensures
            round == old(self)@,
            final(self)@ == round_after(old(self)@),
            final(self)@ == (if old(self)@ == u64::MAX {
                0
            } else {
                old(self)@ + 1
            }),
    {
        let round: u64 = self.next;
        self.next = if round == u64::MAX {
            0
        } else {
            round + 1
        };
        round
    }
}

/// The target of a loopback's round.
pub open spec fn round_name(round: u64) -> Seq<char> {
    "round-"@ + text::decimal(round as int)
}

/// The target of a loopback's round: each round's row is addressed to that
/// round alone, so that a round that failed after its send leaves nothing the
/// next one takes.
pub fn round_target(round: u64) -> (target: String)
    ensures
        target@ == round_name(round),
        target@ == "round-"@ + text::decimal(round as int),
{
    let mut target = "round-".to_owned();
    push_decimal(&mut target, round);
    target
}

} // verus!
