//! The row's own claim: its `claimed` column, flipped in one statement.
//!
//! The claim is on the artefact, not on the location. Two nodes may poll one
//! file at the same time and take different rows, because the engine
//! serialises the two updates and the second finds nothing left to flip.

use vstd::prelude::*;

use crate::error::{self, ErrorView, TransportError};
use crate::place::{directory_view, is_parent_of, lies_in, parent};
use crate::session::{self, Session, SessionView, Task, TaskView, Turn, TurnView};
use crate::text::{self, parse_number, rsplit_at_mark};

verus! {

/// What a claim is on: a row, addressed by its origin.
#[derive(Debug)]
pub struct Artefact {
    pub address: String,
}

impl View for Artefact {
    type V = Seq<char>;

    open spec fn view(&self) -> Seq<char> {
        self.address@
    }
}

impl Artefact {
    pub fn new(address: String) -> (artefact: Artefact)
        ensures
            artefact@ == address@,
    {
        Artefact { address }
    }

    /// Where the artefact is.
    pub fn address(&self) -> (address: &str)
        ensures
            address@ == self@,
    {
        self.address.as_str()
    }
}

impl Clone for Artefact {
    fn clone(&self) -> (artefact: Artefact)
        ensures
            artefact@ == self@,
    {
        Artefact { address: self.address.clone() }
    }
}

/// A claim that is held.
#[derive(Debug)]
pub struct Claimed {
    pub artefact: Artefact,
    /// The row that is held.
    pub token: String,
}

/// A [`Claimed`] as contracts speak of it.
pub struct ClaimedView {
    pub artefact: Seq<char>,
    pub token: Seq<char>,
}

impl View for Claimed {
    type V = ClaimedView;

    open spec fn view(&self) -> ClaimedView {
        ClaimedView { artefact: self.artefact@, token: self.token@ }
    }
}

impl Claimed {
    pub fn new(artefact: Artefact, token: String) -> (claimed: Claimed)
        ensures
            claimed@ == (ClaimedView { artefact: artefact@, token: token@ }),
    {
        Claimed { artefact, token }
    }
}

/// An artefact is seen by its address, and a claim with the artefact that it is
/// on and the row that is held.
pub proof fn a_claim_is_seen_whole(artefact: Artefact, claimed: Claimed)
    ensures
        artefact@ == artefact.address@,
        claimed@.artefact == claimed.artefact.address@,
        claimed@.token == claimed.token@,
{
}

/// The claim on the rows of one file, addressed as the row's origin URI.
#[derive(Debug)]
pub struct RowClaim {
    path: String,
    directory: Option<String>,
    uri_path: String,
}

/// A [`RowClaim`] as contracts speak of it.
pub struct RowClaimView {
    /// Where the file is.
    pub path: Seq<char>,
    /// The directory that the file lies in, if there is one.
    pub directory: Option<Seq<char>>,
    /// The path as it stands in a URI.
    pub uri_path: Seq<char>,
}

impl View for RowClaim {
    type V = RowClaimView;

    closed spec fn view(&self) -> RowClaimView {
        RowClaimView {
            path: self.path@,
            directory: directory_view(self.directory),
            uri_path: self.uri_path@,
        }
    }
}

impl Clone for RowClaim {
    fn clone(&self) -> (claim: RowClaim)
        ensures
            claim@ == self@,
    {
        proof {
            use_type_invariant(self);
        }
        let directory = match &self.directory {
            Some(directory) => Some(directory.clone()),
            None => None,
        };
        RowClaim { path: self.path.clone(), directory, uri_path: self.uri_path.clone() }
    }
}

/// The URI of a file, given its path as it stands in a URI.
pub open spec fn file_uri(uri_path: Seq<char>) -> Seq<char> {
    "sqlite://"@ + uri_path
}

/// The row that an address names, or why it names none, as contracts speak of
/// it.
pub type Named = Result<i64, ErrorView>;

/// What is said of an address that ends in no row.
pub open spec fn names_no_row(address: Seq<char>) -> ErrorView {
    error::permanent(address + " does not name a row"@)
}

/// What is said of a row of another file.
pub open spec fn names_another_file(address: Seq<char>, path: Seq<char>) -> ErrorView {
    error::permanent(address + " is not a row of "@ + path)
}

impl RowClaimView {
    /// The row that `address` names, or why it names none of this file.
    pub open spec fn row_of(self, address: Seq<char>) -> Named {
        match text::split_at_mark(address) {
            None => Err(names_no_row(address)),
            Some((file, row)) => if file != file_uri(self.uri_path) {
                Err(names_another_file(address, self.path))
            } else {
                match text::number(row) {
                    Some(row) => Ok(row),
                    None => Err(names_no_row(address)),
                }
            },
        }
    }
}

impl RowClaimView {
    /// Whether the directory is that of the file.
    pub open spec fn is_placed(self) -> bool {
        lies_in(self.path, self.directory)
    }

    /// The session that opens the file for `task`.
    pub open spec fn opening(self, task: TaskView) -> SessionView {
        session::opening_session(self.path, self.directory, task)
    }

    /// How a call on the row that `address` names starts: with a session that
    /// opens the file for the `task` on that row, or with a refusal where the
    /// address names no row of the file.
    pub open spec fn start(self, address: Seq<char>, task: spec_fn(i64) -> TaskView) -> TurnView {
        match self.row_of(address) {
            Ok(row) => TurnView::Ask(self.opening(task(row))),
            Err(error) => TurnView::Finished(Err(error)),
        }
    }
}

/// The URI of the file whose path stands in a URI as `uri_path`.
pub(crate) fn uri_of(uri_path: &str) -> (uri: String)
    ensures
        uri@ == file_uri(uri_path@),
{
    "sqlite://".to_owned().concat(uri_path)
}

impl RowClaim {
    /// The directory is that of the file.
    #[verifier::type_invariant]
    spec fn has_its_directory(self) -> bool {
        self@.is_placed()
    }

    /// The claim over the rows of the file at `path`, which stands in a URI as
    /// `uri_path`.
    #[must_use]
    pub fn new(path: String, uri_path: String) -> (claim: RowClaim)
        ensures
            claim@.path == path@,
            claim@.uri_path == uri_path@,
            claim@.is_placed(),
            is_parent_of(path@, claim@.directory),
    {
        let directory = parent(path.as_str());
        RowClaim { path, directory, uri_path }
    }

    /// Where the file is.
    pub(crate) fn path(&self) -> (path: &str)
        ensures
            path@ == self@.path,
    {
        self.path.as_str()
    }

    /// The path as it stands in a URI.
    pub(crate) fn uri_path(&self) -> (uri_path: &str)
        ensures
            uri_path@ == self@.uri_path,
    {
        self.uri_path.as_str()
    }

    /// The directory that the file lies in, if there is one.
    pub(crate) fn directory(&self) -> (directory: Option<&str>)
        ensures
            session::text_view(directory) == self@.directory,
            self@.is_placed(),
    {
        proof {
            use_type_invariant(self);
        }
        match &self.directory {
            Some(directory) => Some(directory.as_str()),
            None => None,
        }
    }

    /// The session that opens the file for `task`.
    pub(crate) fn opening<'a>(&'a self, task: Task<'a>) -> (session: Session<'a>)
        ensures
            session@ == self@.opening(task@),
            self@.is_placed(),
    {
        Session::new(self.path(), self.directory(), task)
    }

    /// The row an artefact names, refusing one of another file: a row id
    /// means nothing outside the file that issued it.
    pub fn row_of(&self, artefact: &Artefact) -> (row: Result<i64, TransportError>)
        ensures
            match row {
                Ok(row) => self@.row_of(artefact@) == Named::Ok(row),
                Err(error) => self@.row_of(artefact@) == Named::Err(error@),
            },
    {
        let address = artefact.address();
        match rsplit_at_mark(address) {
            None => Err(
                TransportError::permanent(address.to_owned().concat(" does not name a row")),
            ),
            Some((file, row)) => {
                if file.to_owned() != uri_of(self.uri_path.as_str()) {
                    return Err(
                        TransportError::permanent(
                            address.to_owned().concat(" is not a row of ").concat(
                                self.path.as_str(),
                            ),
                        ),
                    );
                }
                match parse_number(row) {
                    Some(row) => Ok(row),
                    None => Err(
                        TransportError::permanent(
                            address.to_owned().concat(" does not name a row"),
                        ),
                    ),
                }
            },
        }
    }

    /// Ask whether the row that `artefact` names is unclaimed. An artefact
    /// that names no row of the file is refused before anything is opened.
    pub fn is_available<'a>(&'a self, artefact: &Artefact) -> (turn: Turn<'a>)
        ensures
            turn@ == self@.start(artefact@, |row: i64| TaskView::IsAvailable { row }),
            self@.is_placed(),
    {
        proof {
            use_type_invariant(self);
        }
        match self.row_of(artefact) {
            Err(error) => Turn::Finished(Err(error)),
            Ok(row) => Turn::Ask(self.opening(Task::IsAvailable { row })),
        }
    }

    /// Claim the row that `artefact` names. An artefact that names no row of
    /// the file is refused before anything is opened.
    pub fn claim<'a>(&'a self, artefact: &'a Artefact) -> (turn: Turn<'a>)
        ensures
            turn@ == self@.start(
                artefact@,
                |row: i64| TaskView::Claim { artefact: artefact@, row },
            ),
            self@.is_placed(),
    {
        proof {
            use_type_invariant(self);
        }
        match self.row_of(artefact) {
            Err(error) => Turn::Finished(Err(error)),
            Ok(row) => Turn::Ask(self.opening(Task::Claim { artefact, row })),
        }
    }

    /// Give up the row that is held. An artefact that names no row of the file
    /// is refused before anything is opened.
    pub fn release<'a>(&'a self, claimed: Claimed) -> (turn: Turn<'a>)
        ensures
            turn@ == self@.start(claimed@.artefact, |row: i64| TaskView::Release { row }),
            self@.is_placed(),
    {
        proof {
            use_type_invariant(self);
        }
        match self.row_of(&claimed.artefact) {
            Err(error) => Turn::Finished(Err(error)),
            Ok(row) => Turn::Ask(self.opening(Task::Release { row })),
        }
    }
}

} // verus!
