//! Streams that arrive as rows of one `SQLite` file. One row is one Stream.
//!
//! A `SQLite` file is the queue two processes on one box already share: a
//! producer inserts, an integrator polls, and the file's own locking is the
//! broker. Nothing is installed and nothing listens. A Send Location inserts
//! the Stream as one row of `xmip_transport` (`id`, `target`, `payload`,
//! `claimed`), and a Receive Location takes the oldest unclaimed rows and
//! marks them claimed in one transaction, so two nodes polling the same file
//! never take the same row.
//!
//! The row is the artefact, and the `claimed` column is its claim: taken at the
//! endpoint, atomic because the engine makes it so, and visible to anything
//! else that opens the file. Nothing is deleted: a claimed row stays as the
//! record of what passed. There is no ceiling: a payload is a BLOB, and the
//! engine takes a mebibyte as readily as a byte.
//!
//! The origin URI names the row: `sqlite:///C:/queue/inbox.sqlite?row=41`.
//! A send target is the row's `target` column: a Send Location's name for
//! where the row is going, which a Receive Location may filter on.
//!
//! This library decides and the file is somebody else's to touch: a call is a
//! [`Session`](session::Session) that names one piece of work after the other
//! and is told what came of it. [`laws`] holds what is proved of the queue as a
//! whole.

#![allow(unused_imports)]

pub mod arrived;
pub mod claim;
pub mod error;
pub mod laws;
pub mod place;
pub mod session;
pub mod statement;
pub mod table;
pub mod text;
pub mod transport;

pub use arrived::{row_of, Arrived, Row};
pub use claim::{Artefact, Claimed, RowClaim};
pub use error::{engine_error, TransportError};
pub use session::{Answer, Outcome, Session, Turn, Work};
pub use statement::{Parameter, Statement, CREATE};
pub use transport::{Directions, SqliteTransport};
