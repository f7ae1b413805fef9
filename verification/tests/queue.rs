//! The queue, driven against the engine itself.

use std::collections::HashMap;

use rusqlite::types::Value;
use rusqlite::Connection;
use sqlite_transport::session::CREATING_DIRECTORY;
use sqlite_transport::transport::{Rounds, NOT_BACK};
use sqlite_transport::{
    Answer, Arrived, Artefact, Claimed, Directions, Outcome, Parameter, RowClaim, SqliteTransport,
    Statement, TransportError, Turn, Work,
};

/// The files of one box, each of them a database in memory.
struct Files {
    there: HashMap<String, Connection>,
    made: Vec<String>,
    asked: usize,
    refuse_directory: bool,
    refuse_with: Option<i32>,
    refuse_commit: bool,
}

fn bound(statement: &Statement<'_>) -> Vec<Value> {
    statement
        .parameters()
        .iter()
        .map(|parameter| match parameter {
            Parameter::Text(text) => Value::Text(text.to_string()),
            Parameter::Blob(bytes) => Value::Blob(bytes.to_vec()),
            Parameter::Integer(n) => Value::Integer(*n),
        })
        .collect()
}

fn failure(code: i32) -> rusqlite::Error {
    rusqlite::Error::SqliteFailure(rusqlite::ffi::Error::new(code), None)
}

impl Files {
    fn none() -> Files {
        Files {
            there: HashMap::new(),
            made: Vec::new(),
            asked: 0,
            refuse_directory: false,
            refuse_with: None,
            refuse_commit: false,
        }
    }

    fn answer(&mut self, work: Work<'_>, path: &str) -> Answer {
        self.asked += 1;
        match work {
            Work::LookForFile(file) => Answer::File(self.there.contains_key(file)),
            Work::CreateDirectory(directory) => {
                if self.refuse_directory {
                    return Answer::Failed(TransportError {
                        message: format!("{CREATING_DIRECTORY}: no"),
                        retryable: true,
                    });
                }
                self.made.push(directory.to_string());
                Answer::Done
            }
            Work::OpenFile(file) => {
                if !self.there.contains_key(file) {
                    let connection = Connection::open_in_memory().expect("an engine");
                    self.there.insert(file.to_string(), connection);
                }
                Answer::Done
            }
            Work::Execute(statement) => {
                if let Some(code) = self.refuse_with {
                    return Answer::Refused(failure(code));
                }
                let parameters = rusqlite::params_from_iter(bound(&statement));
                match self.there[path].execute(statement.sql(), parameters) {
                    Ok(changed) => Answer::Changed(changed),
                    Err(error) => Answer::Refused(error),
                }
            }
            Work::Query(statement) => {
                let parameters = rusqlite::params_from_iter(bound(&statement));
                let mut prepared = self.there[path].prepare(statement.sql()).expect("prepared");
                let rows = prepared
                    .query_map(parameters, |row| {
                        Ok(sqlite_transport::Row {
                            id: row.get(0)?,
                            payload: row.get(2)?,
                        })
                    })
                    .expect("rows")
                    .collect::<Result<Vec<_>, _>>();
                match rows {
                    // In no promised order: here, in none that helps.
                    Ok(mut rows) => {
                        rows.reverse();
                        Answer::Rows(rows)
                    }
                    Err(error) => Answer::Refused(error),
                }
            }
            Work::QueryRow(statement) => {
                let parameters = rusqlite::params_from_iter(bound(&statement));
                match self.there[path].query_row(statement.sql(), parameters, |row| row.get(0)) {
                    Ok(claimed) => Answer::Claimed(claimed),
                    Err(error) => Answer::Refused(error),
                }
            }
            Work::BeginImmediate => {
                self.there[path].execute_batch("BEGIN IMMEDIATE").expect("begun");
                Answer::Done
            }
            Work::Commit => {
                if self.refuse_commit {
                    self.there[path].execute_batch("ROLLBACK").expect("rolled back");
                    return Answer::Refused(failure(rusqlite::ffi::SQLITE_BUSY));
                }
                self.there[path].execute_batch("COMMIT").expect("committed");
                Answer::Done
            }
        }
    }

    fn run(&mut self, path: &str, turn: Turn<'_>) -> Result<Outcome, TransportError> {
        let mut turn = turn;
        loop {
            match turn {
                Turn::Finished(end) => return end,
                Turn::Ask(session) => {
                    let answer = self.answer(session.work(), path);
                    turn = session.next(answer);
                }
            }
        }
    }

    fn send(&mut self, queue: &SqliteTransport, target: &str, bytes: &[u8]) {
        let end = self.run(queue.path(), Turn::Ask(queue.send(target, bytes)));
        assert!(matches!(end, Ok(Outcome::Sent)));
    }

    fn receive(&mut self, queue: &SqliteTransport) -> Result<Vec<Arrived>, TransportError> {
        match self.run(queue.path(), Turn::Ask(queue.receive()))? {
            Outcome::Taken(arrived) => Ok(arrived),
            other => panic!("{other:?}"),
        }
    }

    fn is_available(
        &mut self,
        path: &str,
        claim: &RowClaim,
        artefact: &Artefact,
    ) -> Result<bool, TransportError> {
        match self.run(path, claim.is_available(artefact))? {
            Outcome::Available(available) => Ok(available),
            other => panic!("{other:?}"),
        }
    }

    fn claim(
        &mut self,
        path: &str,
        claim: &RowClaim,
        artefact: &Artefact,
    ) -> Result<Claimed, TransportError> {
        match self.run(path, claim.claim(artefact))? {
            Outcome::Claimed(claimed) => Ok(claimed),
            other => panic!("{other:?}"),
        }
    }

    fn release(&mut self, path: &str, claim: &RowClaim, held: Claimed) {
        let end = self.run(path, claim.release(held));
        assert!(matches!(end, Ok(Outcome::Released)));
    }

    fn count(&self, path: &str, sql: &str) -> i64 {
        self.there[path].query_row(sql, [], |row| row.get(0)).expect("count")
    }
}

fn at(path: &str) -> SqliteTransport {
    SqliteTransport::new(path.to_string(), path.to_string())
}

#[test]
fn a_sent_row_is_received_once_oldest_first_and_stays_claimed() {
    let mut files = Files::none();
    let queue = at("/scratch/queue/inbox.sqlite");
    files.send(&queue, "orders", b"first");
    files.send(&queue, "orders", &[0xff, 0x00, 0xfe]);
    files.send(&queue, "invoices", b"third");
    let arrived = files.receive(&queue).expect("receiving");
    assert_eq!(arrived.len(), 3);
    assert_eq!(arrived[0].bytes, b"first");
    assert_eq!(arrived[1].bytes, [0xff, 0x00, 0xfe], "bytes as they are");
    assert!(arrived[0].origin_uri.starts_with("sqlite:///"));
    assert!(arrived[0].origin_uri.ends_with("inbox.sqlite?row=1"));
    assert!(arrived[2].origin_uri.ends_with("?row=3"));
    assert!(!arrived[0].origin_uri.contains(char::from(92)));
    assert!(
        files.receive(&queue).expect("again").is_empty(),
        "a claimed row is not taken twice"
    );
    let count = files.count(
        queue.path(),
        "SELECT COUNT(*) FROM xmip_transport WHERE claimed = 1",
    );
    assert_eq!(count, 3, "nothing is deleted");
}

#[test]
fn a_receive_filtered_on_a_target_leaves_the_other_rows_unclaimed() {
    let mut files = Files::none();
    let path = "/scratch/only/inbox.sqlite";
    let queue = at(path);
    files.send(&queue, "orders", b"order");
    files.send(&queue, "invoices", b"invoice");
    let invoices = at(path).only("invoices".to_string());
    let arrived = files.receive(&invoices).expect("receiving");
    assert_eq!(arrived.len(), 1);
    assert_eq!(arrived[0].bytes, b"invoice");
    let rest = files.receive(&queue).expect("the rest");
    assert_eq!(rest.len(), 1);
    assert_eq!(rest[0].bytes, b"order");
}

#[test]
fn a_file_nobody_has_sent_to_is_empty_and_a_file_that_is_no_database_is_refused() {
    let mut files = Files::none();
    let queue = at("/scratch/absent/never.sqlite");
    assert!(files.receive(&queue).expect("not an error").is_empty());
    assert!(files.made.is_empty(), "a receive creates nothing");
    assert!(files.there.is_empty(), "a receive creates nothing");
    assert_eq!(files.asked, 1);
    let garbage = at("/scratch/absent/garbage.sqlite");
    files.there.insert(
        garbage.path().to_string(),
        Connection::open_in_memory().expect("an engine"),
    );
    files.refuse_with = Some(rusqlite::ffi::SQLITE_NOTADB);
    let error = files.receive(&garbage).expect_err("not a database");
    assert!(!error.retryable, "{error:?}");
    assert_eq!(
        error.message,
        "the engine: Error code 26: file is not a database"
    );
}

#[test]
fn the_row_is_the_claim_and_the_transport_says_so() {
    let mut files = Files::none();
    let queue = at("/scratch/claim/inbox.sqlite");
    assert_eq!(queue.name(), "sqlite");
    assert_eq!(queue.directions(), Directions::Both);
    assert!(queue.exchanges_in_order());
    assert!(queue.origin().starts_with("sqlite:///"));
    // The claimed column.
    files.send(&queue, "orders", b"order");
    let artefact = Artefact::new(format!("{}1", queue.origin()));
    assert!(files
        .is_available(queue.path(), queue.claims(), &artefact)
        .expect("asked"));
}

/// One round: the row goes into the thread's file, addressed to the round, and
/// is taken back from there.
fn round(
    files: &mut Files,
    pair: &SqliteTransport,
    rounds: &mut Rounds,
    payload: &[u8],
) -> Arrived {
    let path = pair.thread_file("ThreadId(7)");
    let (target, far) = SqliteTransport::far_end(rounds.begin(), path.clone(), path.clone());
    files.send(&at(&path), &target, payload);
    let mut arrived = files.receive(&far).expect("round");
    assert_eq!(arrived.len(), 1);
    arrived.remove(0)
}

#[test]
fn the_loopback_sends_a_row_and_takes_it_back_from_the_same_file() {
    let mut files = Files::none();
    let root = "/scratch/loopback".to_string();
    let pair = SqliteTransport::loopback(root.clone(), root);
    let mut rounds = Rounds::new();
    let arrived = round(&mut files, &pair, &mut rounds, b"a row");
    assert_eq!(arrived.bytes, b"a row");
    assert!(arrived.origin_uri.starts_with("sqlite:///"));
    assert!(arrived.origin_uri.contains("?row="));
    let again = round(&mut files, &pair, &mut rounds, b"another");
    assert_eq!(again.bytes, b"another");
    assert_ne!(
        arrived.origin_uri, again.origin_uri,
        "each round its own row"
    );
    assert_eq!(pair.name(), "sqlite");
    assert!(files.there.contains_key("/scratch/loopback/tThreadId(7).sqlite"));
}

#[test]
fn the_loopback_returns_the_edge_payloads_whole() {
    let mut files = Files::none();
    let root = "/scratch/edges".to_string();
    let pair = SqliteTransport::loopback(root.clone(), root);
    let every: Vec<u8> = (0..=255).collect();
    let large: Vec<u8> = (0..1024 * 1024).map(|i| (i % 251) as u8).collect();
    let payloads = vec![
        Vec::new(),
        vec![0],
        vec![0; 4096],
        b"\r\n\r\n".to_vec(),
        "\u{fffd}\u{10ffff}".as_bytes().to_vec(),
        every,
        large,
    ];
    let mut rounds = Rounds::new();
    for payload in payloads {
        let arrived = round(&mut files, &pair, &mut rounds, &payload);
        assert_eq!(arrived.bytes, payload);
    }
}

#[test]
fn a_row_is_claimed_once_and_released_by_its_holder() {
    let mut files = Files::none();
    let queue = at("/scratch/once/inbox.sqlite");
    let path = queue.path();
    files.send(&queue, "orders", b"order");
    let claim = RowClaim::new(path.to_string(), path.to_string());
    let artefact = Artefact::new(format!("{}1", queue.origin()));
    assert!(files.is_available(path, &claim, &artefact).expect("asked"));
    let held = files.claim(path, &claim, &artefact).expect("claimed");
    assert_eq!(held.token, "1");
    assert_eq!(held.artefact.address(), artefact.address());
    assert!(!files.is_available(path, &claim, &artefact).expect("asked"));
    let second = files.claim(path, &claim, &artefact).expect_err("held");
    assert!(!second.retryable);
    assert_eq!(
        second.message,
        "sqlite:///scratch/once/inbox.sqlite?row=1 is held, or is no row"
    );
    assert!(
        files.receive(&queue).expect("receiving").is_empty(),
        "a claimed row is not received"
    );
    files.release(path, &claim, held);
    assert!(files.is_available(path, &claim, &artefact).expect("asked"));
    assert_eq!(files.receive(&queue).expect("receiving").len(), 1);
}

#[test]
fn a_row_of_another_file_or_no_row_at_all_is_refused() {
    let mut files = Files::none();
    let queue = at("/scratch/other/inbox.sqlite");
    let path = queue.path();
    files.send(&queue, "orders", b"order");
    let claim = RowClaim::new(path.to_string(), path.to_string());
    let other = Artefact::new("sqlite:///elsewhere/inbox.sqlite?row=1".to_string());
    let asked = files.asked;
    let refused = files.is_available(path, &claim, &other).expect_err("another file");
    assert_eq!(
        refused.message,
        "sqlite:///elsewhere/inbox.sqlite?row=1 is not a row of /scratch/other/inbox.sqlite"
    );
    let nowhere = Artefact::new("sqlite:///x".to_string());
    let refused = files.claim(path, &claim, &nowhere).expect_err("no row");
    assert_eq!(refused.message, "sqlite:///x does not name a row");
    assert!(!refused.retryable);
    let wordy = Artefact::new(format!("{}first", queue.origin()));
    let refused = files.claim(path, &claim, &wordy).expect_err("no number");
    assert!(refused.message.ends_with("?row=first does not name a row"));
    assert_eq!(files.asked, asked, "nothing was opened");
    let missing = Artefact::new(format!("{}99", queue.origin()));
    assert!(files.claim(path, &claim, &missing).is_err(), "no such row");
    let unknown = files.is_available(path, &claim, &missing).expect_err("no such row");
    assert_eq!(unknown.message, "the engine: Query returned no rows");
    assert!(!unknown.retryable);
}

#[test]
fn a_call_makes_the_directory_that_the_file_lies_in() {
    for (path, directory) in [
        ("/scratch/deep/inbox.sqlite", Some("/scratch/deep")),
        ("queue/inbox.sqlite", Some("queue")),
        ("../inbox.sqlite", Some("..")),
        ("./inbox.sqlite", Some(".")),
        ("/inbox.sqlite", Some("/")),
        ("inbox.sqlite", Some("")),
        ("", None),
        ("/", None),
    ] {
        let mut files = Files::none();
        files.send(&at(path), "orders", b"order");
        let made: Vec<&str> = files.made.iter().map(String::as_str).collect();
        assert_eq!(made, directory.into_iter().collect::<Vec<_>>(), "{path}");
        let queue = at(path);
        let artefact = Artefact::new(format!("{}1", queue.origin()));
        files.receive(&queue).expect("receiving");
        files.is_available(path, queue.claims(), &artefact).expect("asked");
        assert!(files.made.iter().all(|made| Some(made.as_str()) == directory), "{path}");
    }
}

#[test]
fn a_take_opens_the_file_whether_it_is_there_or_not() {
    let mut files = Files::none();
    let queue = at("/scratch/take/inbox.sqlite");
    for sent in 0..2 {
        match files.run(queue.path(), Turn::Ask(queue.take())) {
            Ok(Outcome::Taken(arrived)) => assert_eq!(arrived.len(), sent),
            other => panic!("{other:?}"),
        }
        files.send(&queue, "orders", b"order");
    }
}

#[test]
fn opening_puts_the_table_in_place_and_no_row_in_it() {
    let mut files = Files::none();
    let queue = at("/scratch/open/inbox.sqlite");
    let end = files.run(queue.path(), Turn::Ask(queue.open()));
    assert!(matches!(end, Ok(Outcome::Opened)));
    assert_eq!(
        files.count(queue.path(), "SELECT COUNT(*) FROM xmip_transport"),
        0
    );
}

#[test]
fn a_failure_ends_the_call_and_is_reported_as_it_is() {
    let mut files = Files::none();
    let queue = at("/scratch/fail/inbox.sqlite");
    files.refuse_directory = true;
    let end = files.run(queue.path(), Turn::Ask(queue.send("orders", b"order")));
    let error = end.expect_err("no directory");
    assert_eq!(error.message, "creating the queue directory: no");
    assert!(error.retryable);
    assert!(files.there.is_empty());
    files.refuse_directory = false;
    files.refuse_with = Some(rusqlite::ffi::SQLITE_BUSY);
    let end = files.run(queue.path(), Turn::Ask(queue.send("orders", b"order")));
    assert!(end.expect_err("busy").retryable);
}

#[test]
fn what_could_not_be_committed_is_not_handed_out() {
    let mut files = Files::none();
    let queue = at("/scratch/commit/inbox.sqlite");
    files.send(&queue, "orders", b"order");
    files.refuse_commit = true;
    assert!(files.receive(&queue).expect_err("busy").retryable);
    files.refuse_commit = false;
    assert_eq!(files.receive(&queue).expect("receiving").len(), 1);
}

#[test]
fn two_nodes_that_poll_one_file_take_different_rows() {
    let mut files = Files::none();
    let one = at("/scratch/nodes/inbox.sqlite");
    let two = at("/scratch/nodes/inbox.sqlite");
    files.send(&one, "orders", b"a");
    let first = files.receive(&one).expect("one");
    files.send(&two, "orders", b"b");
    let second = files.receive(&two).expect("two");
    assert_eq!(first.len(), 1);
    assert_eq!(second.len(), 1);
    assert_eq!(first[0].bytes, b"a");
    assert_eq!(second[0].bytes, b"b");
    assert_ne!(first[0].origin_uri, second[0].origin_uri);
}

#[test]
fn a_release_of_a_row_that_is_not_held_changes_nothing() {
    let mut files = Files::none();
    let queue = at("/scratch/release/inbox.sqlite");
    files.send(&queue, "orders", b"order");
    let artefact = Artefact::new(format!("{}1", queue.origin()));
    let never = Claimed::new(artefact, "1".to_string());
    files.release(queue.path(), queue.claims(), never);
    assert_eq!(files.receive(&queue).expect("receiving").len(), 1);
}

#[test]
fn the_statements_bind_their_values_in_order() {
    let insert = Statement::Insert { target: "orders", payload: b"x" };
    assert_eq!(
        insert.sql(),
        "INSERT INTO xmip_transport (target, payload, claimed) VALUES (?1, ?2, 0)"
    );
    assert_eq!(
        bound(&insert),
        vec![Value::Text("orders".to_string()), Value::Blob(vec![b'x'])]
    );
    assert_eq!(
        Statement::CreateTable.sql(),
        "CREATE TABLE IF NOT EXISTS xmip_transport (id INTEGER PRIMARY KEY, \
         target TEXT NOT NULL, payload BLOB NOT NULL, claimed INTEGER NOT NULL DEFAULT 0)"
    );
    assert_eq!(sqlite_transport::CREATE, Statement::CreateTable.sql());
    assert!(bound(&Statement::TakeAll).is_empty());
    assert_eq!(
        Statement::TakeAll.sql(),
        "UPDATE xmip_transport SET claimed = 1 WHERE claimed = 0 RETURNING id, target, payload"
    );
    let take = Statement::TakeTarget { target: "orders" };
    assert_eq!(
        take.sql(),
        "UPDATE xmip_transport SET claimed = 1 \
         WHERE claimed = 0 AND target = ?1 RETURNING id, target, payload"
    );
    assert_eq!(bound(&take), vec![Value::Text("orders".to_string())]);
    assert_eq!(
        Statement::Claim { row: 4 }.sql(),
        "UPDATE xmip_transport SET claimed = 1 WHERE id = ?1 AND claimed = 0"
    );
    assert_eq!(
        Statement::Release { row: 4 }.sql(),
        "UPDATE xmip_transport SET claimed = 0 WHERE id = ?1 AND claimed = 1"
    );
    assert_eq!(
        Statement::IsAvailable { row: 4 }.sql(),
        "SELECT claimed FROM xmip_transport WHERE id = ?1"
    );
    assert_eq!(bound(&Statement::Claim { row: 4 }), vec![Value::Integer(4)]);
    assert_eq!(bound(&Statement::Release { row: -4 }), vec![Value::Integer(-4)]);
    assert_eq!(bound(&Statement::IsAvailable { row: 0 }), vec![Value::Integer(0)]);
}

#[test]
fn a_second_take_is_empty_and_a_taken_row_is_not_available() {
    let mut files = Files::none();
    let queue = at("/scratch/second/inbox.sqlite");
    files.send(&queue, "orders", b"order");
    let arrived = files.receive(&queue).expect("receiving");
    assert!(files.receive(&queue).expect("again").is_empty());
    let artefact = Artefact::new(arrived[0].origin_uri.clone());
    assert!(!files.is_available(queue.path(), queue.claims(), &artefact).expect("asked"));
    let claim = queue.claims().clone();
    files.release(queue.path(), &claim, Claimed::new(artefact.clone(), "1".to_string()));
    assert!(files.is_available(queue.path(), &claim, &artefact).expect("asked"));
}

#[test]
fn a_filtered_take_and_the_rest_make_up_a_take() {
    let mut files = Files::none();
    let path = "/scratch/split/inbox.sqlite";
    let queue = at(path);
    for (target, bytes) in [("a", b"1"), ("b", b"2"), ("a", b"3"), ("c", b"4")] {
        files.send(&queue, target, bytes);
    }
    let some = files.receive(&at(path).only("a".to_string())).expect("some");
    let rest = files.receive(&queue).expect("the rest");
    let bytes = |arrived: &[Arrived]| arrived.iter().map(|a| a.bytes[0]).collect::<Vec<u8>>();
    assert_eq!(bytes(&some), b"13");
    assert_eq!(bytes(&rest), b"24");
}

#[test]
fn what_is_sent_first_comes_first() {
    let mut files = Files::none();
    let queue = at("/scratch/order/inbox.sqlite");
    for n in 0..12u8 {
        files.send(&queue, &format!("t{}", n % 3), &[n, n]);
    }
    let arrived = files.receive(&queue).expect("receiving");
    assert_eq!(arrived.len(), 12);
    for (n, stream) in arrived.iter().enumerate() {
        assert_eq!(stream.bytes, [n as u8, n as u8]);
        assert!(stream.origin_uri.ends_with(&format!("?row={}", n + 1)));
    }
}

#[test]
fn of_several_claims_on_a_free_row_one_is_had() {
    let mut files = Files::none();
    let queue = at("/scratch/several/inbox.sqlite");
    let path = queue.path();
    files.send(&queue, "orders", b"order");
    let artefact = Artefact::new(format!("{}1", queue.origin()));
    let mut had = 0;
    for _ in 0..4 {
        let claim = RowClaim::new(path.to_string(), path.to_string());
        if files.claim(path, &claim, &artefact).is_ok() {
            had += 1;
        }
    }
    assert_eq!(had, 1);
}

#[test]
fn a_round_takes_nothing_of_another() {
    let mut files = Files::none();
    let path = "/scratch/rounds/t.sqlite".to_string();
    let mut rounds = Rounds::new();
    let (first, first_end) = SqliteTransport::far_end(rounds.begin(), path.clone(), path.clone());
    files.send(&at(&path), &first, b"left behind");
    let (second, second_end) = SqliteTransport::far_end(rounds.begin(), path.clone(), path);
    assert_eq!(first, "round-1");
    assert_eq!(second, "round-2");
    assert!(files.receive(&second_end).expect("nothing").is_empty());
    assert_eq!(files.receive(&first_end).expect("the first")[0].bytes, b"left behind");
    assert_eq!(NOT_BACK, "sent, but it did not come back");
}
