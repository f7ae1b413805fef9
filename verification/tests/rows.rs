//! Origins, numbers, the order of rows, and how the engine's errors are judged.

use rusqlite::ffi;
use sqlite_transport::arrived::arrivals;
use sqlite_transport::error::{judged, EngineCode};
use sqlite_transport::text::{parse_number, rsplit_at_mark, to_decimal};
use sqlite_transport::transport::{round_target, thread_file_name};
use sqlite_transport::{
    engine_error, row_of, Artefact, Claimed, Row, RowClaim, SqliteTransport, TransportError,
};

fn row(id: i64, payload: &[u8]) -> Row {
    Row { id, payload: payload.to_vec() }
}

#[test]
fn an_origin_names_its_row_and_anything_else_names_none() {
    assert_eq!(row_of("sqlite:///C:/queue/inbox.sqlite?row=41"), 41);
    assert_eq!(row_of("sqlite:///a?row=7/inbox.sqlite?row=-3"), -3);
    assert_eq!(row_of("sqlite:///inbox.sqlite"), 0);
    assert_eq!(row_of("sqlite:///inbox.sqlite?row="), 0);
    assert_eq!(row_of("sqlite:///inbox.sqlite?row=4x"), 0);
    assert_eq!(row_of("sqlite:///inbox.sqlite?row=9223372036854775808"), 0);
    assert_eq!(row_of(""), 0);
}

#[test]
fn the_text_is_parted_at_the_last_mark() {
    assert_eq!(rsplit_at_mark("a?row=b?row=c"), Some(("a?row=b", "c")));
    assert_eq!(rsplit_at_mark("?row="), Some(("", "")));
    assert_eq!(rsplit_at_mark("\u{e5}?row=\u{f6}"), Some(("\u{e5}", "\u{f6}")));
    assert_eq!(rsplit_at_mark("?row"), None);
    assert_eq!(rsplit_at_mark("?Row=1"), None);
    for text in ["a?row=b?row=c", "?row=", "x", "", "?row=?row=", "??row=1"] {
        assert_eq!(rsplit_at_mark(text), text.rsplit_once("?row="));
    }
}

#[test]
fn numbers_are_read_as_the_language_reads_them() {
    for text in [
        "0", "-0", "+0", "7", "+7", "-7", "007", "", "-", "+", "--1", "+-1", "1-", " 1", "1 ",
        "9223372036854775807", "9223372036854775808", "-9223372036854775808",
        "-9223372036854775809", "99999999999999999999999999999999999999999999", "1e3", "0x1",
        "\u{661}",
    ] {
        assert_eq!(parse_number(text), text.parse::<i64>().ok(), "{text}");
    }
}

#[test]
fn a_number_that_is_written_is_read_back() {
    for n in [0, 1, 9, 10, 41, -1, -10, 1_000_000, i64::MAX, i64::MIN] {
        assert_eq!(to_decimal(n), n.to_string());
        assert_eq!(parse_number(&to_decimal(n)), Some(n));
    }
}

#[test]
fn rows_are_handed_out_by_id_lowest_first() {
    let rows = vec![row(10, b"ten"), row(2, b"two"), row(-1, b"minus"), row(9, b"nine")];
    let arrived = arrivals("sqlite:///q?row=", rows);
    let origins: Vec<&str> = arrived.iter().map(|a| a.origin_uri.as_str()).collect();
    assert_eq!(
        origins,
        vec![
            "sqlite:///q?row=-1",
            "sqlite:///q?row=2",
            "sqlite:///q?row=9",
            "sqlite:///q?row=10",
        ]
    );
    assert_eq!(arrived[3].bytes, b"ten");
}

#[test]
fn arrivals_that_name_no_row_keep_their_order() {
    let arrived = arrivals("nowhere/", vec![row(3, b"a"), row(1, b"b"), row(2, b"c")]);
    let bytes: Vec<&[u8]> = arrived.iter().map(|a| a.bytes.as_slice()).collect();
    assert_eq!(bytes, vec![b"a".as_slice(), b"b".as_slice(), b"c".as_slice()]);
    assert!(arrivals("sqlite:///q?row=", Vec::new()).is_empty());
}

#[test]
fn a_busy_or_locked_file_will_free_up_and_a_file_that_is_no_database_will_not() {
    let said = |code: i32| {
        engine_error(&rusqlite::Error::SqliteFailure(ffi::Error::new(code), None))
    };
    assert!(said(ffi::SQLITE_BUSY).retryable);
    assert!(said(ffi::SQLITE_LOCKED).retryable);
    assert!(said(ffi::SQLITE_IOERR).retryable);
    assert!(said(ffi::SQLITE_IOERR_READ).retryable);
    assert!(!said(ffi::SQLITE_NOTADB).retryable);
    assert!(!said(ffi::SQLITE_FULL).retryable);
    assert!(!said(ffi::SQLITE_CORRUPT).retryable);
    assert_eq!(said(ffi::SQLITE_BUSY).message, "the engine: Error code 5: database is locked");
}

#[test]
fn what_the_engine_said_is_quoted() {
    let told = rusqlite::Error::SqliteFailure(
        ffi::Error::new(ffi::SQLITE_LOCKED),
        Some("no such luck".to_string()),
    );
    let error = engine_error(&told);
    assert_eq!(error.message, "the engine: no such luck");
    assert!(error.retryable);
    let error = engine_error(&rusqlite::Error::QueryReturnedNoRows);
    assert_eq!(error.message, "the engine: Query returned no rows");
    assert!(!error.retryable);
}

#[test]
fn a_code_is_judged_without_its_error() {
    assert!(judged(Some(EngineCode::DatabaseBusy), "x").retryable);
    assert!(judged(Some(EngineCode::DatabaseLocked), "x").retryable);
    assert!(judged(Some(EngineCode::SystemIoFailure), "x").retryable);
    assert!(!judged(Some(EngineCode::Other), "x").retryable);
    assert!(!judged(None, "x").retryable);
    assert_eq!(judged(None, "x").message, "the engine: x");
}

#[test]
fn a_permanent_failure_is_not_tried_again() {
    let error = TransportError::permanent("no".to_string());
    assert_eq!(error.message, "no");
    assert!(!error.retryable);
}

#[test]
fn the_origin_is_the_path_as_it_stands_in_a_uri() {
    let queue = SqliteTransport::new(
        "C:\\queue\\inbox.sqlite".to_string(),
        "/C:/queue/inbox.sqlite".to_string(),
    );
    assert_eq!(queue.path(), "C:\\queue\\inbox.sqlite");
    assert_eq!(queue.origin(), "sqlite:///C:/queue/inbox.sqlite?row=");
    let artefact = Artefact::new("sqlite:///C:/queue/inbox.sqlite?row=41".to_string());
    assert_eq!(queue.claims().row_of(&artefact).expect("a row"), 41);
    let other = RowClaim::new("x".to_string(), "/x".to_string());
    let error = other.row_of(&artefact).expect_err("another file");
    assert_eq!(
        error.message,
        "sqlite:///C:/queue/inbox.sqlite?row=41 is not a row of x"
    );
    let held = Claimed::new(artefact.clone(), "41".to_string());
    assert_eq!(held.artefact.address(), artefact.address());
    assert_eq!(held.token, "41");
}

#[test]
fn rounds_and_threads_have_names_of_their_own() {
    assert_eq!(round_target(1), "round-1");
    assert_eq!(round_target(u64::MAX), "round-18446744073709551615");
    assert_ne!(round_target(11), round_target(1));
    assert_eq!(thread_file_name("ThreadId(1)"), "tThreadId(1).sqlite");
    for (root, file) in [
        ("/scratch/pair", "/scratch/pair/tThreadId(1).sqlite"),
        ("/scratch/pair/", "/scratch/pair/tThreadId(1).sqlite"),
        ("pair", "pair/tThreadId(1).sqlite"),
        ("", "tThreadId(1).sqlite"),
    ] {
        let pair = SqliteTransport::loopback(root.to_string(), root.to_string());
        assert_eq!(pair.thread_file("ThreadId(1)"), file);
        assert_ne!(pair.thread_file("ThreadId(1)"), pair.thread_file("ThreadId(2)"));
    }
}
