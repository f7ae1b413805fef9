//! What is said to the engine: the SQL of the one table, and the values bound
//! to it.

use vstd::prelude::*;

verus! {

/// The one table, created the first time the file is sent to.
pub const CREATE: &'static str = "CREATE TABLE IF NOT EXISTS xmip_transport (\
    id INTEGER PRIMARY KEY, \
    target TEXT NOT NULL, \
    payload BLOB NOT NULL, \
    claimed INTEGER NOT NULL DEFAULT 0)";

pub const INSERT: &'static str = "INSERT INTO xmip_transport (target, payload, claimed) \
    VALUES (?1, ?2, 0)";

pub const TAKE_ALL: &'static str = "UPDATE xmip_transport SET claimed = 1 \
    WHERE claimed = 0 RETURNING id, target, payload";

pub const TAKE_TARGET: &'static str = "UPDATE xmip_transport SET claimed = 1 \
    WHERE claimed = 0 AND target = ?1 RETURNING id, target, payload";

pub const IS_AVAILABLE: &'static str = "SELECT claimed FROM xmip_transport WHERE id = ?1";

pub const CLAIM: &'static str = "UPDATE xmip_transport SET claimed = 1 \
    WHERE id = ?1 AND claimed = 0";

pub const RELEASE: &'static str = "UPDATE xmip_transport SET claimed = 0 \
    WHERE id = ?1 AND claimed = 1";

/// One statement with what is bound to it.
#[derive(Clone, Copy, Debug)]
pub enum Statement<'a> {
    /// Create the table where it is not there yet.
    CreateTable,
    /// Add an unclaimed row.
    Insert { target: &'a str, payload: &'a [u8] },
    /// Claim every unclaimed row, and hand the rows back.
    TakeAll,
    /// Claim every unclaimed row that was sent to `target`, and hand the rows
    /// back.
    TakeTarget { target: &'a str },
    /// Read the `claimed` column of one row.
    IsAvailable { row: i64 },
    /// Claim one row, if it is unclaimed.
    Claim { row: i64 },
    /// Give one row up, if it is claimed.
    Release { row: i64 },
}

/// A [`Statement`] as contracts speak of it.
pub enum StatementView {
    CreateTable,
    Insert { target: Seq<char>, payload: Seq<u8> },
    TakeAll,
    TakeTarget { target: Seq<char> },
    IsAvailable { row: i64 },
    Claim { row: i64 },
    Release { row: i64 },
}

impl<'a> View for Statement<'a> {
    type V = StatementView;

    open spec fn view(&self) -> StatementView {
        match *self {
            Statement::CreateTable => StatementView::CreateTable,
            Statement::Insert { target, payload } => StatementView::Insert {
                target: target@,
                payload: payload@,
            },
            Statement::TakeAll => StatementView::TakeAll,
            Statement::TakeTarget { target } => StatementView::TakeTarget { target: target@ },
            Statement::IsAvailable { row } => StatementView::IsAvailable { row },
            Statement::Claim { row } => StatementView::Claim { row },
            Statement::Release { row } => StatementView::Release { row },
        }
    }
}

/// A value bound to a statement.
#[derive(Clone, Copy, Debug)]
pub enum Parameter<'a> {
    Text(&'a str),
    Blob(&'a [u8]),
    Integer(i64),
}

/// A [`Parameter`] as contracts speak of it.
pub enum ParameterView {
    Text(Seq<char>),
    Blob(Seq<u8>),
    Integer(i64),
}

impl<'a> View for Parameter<'a> {
    type V = ParameterView;

    open spec fn view(&self) -> ParameterView {
        match *self {
            Parameter::Text(text) => ParameterView::Text(text@),
            Parameter::Blob(bytes) => ParameterView::Blob(bytes@),
            Parameter::Integer(n) => ParameterView::Integer(n),
        }
    }
}

impl StatementView {
    /// The text of the statement.
    pub open spec fn sql(self) -> Seq<char> {
        match self {
            StatementView::CreateTable => CREATE@,
            StatementView::Insert { .. } => INSERT@,
            StatementView::TakeAll => TAKE_ALL@,
            StatementView::TakeTarget { .. } => TAKE_TARGET@,
            StatementView::IsAvailable { .. } => IS_AVAILABLE@,
            StatementView::Claim { .. } => CLAIM@,
            StatementView::Release { .. } => RELEASE@,
        }
    }

    /// The values bound to the statement, `?1` first.
    pub open spec fn parameters(self) -> Seq<ParameterView> {
        match self {
            StatementView::CreateTable => seq![],
            StatementView::Insert { target, payload } => seq![
                ParameterView::Text(target),
                ParameterView::Blob(payload),
            ],
            StatementView::TakeAll => seq![],
            StatementView::TakeTarget { target } => seq![ParameterView::Text(target)],
            StatementView::IsAvailable { row } => seq![ParameterView::Integer(row)],
            StatementView::Claim { row } => seq![ParameterView::Integer(row)],
            StatementView::Release { row } => seq![ParameterView::Integer(row)],
        }
    }
}

impl<'a> Statement<'a> {
    /// The text of the statement.
    pub fn sql(&self) -> (sql: &'static str)
        ensures
            sql@ == self@.sql(),
    {
        match *self {
            Statement::CreateTable => CREATE,
            Statement::Insert { .. } => INSERT,
            Statement::TakeAll => TAKE_ALL,
            Statement::TakeTarget { .. } => TAKE_TARGET,
            Statement::IsAvailable { .. } => IS_AVAILABLE,
            Statement::Claim { .. } => CLAIM,
            Statement::Release { .. } => RELEASE,
        }
    }

    /// The values bound to the statement, `?1` first.
    pub fn parameters(&self) -> (parameters: Vec<Parameter<'a>>)
        ensures
            parameters@.map_values(|parameter: Parameter<'a>| parameter@) == self@.parameters(),
            match *self {
                Statement::CreateTable | Statement::TakeAll => parameters@.len() == 0,
                Statement::Insert { target, payload } => parameters@ == seq![
                    Parameter::Text(target),
                    Parameter::Blob(payload),
                ],
                Statement::TakeTarget { target } => parameters@ == seq![Parameter::Text(target)],
                Statement::IsAvailable { row } | Statement::Claim { row } | Statement::Release {
                    row,
                } => parameters@ == seq![Parameter::Integer(row)],
            },
    {
        let mut parameters: Vec<Parameter<'a>> = Vec::new();
        match *self {
            Statement::CreateTable => {},
            Statement::Insert { target, payload } => {
                parameters.push(Parameter::Text(target));
                parameters.push(Parameter::Blob(payload));
            },
            Statement::TakeAll => {},
            Statement::TakeTarget { target } => {
                parameters.push(Parameter::Text(target));
            },
            Statement::IsAvailable { row } => {
                parameters.push(Parameter::Integer(row));
            },
            Statement::Claim { row } => {
                parameters.push(Parameter::Integer(row));
            },
            Statement::Release { row } => {
                parameters.push(Parameter::Integer(row));
            },
        }
        assert(parameters@.map_values(|parameter: Parameter<'a>| parameter@)
            =~= self@.parameters());
        parameters
    }
}

/// What is bound is seen as it is: a text by its characters, a blob by its
/// bytes, and a number by itself.
pub proof fn what_is_bound_is_seen_as_it_is(text: &str, bytes: &[u8], n: i64)
    ensures
        Parameter::Text(text)@ == ParameterView::Text(text@),
        Parameter::Blob(bytes)@ == ParameterView::Blob(bytes@),
        Parameter::Integer(n)@ == ParameterView::Integer(n),
{
}

/// A statement is seen with all that it was made of.
pub proof fn a_statement_is_seen_whole(target: &str, payload: &[u8], row: i64)
    ensures
        Statement::CreateTable@ == StatementView::CreateTable,
        (Statement::Insert { target, payload })@ == (StatementView::Insert {
            target: target@,
            payload: payload@,
        }),
        Statement::TakeAll@ == StatementView::TakeAll,
        (Statement::TakeTarget { target })@ == (StatementView::TakeTarget { target: target@ }),
        (Statement::IsAvailable { row })@ == (StatementView::IsAvailable { row }),
        (Statement::Claim { row })@ == (StatementView::Claim { row }),
        (Statement::Release { row })@ == (StatementView::Release { row }),
{
}

/// The text of a statement and the values bound to it tell it from every other:
/// nothing of a target, a payload or a row is lost on the way to the engine.
pub proof fn statements_are_told_apart(a: StatementView, b: StatementView)
    requires
        a.sql() == b.sql(),
        a.parameters() == b.parameters(),
    ensures
        a == b,
{
    reveal_strlit(
        "CREATE TABLE IF NOT EXISTS xmip_transport (\
        id INTEGER PRIMARY KEY, target TEXT NOT NULL, payload BLOB NOT NULL, \
        claimed INTEGER NOT NULL DEFAULT 0)",
    );
    reveal_strlit("INSERT INTO xmip_transport (target, payload, claimed) VALUES (?1, ?2, 0)");
    reveal_strlit(
        "UPDATE xmip_transport SET claimed = 1 \
        WHERE claimed = 0 RETURNING id, target, payload",
    );
    reveal_strlit(
        "UPDATE xmip_transport SET claimed = 1 \
        WHERE claimed = 0 AND target = ?1 RETURNING id, target, payload",
    );
    reveal_strlit("SELECT claimed FROM xmip_transport WHERE id = ?1");
    reveal_strlit("UPDATE xmip_transport SET claimed = 1 WHERE id = ?1 AND claimed = 0");
    reveal_strlit("UPDATE xmip_transport SET claimed = 0 WHERE id = ?1 AND claimed = 1");
    // The two texts of one length part where the column is set.
    assert(CLAIM@[36] == '1' && RELEASE@[36] == '0');
    assert(CREATE@.len() != INSERT@.len() && TAKE_ALL@.len() != TAKE_TARGET@.len());
    assert(IS_AVAILABLE@.len() != CLAIM@.len());
    assert(a is Claim == b is Claim && a is Release == b is Release);
    let bound = b.parameters();
    match a {
        StatementView::Insert { target, payload } => {
            assert(bound[0] == ParameterView::Text(target));
            assert(bound[1] == ParameterView::Blob(payload));
        },
        StatementView::TakeTarget { target } => {
            assert(bound[0] == ParameterView::Text(target));
        },
        StatementView::IsAvailable { row } | StatementView::Claim { row }
        | StatementView::Release { row } => {
            assert(bound[0] == ParameterView::Integer(row));
        },
        _ => {},
    }
}

} // verus!
