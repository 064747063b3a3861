//! Trusted declarations of the relational engine's client library, with thin
//! wrappers around the few calls the executor makes.  Verus believes the
//! contracts stated here; each doc comment names exactly what is relied on.

use crate::value::NativeValue;
use vstd::prelude::*;

verus! {

#[verifier::external_type_specification]
#[verifier::external_body]
pub struct ExConnection(rusqlite::Connection);

#[verifier::external_type_specification]
#[verifier::external_body]
pub struct ExStatement<'a>(rusqlite::Statement<'a>);

#[verifier::external_type_specification]
#[verifier::external_body]
pub struct ExSqlError(rusqlite::Error);

#[verifier::external_type_specification]
#[verifier::external_body]
pub struct ExSqlValue(rusqlite::types::Value);

/// Relies on `Connection::open`: opens the database file at the path,
/// creating the file (not its directory) if absent, and reports the
/// engine's error otherwise.  What it returns depends on the disk, so
/// nothing further is claimed.
#[verifier::external_body]
pub(crate) fn open_connection(path: &str) -> (r: Result<rusqlite::Connection, rusqlite::Error>) {
    rusqlite::Connection::open(path)
}

/// Relies on the `Display` implementation of the engine's error type: the
/// engine's own message text, preserved verbatim.
#[verifier::external_body]
pub(crate) fn error_text(e: &rusqlite::Error) -> String {
    e.to_string()
}

/// Relies on `Connection::execute_batch`: runs each statement of the batch
/// in order until one fails, returning the engine's error if any does.
#[verifier::external_body]
pub(crate) fn execute_batch(conn: &rusqlite::Connection, sql: &str) -> (r: Result<
    (),
    rusqlite::Error,
>) {
    conn.execute_batch(sql)
}

/// Relies on `Connection::execute`: prepares the statement, binds the
/// values positionally (via `params_from_iter`), runs it once, and returns
/// the engine's error if preparation, binding or execution fails.
#[verifier::external_body]
pub(crate) fn execute(
    conn: &rusqlite::Connection,
    sql: &str,
    params: Vec<rusqlite::types::Value>,
) -> (r: Result<usize, rusqlite::Error>) {
    conn.execute(sql, rusqlite::params_from_iter(params))
}

/// Relies on `Connection::prepare`: compiles the statement text against
/// this connection, or returns the engine's error.
#[verifier::external_body]
pub(crate) fn prepare<'c>(conn: &'c rusqlite::Connection, sql: &str) -> (r: Result<
    rusqlite::Statement<'c>,
    rusqlite::Error,
>) {
    conn.prepare(sql)
}

/// Relies on `Statement::column_count`: the number of columns in the
/// statement's result set.
#[verifier::external_body]
pub(crate) fn column_count(stmt: &rusqlite::Statement<'_>) -> usize {
    stmt.column_count()
}

/// Relies on `Statement::column_name`: the name of that column.  An empty
/// name stands in for an out-of-range index, as the caller never keeps an
/// error here.  (The call panics only on a non-UTF-8 column name, which
/// cannot arise from statement text that is itself UTF-8.)
#[verifier::external_body]
pub(crate) fn column_name(stmt: &rusqlite::Statement<'_>, i: usize) -> String {
    match stmt.column_name(i) {
        Ok(s) => s.to_string(),
        Err(_) => String::new(),
    }
}

/// Converts a native value into the engine's own value type, one case to
/// one case, moving the payloads; relies on the five variants of
/// `types::Value`.  The real's numeral becomes the engine's 64-bit float
/// via `str::parse` (zero stands in for an unparseable numeral, which a
/// well-formed value never carries).
#[verifier::external_body]
pub(crate) fn to_sql_value(n: NativeValue) -> rusqlite::types::Value {
    match n {
        NativeValue::Null => rusqlite::types::Value::Null,
        NativeValue::Integer(i) => rusqlite::types::Value::Integer(i),
        NativeValue::Real(t) => rusqlite::types::Value::Real(t.parse().unwrap_or_default()),
        NativeValue::Text(s) => rusqlite::types::Value::Text(s),
        NativeValue::Blob(b) => rusqlite::types::Value::Blob(b),
    }
}

/// Converts one of the engine's values back, one case to one case, moving
/// the payloads.  The real becomes its numeral via the float's `Debug`
/// formatting, which round-trips exactly and marks a whole number with a
/// trailing point-zero, so integers and reals stay distinct.
#[verifier::external_body]
pub(crate) fn native_of_sql(v: rusqlite::types::Value) -> NativeValue {
    match v {
        rusqlite::types::Value::Null => NativeValue::Null,
        rusqlite::types::Value::Integer(i) => NativeValue::Integer(i),
        rusqlite::types::Value::Real(x) => NativeValue::Real(format!("{:?}", x)),
        rusqlite::types::Value::Text(s) => NativeValue::Text(s),
        rusqlite::types::Value::Blob(b) => NativeValue::Blob(b),
    }
}

/// Relies on `Statement::query`, `Rows::next` and `Row::get`: binds the
/// values positionally, steps every result row in order, and reads each of
/// the first `ncols` columns as an engine value, converted by
/// `native_of_sql`.  The engine hands rows out through a lending iterator,
/// so the stepping loop must live in this one body.  The rows hold whatever
/// the store holds, so nothing is claimed of their contents; each returned
/// row holds exactly `ncols` values.
#[verifier::external_body]
pub(crate) fn query_all(
    stmt: &mut rusqlite::Statement<'_>,
    params: Vec<rusqlite::types::Value>,
    ncols: usize,
) -> (r: Result<Vec<Vec<NativeValue>>, rusqlite::Error>)
    ensures
        r matches Ok(rows) ==> forall|k: int|
            0 <= k < rows@.len() ==> (#[trigger] rows@[k])@.len() == ncols,
{
    let mut rows = stmt.query(rusqlite::params_from_iter(params))?;
    let mut out: Vec<Vec<NativeValue>> = Vec::new();
    while let Some(row) = rows.next()? {
        let mut rec: Vec<NativeValue> = Vec::new();
        for i in 0..ncols {
            rec.push(native_of_sql(row.get(i)?));
        }
        out.push(rec);
    }
    Ok(out)
}

} // verus!
