//! The statement executor: one self-contained call per operation.  Each call
//! opens the store, bridges every parameter inbound, runs one statement, and
//! for reads materializes every result row as a keyed record with every
//! column bridged outbound.  Nothing is held across calls but the path.

use crate::bridge::{external_ok, native_ok, to_external, to_native};
use crate::sql;
use crate::text::{chars_of, string_of};
use crate::value::{DbError, ExternalValue, NativeValue};
use vstd::prelude::*;

verus! {

broadcast use {vstd::seq::group_seq_axioms, vstd::std_specs::vec::group_vec_axioms};

/// A handle on the backing store: the resolved file path, threaded into
/// every call rather than held as ambient state.
pub struct Store {
    pub path: String,
}

/// Bridges every parameter inbound, in order.
pub fn bind_params(params: &Vec<ExternalValue>) -> (r: Vec<NativeValue>)
    ensures
        r@.len() == params@.len(),
        forall|k: int| 0 <= k < params@.len() ==> native_ok(params@[k], #[trigger] r@[k]),
{
    let mut out: Vec<NativeValue> = Vec::new();
    let mut k: usize = 0;
    while k < params.len()
        invariant
            k <= params@.len(),
            out@.len() == k,
            forall|j: int| 0 <= j < k ==> native_ok(params@[j], #[trigger] out@[j]),
        decreases params@.len() - k,
    {
        out.push(to_native(&params[k]));
        k += 1;
    }
    out
}

/// Hands every native value over to the engine's own value type, in order.
fn to_sql_values(natives: Vec<NativeValue>) -> Vec<rusqlite::types::Value> {
    let mut natives = natives;
    let mut out: Vec<rusqlite::types::Value> = Vec::new();
    while natives.len() > 0
        decreases natives@.len(),
    {
        let n = natives.remove(0);
        out.push(sql::to_sql_value(n));
    }
    out
}

/// Builds one keyed record from one result row: the ordered object pairing
/// the statement's column names with the outbound bridging of the row's
/// native values, position by position.
pub fn record_of_row(names: &Vec<String>, row: Vec<NativeValue>) -> (r: ExternalValue)
    requires
        names@.len() == row@.len(),
    ensures
        r matches ExternalValue::Object(ps) && ps@.len() == names@.len() && forall|k: int|
            0 <= k < names@.len() ==> (#[trigger] ps@[k]).0@ == names@[k]@ && external_ok(
                row@[k],
                ps@[k].1,
            ),
{
    let ghost row0 = row@;
    let mut row = row;
    let mut ps: Vec<(String, ExternalValue)> = Vec::new();
    let mut k: usize = 0;
    while k < names.len()
        invariant
            k <= names@.len(),
            names@.len() == row0.len(),
            row@ =~= row0.subrange(k as int, row0.len() as int),
            ps@.len() == k,
            forall|j: int|
                0 <= j < k ==> (#[trigger] ps@[j]).0@ == names@[j]@ && external_ok(
                    row0[j],
                    ps@[j].1,
                ),
        decreases names@.len() - k,
    {
        let n = row.remove(0);
        proof {
            assert(n == row0[k as int]);
        }
        let e = to_external(n);
        let name = names[k].clone();
        ps.push((name, e));
        proof {
            assert(row@ =~= row0.subrange(k as int + 1, row0.len() as int));
        }
        k += 1;
    }
    ExternalValue::Object(ps)
}

impl Store {
    /// A store backed by the file at the given path.
    pub fn new(path: String) -> (r: Store)
        ensures
            r.path@ == path@,
    {
        Store { path }
    }

    /// The store at its fixed relative location under a host-resolved
    /// application data directory.
    pub fn in_app_dir(dir: &str) -> (r: Store)
        ensures
            r.path@ == dir@ + "/data/truckore_data.db"@,
    {
        let mut cs = chars_of(dir);
        let suffix = chars_of("/data/truckore_data.db");
        let mut k: usize = 0;
        while k < suffix.len()
            invariant
                k <= suffix@.len(),
                cs@ == dir@ + suffix@.take(k as int),
            decreases suffix@.len() - k,
        {
            cs.push(suffix[k]);
            proof {
                assert(dir@ + suffix@.take(k as int + 1) =~= (dir@ + suffix@.take(k as int)).push(
                    suffix@[k as int],
                ));
            }
            k += 1;
        }
        proof {
            assert(suffix@.take(suffix@.len() as int) =~= suffix@);
        }
        Store { path: string_of(&cs) }
    }

    /// Applies the schema batch in full, opening (and creating if absent)
    /// the backing file.  Safe to call repeatedly when the batch's own
    /// statements are guarded, since nothing tracks whether it already ran.
    /// The enclosing directory must already exist: the host rim creates it
    /// and reports a failure there as `DbError::Io`.
    pub fn initialize(&self, schema: &str) -> (r: Result<(), DbError>)
        ensures
            r matches Err(e) ==> (e is Connection || e is Schema),
    {
        let conn = match sql::open_connection(self.path.as_str()) {
            Ok(c) => c,
            Err(e) => {
                return Err(DbError::Connection(sql::error_text(&e)));
            },
        };
        match sql::execute_batch(&conn, schema) {
            Ok(_) => Ok(()),
            Err(e) => Err(DbError::Schema(sql::error_text(&e))),
        }
    }

    /// Runs a read statement: bridges every parameter inbound, executes,
    /// and materializes every result row as a record keyed by the
    /// statement's column names (captured once, reused for every row), each
    /// column bridged outbound.  Any engine failure aborts the whole call:
    /// either every row is returned or none.
    pub fn run_query(&self, sql_text: &str, params: &Vec<ExternalValue>) -> (r: Result<
        Vec<ExternalValue>,
        DbError,
    >)
        ensures
            r matches Ok(recs) ==> forall|k: int|
                0 <= k < recs@.len() ==> (#[trigger] recs@[k]) is Object,
            r matches Err(e) ==> (e is Connection || e is Query),
    {
        let natives = bind_params(params);
        let vals = to_sql_values(natives);
        let conn = match sql::open_connection(self.path.as_str()) {
            Ok(c) => c,
            Err(e) => {
                return Err(DbError::Connection(sql::error_text(&e)));
            },
        };
        let mut stmt = match sql::prepare(&conn, sql_text) {
            Ok(s) => s,
            Err(e) => {
                return Err(DbError::Query(sql::error_text(&e)));
            },
        };
        let ncols = sql::column_count(&stmt);
        let mut names: Vec<String> = Vec::new();
        let mut k: usize = 0;
        while k < ncols
            invariant
                k <= ncols,
                names@.len() == k,
            decreases ncols - k,
        {
            names.push(sql::column_name(&stmt, k));
            k += 1;
        }
        let mut rows = match sql::query_all(&mut stmt, vals, ncols) {
            Ok(r) => r,
            Err(e) => {
                return Err(DbError::Query(sql::error_text(&e)));
            },
        };
        let mut recs: Vec<ExternalValue> = Vec::new();
        while rows.len() > 0
            invariant
                names@.len() == ncols,
                forall|j: int| 0 <= j < rows@.len() ==> (#[trigger] rows@[j])@.len() == ncols,
                forall|j: int| 0 <= j < recs@.len() ==> (#[trigger] recs@[j]) is Object,
            decreases rows@.len(),
        {
            let row = rows.remove(0);
            let rec = record_of_row(&names, row);
            recs.push(rec);
        }
        Ok(recs)
    }

    /// Runs a write statement: the same preparation and binding path as a
    /// read, without iterating rows.
    pub fn run_command(&self, sql_text: &str, params: &Vec<ExternalValue>) -> (r: Result<
        (),
        DbError,
    >)
        ensures
            r matches Err(e) ==> (e is Connection || e is Query),
    {
        let natives = bind_params(params);
        let vals = to_sql_values(natives);
        let conn = match sql::open_connection(self.path.as_str()) {
            Ok(c) => c,
            Err(e) => {
                return Err(DbError::Connection(sql::error_text(&e)));
            },
        };
        match sql::execute(&conn, sql_text, vals) {
            Ok(_) => Ok(()),
            Err(e) => Err(DbError::Query(sql::error_text(&e))),
        }
    }
}

} // verus!
