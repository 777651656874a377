//! Policy engine: the auto-restart flag read per event from the `FEATURE`
//! table, and the per-process heartbeat thresholds loaded once from the
//! `HEARTBEAT` table.  Both reads fail open: an unreachable store means
//! auto-restart `enabled` and an empty threshold table.

use vstd::prelude::*;

use crate::childutils::HeaderMap;
use crate::namedmap::NamedMap;
use crate::strutil::{parse_i64_spec, parse_i64};

verus! {

/// A failure reported by the configuration store.
pub struct DbError {
    pub msg: String,
}

/// The configuration store: one operation, reading a named table as rows
/// of field mappings.  The production implementation wraps the store's
/// client; tests substitute fixed tables.  Nothing is assumed of what a
/// read returns: callers state what holds of every outcome.
pub trait ConfigDBTrait {
    fn get_table(&self, table: &str) -> Result<Vec<(String, HeaderMap)>, DbError>;
}

/// The command line of the listener: the container whose policy row is
/// consulted, and which transport reaches the configuration store.
pub struct Args {
    pub container_name: String,
    pub use_unix_socket_path: bool,
}

/// The listener's error classes.
#[derive(Debug)]
pub enum SupervisorError {
    Io(String),
    Parse(String),
    Config(String),
    Database(String),
    System(String),
}

/// Index of the first row named `k`.
pub open spec fn row_index_from(t: Seq<(String, HeaderMap)>, k: Seq<char>, i: int) -> Option<int>
    decreases t.len() - i,
{
    if i < 0 || i >= t.len() {
        None
    } else if t[i].0@ == k {
        Some(i)
    } else {
        row_index_from(t, k, i + 1)
    }
}

/// The auto-restart answer a feature table gives: nothing from an empty
/// table or an absent row; the row's `auto_restart` field otherwise, with
/// `enabled` standing in where the row lacks the field.
pub open spec fn autorestart_spec(t: Seq<(String, HeaderMap)>, container: Seq<char>) -> Option<
    Seq<char>,
> {
    if t.len() == 0 {
        None
    } else {
        match row_index_from(t, container, 0) {
            Some(j) => Some(
                if t[j].1@.contains_key("auto_restart"@) {
                    t[j].1@["auto_restart"@]
                } else {
                    "enabled"@
                },
            ),
            None => None,
        }
    }
}

proof fn lemma_row_index_stop(t: Seq<(String, HeaderMap)>, k: Seq<char>, j: int, i: int)
    requires
        0 <= j <= i < t.len(),
        forall|m: int| j <= m < i ==> #[trigger] t[m].0@ != k,
        t[i].0@ == k,
    ensures
        row_index_from(t, k, j) == Some(i),
    decreases i - j,
{
    if j < i {
        lemma_row_index_stop(t, k, j + 1, i);
    }
}

proof fn lemma_row_index_none(t: Seq<(String, HeaderMap)>, k: Seq<char>, j: int)
    requires
        0 <= j <= t.len(),
        forall|m: int| j <= m < t.len() ==> #[trigger] t[m].0@ != k,
    ensures
        row_index_from(t, k, j) == None::<int>,
    decreases t.len() - j,
{
    if j < t.len() {
        lemma_row_index_none(t, k, j + 1);
    }
}

/// Finds the first row named `key`.
fn find_row<'a>(table: &'a Vec<(String, HeaderMap)>, key: &str) -> (r: Option<&'a HeaderMap>)
    ensures
        match r {
            Some(h) => {
                &&& row_index_from(table@, key@, 0) is Some
                &&& 0 <= row_index_from(table@, key@, 0).unwrap() < table@.len()
                &&& *h == table@[row_index_from(table@, key@, 0).unwrap()].1
            },
            None => row_index_from(table@, key@, 0) == None::<int>,
        },
{
    let n: usize = table.len();
    let mut i: usize = 0;
    while i < n
        invariant
            n == table@.len(),
            0 <= i <= n,
            forall|m: int| 0 <= m < i ==> #[trigger] table@[m].0@ != key@,
        decreases n - i,
    {
        let e = &table[i];
        if crate::strutil::str_eq(e.0.as_str(), key) {
            proof {
                lemma_row_index_stop(table@, key@, 0, i as int);
            }
            return Some(&e.1);
        }
        i = i + 1;
    }
    proof {
        lemma_row_index_none(table@, key@, 0);
    }
    None
}

/// Whether every row of a fetched table is a well-formed mapping.  Tables
/// built by this crate's constructors always are; a table handed over by
/// an arbitrary store implementation need not be, so the exact contracts
/// below are conditional on it.
pub open spec fn table_wf(t: Seq<(String, HeaderMap)>) -> bool {
    forall|i: int| 0 <= i < t.len() ==> (#[trigger] t[i].1).wf()
}

/// Reads the auto-restart state out of an already-fetched feature table:
/// `None` when the table is empty or has no row for the container, the
/// row's `auto_restart` field otherwise, defaulting to `enabled` when the
/// field is absent.
pub fn autorestart_state_from_table(table: &Vec<(String, HeaderMap)>, container_name: &str) -> (r:
    Option<String>)
    ensures
        r is Some <==> autorestart_spec(table@, container_name@) is Some,
        table_wf(table@) ==> match r {
            Some(s) => autorestart_spec(table@, container_name@) == Some(s@),
            None => autorestart_spec(table@, container_name@) == None::<Seq<char>>,
        },
{
    if table.len() == 0 {
        return None;
    }
    match find_row(table, container_name) {
        Some(row) => {
            proof {
                if table_wf(table@) {
                    let j = row_index_from(table@, container_name@, 0).unwrap();
                    assert(table@[j].1.wf());
                    assert(row.wf());
                }
            }
            match row.get("auto_restart") {
                Some(v) => Some(v.clone()),
                None => Some("enabled".to_owned()),
            }
        },
        None => None,
    }
}

/// Queries the configuration store for the container's auto-restart
/// state: `None` on a store failure, else the feature table's answer.
/// The dispatcher fails open, treating every answer but `disabled` as
/// permission to restart.
pub fn get_autorestart_state<D: ConfigDBTrait + ?Sized>(container_name: &str, config_db: &D) -> (r:
    Option<String>)
{
    match config_db.get_table("FEATURE") {
        Ok(table) => autorestart_state_from_table(&table, container_name),
        Err(_) => None,
    }
}

/// The thresholds a heartbeat table loads into: one row per process whose
/// `alert_interval` field parses as a signed decimal count of
/// milliseconds; every other row is skipped.
pub open spec fn intervals_of(t: Seq<(String, HeaderMap)>) -> Map<Seq<char>, i64>
    decreases t.len(),
{
    if t.len() == 0 {
        Map::<Seq<char>, i64>::empty()
    } else {
        let m = intervals_of(t.drop_last());
        let row = t.last();
        if row.1@.contains_key("alert_interval"@) && parse_i64_spec(
            row.1@["alert_interval"@],
        ) is Some {
            m.insert(row.0@, parse_i64_spec(row.1@["alert_interval"@]).unwrap())
        } else {
            m
        }
    }
}

/// Loads the per-process heartbeat thresholds from an already-fetched
/// `HEARTBEAT` table: every row with a numeric `alert_interval` field
/// (milliseconds) is kept; the rest are skipped silently.
pub fn load_heartbeat_intervals_from_table(table: &Vec<(String, HeaderMap)>) -> (r: NamedMap<i64>)
    ensures
        r.wf(),
        table_wf(table@) ==> r@ == intervals_of(table@),
{
    let mut m: NamedMap<i64> = NamedMap::new();
    let n: usize = table.len();
    let mut i: usize = 0;
    while i < n
        invariant
            n == table@.len(),
            0 <= i <= n,
            m.wf(),
            table_wf(table@) ==> m@ == intervals_of(table@.take(i as int)),
        decreases n - i,
    {
        let row = &table[i];
        proof {
            assert(table@.take(i as int + 1).drop_last() =~= table@.take(i as int));
            assert(table@.take(i as int + 1).last() == table@[i as int]);
        }
        match row.1.get("alert_interval") {
            Some(v) => {
                match parse_i64(v.as_str()) {
                    Some(ms) => {
                        m.upsert(row.0.clone(), ms);
                    },
                    None => {},
                }
            },
            None => {},
        }
        i = i + 1;
    }
    proof {
        assert(table@.take(n as int) =~= table@);
    }
    m
}

/// Loads the heartbeat thresholds from the configuration store, falling
/// back to an empty table when the store cannot be read.
pub fn load_heartbeat_alert_interval<D: ConfigDBTrait + ?Sized>(config_db: &D) -> (r: NamedMap<
    i64,
>)
    ensures
        r.wf(),
{
    match config_db.get_table("HEARTBEAT") {
        Ok(table) => load_heartbeat_intervals_from_table(&table),
        Err(_) => NamedMap::new(),
    }
}

} // verus!
