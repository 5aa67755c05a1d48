//! Choice of the data storage engine from its configured name.
use vstd::prelude::*;
use crate::text::{chars_eq, chars_of, lowercase_of, string_of, to_lower, trim, trim_chars};

verus! {

/// Supported storage engine kinds, parsed from the `DDB_STORAGE` setting.
#[derive(Debug, Clone, Copy, PartialEq, Eq, Structural)]
pub enum EngineKind {
    /// In-memory backend (no persistence).
    Memory,
    /// PostgreSQL backend (production default).
    Postgres,
    /// File-based backend (RocksDB) — reserved for future use.
    File,
}

/// The engine a (trimmed, lower-cased) setting names; anything else is
/// PostgreSQL.
pub open spec fn engine_kind_of(s: Seq<char>) -> EngineKind {
    let t = to_lower(trim(s));
    if t == "memory"@ || t == "mem"@ || t == "inmemory"@ || t == "in-memory"@ {
        EngineKind::Memory
    } else if t == "postgres"@ || t == "pg"@ || t == "postgresql"@ {
        EngineKind::Postgres
    } else if t == "file"@ || t == "rocksdb"@ || t == "rocks"@ {
        EngineKind::File
    } else {
        EngineKind::Postgres
    }
}

fn is_word(s: &Vec<char>, w: &str) -> (r: bool)
    ensures
        r <==> s@ == w@,
{
    chars_eq(s.as_slice(), chars_of(w).as_slice())
}

impl EngineKind {
    /// Parse the engine kind from a setting; unrecognized values fall back
    /// to [`EngineKind::Postgres`].
    pub fn from_env_str(s: &str) -> (r: EngineKind)
        ensures
            r == engine_kind_of(s@),
    {
        let trimmed = string_of(trim_chars(&chars_of(s)).as_slice());
        let t = lowercase_of(trimmed.as_str());
        if is_word(&t, "memory") || is_word(&t, "mem") || is_word(&t, "inmemory") || is_word(&t, "in-memory") {
            EngineKind::Memory
        } else if is_word(&t, "postgres") || is_word(&t, "pg") || is_word(&t, "postgresql") {
            EngineKind::Postgres
        } else if is_word(&t, "file") || is_word(&t, "rocksdb") || is_word(&t, "rocks") {
            EngineKind::File
        } else {
            EngineKind::Postgres
        }
    }

    /// Whether the setting was one of the recognized names (an
    /// unrecognized one is reported before falling back to PostgreSQL).
    pub fn is_known_name(s: &str) -> (r: bool)
        ensures
            r <==> ({
                let t = to_lower(trim(s@));
                t == "memory"@ || t == "mem"@ || t == "inmemory"@ || t == "in-memory"@ || t == "postgres"@ || t
                    == "pg"@ || t == "postgresql"@ || t == "file"@ || t == "rocksdb"@ || t == "rocks"@
            }),
    {
        let trimmed = string_of(trim_chars(&chars_of(s)).as_slice());
        let t = lowercase_of(trimmed.as_str());
        is_word(&t, "memory") || is_word(&t, "mem") || is_word(&t, "inmemory") || is_word(&t, "in-memory")
            || is_word(&t, "postgres") || is_word(&t, "pg") || is_word(&t, "postgresql") || is_word(&t, "file")
            || is_word(&t, "rocksdb") || is_word(&t, "rocks")
    }
}

/// Why a data engine could not be built.
#[derive(Debug, Clone, Copy, PartialEq, Eq, Structural)]
pub enum EngineError {
    /// The PostgreSQL backend needs a connection pool and none was given.
    MissingPool,
    /// The file-based backend is not implemented.
    FileUnsupported,
}

/// The backend a kind of engine is built with, given whether a
/// PostgreSQL pool is available.
pub fn engine_plan(kind: EngineKind, has_pool: bool) -> (r: Result<EngineKind, EngineError>)
    ensures
        kind == EngineKind::Memory ==> r == Ok::<EngineKind, EngineError>(EngineKind::Memory),
        kind == EngineKind::Postgres ==> r == (if has_pool {
            Ok::<EngineKind, EngineError>(EngineKind::Postgres)
        } else {
            Err(EngineError::MissingPool)
        }),
        kind == EngineKind::File ==> r == Err::<EngineKind, EngineError>(EngineError::FileUnsupported),
{
    match kind {
        EngineKind::Memory => Ok(EngineKind::Memory),
        EngineKind::Postgres => if has_pool {
            Ok(EngineKind::Postgres)
        } else {
            Err(EngineError::MissingPool)
        },
        EngineKind::File => Err(EngineError::FileUnsupported),
    }
}

} // verus!
