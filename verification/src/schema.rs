//! The tables of the code graph's database, and how one of an earlier shape is opened.

use vstd::prelude::*;

use crate::text::{concat2, contains, has_str};

verus! {

/// The tables of a new database.
pub const SCHEMA_SQL: &'static str = "
PRAGMA foreign_keys = ON;

CREATE TABLE nodes (
    id INTEGER PRIMARY KEY AUTOINCREMENT,
    file TEXT NOT NULL,
    language TEXT NOT NULL,
    kind TEXT NOT NULL,
    name TEXT NOT NULL,
    range_start INTEGER NOT NULL,
    range_end INTEGER NOT NULL,
    signature TEXT,
    content_hash TEXT NOT NULL DEFAULT '',
    visibility TEXT NOT NULL DEFAULT 'private',
    doc TEXT,
    role TEXT NOT NULL DEFAULT 'unknown',
    role_confidence REAL NOT NULL DEFAULT 0.0,
    complexity INTEGER,
    stable_id TEXT NOT NULL DEFAULT '',
    qualified_name TEXT NOT NULL DEFAULT '',
    trait_impl TEXT
);

CREATE TABLE edges (
    id INTEGER PRIMARY KEY AUTOINCREMENT,
    from_id INTEGER NOT NULL,
    to_id INTEGER NOT NULL,
    edge_type TEXT NOT NULL,
    source TEXT NOT NULL DEFAULT 'tree-sitter',
    confidence REAL NOT NULL DEFAULT 0.8,
    confidence_tier TEXT,
    FOREIGN KEY(from_id) REFERENCES nodes(id) ON DELETE CASCADE,
    FOREIGN KEY(to_id) REFERENCES nodes(id) ON DELETE CASCADE
);

CREATE TABLE files (
    id INTEGER PRIMARY KEY AUTOINCREMENT,
    path TEXT UNIQUE NOT NULL,
    file_hash TEXT NOT NULL,
    doc TEXT
);

CREATE TABLE annotations (
    id INTEGER PRIMARY KEY AUTOINCREMENT,
    node_id INTEGER NOT NULL UNIQUE REFERENCES nodes(id) ON DELETE CASCADE,
    intent TEXT,
    behavior TEXT,
    tags TEXT,
    source TEXT NOT NULL DEFAULT 'llm',
    confidence REAL NOT NULL DEFAULT 0.8,
    content_hash_at_annotation TEXT NOT NULL DEFAULT ''
);

CREATE TABLE crate_advisories (
    id INTEGER PRIMARY KEY AUTOINCREMENT,
    package_name TEXT NOT NULL,
    version TEXT NOT NULL,
    advisory_id TEXT NOT NULL,
    title TEXT NOT NULL,
    cvss TEXT,
    severity TEXT,
    category TEXT,
    kind TEXT NOT NULL,
    date TEXT,
    UNIQUE(package_name, version, advisory_id)
);

CREATE TABLE node_diagnostics (
    id INTEGER PRIMARY KEY,
    node_id INTEGER NOT NULL REFERENCES nodes(id) ON DELETE CASCADE,
    code TEXT NOT NULL,
    level TEXT NOT NULL,
    message TEXT NOT NULL,
    suggestion TEXT,
    created_at INTEGER NOT NULL DEFAULT (strftime('%s','now'))
);

CREATE VIRTUAL TABLE fts_symbols USING fts5(
    name,
    qualified_name,
    signature,
    file,
    language,
    node_id UNINDEXED,
    tokenize='porter unicode61'
);

CREATE INDEX idx_edges_from ON edges(from_id);
CREATE INDEX idx_edges_to ON edges(to_id);
CREATE INDEX idx_edges_to_source ON edges(to_id, source);
CREATE INDEX idx_nodes_file ON nodes(file);
CREATE INDEX idx_node_diagnostics_node ON node_diagnostics(node_id);
CREATE INDEX idx_node_diagnostics_code ON node_diagnostics(code);
";

/// How a new database is set up, before its tables.
pub const INIT_PRAGMAS: &'static str = "PRAGMA journal_mode=WAL; PRAGMA busy_timeout=5000;\n";

/// How an existing database is set up.
pub const OPEN_PRAGMAS: &'static str =
    "PRAGMA journal_mode=WAL; PRAGMA busy_timeout=5000; PRAGMA foreign_keys = ON;";

/// Asks whether a database knows files.
pub const HAS_FILES_SQL: &'static str =
    "SELECT COUNT(*) FROM sqlite_master WHERE type='table' AND name='files'";

/// Asks how the search table was made.
pub const FTS_SQL: &'static str =
    "SELECT sql FROM sqlite_master WHERE type='table' AND name='fts_symbols'";

/// The statements that bring an existing database to the present shape where it lacks
/// something, one to an entry. Each may fail where there is nothing to add.
pub const UPGRADES: [&'static str; 9] = [
    "ALTER TABLE files ADD COLUMN doc TEXT",
    "ALTER TABLE nodes ADD COLUMN role TEXT NOT NULL DEFAULT 'unknown'",
    "ALTER TABLE nodes ADD COLUMN role_confidence REAL NOT NULL DEFAULT 0.0",
    "ALTER TABLE nodes ADD COLUMN complexity INTEGER",
    "CREATE INDEX IF NOT EXISTS idx_edges_to_source ON edges(to_id, source)",
    "ALTER TABLE nodes ADD COLUMN stable_id TEXT NOT NULL DEFAULT ''",
    "ALTER TABLE nodes ADD COLUMN qualified_name TEXT NOT NULL DEFAULT ''",
    "ALTER TABLE nodes ADD COLUMN trait_impl TEXT",
    "ALTER TABLE edges ADD COLUMN confidence_tier TEXT",
];

/// The tables that an existing database may lack.
pub const LATER_TABLES: [&'static str; 2] = [
    "CREATE TABLE IF NOT EXISTS node_diagnostics (
            id        INTEGER PRIMARY KEY,
            node_id   INTEGER NOT NULL REFERENCES nodes(id) ON DELETE CASCADE,
            code      TEXT NOT NULL,
            level     TEXT NOT NULL,
            message   TEXT NOT NULL,
            suggestion TEXT,
            created_at INTEGER NOT NULL DEFAULT (strftime('%s','now'))
        );
        CREATE INDEX IF NOT EXISTS idx_node_diagnostics_node
            ON node_diagnostics(node_id);
        CREATE INDEX IF NOT EXISTS idx_node_diagnostics_code
            ON node_diagnostics(code);",
    "CREATE TABLE IF NOT EXISTS crate_advisories (
            id INTEGER PRIMARY KEY AUTOINCREMENT,
            package_name TEXT NOT NULL,
            version TEXT NOT NULL,
            advisory_id TEXT NOT NULL,
            title TEXT NOT NULL,
            cvss TEXT,
            severity TEXT,
            category TEXT,
            kind TEXT NOT NULL,
            date TEXT,
            UNIQUE(package_name, version, advisory_id)
        );
        CREATE INDEX IF NOT EXISTS idx_crate_advisories_package
            ON crate_advisories(package_name);
        CREATE INDEX IF NOT EXISTS idx_crate_advisories_kind
            ON crate_advisories(kind);",
];

/// Makes the search table anew from the symbols.
pub const REBUILD_FTS: &'static str = "DROP TABLE IF EXISTS fts_symbols;
             CREATE VIRTUAL TABLE fts_symbols USING fts5(
                 name, qualified_name, signature, file, language,
                 node_id UNINDEXED,
                 tokenize='porter unicode61'
             );
             INSERT INTO fts_symbols (name, qualified_name, signature, file, language, node_id)
             SELECT name, qualified_name, signature, file, language, id FROM nodes;";

/// What is executed to make a new database.
pub fn init_batch() -> (r: String)
    ensures
        r@ == INIT_PRAGMAS@ + SCHEMA_SQL@,
{
    concat2(INIT_PRAGMAS, SCHEMA_SQL)
}

/// How a database is opened.
#[derive(Clone, Copy, PartialEq, Eq, Structural, Debug)]
pub enum Opening {
    /// Make it anew.
    Create,
    /// Bring it to the present shape.
    Upgrade,
}

/// How a database is opened: anew where there is none, or where it does not know files and
/// so cannot be indexed file by file. `files_tables` is what asking for them gave, if it
/// gave anything.
pub fn opening(exists_already: bool, files_tables: Option<i64>) -> (r: Opening)
    ensures
        r == if exists_already && (files_tables matches Some(n) && n > 0) {
            Opening::Upgrade
        } else {
            Opening::Create
        },
{
    if !exists_already {
        return Opening::Create;
    }
    match files_tables {
        Some(n) => if n > 0 {
            Opening::Upgrade
        } else {
            Opening::Create
        },
        None => Opening::Create,
    }
}

/// The search table has to be made anew: it is missing, or was made without qualified names.
pub fn needs_fts_rebuild(sql: &Option<String>) -> (r: bool)
    ensures
        r == match sql {
            Some(s) => !has_str(s@, "qualified_name"@),
            None => true,
        },
{
    match sql {
        Some(s) => !contains(s, "qualified_name"),
        None => true,
    }
}

} // verus!
