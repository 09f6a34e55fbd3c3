pub mod annotate;
pub mod arch;
pub mod audit;
pub mod capabilities;
pub mod clippy_enricher;
pub mod config;
pub mod discover;
pub mod init_cmd;
pub mod insert;
pub mod ipc;
pub mod json;
pub mod language;
pub mod lsp;
pub mod lsp_client;
pub mod model;
pub mod order;
pub mod parser;
pub mod paths;
pub mod policy;
pub mod query;
pub mod reclassify;
pub mod refactor;
pub mod resolver;
pub mod roles;
pub mod rustdoc_enricher;
pub mod schema;
pub mod serve;
pub mod snippet;
pub mod syntax;
pub mod text;
pub mod toml_table;
pub mod trace;
pub mod violations;
pub mod viz;
pub mod watch;
pub mod watcher_engine;
pub mod window;
pub mod workspace;
pub mod xml;
