//! The language-server core of a GDScript toolchain: document text, cache keys, file-change
//! classification, workspace caches, signature help, documentation stubs and session decisions.

pub mod caps;
pub mod diagnostics;
pub mod documents;
pub mod events;
pub mod files;
pub mod lru_cache;
pub mod memory;
pub mod native;
pub mod numbers;
pub mod path;
pub mod requests;
pub mod session;
pub mod signature;
pub mod signature_help;
pub mod startup;
pub mod stubs;
pub mod syntax;
pub mod text;
pub mod text_map;
pub mod text_order;
pub mod uri;
pub mod vfs;
pub mod watcher;
pub mod workspace;
pub mod xfile;

