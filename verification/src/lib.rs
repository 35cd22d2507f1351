//! Metadata inspection library: a bounded slot cache for extracted metadata,
//! repair of a bounded list of candidate paths, and dispatch from file
//! extensions to metadata analyzers.

pub mod cfg;
pub mod prelude;
pub mod util;

pub use util::cache::local::{retrieve_or_init_cache, PersistentCache, MAX_CACHE_SIZE};
pub use util::cache::session::LiveCache;
pub use util::cache::{get_initial_entries, replace_invalid_entries};
pub use util::dev::LangStats;
pub use util::dirs::DirMeta;
pub use util::json_out::ExportKind;
pub use util::media::meta::MediaMeta;
