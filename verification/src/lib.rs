//! Capability-mediation layer for an untrusted, sandboxed component: lexical
//! path sanitization, an exact-match network policy, an append-only
//! hash-chained audit journal, mediated filesystem and network operations
//! over pluggable capability providers, and the host-binding shims that
//! expose those operations to a sandboxed execution engine.

pub mod audit;
pub mod context;
pub mod host;
pub mod path;
pub mod picker;
pub mod policy;
pub mod text;
pub mod ui;

pub use audit::ChainHash;
pub use context::Context;
pub use context::CoreError;
pub use context::CoreResult;
pub use context::FsHost;
pub use context::LogHost;
pub use context::NetHost;
pub use context::fetch_json;
pub use context::list_dir;
pub use context::normalize_entries;
pub use context::read_text;
pub use context::write_text;
pub use path::sanitize_rel_path;
pub use picker::FallbackPicker;
pub use picker::LinuxPicker;
pub use picker::MacPicker;
pub use picker::WindowsPicker;
pub use policy::Policy;
pub use ui::UiEvent;
