//! A dynamic-DNS reconciliation engine: it groups configured interfaces,
//! record bindings and zone credentials into independent watch units, and
//! decides, per record, whether the remote DNS store must be looked up,
//! created or updated to match the address currently bound to an interface.

pub mod addr;
pub mod assemble;
pub mod cloudflare;
pub mod command;
pub mod config;
pub mod system;
pub mod text;
pub mod watcher;
