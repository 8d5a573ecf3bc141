//! Building blocks of a clipboard history: capture decisions, storage,
//! list formatting, fuzzy filtering and the picker's state.

pub mod calls;
pub mod capture;
pub mod cli;
pub mod clipboard;
pub mod clock;
pub mod config;
pub mod events;
pub mod filter;
pub mod hash;
pub mod history;
pub mod ipc;
pub mod paths;
pub mod picker;
pub mod ranking;
pub mod rows;
pub mod server;
pub mod session;
pub mod source;
pub mod sqlite;
pub mod store;
pub mod text;
pub mod transfer;

pub use clock::now_millis;
pub use config::Config;
pub use hash::content_hash;
pub use ipc::{Item, Request, Response, Status, Summary};
pub use store::Store;
pub use text::preview;
