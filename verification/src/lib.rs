//! Tags for filesystem paths: a store that maps each tag name to the ordered
//! sequence of paths that carry it, with the operations that attach tags to a
//! path, detach them, and list the paths under a tag, and the store's form as
//! JSON text.

pub mod command;
pub mod json;
pub mod laws;
pub mod listing;
pub mod model;
pub mod store;

pub use command::{apply, run, Command, Outcome, STORE_FILE};
pub use json::{load, restore, save, SaveError};
pub use listing::{ls, no_items};
pub use store::{add_tag, rm_tag, TagStore};
