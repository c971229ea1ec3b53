pub mod bytes;
pub mod entry;
pub mod error;
pub mod index;
pub mod layout;
pub mod message;
pub mod oid;
pub mod path;
pub mod pathmap;
pub mod reference;
pub mod refs;
pub mod repo;
pub mod scan;
pub mod signature;
pub mod sparse;
pub mod status;
pub mod store;
pub mod text;
pub mod treeio;
pub mod version;
pub mod opts;
