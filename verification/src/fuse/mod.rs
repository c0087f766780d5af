//! What the filesystem serves: attribute records, their stored text, and the
//! request handler.
pub mod attrs;
pub mod bytelist;
pub mod dentry;
pub mod dentry_text;
pub mod inner;
pub mod inode_text;
pub mod lines;
pub mod quoted;
pub mod text;
