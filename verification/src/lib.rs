//! Discovery and synchronisation rules for mirroring course attachments.
//!
//! The crate holds the decisions of a course mirror: how a paginated remote
//! listing is gathered, how a nested attachment tree becomes a flat queue of
//! files, which local files are stale, and how many transfers may run at
//! once. Network and filesystem access live with the caller, which carries
//! out the actions these functions hand back.
//!
//! A run over one course goes through the modules in this order:
//!
//! - [`listing`] gathers the children of a remote directory page by page;
//! - [`flatten`] walks the tree breadth-first and yields one task per file;
//! - [`decision`] drops excluded files and judges each task against the
//!   local file, if any;
//! - [`scheduler`] keeps the number of transfers in flight within a window.
//!
//! [`entry`] holds the data that passes between them, [`names`] the naming
//! of local files and directories, [`catalog`] the choice of courses,
//! [`digest`] the password digest of the login, and [`text`] the string
//! primitives the others share.

pub mod catalog;
pub mod decision;
pub mod digest;
pub mod entry;
pub mod flatten;
pub mod listing;
pub mod names;
pub mod scheduler;
pub mod text;
