//! Unread-mail counting for a locally installed mail client.
//!
//! The client keeps one index file per mail folder and records in it how
//! many messages of the folder are unread. This library reads those records
//! instead of speaking any mail protocol:
//!
//! - [`index`] finds the unread count in the text of one index file;
//! - [`path`] tells which account a file belongs to;
//! - [`tally`] and [`count`] sum the counts per account into one snapshot,
//!   and [`walk_order`] shows that the order in which the files were found
//!   does not matter to it;
//! - [`text`] is the order in which the accounts are listed;
//! - [`decimal`] writes a snapshot as the line that is shown to the user;
//! - [`monitor`] decides when the count is taken anew, and when it is
//!   reported as unknown because the client is not running;
//! - [`settings`] holds the user's options, and [`profiles`] finds the
//!   profile whose mail is counted.
//!
//! The library does not touch the file system, the process table or the
//! clock: it is handed what was read there and says what is to be done.

pub mod count;
pub mod decimal;
pub mod index;
pub mod monitor;
pub mod path;
pub mod profiles;
pub mod settings;
pub mod tally;
pub mod text;
pub mod walk_order;
