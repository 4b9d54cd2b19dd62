//! The verified core of a command-line mail client: sequence ranges and
//! flags, the mailbox session, message templates and arrival detection.

pub mod command;
pub mod delivery;
pub mod error;
pub mod flag;
pub mod folder;
pub mod mailto;
pub mod msg;
pub mod notify;
pub mod range;
pub mod request;
pub mod session;
pub mod store;
pub mod template;
pub mod text;
