//! Audit of the persistent desktop-portal permissions of a Wayland session.
//!
//! The permission store files a native application's permission under a random
//! token, without the name of who asked for it. This library lists what is
//! granted and how sensitive it is, finds out whom it belongs to, and keeps
//! what is known of a permission when it is revoked.
//!
//! - [`store`] reads the rows of the permission store; [`risk`] says how
//!   sensitive each of its tables is.
//! - [`watch`] attributes grants as they travel over the bus, [`journal`] and
//!   [`resolve`] attribute earlier ones after the fact, and [`attrib`] keeps the
//!   attributions.
//! - [`sessions`] tells who has a portal session open right now.
//! - [`revoke`] and [`history`] take permissions back and keep a log of it.
//! - [`listing`], [`render`], [`notify`] and [`service`] say what the commands
//!   print and do; [`tui`] and [`ui`] are the terminal interface.
//! - The other modules are the text, number and collection primitives that these
//!   are written with.
//!
//! Everything that reads or writes outside the process is left to the caller,
//! who hands in what was read and carries out what is decided.
pub mod attrib;
pub mod clock;
pub mod format;
pub mod history;
pub mod journal;
pub mod json;
pub mod listing;
pub mod notify;
pub mod number;
pub mod order;
pub mod paths;
pub mod render;
pub mod report;
pub mod resolve;
pub mod revoke;
pub mod risk;
pub mod service;
pub mod sessions;
pub mod split;
pub mod store;
pub mod style;
pub mod table;
pub mod text;
pub mod tui;
pub mod ui;
pub mod watch;
