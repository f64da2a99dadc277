//! An SSH client, and the sync server that carries its hosts between devices.
//!
//! The server synchronises per-user SSH host configurations and end-to-end encrypted
//! secrets. This library holds what both sides decide and compute; talking to the network,
//! the disk, the database and the screen is the part of the program around it.
//!
//! What both share: [`types`] and [`api`] (what travels), [`crypto`] and [`encoding`] (how
//! secrets are protected on their way), [`text`].
//!
//! The client: [`store`] (the working copy of hosts and secrets), [`sync`] (what is sent to
//! the server, and what is made of its answers), [`known_hosts`] and [`ssh`] (whom to
//! trust, and the course of a session), [`terminal`] over its model [`screen`], with what it
//! does cell by cell in [`control`], [`keys`], [`ui`] and [`i18n`] with [`placeholders`] and
//! [`messages`] (what the user does and sees), and [`app`] over its model [`model`], which ties
//! them together, with what it does for its user in [`client`].
//!
//! The server: [`routes`], [`auth`] with [`json`] (what a token carries), [`db`] and
//! [`error`].

pub mod api;
pub mod app;
pub mod auth;
pub mod client;
pub mod control;
pub mod crypto;
pub mod db;
pub mod encoding;
pub mod error;
pub mod i18n;
pub mod json;
pub mod keys;
pub mod known_hosts;
pub mod messages;
pub mod model;
pub mod placeholders;
pub mod routes;
pub mod screen;
pub mod ssh;
pub mod store;
pub mod sync;
pub mod terminal;
pub mod text;
pub mod types;
pub mod ui;
