//! The approval daemon: it takes requests to run a command, decides each by the
//! allowlist or asks a human, and keeps a log of what was decided.
//!
//! The library holds everything that is decided or computed on the way. A
//! request goes through [`connection`], which has it parsed and judged by
//! [`policy`]. What needs a human waits in the queue of [`pending`] and is shown
//! by [`notifier`] and [`runloop`] as the [`cards`] describe; [`suggestions`] and
//! [`admin`] add rules and hosts, and [`audit`] keeps the log. Sockets, files,
//! buses and toolkits are the business of the program around it, which hands in
//! plain values, and functions for what only the outside can answer.

pub mod text;
pub mod path;
pub mod command;
pub mod outside;
pub mod cards;
pub mod audit;
pub mod policy;
pub mod pending;
pub mod connection;
pub mod suggestions;
pub mod admin;
pub mod paths;
pub mod socket;
pub mod desktop_health;
pub mod autostart;
pub mod daemon;
pub mod notifier;
pub mod runloop;
