//! Network Sandbox: safely rehearse changes to a system and its network, and apply them as
//! transactions.
//!
//! An *environment* holds the difference between a host and what somebody wants it to be: files in
//! a writable layer, deletions, and routes. Its *circuits* are the connections that have to
//! survive. The library decides what the program does: it finds the changes of an environment,
//! checks circuits, makes plans, and runs an apply and its rollback as state machines that ask for
//! one action at a time. It performs none of them; whoever drives it does, and hands back what came
//! of it.
//!
//! The modules, from the ground up:
//!
//! * [`text`], [`order`], [`path`], [`encoding`], [`identity`], [`clock`]: texts, sorting, paths,
//!   digests and time;
//! * [`model`]: the records; [`command`] and [`script`]: commands and their results;
//! * [`diff`]: what a layer changes; [`findings`]: what a scan of it finds; [`files`]: how files are
//!   copied; [`candidate`]: staged files in place of those of the host;
//! * [`connectivity`], [`probe`], [`circuits`], [`staged_routes`]: circuits and route candidates;
//!   [`circuit_keeping`]: what holds of them as they come and go;
//! * [`plan`], [`apply`], [`apply_command`]: plans, applies and rollbacks; [`recovery`]: why an
//!   apply can be taken back; [`course`]: what it has done when it ends;
//! * [`platform`]: Linux namespaces, macOS routes, containers, virtual machines and workspaces;
//! * [`store`], [`session`], [`report`]: where things are kept, what the commands do, and what they
//!   print; [`lifecycle`]: what they keep of an environment; [`command_course`]: what they come to;
//!   [`readings`]: what is read and shown.

pub mod apply;
pub mod apply_command;
pub mod candidate;
pub mod circuit_keeping;
pub mod circuits;
pub mod clock;
pub mod command;
pub mod command_course;
pub mod connectivity;
pub mod course;
pub mod diff;
pub mod encoding;
pub mod files;
pub mod findings;
pub mod identity;
pub mod lifecycle;
pub mod model;
pub mod order;
pub mod path;
pub mod plan;
pub mod platform;
pub mod probe;
pub mod readings;
pub mod recovery;
pub mod report;
pub mod script;
pub mod session;
pub mod staged_routes;
pub mod store;
pub mod text;
