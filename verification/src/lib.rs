//! Charge overview: what a server does that watches the charge diagnostics of an accelerator,
//! and what its clients in the browser do.
//!
//! Readings of charge come in over Channel Access and go into rolling buffers ([`buffer`]).
//! Clients are sent the buffers once and then what is new ([`ws`], [`chart`], [`client`]).
//! Operators send commands ([`dispatch`], [`commands`], [`zero`], [`sweep`], [`restore`],
//! [`front_ends`], [`reset`]), which set the front-end boxes of the devices ([`hardware`]) and
//! process variables ([`epics`]). Boxes tell of changes that others make ([`fe_events`]), windows
//! are checked ([`peak_check`]), and devices that saturate can be switched ([`auto_gain`]).
//!
//! Nothing here reads or sends anything. A procedure that needs hardware is a value which says
//! what to do next and takes what came of it. Floating-point numbers are held as bit patterns
//! that can be compared ([`double`]); arithmetic on them is left to the caller.

pub mod audit;
pub mod auto_gain;
pub mod buffer;
pub mod chart;
pub mod client;
pub mod commands;
pub mod config;
pub mod consts;
pub mod dispatch;
pub mod double;
pub mod epics;
pub mod fe_events;
pub mod front_ends;
pub mod hardware;
pub mod json;
pub mod keys;
pub mod labels;
pub mod lineup;
pub mod link;
pub mod messages;
pub mod notices;
pub mod order;
pub mod peak_check;
pub mod persist;
pub mod reset;
pub mod restore;
pub mod state;
pub mod sweep;
pub mod sync;
pub mod table;
pub mod text;
pub mod ws;
pub mod zero;
