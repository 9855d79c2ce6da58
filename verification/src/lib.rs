//! Core of a compositor status-bar client.
//!
//! The crate models the event-driven heart of the bar: the line-oriented
//! wire protocol spoken over the compositor's two local sockets, a bounded
//! broadcast bus that fans events out to independently paced consumers, an
//! ordered workspace view-model that is reconciled against compositor ground
//! truth, and the visibility tracker that derives a "current workspace has
//! visible windows" signal.  Socket I/O, scheduling and widget rendering are
//! left to the surrounding application; everything here is pure logic over
//! plain values and is verified.

pub mod battery;
pub mod bus;
pub mod events;
pub mod json;
pub mod model;
pub mod shared_widget;
pub mod visibility;
pub mod wire;
pub mod workspaces;
