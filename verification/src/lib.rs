//! Untimed correspondence chess without a server.
//!
//! A game is a set of signed records. Two peers that hold the same records see
//! the same game, in whatever order the records arrived: [`state`] merges them,
//! [`project`] reads the game off them, [`contract`] keeps them for everybody,
//! and [`delegate`] signs them without ever signing two moves at one ply. The
//! client side is in [`session`] and [`flow`], and its connection to a node in
//! [`transport`]. What the command line does with it is in [`command`] and
//! [`output`], what the graphical client does in [`panel`], [`board`] and
//! [`screen`].

use vstd::prelude::*;

pub mod algebra;
pub mod board;
pub mod bytemap;
pub mod bytes;
pub mod cbor;
pub mod chain;
pub mod chess;
pub mod command;
pub mod contract;
pub mod crypto;
pub mod delegate;
pub mod delegate_api;
pub mod delegate_policy;
pub mod flow;
pub mod invite;
pub mod output;
pub mod panel;
pub mod project;
pub mod screen;
pub mod secrets;
pub mod session;
pub mod state;
pub mod text;
pub mod transport;
pub mod types;

pub use crate::project::{legal_moves, make_move, project, Decision, Reason, Status};
pub use crate::state::{Delta, GameState, SigDigest, Summary};
pub use crate::types::{color_at_ply, Body, GameParams, KeyBytes, Record, RecordId};

verus! {

} // verus!
