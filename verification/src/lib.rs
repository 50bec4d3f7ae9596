//! Engine of a multiplayer crapless-craps service.
//!
//! The crate holds the ledger of player accounts, the wagers and the board
//! they sit on, the rules that resolve a roll of the dice, the table that
//! cycles between betting and rolling, and the registry that seats players
//! at tables. Transport, timers and the dice themselves are left to the
//! caller: every operation here is a plain call on plain values, and none
//! of them waits.
//!
//! - [`player`] and [`ledger`]: accounts, and the directory that holds them.
//! - [`bet`], [`odds`], [`position`] and [`board`]: wagers, what they pay,
//!   where they stand.
//! - [`rules`]: what a roll decides.
//! - [`crapless`] and [`table`]: the table, and what it is as a
//!   mathematical value.
//! - [`game`] and [`registry`]: the registry of live tables, and what it is
//!   as a mathematical value.
//! - [`events`]: what the players are told.
//!
//! Every operation takes its table, registry or directory by `&mut`: a
//! command is one step, and nothing happens in between. A caller that
//! shares them among tasks puts them behind a lock and holds it for one call
//! at a time.

pub mod bet;
pub mod board;
pub mod crapless;
pub mod events;
pub mod game;
pub mod ledger;
pub mod odds;
pub mod player;
pub mod position;
pub mod registry;
pub mod rules;
pub mod table;
mod upkeep;

