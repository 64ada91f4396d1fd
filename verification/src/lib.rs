//! The verified core of a load generator that drives many simulated players
//! against a game server.
//!
//! Everything that decides something lives here: the packet layouts, the
//! reassembly of packets out of a byte stream, the delay bookkeeping, the rule
//! that admits or drops players, the roster, the reports and the tick clock.
//! Sockets, the terminal and files belong to the program around the library.
pub mod admission;
pub mod delay;
pub mod error;
pub mod packet;
pub mod player;
pub mod receive;
pub mod report;
pub mod roster;
pub mod screen;
pub mod send;
pub mod session;
pub mod ticker;
pub mod wire;
