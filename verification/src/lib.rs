//! Game and lobby logic of a two-player falling-blocks server.
//!
//! The library holds what the server decides: the shapes and how pieces fall
//! and settle on the board, the phases a match goes through, the registry of
//! usernames, the match requests between connected players, and the handling
//! of the HTTP requests that register a username or open a game connection.
//! Sockets, timers and JSON output stay outside the library.

pub mod trusted;

pub mod shapes;
pub mod board;
pub mod phase;
pub mod lobby;
pub mod requests;
