//! A peer-to-peer SSH tunnel: the rules behind the program.
//!
//! Nothing here reads, writes or waits. Each function takes what was read and
//! says what to do, and its contract says exactly what that is:
//!
//! - [`config`]: the command line, the defaults and the help texts; [`usage`]
//!   holds laws of the command line, and [`lexer`] what is relied on when the
//!   arguments are split;
//! - [`key`]: secret keys, peer IDs and the peers that a server lets in;
//!   [`z32`] is the encoding of peer IDs;
//! - [`run`]: which step of a run comes after which;
//! - [`server`] and [`client`]: how endpoints are set up, and which connections
//!   a server takes on;
//! - [`forward`]: what to do with each thing that happens on a forwarded stream;
//! - [`text`]: lines, white space and decimal numbers.

pub mod client;
pub mod config;
pub mod forward;
pub mod key;
pub mod lexer;
pub mod run;
pub mod server;
pub mod text;
pub mod usage;
pub mod z32;
