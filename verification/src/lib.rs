//! Verified core of a small collection of command-line tools: a guessing
//! game, a TCP reachability probe, a REST client, an echo server, and a set
//! of language walkthrough examples.  Each tool's decisions and text
//! handling live here with contracts; terminal, network and file work is
//! left to the surrounding binary.

pub mod echo;
pub mod fundamentals;
pub mod guess;
pub mod ping;
pub mod rest;
pub mod text;
