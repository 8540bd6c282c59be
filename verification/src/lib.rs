//! Core of an SSH server manager: host inventory, pinned host keys,
//! credential vault, job table, health probes, SOCKS5 and forwarding
//! decisions, and the session registry that the UI shell talks to.

pub mod clock;
pub mod crypto;
pub mod error;
pub mod forward;
pub mod health;
pub mod hosts;
pub mod ids;
pub mod jobs;
pub mod known_hosts;
pub mod manager;
pub mod model;
pub mod number;
pub mod registry;
pub mod seqs;
pub mod session;
pub mod sftp;
pub mod terminal;
pub mod text;
pub mod vault;
