//! The decisions of a console network sentinel: which servers a console talks to, what its traffic
//! says about the lobby it is in, what has been learned from earlier lobbies, which defenses the
//! firewall should raise, whom to tell, and what is kept of a session.
//!
//! Every quantity that is not a count is a whole number of millionths, and so is every moment in
//! time, in seconds. Nothing here reads a clock, a file or the network.

pub mod adaptive;
pub mod adjust;
pub mod ai_advisor;
pub mod cheater_lobby;
pub mod codec;
pub mod counts;
pub mod dashboard;
pub mod documents;
pub mod enrich;
pub mod fields;
pub mod firewalla;
pub mod fixed;
pub mod fold;
pub mod game_state;
pub mod information_flow;
pub mod insights;
pub mod json;
pub mod learning;
pub mod metrics;
pub mod network_guard;
pub mod network_session;
pub mod notify;
pub mod packets;
pub mod peer_tracker;
pub mod poll;
pub mod ranks;
pub mod reports;
pub mod roles;
pub mod scoring;
pub mod session_export;
pub mod session_files;
pub mod session_risk;
pub mod signals;
pub mod snapshot;
pub mod text;
pub mod traffic;
