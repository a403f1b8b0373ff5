//! Node orchestration core of a single-host control plane: a registry of
//! named worker processes, their liveness state machine and the heartbeat
//! monitor that retires nodes which fall silent.

pub mod error;
pub mod heartbeat;
pub mod laws;
pub mod node;
pub mod node_interface;
pub mod nodes;
pub mod state;
pub mod table;
pub mod teller;
