//! The registry side: creation, the registration handshake, deactivation,
//! admin controls, viewing keys and the paginated listings.

pub mod contract;
pub mod msg;
pub mod state;
