//! The child side: a toy counter that registers itself with its registry on
//! creation, can be deactivated by its owner, and lets its owner read the
//! count after the registry has vouched for the owner's viewing key.

pub mod contract;
pub mod factory_msg;
pub mod msg;
pub mod state;
