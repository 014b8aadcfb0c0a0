//! A registry that creates offspring records through a password handshake,
//! keeps them in active and inactive membership indices (globally and per
//! owner), and guards its queries with viewing keys.

pub mod crypto;
pub mod env;
pub mod factory;
pub mod offspring;
pub mod paging;
pub mod viewing_key;
