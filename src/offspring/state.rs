use vstd::prelude::*;

use crate::offspring::msg::ContractInfo;

verus! {

/// A child's state.
pub struct State {
    /// The registry it belongs to.
    pub factory: ContractInfo,
    /// Its index with the registry.
    pub index: u32,
    pub label: String,
    /// Whether it still accepts operations; false for good once deactivated.
    pub active: bool,
    /// The password it registered with.
    pub password: [u8; 32],
    /// Its own address.
    pub offspring_addr: String,
    pub description: Option<String>,
    pub count: i32,
    pub owner: String,
}

} // verus!
