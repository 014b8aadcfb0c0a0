use vstd::prelude::*;

verus! {

/// What a child registers with.
pub struct FactoryOffspringInfo {
    /// The index the registry issued.
    pub index: u32,
    pub label: String,
    /// The one-time password the child received.
    pub password: [u8; 32],
}

/// The registry operations a child calls.
pub enum FactoryHandleMsg {
    /// Registers the calling child for `owner`.
    RegisterOffspring { owner: String, offspring: FactoryOffspringInfo },
    /// Tells the registry that the child at `index` is inactive.
    DeactivateOffspring { index: u32, owner: String },
}

/// The registry query a child makes.
pub enum FactoryQueryMsg {
    /// Whether `viewing_key` is `address`'s key.
    IsKeyValid { address: String, viewing_key: String },
}

/// The registry's verdict on an address/key pair.
#[derive(PartialEq, Eq, Structural, Clone, Copy, Debug)]
pub struct IsKeyValid {
    pub is_valid: bool,
}

/// The registry's answer to `FactoryQueryMsg::IsKeyValid`.
#[derive(PartialEq, Eq, Structural, Clone, Copy, Debug)]
pub struct IsKeyValidWrapper {
    pub is_key_valid: IsKeyValid,
}

} // verus!
