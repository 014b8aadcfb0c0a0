use vstd::prelude::*;

verus! {

/// Code hash and address of a contract.
pub struct ContractInfo {
    pub code_hash: String,
    pub address: String,
}

/// What a child is instantiated with.
pub struct InitMsg {
    /// The registry to register with.
    pub factory: ContractInfo,
    /// The index the registry issued.
    pub index: u32,
    pub label: String,
    /// The one-time password to echo back.
    pub password: [u8; 32],
    pub description: Option<String>,
    pub owner: String,
    pub count: i32,
}

/// The child's operations.
pub enum HandleMsg {
    /// Adds one to the count; anyone may call it.
    Increment,
    /// Sets the count; only the owner may call it.
    Reset { count: i32 },
    /// Deactivates the child for good; only the owner may call it.
    Deactivate,
}

/// What a query answers.
pub enum QueryAnswer {
    CountResponse { count: i32 },
}

/// How the child's calls fail.
#[derive(PartialEq, Eq, Structural, Clone, Copy, Debug)]
pub enum ChildError {
    /// The child has been deactivated.
    Inactive,
    /// The caller is not the owner, or its viewing key was not vouched for.
    Unauthorized,
    /// The count cannot grow further.
    CountOverflow,
}

} // verus!
