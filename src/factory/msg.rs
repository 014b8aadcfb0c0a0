use vstd::prelude::*;

verus! {

/// Which of an owner's offspring a listing shows.
#[derive(PartialEq, Eq, Structural, Clone, Copy, Debug)]
pub enum FilterTypes {
    Active,
    Inactive,
    All,
}

/// Success or failure of a handle call.
#[derive(PartialEq, Eq, Structural, Clone, Copy, Debug)]
pub enum ResponseStatus {
    Success,
    Failure,
}

/// What a handle call answers.
pub enum HandleAnswer {
    /// A viewing key, handed to its owner once.
    ViewingKey { key: String },
    /// A generic status.
    Status { status: ResponseStatus, message: Option<String> },
}

/// How the registry's calls fail.
#[derive(PartialEq, Eq, Structural, Clone, Copy, Debug)]
pub enum FactoryError {
    /// The registry's configuration refuses the call (it is paused, or no
    /// further index can be issued).
    ConfigurationError,
    /// A credential did not match, is not set, or the caller may not do this.
    /// The same answer is given in all these cases.
    AuthenticationFailure,
}

/// Code hash and address of a contract.
pub struct ContractInfo {
    pub code_hash: String,
    pub address: String,
}

/// The child template that new offspring are instantiated from.
pub struct OffspringContractInfo {
    pub code_id: u64,
    pub code_hash: String,
}

/// An active offspring's address and label.
pub struct OffspringInfo {
    pub address: String,
    pub label: String,
}

/// An inactive offspring's label and address.
pub struct InactiveOffspringInfo {
    pub label: String,
    pub address: String,
}

/// What a freshly created child sends back to register itself.
pub struct RegisterOffspringInfo {
    /// The index the registry issued for this child.
    pub index: u32,
    /// The label the child was instantiated with.
    pub label: String,
    /// The one-time password the child received.
    pub password: [u8; 32],
}

/// An active offspring as listings show it.
pub struct StoreOffspringInfo {
    pub index: u32,
    pub address: String,
    pub label: String,
}

/// An inactive offspring as listings show it.
pub struct StoreInactiveOffspringInfo {
    pub index: u32,
    pub address: String,
    pub label: String,
}

impl RegisterOffspringInfo {
    /// The listing entry of the child at `address` that registered with this info.
    pub fn to_store_offspring_info(&self, address: String) -> (r: StoreOffspringInfo)
        ensures
            r.index == self.index,
            r.address == address,
            r.label == self.label,
    {
        StoreOffspringInfo { index: self.index, address, label: self.label.clone() }
    }
}

impl StoreOffspringInfo {
    /// The same offspring as an inactive listing shows it.
    pub fn to_store_inactive_offspring_info(&self) -> (r: StoreInactiveOffspringInfo)
        ensures
            r.index == self.index,
            r.address == self.address,
            r.label == self.label,
    {
        StoreInactiveOffspringInfo {
            index: self.index,
            address: self.address.clone(),
            label: self.label.clone(),
        }
    }
}

/// The message that instantiates a child.
pub struct OffspringInitMsg {
    /// The registry that the child must call back.
    pub factory: ContractInfo,
    /// The index issued for the child.
    pub index: u32,
    pub label: String,
    /// The one-time password the child must echo back.
    pub password: [u8; 32],
    pub owner: String,
    pub count: i32,
    pub description: Option<String>,
}

/// A creation request for the host: instantiate `code_id` / `code_hash`
/// under `label` with `msg`.
pub struct CreationDispatch {
    pub code_id: u64,
    pub code_hash: String,
    pub label: String,
    pub msg: OffspringInitMsg,
}

/// What a query answers.
#[allow(inconsistent_fields)]
pub enum QueryAnswer {
    /// An owner's offspring; a list is present when the filter asked for it.
    ListMyOffspring {
        active: Option<Vec<StoreOffspringInfo>>,
        inactive: Option<Vec<StoreInactiveOffspringInfo>>,
    },
    /// A page of the active offspring.
    ListActiveOffspring { active: Vec<StoreOffspringInfo> },
    /// A page of the inactive offspring, latest first.
    ListInactiveOffspring { inactive: Vec<StoreInactiveOffspringInfo> },
    /// The address/key pair did not authenticate.
    ViewingKeyError { error: String },
    /// Whether an address/key pair is valid.
    IsKeyValid { is_valid: bool },
}

} // verus!
