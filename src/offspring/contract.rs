use vstd::prelude::*;

use crate::env::Env;
use crate::offspring::factory_msg::{
    FactoryHandleMsg, FactoryOffspringInfo, FactoryQueryMsg, IsKeyValidWrapper,
};
use crate::offspring::msg::{ChildError, HandleMsg, InitMsg, QueryAnswer};
use crate::offspring::state::State;

verus! {

/// Sets a child up from `msg`, active and at the address of `env`, and
/// returns the registration it must send to its registry at once.
pub fn init(env: &Env, msg: InitMsg) -> (r: (State, FactoryHandleMsg))
    ensures
        r.0.factory == msg.factory,
        r.0.index == msg.index,
        r.0.label == msg.label,
        r.0.active,
        r.0.password == msg.password,
        r.0.offspring_addr == env.contract_address,
        r.0.description == msg.description,
        r.0.count == msg.count,
        r.0.owner == msg.owner,
        r.1 == (FactoryHandleMsg::RegisterOffspring {
            owner: msg.owner,
            offspring: FactoryOffspringInfo { index: msg.index, label: msg.label, password: msg.password },
        }),
{
    let offspring = FactoryOffspringInfo { index: msg.index, label: msg.label.clone(), password: msg.password };
    let reg_offspring_msg = FactoryHandleMsg::RegisterOffspring { owner: msg.owner.clone(), offspring };
    let state = State {
        factory: msg.factory,
        index: msg.index,
        label: msg.label,
        active: true,
        password: msg.password,
        offspring_addr: env.contract_address.clone(),
        description: msg.description,
        count: msg.count,
        owner: msg.owner,
    };
    (state, reg_offspring_msg)
}

/// Refuses every operation of a deactivated child.
pub fn enforce_active(state: &State) -> (r: Result<(), ChildError>)
    ensures
        r == if state.active {
            Ok::<(), ChildError>(())
        } else {
            Err(ChildError::Inactive)
        },
{
    if state.active {
        Ok(())
    } else {
        Err(ChildError::Inactive)
    }
}

/// Deactivates the child on its owner's request and returns the message
/// that tells the registry.
///
/// Fails, changing nothing, with `Inactive` when it already is, and with
/// `Unauthorized` when the sender is not the owner.
pub fn try_deactivate(state: &mut State, env: &Env) -> (r: Result<FactoryHandleMsg, ChildError>)
    ensures
        !old(state).active ==> r == Err::<FactoryHandleMsg, ChildError>(ChildError::Inactive)
            && *final(state) == *old(state),
        old(state).active && env.sender@ != old(state).owner@ ==> r == Err::<
            FactoryHandleMsg,
            ChildError,
        >(ChildError::Unauthorized) && *final(state) == *old(state),
        old(state).active && env.sender@ == old(state).owner@ ==> {
            &&& r == Ok::<FactoryHandleMsg, ChildError>(
                FactoryHandleMsg::DeactivateOffspring { index: old(state).index, owner: old(state).owner },
            )
            &&& *final(state) == (State { active: false, ..*old(state) })
        },
{
    match enforce_active(state) {
        Ok(()) => {},
        Err(e) => {
            return Err(e);
        },
    }
    if env.sender != state.owner {
        return Err(ChildError::Unauthorized);
    }
    state.active = false;
    Ok(FactoryHandleMsg::DeactivateOffspring { index: state.index, owner: state.owner.clone() })
}

/// Adds one to the count; anyone may call it while the child is active.
///
/// Fails, changing nothing, with `Inactive` on a deactivated child and with
/// `CountOverflow` when the count is already the largest `i32`.
pub fn try_increment(state: &mut State) -> (r: Result<(), ChildError>)
    ensures
        !old(state).active ==> r == Err::<(), ChildError>(ChildError::Inactive) && *final(state)
            == *old(state),
        old(state).active && old(state).count == i32::MAX ==> r == Err::<(), ChildError>(
            ChildError::CountOverflow,
        ) && *final(state) == *old(state),
        old(state).active && old(state).count < i32::MAX ==> r == Ok::<(), ChildError>(())
            && *final(state) == (State { count: (old(state).count + 1) as i32, ..*old(state) }),
{
    match enforce_active(state) {
        Ok(()) => {},
        Err(e) => {
            return Err(e);
        },
    }
    if state.count == i32::MAX {
        return Err(ChildError::CountOverflow);
    }
    state.count = state.count + 1;
    Ok(())
}

/// Sets the count; only the owner may, while the child is active.
///
/// Fails, changing nothing, with `Inactive` on a deactivated child and with
/// `Unauthorized` when the sender is not the owner.
pub fn try_reset(state: &mut State, env: &Env, count: i32) -> (r: Result<(), ChildError>)
    ensures
        !old(state).active ==> r == Err::<(), ChildError>(ChildError::Inactive) && *final(state)
            == *old(state),
        old(state).active && env.sender@ != old(state).owner@ ==> r == Err::<(), ChildError>(
            ChildError::Unauthorized,
        ) && *final(state) == *old(state),
        old(state).active && env.sender@ == old(state).owner@ ==> r == Ok::<(), ChildError>(())
            && *final(state) == (State { count, ..*old(state) }),
{
    match enforce_active(state) {
        Ok(()) => {},
        Err(e) => {
            return Err(e);
        },
    }
    if env.sender != state.owner {
        return Err(ChildError::Unauthorized);
    }
    state.count = count;
    Ok(())
}

/// Routes an operation to its handler. `Ok(Some(m))` carries a message for
/// the registry.
pub fn handle(state: &mut State, env: &Env, msg: HandleMsg) -> (r: Result<Option<FactoryHandleMsg>, ChildError>)
    ensures
        msg is Increment ==> ({
            let inner = if !old(state).active {
                Err::<(), ChildError>(ChildError::Inactive)
            } else if old(state).count == i32::MAX {
                Err(ChildError::CountOverflow)
            } else {
                Ok(())
            };
            &&& inner is Ok ==> r == Ok::<Option<FactoryHandleMsg>, ChildError>(None)
                && *final(state) == (State { count: (old(state).count + 1) as i32, ..*old(state) })
            &&& inner matches Err(e) ==> r == Err::<Option<FactoryHandleMsg>, ChildError>(e)
                && *final(state) == *old(state)
        }),
        msg matches HandleMsg::Reset { count } ==> ({
            &&& !old(state).active ==> r == Err::<Option<FactoryHandleMsg>, ChildError>(ChildError::Inactive)
                && *final(state) == *old(state)
            &&& old(state).active && env.sender@ != old(state).owner@ ==> r == Err::<
                Option<FactoryHandleMsg>,
                ChildError,
            >(ChildError::Unauthorized) && *final(state) == *old(state)
            &&& old(state).active && env.sender@ == old(state).owner@ ==> r == Ok::<
                Option<FactoryHandleMsg>,
                ChildError,
            >(None) && *final(state) == (State { count, ..*old(state) })
        }),
        msg is Deactivate ==> ({
            &&& !old(state).active ==> r == Err::<Option<FactoryHandleMsg>, ChildError>(ChildError::Inactive)
                && *final(state) == *old(state)
            &&& old(state).active && env.sender@ != old(state).owner@ ==> r == Err::<
                Option<FactoryHandleMsg>,
                ChildError,
            >(ChildError::Unauthorized) && *final(state) == *old(state)
            &&& old(state).active && env.sender@ == old(state).owner@ ==> r == Ok::<
                Option<FactoryHandleMsg>,
                ChildError,
            >(Some(FactoryHandleMsg::DeactivateOffspring { index: old(state).index, owner: old(state).owner }))
                && *final(state) == (State { active: false, ..*old(state) })
        }),
{
    match msg {
        HandleMsg::Increment => match try_increment(state) {
            Ok(()) => Ok(None),
            Err(e) => Err(e),
        },
        HandleMsg::Reset { count } => match try_reset(state, env, count) {
            Ok(()) => Ok(None),
            Err(e) => Err(e),
        },
        HandleMsg::Deactivate => match try_deactivate(state, env) {
            Ok(m) => Ok(Some(m)),
            Err(e) => Err(e),
        },
    }
}

/// The registry query that checks `address`'s key, when the count is asked
/// for by the owner; no query otherwise, as the answer would be a refusal
/// whatever the key.
pub fn key_check_for(state: &State, address: &String, viewing_key: String) -> (r: Option<FactoryQueryMsg>)
    ensures
        state.owner@ == address@ ==> r == Some(
            FactoryQueryMsg::IsKeyValid { address: *address, viewing_key },
        ),
        state.owner@ != address@ ==> r is None,
{
    if state.owner == *address {
        Some(FactoryQueryMsg::IsKeyValid { address: address.clone(), viewing_key })
    } else {
        None
    }
}

/// Accepts the registry's verdict on the key only when it vouches for it.
pub fn enforce_valid_viewing_key(key_valid_response: &IsKeyValidWrapper) -> (r: Result<(), ChildError>)
    ensures
        r == if key_valid_response.is_key_valid.is_valid {
            Ok::<(), ChildError>(())
        } else {
            Err(ChildError::Unauthorized)
        },
{
    if key_valid_response.is_key_valid.is_valid {
        Ok(())
    } else {
        Err(ChildError::Unauthorized)
    }
}

/// `address` is the owner and the registry vouched for its key.
pub open spec fn count_allowed(state: State, address: Seq<char>, key_valid_response: Option<&IsKeyValidWrapper>) -> bool {
    &&& state.owner@ == address
    &&& (key_valid_response matches Some(v) && v.is_key_valid.is_valid)
}

/// The count, for its owner, once the registry has vouched for the owner's
/// key (`key_valid_response` answers the query of `key_check_for`).
/// `Unauthorized` for anyone else or without that verdict, with one answer
/// for both cases.
pub fn query_count(
    state: &State,
    address: &String,
    key_valid_response: Option<&IsKeyValidWrapper>,
) -> (r: Result<QueryAnswer, ChildError>)
    ensures
        count_allowed(*state, address@, key_valid_response) ==> r == Ok::<QueryAnswer, ChildError>(QueryAnswer::CountResponse { count: state.count }),
        !count_allowed(*state, address@, key_valid_response) ==> r == Err::<QueryAnswer, ChildError>(ChildError::Unauthorized),
{
    if state.owner != *address {
        return Err(ChildError::Unauthorized);
    }
    match key_valid_response {
        Some(v) => match enforce_valid_viewing_key(v) {
            Ok(()) => Ok(QueryAnswer::CountResponse { count: state.count }),
            Err(e) => Err(e),
        },
        None => Err(ChildError::Unauthorized),
    }
}

} // verus!
