use vstd::prelude::*;
use vstd::utf8::encode_utf8;

use crate::crypto::{
    base64_encode, base64_of, ct_eq, prng_first_bytes, prng_output_of, push_be_bytes, push_bytes,
    sha256, sha256_of,
};
use crate::env::{domain_entropy, Env};
use crate::factory::msg::{
    ContractInfo, CreationDispatch, FactoryError, FilterTypes, HandleAnswer, OffspringContractInfo,
    OffspringInitMsg, QueryAnswer, RegisterOffspringInfo, ResponseStatus,
    StoreInactiveOffspringInfo, StoreOffspringInfo,
};
use crate::factory::state::{
    add_owner_active, add_owner_inactive, find_index, indexes, key_position, lemma_indexes_add,
    lemma_indexes_new_slot, lemma_indexes_remove, lemma_indexes_same, lemma_position_none,
    lemma_wf_same_indices, opt_view, owner_names, owner_position, remove_from_persons_active,
    slot_selected, store_key, Config, OffspringRecord, PendingTicket, Registry,
};
use crate::paging::{
    cursor_end, cursor_start, entries_before, page_before, page_end, page_entries, page_of,
    page_start, DEFAULT_PAGE_SIZE,
};
use crate::viewing_key::{generated_key, hashed_key, ViewingKey};

verus! {

/// Draws 32 fresh bytes from the generator seeded with `seed`, mixing in
/// the block data and sender of `env` and the caller's `entropy`.
pub fn new_entropy(env: &Env, seed: &[u8], entropy: &[u8]) -> (r: [u8; 32])
    ensures
        r@ == prng_output_of(
            seed@,
            domain_entropy(env.block_height, env.block_time, env.sender@, entropy@),
        ),
{
    let mut rng_entropy: Vec<u8> = Vec::new();
    push_be_bytes(&mut rng_entropy, env.block_height);
    push_be_bytes(&mut rng_entropy, env.block_time);
    push_bytes(&mut rng_entropy, env.sender.as_str().as_bytes());
    push_bytes(&mut rng_entropy, entropy);
    prng_first_bytes(seed, rng_entropy.as_slice())
}

/// The seed a registry starts from: the hash of the base64 text of the
/// creator's entropy.
pub open spec fn initial_seed(entropy: Seq<char>) -> Seq<u8> {
    sha256_of(encode_utf8(base64_of(encode_utf8(entropy))))
}

/// The seed after a creation request with `entropy` in `env`.
pub open spec fn next_seed(seed: Seq<u8>, env: Env, entropy: Seq<char>) -> Seq<u8> {
    prng_output_of(
        seed,
        domain_entropy(env.block_height, env.block_time, env.sender@, encode_utf8(entropy)),
    )
}

/// Creates a registry administered by the sender of `env`, with creation
/// open, no offspring, no keys and a seed derived from `entropy`.
pub fn init(env: &Env, entropy: String, offspring_contract: OffspringContractInfo) -> (r: Registry)
    ensures
        r.wf(),
        r.config.admin == env.sender,
        r.config.version == offspring_contract,
        !r.config.stopped,
        r.prng_seed@ == initial_seed(entropy@),
        r.pending is None,
        r.slots@.len() == 0,
        r.active@.len() == 0,
        r.inactive@.len() == 0,
        r.owners@.len() == 0,
        r.viewing_keys@.len() == 0,
{
    let text = base64_encode(entropy.as_str().as_bytes());
    let prng_seed = sha256(text.as_str().as_bytes());
    let r = Registry {
        config: Config { version: offspring_contract, stopped: false, admin: env.sender.clone() },
        prng_seed,
        pending: None,
        slots: Vec::new(),
        active: Vec::new(),
        inactive: Vec::new(),
        owners: Vec::new(),
        viewing_keys: Vec::new(),
    };
    proof {
        assert forall|o: Seq<char>| #[trigger] r.owner_active(o) =~= Seq::<u32>::empty() by {
            lemma_position_none(owner_names(r.owners@), o);
        }
        assert forall|o: Seq<char>| #[trigger] r.owner_inactive(o) =~= Seq::<u32>::empty() by {
            lemma_position_none(owner_names(r.owners@), o);
        }
    }
    r
}

/// Requests a new offspring for `owner`.
///
/// Fails with `ConfigurationError`, changing nothing, when creation is
/// paused or every index has been issued. Otherwise it draws a fresh seed,
/// stores it, issues the next index with the hash of that seed as its
/// one-time password (overwriting any earlier ticket, whose child can then
/// never register), and returns the instantiation request for the host.
pub fn try_create_offspring(
    reg: &mut Registry,
    env: &Env,
    label: String,
    entropy: String,
    owner: String,
    count: i32,
    description: Option<String>,
) -> (r: Result<CreationDispatch, FactoryError>)
    requires
        old(reg).wf(),
    ensures
        final(reg).wf(),
        old(reg).config.stopped || old(reg).slots@.len() == u32::MAX ==> {
            &&& r == Err::<CreationDispatch, FactoryError>(FactoryError::ConfigurationError)
            &&& *final(reg) == *old(reg)
        },
        !old(reg).config.stopped && old(reg).slots@.len() < u32::MAX ==> {
            &&& r matches Ok(d)
            &&& final(reg).prng_seed@ == next_seed(old(reg).prng_seed@, *env, entropy@)
            &&& final(reg).pending matches Some(t)
            &&& t.index == old(reg).slots@.len()
            &&& t.password@ == sha256_of(final(reg).prng_seed@)
            &&& final(reg).slots@ == old(reg).slots@.push(None)
            &&& final(reg).config == old(reg).config
            &&& final(reg).active == old(reg).active
            &&& final(reg).inactive == old(reg).inactive
            &&& final(reg).owners == old(reg).owners
            &&& final(reg).viewing_keys == old(reg).viewing_keys
            &&& d.code_id == old(reg).config.version.code_id
            &&& d.code_hash == old(reg).config.version.code_hash
            &&& d.label == label
            &&& d.msg.factory.code_hash == env.contract_code_hash
            &&& d.msg.factory.address == env.contract_address
            &&& d.msg.index == t.index
            &&& d.msg.label == label
            &&& d.msg.password == t.password
            &&& d.msg.owner == owner
            &&& d.msg.count == count
            &&& d.msg.description == description
        },
{
    if reg.config.stopped {
        return Err(FactoryError::ConfigurationError);
    }
    if reg.slots.len() >= 0xffff_ffffusize {
        return Err(FactoryError::ConfigurationError);
    }
    let factory = ContractInfo {
        code_hash: env.contract_code_hash.clone(),
        address: env.contract_address.clone(),
    };
    // the new seed is stored, and only its hash serves as the password
    let new_prng_bytes = new_entropy(env, reg.prng_seed.as_slice(), entropy.as_str().as_bytes());
    reg.prng_seed = new_prng_bytes;
    let password = sha256(new_prng_bytes.as_slice());
    let index = reg.slots.len() as u32;
    reg.pending = Some(PendingTicket { index, password });
    let ghost slots0 = reg.slots@;
    reg.slots.push(None);
    proof {
        lemma_indexes_new_slot(reg.active@, slots0, true, None);
        lemma_indexes_new_slot(reg.inactive@, slots0, false, None);
        assert forall|o: Seq<char>| #[trigger] indexes(reg.owner_active(o), reg.slots@, true, Some(o)) by {
            assert(indexes(old(reg).owner_active(o), slots0, true, Some(o)));
            lemma_indexes_new_slot(reg.owner_active(o), slots0, true, Some(o));
        }
        assert forall|o: Seq<char>| #[trigger] indexes(reg.owner_inactive(o), reg.slots@, false, Some(o)) by {
            assert(indexes(old(reg).owner_inactive(o), slots0, false, Some(o)));
            lemma_indexes_new_slot(reg.owner_inactive(o), slots0, false, Some(o));
        }
    }
    let msg = OffspringInitMsg {
        factory,
        index,
        label: label.clone(),
        password,
        owner,
        count,
        description,
    };
    Ok(
        CreationDispatch {
            code_id: reg.config.version.code_id,
            code_hash: reg.config.version.code_hash.clone(),
            label,
            msg,
        },
    )
}

/// The registration of `info` by `caller` for `owner` is the one the
/// registry is waiting for.
pub open spec fn registration_accepted(reg: Registry, info: RegisterOffspringInfo) -> bool {
    reg.pending matches Some(t) && t.password@ == info.password@ && t.index == info.index
}

/// Admits the child calling from `env.sender`, if it echoes the pending
/// ticket: same index and same password.
///
/// Fails with `AuthenticationFailure`, changing nothing, when no ticket is
/// pending or the ticket does not match. Otherwise the ticket is consumed,
/// the record is created at the ticket's index, active, and that index is
/// appended to the global active index and to `owner`'s active index.
pub fn try_register_offspring(
    reg: &mut Registry,
    env: &Env,
    owner: String,
    reg_offspring: &RegisterOffspringInfo,
) -> (r: Result<(), FactoryError>)
    requires
        old(reg).wf(),
    ensures
        final(reg).wf(),
        !registration_accepted(*old(reg), *reg_offspring) ==> {
            &&& r == Err::<(), FactoryError>(FactoryError::AuthenticationFailure)
            &&& *final(reg) == *old(reg)
        },
        registration_accepted(*old(reg), *reg_offspring) ==> {
            let k = reg_offspring.index;
            &&& r is Ok
            &&& final(reg).pending is None
            &&& final(reg).slots@ == old(reg).slots@.update(
                k as int,
                Some(
                    OffspringRecord {
                        address: env.sender,
                        owner: owner,
                        label: reg_offspring.label,
                        password: reg_offspring.password,
                        active: true,
                    },
                ),
            )
            &&& final(reg).active@ == old(reg).active@.push(k)
            &&& final(reg).inactive == old(reg).inactive
            &&& forall|o: Seq<char>| #[trigger] final(reg).owner_active(o) == if o == owner@ {
                old(reg).owner_active(o).push(k)
            } else {
                old(reg).owner_active(o)
            }
            &&& forall|o: Seq<char>| #[trigger] final(reg).owner_inactive(o) == old(reg).owner_inactive(o)
            &&& final(reg).config == old(reg).config
            &&& final(reg).prng_seed == old(reg).prng_seed
            &&& final(reg).viewing_keys == old(reg).viewing_keys
        },
{
    let ticket = match reg.pending {
        Some(t) => t,
        None => {
            return Err(FactoryError::AuthenticationFailure);
        },
    };
    let same_password = ct_eq(&ticket.password, &reg_offspring.password);
    if !same_password || ticket.index != reg_offspring.index {
        return Err(FactoryError::AuthenticationFailure);
    }
    reg.pending = None;
    let k = ticket.index;
    let record = OffspringRecord {
        address: env.sender.clone(),
        owner: owner.clone(),
        label: reg_offspring.label.clone(),
        password: ticket.password,
        active: true,
    };
    proof {
        assert(record.password@ == reg_offspring.password@);
        assert(record.password == reg_offspring.password);
    }
    let ghost slots0 = reg.slots@;
    let ghost x = Some(record);
    reg.slots.set(k as usize, Some(record));
    reg.active.push(k);
    add_owner_active(&mut reg.owners, &owner, k);
    proof {
        let ki = k as int;
        assert(reg.slots@ == slots0.update(ki, x));
        lemma_indexes_add(old(reg).active@, slots0, ki, x, true, None);
        lemma_indexes_same(old(reg).inactive@, slots0, ki, x, false, None);
        assert forall|o: Seq<char>| #[trigger] indexes(reg.owner_active(o), reg.slots@, true, Some(o)) by {
            assert(indexes(old(reg).owner_active(o), slots0, true, Some(o)));
            if o == owner@ {
                lemma_indexes_add(old(reg).owner_active(o), slots0, ki, x, true, Some(o));
            } else {
                lemma_indexes_same(old(reg).owner_active(o), slots0, ki, x, true, Some(o));
            }
        }
        assert forall|o: Seq<char>| #[trigger] indexes(reg.owner_inactive(o), reg.slots@, false, Some(o)) by {
            assert(indexes(old(reg).owner_inactive(o), slots0, false, Some(o)));
            lemma_indexes_same(old(reg).owner_inactive(o), slots0, ki, x, false, Some(o));
        }
    }
    Ok(())
}

/// Slot `index` holds an active record whose child calls from `caller`.
pub open spec fn is_active_offspring(reg: Registry, index: u32, caller: Seq<char>) -> bool {
    &&& (index as int) < reg.slots@.len()
    &&& reg.slots@[index as int] matches Some(rec) && rec.active && rec.address@ == caller
}

/// The listing entry of the active offspring at `index`, when the caller is
/// that offspring; `AuthenticationFailure` otherwise.
pub fn authenticate_offspring(reg: &Registry, index: u32, caller: &String) -> (r: Result<
    StoreOffspringInfo,
    FactoryError,
>)
    ensures
        r is Ok <==> is_active_offspring(*reg, index, caller@),
        r matches Err(e) ==> e == FactoryError::AuthenticationFailure,
        r matches Ok(info) ==> reg.slots@[index as int] matches Some(rec) && info == (StoreOffspringInfo {
            index,
            address: rec.address,
            label: rec.label,
        }),
{
    if index as usize >= reg.slots.len() {
        return Err(FactoryError::AuthenticationFailure);
    }
    match &reg.slots[index as usize] {
        Some(rec) => {
            if rec.active && rec.address == *caller {
                Ok(StoreOffspringInfo { index, address: rec.address.clone(), label: rec.label.clone() })
            } else {
                Err(FactoryError::AuthenticationFailure)
            }
        },
        None => Err(FactoryError::AuthenticationFailure),
    }
}

/// The deactivation of `index` by `caller` for `owner` is allowed.
pub open spec fn deactivation_allowed(reg: Registry, index: u32, caller: Seq<char>, owner: Seq<char>) -> bool {
    &&& is_active_offspring(reg, index, caller)
    &&& reg.slots@[index as int] matches Some(rec) && rec.owner@ == owner
}

/// Deactivation happens once: a record that is already inactive cannot be
/// deactivated again, by any caller for any owner, so a second request
/// fails and (by the contract of `try_deactivate_offspring`) changes nothing.
pub proof fn lemma_deactivation_is_final(
    reg: Registry,
    index: u32,
    rec: OffspringRecord,
    caller: Seq<char>,
    owner: Seq<char>,
)
    requires
        (index as int) < reg.slots@.len(),
        reg.slots@[index as int] == Some(rec),
        !rec.active,
    ensures
        !deactivation_allowed(reg, index, caller, owner),
{
}

/// Moves the offspring at `index` from the active indices to the inactive
/// ones; only that offspring itself may ask, naming its owner.
///
/// Fails with `AuthenticationFailure`, changing nothing, unless the record
/// at `index` is active, its child is the caller and `owner` is its owner.
/// Otherwise its status becomes inactive (for good), it leaves the global
/// and the owner's active index, and it is appended to the global and the
/// owner's inactive log.
pub fn try_deactivate_offspring(
    reg: &mut Registry,
    env: &Env,
    owner: &String,
    index: u32,
) -> (r: Result<(), FactoryError>)
    requires
        old(reg).wf(),
    ensures
        final(reg).wf(),
        !deactivation_allowed(*old(reg), index, env.sender@, owner@) ==> {
            &&& r == Err::<(), FactoryError>(FactoryError::AuthenticationFailure)
            &&& *final(reg) == *old(reg)
        },
        deactivation_allowed(*old(reg), index, env.sender@, owner@) ==> {
            &&& r is Ok
            &&& old(reg).slots@[index as int] matches Some(rec)
            &&& final(reg).slots@ == old(reg).slots@.update(
                index as int,
                Some(
                    OffspringRecord {
                        address: rec.address,
                        owner: rec.owner,
                        label: rec.label,
                        password: rec.password,
                        active: false,
                    },
                ),
            )
            &&& exists|p: int|
                0 <= p < old(reg).active@.len() && old(reg).active@[p] == index
                    && final(reg).active@ == old(reg).active@.remove(p)
            &&& final(reg).inactive@ == old(reg).inactive@.push(index)
            &&& exists|q: int|
                0 <= q < old(reg).owner_active(owner@).len() && old(reg).owner_active(owner@)[q] == index
                    && final(reg).owner_active(owner@) == old(reg).owner_active(owner@).remove(q)
            &&& final(reg).owner_inactive(owner@) == old(reg).owner_inactive(owner@).push(index)
            &&& forall|o: Seq<char>| o != owner@ ==> #[trigger] final(reg).owner_active(o) == old(reg).owner_active(o)
            &&& forall|o: Seq<char>| o != owner@ ==> #[trigger] final(reg).owner_inactive(o) == old(reg).owner_inactive(o)
            &&& final(reg).pending == old(reg).pending
            &&& final(reg).config == old(reg).config
            &&& final(reg).prng_seed == old(reg).prng_seed
            &&& final(reg).viewing_keys == old(reg).viewing_keys
        },
{
    // only the active offspring itself gets past this point
    match authenticate_offspring(reg, index, &env.sender) {
        Ok(_) => {},
        Err(e) => {
            return Err(e);
        },
    }
    let k = index as usize;
    let inactive_record = match &reg.slots[k] {
        Some(rec) => {
            if rec.owner != *owner {
                return Err(FactoryError::AuthenticationFailure);
            }
            OffspringRecord {
                address: rec.address.clone(),
                owner: rec.owner.clone(),
                label: rec.label.clone(),
                password: rec.password,
                active: false,
            }
        },
        None => {
            return Err(FactoryError::AuthenticationFailure);
        },
    };
    proof {
        assert(slot_selected(reg.slots@, k as int, true, None));
        assert(slot_selected(reg.slots@, k as int, true, Some(owner@)));
        assert(indexes(reg.owner_active(owner@), reg.slots@, true, Some(owner@)));
    }
    let p = match find_index(&reg.active, index) {
        Some(p) => p,
        None => {
            return Err(FactoryError::AuthenticationFailure);
        },
    };
    let ghost slots0 = reg.slots@;
    let ghost x = Some(inactive_record);
    let ghost owners0 = reg.owners@;
    reg.active.remove(p);
    reg.slots.set(k, Some(inactive_record));
    reg.inactive.push(index);
    remove_from_persons_active(&mut reg.owners, owner, index);
    add_owner_inactive(&mut reg.owners, owner, index);
    proof {
        let ki = k as int;
        assert(reg.slots@ == slots0.update(ki, x));
        lemma_indexes_remove(old(reg).active@, slots0, ki, x, p as int, true, None);
        lemma_indexes_add(old(reg).inactive@, slots0, ki, x, false, None);
        assert forall|o: Seq<char>| #[trigger] indexes(reg.owner_active(o), reg.slots@, true, Some(o)) by {
            assert(indexes(old(reg).owner_active(o), slots0, true, Some(o)));
            if o == owner@ {
                let q = choose|q: int|
                    0 <= q < old(reg).owner_active(owner@).len() && old(reg).owner_active(owner@)[q] == index
                        && reg.owner_active(owner@) == old(reg).owner_active(owner@).remove(q);
                lemma_indexes_remove(old(reg).owner_active(o), slots0, ki, x, q, true, Some(o));
            } else {
                lemma_indexes_same(old(reg).owner_active(o), slots0, ki, x, true, Some(o));
            }
        }
        assert forall|o: Seq<char>| #[trigger] indexes(reg.owner_inactive(o), reg.slots@, false, Some(o)) by {
            assert(indexes(old(reg).owner_inactive(o), slots0, false, Some(o)));
            if o == owner@ {
                lemma_indexes_add(old(reg).owner_inactive(o), slots0, ki, x, false, Some(o));
            } else {
                lemma_indexes_same(old(reg).owner_inactive(o), slots0, ki, x, false, Some(o));
            }
        }
    }
    Ok(())
}

/// The plain success status.
pub open spec fn is_success(a: HandleAnswer) -> bool {
    a matches HandleAnswer::Status { status: ResponseStatus::Success, message: None }
}

/// Lets the admin replace the child template.
///
/// Fails with `AuthenticationFailure`, changing nothing, when the sender
/// is not the admin.
pub fn try_new_contract(
    reg: &mut Registry,
    env: &Env,
    offspring_contract: OffspringContractInfo,
) -> (r: Result<HandleAnswer, FactoryError>)
    ensures
        old(reg).wf() ==> final(reg).wf(),
        env.sender@ != old(reg).config.admin@ ==> {
            &&& r == Err::<HandleAnswer, FactoryError>(FactoryError::AuthenticationFailure)
            &&& *final(reg) == *old(reg)
        },
        env.sender@ == old(reg).config.admin@ ==> {
            &&& r matches Ok(a) && is_success(a)
            &&& *final(reg) == (Registry {
                config: Config { version: offspring_contract, ..old(reg).config },
                ..*old(reg)
            })
        },
{
    if reg.config.admin != env.sender {
        return Err(FactoryError::AuthenticationFailure);
    }
    reg.config.version = offspring_contract;
    proof {
        if old(reg).wf() {
            lemma_wf_same_indices(*old(reg), *reg);
        }
    }
    Ok(HandleAnswer::Status { status: ResponseStatus::Success, message: None })
}

/// Lets the admin pause (`stop`) or reopen the creation of offspring.
///
/// Fails with `AuthenticationFailure`, changing nothing, when the sender
/// is not the admin.
pub fn try_set_status(reg: &mut Registry, env: &Env, stop: bool) -> (r: Result<HandleAnswer, FactoryError>)
    ensures
        old(reg).wf() ==> final(reg).wf(),
        env.sender@ != old(reg).config.admin@ ==> {
            &&& r == Err::<HandleAnswer, FactoryError>(FactoryError::AuthenticationFailure)
            &&& *final(reg) == *old(reg)
        },
        env.sender@ == old(reg).config.admin@ ==> {
            &&& r matches Ok(a) && is_success(a)
            &&& *final(reg) == (Registry {
                config: Config { stopped: stop, ..old(reg).config },
                ..*old(reg)
            })
        },
{
    if reg.config.admin != env.sender {
        return Err(FactoryError::AuthenticationFailure);
    }
    reg.config.stopped = stop;
    proof {
        if old(reg).wf() {
            lemma_wf_same_indices(*old(reg), *reg);
        }
    }
    Ok(HandleAnswer::Status { status: ResponseStatus::Success, message: None })
}

/// Derives a new viewing key for the sender from the registry's seed and
/// `entropy`, stores its hash (replacing any earlier key) and hands the key
/// out, once.
pub fn try_create_key(reg: &mut Registry, env: &Env, entropy: &str) -> (r: HandleAnswer)
    ensures
        old(reg).wf() ==> final(reg).wf(),
        r matches HandleAnswer::ViewingKey { key } && key@ == generated_key(
            *env,
            old(reg).prng_seed@,
            encode_utf8(entropy@),
        ),
        forall|a: Seq<char>| #[trigger] final(reg).stored_key(a) == if a == env.sender@ {
            Some(hashed_key(generated_key(*env, old(reg).prng_seed@, encode_utf8(entropy@))))
        } else {
            old(reg).stored_key(a)
        },
        final(reg).config == old(reg).config,
        final(reg).prng_seed == old(reg).prng_seed,
        final(reg).pending == old(reg).pending,
        final(reg).slots == old(reg).slots,
        final(reg).active == old(reg).active,
        final(reg).inactive == old(reg).inactive,
        final(reg).owners == old(reg).owners,
{
    let key = ViewingKey::new(env, reg.prng_seed.as_slice(), entropy.as_bytes());
    let hashed = key.to_hashed();
    store_key(&mut reg.viewing_keys, &env.sender, hashed);
    proof {
        if old(reg).wf() {
            lemma_wf_same_indices(*old(reg), *reg);
        }
    }
    HandleAnswer::ViewingKey { key: key.0 }
}

/// Stores the hash of `key` as the sender's viewing key, replacing any
/// earlier one, and echoes the key.
pub fn try_set_key(reg: &mut Registry, env: &Env, key: &str) -> (r: HandleAnswer)
    ensures
        old(reg).wf() ==> final(reg).wf(),
        r matches HandleAnswer::ViewingKey { key: k } && k@ == key@,
        forall|a: Seq<char>| #[trigger] final(reg).stored_key(a) == if a == env.sender@ {
            Some(hashed_key(key@))
        } else {
            old(reg).stored_key(a)
        },
        final(reg).config == old(reg).config,
        final(reg).prng_seed == old(reg).prng_seed,
        final(reg).pending == old(reg).pending,
        final(reg).slots == old(reg).slots,
        final(reg).active == old(reg).active,
        final(reg).inactive == old(reg).inactive,
        final(reg).owners == old(reg).owners,
{
    let vk = ViewingKey(key.to_owned());
    let hashed = vk.to_hashed();
    store_key(&mut reg.viewing_keys, &env.sender, hashed);
    proof {
        if old(reg).wf() {
            lemma_wf_same_indices(*old(reg), *reg);
        }
    }
    HandleAnswer::ViewingKey { key: vk.0 }
}

/// `candidate` authenticates `address`: a key is stored for it and
/// `candidate` hashes to it.
pub open spec fn key_matches(reg: Registry, address: Seq<char>, candidate: Seq<char>) -> bool {
    reg.stored_key(address) matches Some(h) && hashed_key(candidate) == h
}

/// Whether `viewing_key` is `address`'s key. When no key is stored the
/// candidate is still hashed and compared, against a dummy, so that "no key"
/// and "wrong key" take the same work.
pub fn is_key_valid(reg: &Registry, address: &String, viewing_key: String) -> (r: bool)
    ensures
        r == key_matches(*reg, address@, viewing_key@),
{
    let input_key = ViewingKey(viewing_key);
    match key_position(&reg.viewing_keys, address) {
        Some(i) => {
            let expected = reg.viewing_keys[i].hashed;
            input_key.check_viewing_key(&expected)
        },
        None => {
            let dummy: [u8; 32] = [0u8; 32];
            let _ = input_key.check_viewing_key(&dummy);
            false
        },
    }
}

/// `r` shows, in order, the active-listing entries of the records at `ks`.
pub open spec fn lists_active(slots: Seq<Option<OffspringRecord>>, ks: Seq<u32>, r: Seq<StoreOffspringInfo>) -> bool {
    &&& r.len() == ks.len()
    &&& forall|i: int|
        0 <= i < ks.len() ==> (#[trigger] slots[ks[i] as int] matches Some(rec) && r[i] == (
        StoreOffspringInfo { index: ks[i], address: rec.address, label: rec.label }))
}

/// `r` shows, in order, the inactive-listing entries of the records at `ks`.
pub open spec fn lists_inactive(
    slots: Seq<Option<OffspringRecord>>,
    ks: Seq<u32>,
    r: Seq<StoreInactiveOffspringInfo>,
) -> bool {
    &&& r.len() == ks.len()
    &&& forall|i: int|
        0 <= i < ks.len() ==> (#[trigger] slots[ks[i] as int] matches Some(rec) && r[i] == (
        StoreInactiveOffspringInfo { index: ks[i], address: rec.address, label: rec.label }))
}

/// The active index that a listing reads: `owner`'s, or the global one.
pub open spec fn active_list(reg: Registry, owner: Option<Seq<char>>) -> Seq<u32> {
    match owner {
        Some(o) => reg.owner_active(o),
        None => reg.active@,
    }
}

/// The inactive log that a listing reads: `owner`'s, or the global one.
pub open spec fn inactive_list(reg: Registry, owner: Option<Seq<char>>) -> Seq<u32> {
    match owner {
        Some(o) => reg.owner_inactive(o),
        None => reg.inactive@,
    }
}

pub open spec fn page_number(start_page: Option<u32>) -> int {
    match start_page {
        Some(p) => p as int,
        None => 0,
    }
}

pub open spec fn size_or_default(page_size: Option<u32>) -> int {
    match page_size {
        Some(s) => s as int,
        None => DEFAULT_PAGE_SIZE as int,
    }
}

/// The cursor of a backward listing: `before`, or the end of the log.
pub open spec fn cursor_or_end(before: Option<u32>, len: int) -> int {
    match before {
        Some(b) => b as int,
        None => len,
    }
}

/// Every index of `ks` names a filled slot.
pub open spec fn all_filled(slots: Seq<Option<OffspringRecord>>, ks: Seq<u32>) -> bool {
    forall|i: int| 0 <= i < ks.len() ==> (ks[i] as int) < slots.len() && #[trigger] slots[ks[i] as int] is Some
}

/// Entries of an index are filled slots, and so are those of any part of it.
proof fn lemma_part_filled(reg: Registry, s: Seq<u32>, active: bool, owner: Option<Seq<char>>, lo: int, hi: int)
    requires
        indexes(s, reg.slots@, active, owner),
        0 <= lo <= hi <= s.len(),
    ensures
        all_filled(reg.slots@, s.subrange(lo, hi)),
        all_filled(reg.slots@, s.subrange(lo, hi).reverse()),
{
    assert forall|i: int| 0 <= i < hi - lo implies (s.subrange(lo, hi)[i] as int) < reg.slots@.len()
        && #[trigger] reg.slots@[s.subrange(lo, hi)[i] as int] is Some by {
        assert(slot_selected(reg.slots@, s[lo + i] as int, active, owner));
    }
    assert forall|i: int| 0 <= i < hi - lo implies (s.subrange(lo, hi).reverse()[i] as int) < reg.slots@.len()
        && #[trigger] reg.slots@[s.subrange(lo, hi).reverse()[i] as int] is Some by {
        assert(slot_selected(reg.slots@, s[hi - 1 - i] as int, active, owner));
    }
}

fn active_infos(reg: &Registry, ks: &Vec<u32>) -> (r: Vec<StoreOffspringInfo>)
    requires
        all_filled(reg.slots@, ks@),
    ensures
        lists_active(reg.slots@, ks@, r@),
{
    let mut out: Vec<StoreOffspringInfo> = Vec::new();
    let mut i: usize = 0;
    while i < ks.len()
        invariant
            i <= ks@.len(),
            all_filled(reg.slots@, ks@),
            lists_active(reg.slots@, ks@.subrange(0, i as int), out@),
        decreases ks@.len() - i,
    {
        let k = ks[i];
        assert(reg.slots@[ks@[i as int] as int] is Some);
        match &reg.slots[k as usize] {
            Some(rec) => {
                out.push(StoreOffspringInfo { index: k, address: rec.address.clone(), label: rec.label.clone() });
            },
            None => {},
        }
        i += 1;
        assert(ks@.subrange(0, i as int).drop_last() =~= ks@.subrange(0, i - 1));
    }
    assert(ks@.subrange(0, i as int) =~= ks@);
    out
}

fn inactive_infos(reg: &Registry, ks: &Vec<u32>) -> (r: Vec<StoreInactiveOffspringInfo>)
    requires
        all_filled(reg.slots@, ks@),
    ensures
        lists_inactive(reg.slots@, ks@, r@),
{
    let mut out: Vec<StoreInactiveOffspringInfo> = Vec::new();
    let mut i: usize = 0;
    while i < ks.len()
        invariant
            i <= ks@.len(),
            all_filled(reg.slots@, ks@),
            lists_inactive(reg.slots@, ks@.subrange(0, i as int), out@),
        decreases ks@.len() - i,
    {
        let k = ks[i];
        assert(reg.slots@[ks@[i as int] as int] is Some);
        match &reg.slots[k as usize] {
            Some(rec) => {
                out.push(
                    StoreInactiveOffspringInfo { index: k, address: rec.address.clone(), label: rec.label.clone() },
                );
            },
            None => {},
        }
        i += 1;
        assert(ks@.subrange(0, i as int).drop_last() =~= ks@.subrange(0, i - 1));
    }
    assert(ks@.subrange(0, i as int) =~= ks@);
    out
}

/// One page of active offspring, `owner`'s or all of them, by page number.
pub fn display_active_list(
    reg: &Registry,
    owner: Option<&String>,
    start_page: Option<u32>,
    page_size: Option<u32>,
) -> (r: Vec<StoreOffspringInfo>)
    requires
        reg.wf(),
    ensures
        lists_active(
            reg.slots@,
            page_of(
                active_list(*reg, opt_view(owner)),
                page_number(start_page),
                size_or_default(page_size),
            ),
            r@,
        ),
{
    let page: u32 = match start_page {
        Some(p) => p,
        None => 0,
    };
    let size: u32 = match page_size {
        Some(s) => s,
        None => DEFAULT_PAGE_SIZE,
    };
    let ks = match owner {
        Some(o) => match owner_position(&reg.owners, o) {
            Some(i) => page_entries(&reg.owners[i].active, page, size),
            None => Vec::new(),
        },
        None => page_entries(&reg.active, page, size),
    };
    proof {
        let s = active_list(*reg, opt_view(owner));
        assert(indexes(s, reg.slots@, true, opt_view(owner)));
        assert(ks@ == page_of(s, page as int, size as int));
        lemma_part_filled(
            *reg,
            s,
            true,
            opt_view(owner),
            page_start(s.len() as int, page as int, size as int),
            page_end(s.len() as int, page as int, size as int),
        );
    }
    active_infos(reg, &ks)
}

/// Up to a page of inactive offspring, `owner`'s or all of them, that were
/// deactivated before log position `before` (the end of the log when it is
/// not given), latest first.
pub fn display_inactive_list(
    reg: &Registry,
    owner: Option<&String>,
    before: Option<u32>,
    page_size: Option<u32>,
) -> (r: Vec<StoreInactiveOffspringInfo>)
    requires
        reg.wf(),
    ensures
        ({
            let s = inactive_list(*reg, opt_view(owner));
            lists_inactive(
                reg.slots@,
                page_before(s, cursor_or_end(before, s.len() as int), size_or_default(page_size)),
                r@,
            )
        }),
{
    let size: u32 = match page_size {
        Some(s) => s,
        None => DEFAULT_PAGE_SIZE,
    };
    let empty: Vec<u32> = Vec::new();
    let list: &Vec<u32> = match owner {
        Some(o) => match owner_position(&reg.owners, o) {
            Some(i) => &reg.owners[i].inactive,
            None => &empty,
        },
        None => &reg.inactive,
    };
    let end: usize = match before {
        Some(b) => b as usize,
        None => list.len(),
    };
    let ks = entries_before(list, end, size);
    proof {
        let s = inactive_list(*reg, opt_view(owner));
        assert(list@ == s);
        assert(indexes(s, reg.slots@, false, opt_view(owner)));
        lemma_part_filled(
            *reg,
            s,
            false,
            opt_view(owner),
            cursor_start(s.len() as int, end as int, size as int),
            cursor_end(s.len() as int, end as int),
        );
    }
    inactive_infos(reg, &ks)
}

/// A page of all active offspring.
pub fn try_list_active(reg: &Registry, start_page: Option<u32>, page_size: Option<u32>) -> (r: QueryAnswer)
    requires
        reg.wf(),
    ensures
        r matches QueryAnswer::ListActiveOffspring { active } && lists_active(
            reg.slots@,
            page_of(reg.active@, page_number(start_page), size_or_default(page_size)),
            active@,
        ),
{
    QueryAnswer::ListActiveOffspring { active: display_active_list(reg, None, start_page, page_size) }
}

/// A page of all inactive offspring, latest first, before log position `before`.
pub fn try_list_inactive(reg: &Registry, before: Option<u32>, page_size: Option<u32>) -> (r: QueryAnswer)
    requires
        reg.wf(),
    ensures
        r matches QueryAnswer::ListInactiveOffspring { inactive } && lists_inactive(
            reg.slots@,
            page_before(
                reg.inactive@,
                cursor_or_end(before, reg.inactive@.len() as int),
                size_or_default(page_size),
            ),
            inactive@,
        ),
{
    QueryAnswer::ListInactiveOffspring { inactive: display_inactive_list(reg, None, before, page_size) }
}

/// Answers whether `viewing_key` is `address`'s key.
pub fn try_validate_key(reg: &Registry, address: &String, viewing_key: String) -> (r: QueryAnswer)
    ensures
        r == (QueryAnswer::IsKeyValid { is_valid: key_matches(*reg, address@, viewing_key@) }),
{
    QueryAnswer::IsKeyValid { is_valid: is_key_valid(reg, address, viewing_key) }
}

pub open spec fn shows_active(filter: Option<FilterTypes>) -> bool {
    !(filter == Some(FilterTypes::Inactive))
}

pub open spec fn shows_inactive(filter: Option<FilterTypes>) -> bool {
    !(filter == Some(FilterTypes::Active))
}

/// Lists `address`'s own offspring, when `viewing_key` authenticates it.
///
/// A wrong or missing key gives `ViewingKeyError` (an answer, not a failed
/// query, and the same one in both cases). Otherwise the active list is
/// present unless the filter asks for inactive ones only, and is the page
/// `start_page` of the owner's active index; the inactive list is present
/// unless the filter asks for active ones only, and is the backward page
/// before `before` of the owner's inactive log. No filter means both.
pub fn try_list_my(
    reg: &Registry,
    address: &String,
    viewing_key: String,
    filter: Option<FilterTypes>,
    start_page: Option<u32>,
    before: Option<u32>,
    page_size: Option<u32>,
) -> (r: QueryAnswer)
    requires
        reg.wf(),
    ensures
        !key_matches(*reg, address@, viewing_key@) ==> r is ViewingKeyError,
        key_matches(*reg, address@, viewing_key@) ==> {
            &&& r matches QueryAnswer::ListMyOffspring { active, inactive }
            &&& shows_active(filter) ==> (active matches Some(v) && lists_active(
                reg.slots@,
                page_of(reg.owner_active(address@), page_number(start_page), size_or_default(page_size)),
                v@,
            ))
            &&& !shows_active(filter) ==> active is None
            &&& shows_inactive(filter) ==> (inactive matches Some(v) && lists_inactive(
                reg.slots@,
                page_before(
                    reg.owner_inactive(address@),
                    cursor_or_end(before, reg.owner_inactive(address@).len() as int),
                    size_or_default(page_size),
                ),
                v@,
            ))
            &&& !shows_inactive(filter) ==> inactive is None
        },
{
    if !is_key_valid(reg, address, viewing_key) {
        return QueryAnswer::ViewingKeyError {
            error: String::from_str("Wrong viewing key for this address or viewing key not set"),
        };
    }
    let types = match filter {
        Some(f) => f,
        None => FilterTypes::All,
    };
    let active = if types != FilterTypes::Inactive {
        Some(display_active_list(reg, Some(address), start_page, page_size))
    } else {
        None
    };
    let inactive = if types != FilterTypes::Active {
        Some(display_inactive_list(reg, Some(address), before, page_size))
    } else {
        None
    };
    QueryAnswer::ListMyOffspring { active, inactive }
}

} // verus!
