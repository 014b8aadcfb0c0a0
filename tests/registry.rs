use offspring_registry::env::Env;
use offspring_registry::factory::contract::{
    display_active_list, display_inactive_list, init, is_key_valid, new_entropy,
    try_create_key, try_create_offspring, try_deactivate_offspring, try_list_active,
    try_list_inactive, try_list_my, try_new_contract, try_register_offspring, try_set_key,
    try_set_status, try_validate_key,
};
use offspring_registry::factory::msg::{
    FactoryError, FilterTypes, HandleAnswer, OffspringContractInfo, QueryAnswer,
    RegisterOffspringInfo, ResponseStatus,
};
use offspring_registry::factory::state::Registry;
use offspring_registry::paging::DEFAULT_PAGE_SIZE;

fn env_of(sender: &str) -> Env {
    Env {
        block_height: 12345,
        block_time: 1_600_000_000,
        sender: sender.to_string(),
        contract_address: "registry".to_string(),
        contract_code_hash: "registry_hash".to_string(),
    }
}

fn template() -> OffspringContractInfo {
    OffspringContractInfo { code_id: 7, code_hash: "child_hash".to_string() }
}

fn fresh() -> Registry {
    init(&env_of("admin"), "some entropy".to_string(), template())
}

/// Creates and registers one child at address `child` for `owner`; returns its index.
fn spawn(reg: &mut Registry, owner: &str, child: &str) -> u32 {
    let d = try_create_offspring(
        reg,
        &env_of(owner),
        format!("label-{}", child),
        format!("entropy-{}", child),
        owner.to_string(),
        0,
        None,
    )
    .ok()
    .expect("creation is open");
    let info = RegisterOffspringInfo {
        index: d.msg.index,
        label: d.msg.label.clone(),
        password: d.msg.password,
    };
    assert_eq!(try_register_offspring(reg, &env_of(child), owner.to_string(), &info), Ok(()));
    d.msg.index
}

fn active_indices(reg: &Registry, owner: Option<&str>, page: Option<u32>, size: Option<u32>) -> Vec<u32> {
    let o = owner.map(|s| s.to_string());
    display_active_list(reg, o.as_ref(), page, size).iter().map(|i| i.index).collect()
}

fn inactive_indices(reg: &Registry, owner: Option<&str>, before: Option<u32>, size: Option<u32>) -> Vec<u32> {
    let o = owner.map(|s| s.to_string());
    display_inactive_list(reg, o.as_ref(), before, size).iter().map(|i| i.index).collect()
}

#[test]
fn init_sets_admin_and_seed() {
    let reg = fresh();
    assert_eq!(reg.config.admin, "admin");
    assert!(!reg.config.stopped);
    assert_eq!(reg.config.version.code_id, 7);
    let text = base64::encode("some entropy".as_bytes());
    assert_eq!(reg.prng_seed, secret_toolkit_crypto::sha_256(text.as_bytes()));
    assert!(reg.pending.is_none());
    assert!(reg.slots.is_empty() && reg.active.is_empty() && reg.inactive.is_empty());
}

#[test]
fn new_entropy_mixes_block_sender_and_entropy_in_order() {
    let env = env_of("alice");
    let seed = [3u8; 32];
    let got = new_entropy(&env, &seed, b"xyz");
    let mut mixed = Vec::new();
    mixed.extend_from_slice(&12345u64.to_be_bytes());
    mixed.extend_from_slice(&1_600_000_000u64.to_be_bytes());
    mixed.extend_from_slice(b"alice");
    mixed.extend_from_slice(b"xyz");
    let expected = secret_toolkit_crypto::ContractPrng::new(&seed, &mixed).rand_bytes();
    assert_eq!(got, expected);
    assert_ne!(got, seed);
    assert_ne!(got, new_entropy(&env, &seed, b"xyw"));
}

#[test]
fn creation_issues_ticket_and_dispatch() {
    let mut reg = fresh();
    let old_seed = reg.prng_seed;
    let d = try_create_offspring(
        &mut reg,
        &env_of("alice"),
        "kid".to_string(),
        "e".to_string(),
        "alice".to_string(),
        5,
        Some("desc".to_string()),
    )
    .ok()
    .unwrap();
    assert_eq!(reg.prng_seed, new_entropy(&env_of("alice"), &old_seed, b"e"));
    let t = reg.pending.unwrap();
    assert_eq!(t.index, 0);
    assert_eq!(t.password, secret_toolkit_crypto::sha_256(&reg.prng_seed));
    assert_eq!(d.code_id, 7);
    assert_eq!(d.code_hash, "child_hash");
    assert_eq!(d.label, "kid");
    assert_eq!(d.msg.factory.address, "registry");
    assert_eq!(d.msg.factory.code_hash, "registry_hash");
    assert_eq!(d.msg.index, 0);
    assert_eq!(d.msg.password, t.password);
    assert_eq!(d.msg.owner, "alice");
    assert_eq!(d.msg.count, 5);
    assert_eq!(d.msg.description, Some("desc".to_string()));
    assert_eq!(reg.slots.len(), 1);
    assert!(reg.slots[0].is_none());
}

#[test]
fn registration_lists_record_as_active_once() {
    let mut reg = fresh();
    let k = spawn(&mut reg, "alice", "child0");
    assert!(reg.pending.is_none());
    let rec = reg.slots[k as usize].as_ref().unwrap();
    assert!(rec.active);
    assert_eq!(rec.address, "child0");
    assert_eq!(rec.owner, "alice");
    assert_eq!(reg.active, vec![k]);
    assert!(reg.inactive.is_empty());
    assert_eq!(active_indices(&reg, Some("alice"), None, None), vec![k]);
    assert!(inactive_indices(&reg, Some("alice"), None, None).is_empty());
    assert!(active_indices(&reg, Some("bob"), None, None).is_empty());
}

#[test]
fn registration_with_wrong_password_fails_and_changes_nothing() {
    let mut reg = fresh();
    let d = try_create_offspring(&mut reg, &env_of("alice"), "kid".into(), "e".into(), "alice".into(), 0, None)
        .ok()
        .unwrap();
    let mut bad = d.msg.password;
    bad[31] ^= 1;
    let info = RegisterOffspringInfo { index: d.msg.index, label: "kid".into(), password: bad };
    assert_eq!(
        try_register_offspring(&mut reg, &env_of("child"), "alice".into(), &info),
        Err(FactoryError::AuthenticationFailure)
    );
    assert!(reg.pending.is_some());
    assert!(reg.active.is_empty());
    assert!(reg.owners.is_empty());
    assert!(reg.slots[0].is_none());
}

#[test]
fn registration_with_wrong_index_fails() {
    let mut reg = fresh();
    let d = try_create_offspring(&mut reg, &env_of("alice"), "kid".into(), "e".into(), "alice".into(), 0, None)
        .ok()
        .unwrap();
    let info = RegisterOffspringInfo { index: d.msg.index + 1, label: "kid".into(), password: d.msg.password };
    assert_eq!(
        try_register_offspring(&mut reg, &env_of("child"), "alice".into(), &info),
        Err(FactoryError::AuthenticationFailure)
    );
    assert!(reg.active.is_empty());
}

#[test]
fn registration_without_pending_ticket_fails() {
    let mut reg = fresh();
    let info = RegisterOffspringInfo { index: 0, label: "kid".into(), password: [0u8; 32] };
    assert_eq!(
        try_register_offspring(&mut reg, &env_of("child"), "alice".into(), &info),
        Err(FactoryError::AuthenticationFailure)
    );
    assert!(reg.slots.is_empty());
}

#[test]
fn ticket_is_consumed_by_registration() {
    let mut reg = fresh();
    let d = try_create_offspring(&mut reg, &env_of("alice"), "kid".into(), "e".into(), "alice".into(), 0, None)
        .ok()
        .unwrap();
    let info = RegisterOffspringInfo { index: d.msg.index, label: "kid".into(), password: d.msg.password };
    assert_eq!(try_register_offspring(&mut reg, &env_of("child"), "alice".into(), &info), Ok(()));
    assert_eq!(
        try_register_offspring(&mut reg, &env_of("child2"), "alice".into(), &info),
        Err(FactoryError::AuthenticationFailure)
    );
    assert_eq!(reg.active, vec![0]);
}

#[test]
fn second_creation_orphans_first_ticket() {
    let mut reg = fresh();
    let d1 = try_create_offspring(&mut reg, &env_of("alice"), "a".into(), "1".into(), "alice".into(), 0, None)
        .ok()
        .unwrap();
    let d2 = try_create_offspring(&mut reg, &env_of("alice"), "b".into(), "2".into(), "alice".into(), 0, None)
        .ok()
        .unwrap();
    assert_eq!(d2.msg.index, 1);
    assert_ne!(d1.msg.password, d2.msg.password);
    let late = RegisterOffspringInfo { index: d1.msg.index, label: "a".into(), password: d1.msg.password };
    assert_eq!(
        try_register_offspring(&mut reg, &env_of("c1"), "alice".into(), &late),
        Err(FactoryError::AuthenticationFailure)
    );
    let ok = RegisterOffspringInfo { index: d2.msg.index, label: "b".into(), password: d2.msg.password };
    assert_eq!(try_register_offspring(&mut reg, &env_of("c2"), "alice".into(), &ok), Ok(()));
    assert_eq!(reg.active, vec![1]);
    assert!(reg.slots[0].is_none());
}

#[test]
fn deactivation_moves_record_to_inactive_indices() {
    let mut reg = fresh();
    let k = spawn(&mut reg, "alice", "child0");
    assert_eq!(try_deactivate_offspring(&mut reg, &env_of("child0"), &"alice".to_string(), k), Ok(()));
    assert!(!reg.slots[k as usize].as_ref().unwrap().active);
    assert!(reg.active.is_empty());
    assert_eq!(reg.inactive, vec![k]);
    assert!(active_indices(&reg, Some("alice"), None, None).is_empty());
    assert_eq!(inactive_indices(&reg, Some("alice"), None, None), vec![k]);
}

#[test]
fn second_deactivation_fails_without_change() {
    let mut reg = fresh();
    let k = spawn(&mut reg, "alice", "child0");
    assert_eq!(try_deactivate_offspring(&mut reg, &env_of("child0"), &"alice".to_string(), k), Ok(()));
    assert_eq!(
        try_deactivate_offspring(&mut reg, &env_of("child0"), &"alice".to_string(), k),
        Err(FactoryError::AuthenticationFailure)
    );
    assert_eq!(reg.inactive, vec![k]);
    assert_eq!(inactive_indices(&reg, Some("alice"), None, None), vec![k]);
}

#[test]
fn deactivation_by_other_caller_or_wrong_owner_fails() {
    let mut reg = fresh();
    let k = spawn(&mut reg, "alice", "child0");
    assert_eq!(
        try_deactivate_offspring(&mut reg, &env_of("mallory"), &"alice".to_string(), k),
        Err(FactoryError::AuthenticationFailure)
    );
    assert_eq!(
        try_deactivate_offspring(&mut reg, &env_of("child0"), &"bob".to_string(), k),
        Err(FactoryError::AuthenticationFailure)
    );
    assert_eq!(
        try_deactivate_offspring(&mut reg, &env_of("child0"), &"alice".to_string(), 9),
        Err(FactoryError::AuthenticationFailure)
    );
    assert_eq!(reg.active, vec![k]);
    assert!(reg.inactive.is_empty());
}

#[test]
fn inactive_listing_is_reverse_chronological() {
    let mut reg = fresh();
    let a = spawn(&mut reg, "alice", "ca");
    let b = spawn(&mut reg, "alice", "cb");
    let c = spawn(&mut reg, "alice", "cc");
    for (k, child) in [(a, "ca"), (b, "cb"), (c, "cc")] {
        assert_eq!(try_deactivate_offspring(&mut reg, &env_of(child), &"alice".to_string(), k), Ok(()));
    }
    match try_list_inactive(&reg, None, Some(2)) {
        QueryAnswer::ListInactiveOffspring { inactive } => {
            let got: Vec<u32> = inactive.iter().map(|i| i.index).collect();
            assert_eq!(got, vec![c, b]);
            assert_eq!(inactive[0].address, "cc");
            assert_eq!(inactive[0].label, "label-cc");
        }
        _ => panic!("unexpected answer"),
    }
    // B stands at log position 1
    match try_list_inactive(&reg, Some(1), Some(2)) {
        QueryAnswer::ListInactiveOffspring { inactive } => {
            let got: Vec<u32> = inactive.iter().map(|i| i.index).collect();
            assert_eq!(got, vec![a]);
        }
        _ => panic!("unexpected answer"),
    }
}

#[test]
fn paused_registry_refuses_creation_until_unpaused() {
    let mut reg = fresh();
    let r = try_set_status(&mut reg, &env_of("admin"), true);
    assert!(matches!(r, Ok(HandleAnswer::Status { status: ResponseStatus::Success, message: None })));
    let seed = reg.prng_seed;
    let r = try_create_offspring(&mut reg, &env_of("alice"), "kid".into(), "e".into(), "alice".into(), 0, None);
    assert_eq!(r.err(), Some(FactoryError::ConfigurationError));
    assert!(reg.pending.is_none());
    assert_eq!(reg.prng_seed, seed);
    assert!(try_set_status(&mut reg, &env_of("admin"), false).is_ok());
    let r = try_create_offspring(&mut reg, &env_of("alice"), "kid".into(), "e".into(), "alice".into(), 0, None);
    assert!(r.is_ok());
    assert!(reg.pending.is_some());
}

#[test]
fn admin_operations_refuse_non_admin() {
    let mut reg = fresh();
    assert_eq!(
        try_set_status(&mut reg, &env_of("mallory"), true).err(),
        Some(FactoryError::AuthenticationFailure)
    );
    assert!(!reg.config.stopped);
    let other = OffspringContractInfo { code_id: 99, code_hash: "other".to_string() };
    assert_eq!(
        try_new_contract(&mut reg, &env_of("mallory"), other).err(),
        Some(FactoryError::AuthenticationFailure)
    );
    assert_eq!(reg.config.version.code_id, 7);
    assert_eq!(reg.config.version.code_hash, "child_hash");
    assert_eq!(reg.config.admin, "admin");
}

#[test]
fn admin_replaces_template() {
    let mut reg = fresh();
    let other = OffspringContractInfo { code_id: 99, code_hash: "other".to_string() };
    assert!(try_new_contract(&mut reg, &env_of("admin"), other).is_ok());
    assert_eq!(reg.config.version.code_id, 99);
    let d = try_create_offspring(&mut reg, &env_of("alice"), "kid".into(), "e".into(), "alice".into(), 0, None)
        .ok()
        .unwrap();
    assert_eq!(d.code_id, 99);
    assert_eq!(d.code_hash, "other");
}

#[test]
fn missing_and_wrong_keys_are_both_refused() {
    let mut reg = fresh();
    let alice = "alice".to_string();
    assert!(!is_key_valid(&reg, &alice, "guess".to_string()));
    try_set_key(&mut reg, &env_of("alice"), "secret");
    assert!(!is_key_valid(&reg, &alice, "guess".to_string()));
    assert!(is_key_valid(&reg, &alice, "secret".to_string()));
    assert!(!is_key_valid(&reg, &"bob".to_string(), "secret".to_string()));
    assert!(matches!(
        try_validate_key(&reg, &alice, "secret".to_string()),
        QueryAnswer::IsKeyValid { is_valid: true }
    ));
    assert!(matches!(
        try_validate_key(&reg, &alice, "nope".to_string()),
        QueryAnswer::IsKeyValid { is_valid: false }
    ));
}

#[test]
fn stored_key_is_the_hash_of_the_key() {
    let mut reg = fresh();
    try_set_key(&mut reg, &env_of("alice"), "test");
    assert_eq!(reg.viewing_keys.len(), 1);
    let expected: [u8; 32] = [
        159, 134, 208, 129, 136, 76, 125, 101, 154, 47, 234, 160, 197, 90, 208, 21, 163, 191, 79,
        27, 43, 11, 130, 44, 209, 93, 108, 21, 176, 240, 10, 8,
    ];
    assert_eq!(reg.viewing_keys[0].hashed, expected);
}

#[test]
fn setting_a_key_again_replaces_it() {
    let mut reg = fresh();
    let alice = "alice".to_string();
    try_set_key(&mut reg, &env_of("alice"), "one");
    try_set_key(&mut reg, &env_of("alice"), "two");
    assert_eq!(reg.viewing_keys.len(), 1);
    assert!(!is_key_valid(&reg, &alice, "one".to_string()));
    assert!(is_key_valid(&reg, &alice, "two".to_string()));
}

#[test]
fn created_key_is_returned_once_and_validates() {
    let mut reg = fresh();
    let seed = reg.prng_seed;
    let key = match try_create_key(&mut reg, &env_of("alice"), "my entropy") {
        HandleAnswer::ViewingKey { key } => key,
        _ => panic!("unexpected answer"),
    };
    let rand = new_entropy(&env_of("alice"), &seed, b"my entropy");
    let expected = format!("api_key_{}", base64::encode(secret_toolkit_crypto::sha_256(&rand)));
    assert_eq!(key, expected);
    assert_eq!(reg.prng_seed, seed);
    assert!(is_key_valid(&reg, &"alice".to_string(), key));
}

#[test]
fn pages_of_active_list_cover_it_once() {
    let mut reg = fresh();
    let mut all = Vec::new();
    for i in 0..5 {
        all.push(spawn(&mut reg, "alice", &format!("c{}", i)));
    }
    for size in 1u32..=6 {
        let mut joined = Vec::new();
        let mut page = 0u32;
        loop {
            let got = active_indices(&reg, None, Some(page), Some(size));
            if got.is_empty() {
                break;
            }
            assert!(got.len() <= size as usize);
            joined.extend(got);
            page += 1;
        }
        assert_eq!(joined, all, "page size {}", size);
    }
}

#[test]
fn cursor_walk_covers_inactive_log_once() {
    let mut reg = fresh();
    let mut all = Vec::new();
    for i in 0..5 {
        let child = format!("c{}", i);
        let k = spawn(&mut reg, "alice", &child);
        assert_eq!(try_deactivate_offspring(&mut reg, &env_of(&child), &"alice".to_string(), k), Ok(()));
        all.push(k);
    }
    all.reverse();
    for size in 1u32..=6 {
        let mut joined = Vec::new();
        let mut before = reg.inactive.len() as u32;
        while before > 0 {
            let got = inactive_indices(&reg, None, Some(before), Some(size));
            before = before.saturating_sub(size);
            joined.extend(got);
        }
        assert_eq!(joined, all, "page size {}", size);
    }
}

#[test]
fn pages_past_the_end_and_empty_pages_are_empty() {
    let mut reg = fresh();
    assert!(active_indices(&reg, None, None, None).is_empty());
    spawn(&mut reg, "alice", "c0");
    assert!(active_indices(&reg, None, Some(1), Some(1)).is_empty());
    assert!(active_indices(&reg, None, Some(0), Some(0)).is_empty());
    assert!(active_indices(&reg, None, Some(u32::MAX), Some(u32::MAX)).is_empty());
    assert!(inactive_indices(&reg, None, None, None).is_empty());
}

#[test]
fn default_page_size_is_two_hundred() {
    assert_eq!(DEFAULT_PAGE_SIZE, 200);
    let mut reg = fresh();
    for i in 0..201 {
        spawn(&mut reg, "alice", &format!("c{}", i));
    }
    assert_eq!(active_indices(&reg, None, None, None).len(), 200);
    assert_eq!(active_indices(&reg, None, Some(1), None), vec![200]);
    match try_list_active(&reg, None, None) {
        QueryAnswer::ListActiveOffspring { active } => assert_eq!(active.len(), 200),
        _ => panic!("unexpected answer"),
    }
}

#[test]
fn list_my_needs_the_key_and_follows_the_filter() {
    let mut reg = fresh();
    let alice = "alice".to_string();
    let a = spawn(&mut reg, "alice", "ca");
    let b = spawn(&mut reg, "alice", "cb");
    spawn(&mut reg, "bob", "cc");
    assert_eq!(try_deactivate_offspring(&mut reg, &env_of("ca"), &alice, a), Ok(()));
    match try_list_my(&reg, &alice, "k".to_string(), None, None, None, None) {
        QueryAnswer::ViewingKeyError { error } => {
            assert_eq!(error, "Wrong viewing key for this address or viewing key not set")
        }
        _ => panic!("expected a key error"),
    }
    try_set_key(&mut reg, &env_of("alice"), "k");
    match try_list_my(&reg, &alice, "wrong".to_string(), None, None, None, None) {
        QueryAnswer::ViewingKeyError { .. } => {}
        _ => panic!("expected a key error"),
    }
    match try_list_my(&reg, &alice, "k".to_string(), None, None, None, None) {
        QueryAnswer::ListMyOffspring { active: Some(act), inactive: Some(inact) } => {
            assert_eq!(act.iter().map(|i| i.index).collect::<Vec<_>>(), vec![b]);
            assert_eq!(inact.iter().map(|i| i.index).collect::<Vec<_>>(), vec![a]);
            assert_eq!(inact[0].address, "ca");
        }
        _ => panic!("expected both lists"),
    }
    match try_list_my(&reg, &alice, "k".to_string(), Some(FilterTypes::Active), None, None, None) {
        QueryAnswer::ListMyOffspring { active: Some(_), inactive: None } => {}
        _ => panic!("expected the active list only"),
    }
    match try_list_my(&reg, &alice, "k".to_string(), Some(FilterTypes::Inactive), None, None, None) {
        QueryAnswer::ListMyOffspring { active: None, inactive: Some(_) } => {}
        _ => panic!("expected the inactive list only"),
    }
    match try_list_my(&reg, &alice, "k".to_string(), Some(FilterTypes::All), None, None, None) {
        QueryAnswer::ListMyOffspring { active: Some(_), inactive: Some(_) } => {}
        _ => panic!("expected both lists"),
    }
}

#[test]
fn owners_are_scoped_separately() {
    let mut reg = fresh();
    let a = spawn(&mut reg, "alice", "ca");
    let b = spawn(&mut reg, "bob", "cb");
    let c = spawn(&mut reg, "alice", "cc");
    assert_eq!(active_indices(&reg, Some("alice"), None, None), vec![a, c]);
    assert_eq!(active_indices(&reg, Some("bob"), None, None), vec![b]);
    assert_eq!(active_indices(&reg, None, None, None), vec![a, b, c]);
    assert_eq!(try_deactivate_offspring(&mut reg, &env_of("cc"), &"alice".to_string(), c), Ok(()));
    assert_eq!(active_indices(&reg, Some("alice"), None, None), vec![a]);
    assert_eq!(inactive_indices(&reg, Some("alice"), None, None), vec![c]);
    assert!(inactive_indices(&reg, Some("bob"), None, None).is_empty());
    assert_eq!(active_indices(&reg, None, None, None), vec![a, b]);
}

#[test]
fn invariant_check_accepts_real_states_and_rejects_corrupt_ones() {
    let mut reg = fresh();
    assert!(reg.check_wf());
    let a = spawn(&mut reg, "alice", "ca");
    spawn(&mut reg, "bob", "cb");
    assert_eq!(try_deactivate_offspring(&mut reg, &env_of("ca"), &"alice".to_string(), a), Ok(()));
    try_set_key(&mut reg, &env_of("alice"), "k");
    assert!(reg.check_wf());
    reg.active.push(1);
    assert!(!reg.check_wf());
    reg.active.pop();
    assert!(reg.check_wf());
    reg.inactive.clear();
    assert!(!reg.check_wf());
}
