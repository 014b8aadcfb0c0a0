use vstd::prelude::*;

use crate::factory::msg::OffspringContractInfo;

verus! {

/// The registry's configuration: the child template, whether creation is
/// paused, and the admin's address.
pub struct Config {
    pub version: OffspringContractInfo,
    pub stopped: bool,
    pub admin: String,
}

/// The one outstanding creation: the index issued and the password the
/// child must echo back.
#[derive(Clone, Copy)]
pub struct PendingTicket {
    pub index: u32,
    pub password: [u8; 32],
}

/// One registered offspring.
pub struct OffspringRecord {
    /// The child's own address, the only caller that may deactivate it.
    pub address: String,
    pub owner: String,
    pub label: String,
    /// The one-time password it registered with.
    pub password: [u8; 32],
    pub active: bool,
}

/// An owner's indices: the record indices of its active offspring, and of
/// its inactive ones in the order they were deactivated.
pub struct OwnerLists {
    pub owner: String,
    pub active: Vec<u32>,
    pub inactive: Vec<u32>,
}

/// The stored hash of one address's viewing key.
pub struct KeyEntry {
    pub address: String,
    pub hashed: [u8; 32],
}

/// The whole registry state.
///
/// Records live in `slots`, at the index that was issued when their
/// creation was requested; a slot stays empty until its child registers
/// (and forever when a later request overwrote its ticket). `active` is the
/// set of active record indices; `inactive` is the log of deactivated ones,
/// oldest first. `owners` scopes both to each owner.
pub struct Registry {
    pub config: Config,
    pub prng_seed: [u8; 32],
    pub pending: Option<PendingTicket>,
    pub slots: Vec<Option<OffspringRecord>>,
    pub active: Vec<u32>,
    pub inactive: Vec<u32>,
    pub owners: Vec<OwnerLists>,
    pub viewing_keys: Vec<KeyEntry>,
}

pub open spec fn opt_view(owner: Option<&String>) -> Option<Seq<char>> {
    match owner {
        Some(o) => Some(o@),
        None => None,
    }
}

/// `i` is the first position of `names` that holds `o`.
pub open spec fn first_match(names: Seq<Seq<char>>, o: Seq<char>, i: int) -> bool {
    &&& 0 <= i < names.len()
    &&& names[i] == o
    &&& forall|j: int| 0 <= j < i ==> names[j] != o
}

/// The first position of `names` that holds `o`, if any does.
pub open spec fn position_of(names: Seq<Seq<char>>, o: Seq<char>) -> Option<int> {
    if exists|i: int| first_match(names, o, i) {
        Some(choose|i: int| first_match(names, o, i))
    } else {
        None
    }
}

pub open spec fn owner_names(owners: Seq<OwnerLists>) -> Seq<Seq<char>> {
    owners.map_values(|e: OwnerLists| e.owner@)
}

pub open spec fn key_names(keys: Seq<KeyEntry>) -> Seq<Seq<char>> {
    keys.map_values(|e: KeyEntry| e.address@)
}

/// Record `r` belongs in the index for status `active`, scoped to `owner`
/// when one is given.
pub open spec fn selects(r: OffspringRecord, active: bool, owner: Option<Seq<char>>) -> bool {
    &&& r.active == active
    &&& match owner {
        Some(o) => r.owner@ == o,
        None => true,
    }
}

pub open spec fn slot_selected(
    slots: Seq<Option<OffspringRecord>>,
    k: int,
    active: bool,
    owner: Option<Seq<char>>,
) -> bool {
    &&& 0 <= k < slots.len()
    &&& slots[k] matches Some(r) && selects(r, active, owner)
}

/// `s` lists each selected record index exactly once, and nothing else.
pub open spec fn indexes(
    s: Seq<u32>,
    slots: Seq<Option<OffspringRecord>>,
    active: bool,
    owner: Option<Seq<char>>,
) -> bool {
    &&& s.no_duplicates()
    &&& forall|i: int| 0 <= i < s.len() ==> #[trigger] slot_selected(slots, s[i] as int, active, owner)
    &&& forall|k: int|
        #![trigger slot_selected(slots, k, active, owner)]
        slot_selected(slots, k, active, owner) ==> s.contains(k as u32)
}

/// The active index of `owner` in `owners` (empty when it has none).
pub open spec fn active_of(owners: Seq<OwnerLists>, owner: Seq<char>) -> Seq<u32> {
    match position_of(owner_names(owners), owner) {
        Some(i) => owners[i].active@,
        None => Seq::empty(),
    }
}

/// The inactive index of `owner` in `owners` (empty when it has none).
pub open spec fn inactive_of(owners: Seq<OwnerLists>, owner: Seq<char>) -> Seq<u32> {
    match position_of(owner_names(owners), owner) {
        Some(i) => owners[i].inactive@,
        None => Seq::empty(),
    }
}

/// The stored hash for `address` in `keys`, if one was set.
pub open spec fn key_of(keys: Seq<KeyEntry>, address: Seq<char>) -> Option<Seq<u8>> {
    match position_of(key_names(keys), address) {
        Some(i) => Some(keys[i].hashed@),
        None => None,
    }
}

impl Registry {
    /// The active index of `owner` (empty when it has none).
    pub open spec fn owner_active(&self, owner: Seq<char>) -> Seq<u32> {
        active_of(self.owners@, owner)
    }

    /// The inactive index of `owner` (empty when it has none).
    pub open spec fn owner_inactive(&self, owner: Seq<char>) -> Seq<u32> {
        inactive_of(self.owners@, owner)
    }

    /// The stored hash of `address`'s viewing key, if one was set.
    pub open spec fn stored_key(&self, address: Seq<char>) -> Option<Seq<u8>> {
        key_of(self.viewing_keys@, address)
    }

    /// The registry's invariant: indices fit in `u32`, the pending ticket
    /// names an empty slot, and each of the four indices (global and per
    /// owner, active and inactive) lists exactly the records it should.
    pub open spec fn wf(&self) -> bool {
        &&& self.slots@.len() <= u32::MAX
        &&& (self.pending matches Some(t) ==> {
            &&& (t.index as int) < self.slots@.len()
            &&& self.slots@[t.index as int] is None
        })
        &&& indexes(self.active@, self.slots@, true, None)
        &&& indexes(self.inactive@, self.slots@, false, None)
        &&& forall|o: Seq<char>|
            #![trigger self.owner_active(o)]
            indexes(self.owner_active(o), self.slots@, true, Some(o))
        &&& forall|o: Seq<char>|
            #![trigger self.owner_inactive(o)]
            indexes(self.owner_inactive(o), self.slots@, false, Some(o))
    }
}

pub proof fn lemma_position_of(names: Seq<Seq<char>>, o: Seq<char>, i: int)
    requires
        first_match(names, o, i),
    ensures
        position_of(names, o) == Some(i),
{
    let j = choose|j: int| first_match(names, o, j);
    assert(first_match(names, o, j));
    if j < i {
        assert(names[j] != o);
    } else if i < j {
        assert(names[i] != o);
    }
}

pub proof fn lemma_position_none(names: Seq<Seq<char>>, o: Seq<char>)
    requires
        forall|i: int| 0 <= i < names.len() ==> names[i] != o,
    ensures
        position_of(names, o) is None,
{
}

/// Adding a name at the end changes the position of that name only, and
/// only when it was absent.
pub proof fn lemma_position_push(names: Seq<Seq<char>>, n: Seq<char>, o: Seq<char>)
    ensures
        position_of(names.push(n), o) == match position_of(names, o) {
            Some(i) => Some(i),
            None => if n == o {
                Some(names.len() as int)
            } else {
                None
            },
        },
{
    let names2 = names.push(n);
    match position_of(names, o) {
        Some(i) => {
            assert(first_match(names, o, i));
            assert(first_match(names2, o, i));
            lemma_position_of(names2, o, i);
        },
        None => {
            assert forall|i: int| 0 <= i < names.len() implies names[i] != o by {
                if names[i] == o {
                    lemma_first_occurrence(names, o, i);
                }
            }
            if n == o {
                assert(first_match(names2, o, names.len() as int));
                lemma_position_of(names2, o, names.len() as int);
            } else {
                assert forall|i: int| 0 <= i < names2.len() implies names2[i] != o by {
                    if i < names.len() {
                        assert(names2[i] == names[i]);
                    }
                }
                lemma_position_none(names2, o);
            }
        },
    }
}

/// Any occurrence of a name means it has a first one.
pub proof fn lemma_first_occurrence(names: Seq<Seq<char>>, o: Seq<char>, i: int)
    requires
        0 <= i < names.len(),
        names[i] == o,
    ensures
        position_of(names, o) is Some,
    decreases i,
{
    if forall|j: int| 0 <= j < i ==> names[j] != o {
        assert(first_match(names, o, i));
    } else {
        let j = choose|j: int| 0 <= j < i && names[j] == o;
        lemma_first_occurrence(names, o, j);
    }
}

/// An index is unaffected by a slot whose selection does not change.
pub proof fn lemma_indexes_same(
    s: Seq<u32>,
    slots: Seq<Option<OffspringRecord>>,
    k: int,
    x: Option<OffspringRecord>,
    active: bool,
    owner: Option<Seq<char>>,
)
    requires
        indexes(s, slots, active, owner),
        0 <= k < slots.len(),
        slot_selected(slots, k, active, owner) == slot_selected(slots.update(k, x), k, active, owner),
    ensures
        indexes(s, slots.update(k, x), active, owner),
{
    let slots2 = slots.update(k, x);
    assert forall|i: int| 0 <= i < s.len() implies #[trigger] slot_selected(slots2, s[i] as int, active, owner) by {
        assert(slot_selected(slots, s[i] as int, active, owner));
    }
    assert forall|j: int|
        #![trigger slot_selected(slots2, j, active, owner)]
        slot_selected(slots2, j, active, owner) implies s.contains(j as u32) by {
        assert(slot_selected(slots, j, active, owner));
    }
}

/// A newly selected slot is listed by appending its index.
pub proof fn lemma_indexes_add(
    s: Seq<u32>,
    slots: Seq<Option<OffspringRecord>>,
    k: int,
    x: Option<OffspringRecord>,
    active: bool,
    owner: Option<Seq<char>>,
)
    requires
        indexes(s, slots, active, owner),
        0 <= k < slots.len(),
        slots.len() <= u32::MAX,
        !slot_selected(slots, k, active, owner),
        slot_selected(slots.update(k, x), k, active, owner),
    ensures
        indexes(s.push(k as u32), slots.update(k, x), active, owner),
{
    let slots2 = slots.update(k, x);
    let s2 = s.push(k as u32);
    assert forall|i: int| 0 <= i < s2.len() implies #[trigger] slot_selected(slots2, s2[i] as int, active, owner) by {
        if i < s.len() {
            assert(slot_selected(slots, s[i] as int, active, owner));
            assert(s[i] as int != k);
        }
    }
    assert forall|j: int|
        #![trigger slot_selected(slots2, j, active, owner)]
        slot_selected(slots2, j, active, owner) implies s2.contains(j as u32) by {
        if j == k {
            assert(s2[s.len() as int] == k as u32);
        } else {
            assert(slot_selected(slots, j, active, owner));
            assert(s.contains(j as u32));
            let p = choose|p: int| 0 <= p < s.len() && s[p] == j as u32;
            assert(s2[p] == j as u32);
        }
    }
    assert forall|a: int, b: int| 0 <= a < s2.len() && 0 <= b < s2.len() && a != b implies s2[a] != s2[b] by {
        if a < s.len() && b < s.len() {
        } else if a < s.len() {
            assert(slot_selected(slots, s[a] as int, active, owner));
        } else if b < s.len() {
            assert(slot_selected(slots, s[b] as int, active, owner));
        }
    }
}

/// A slot that is no longer selected is dropped from the index at the
/// position `p` that held it.
pub proof fn lemma_indexes_remove(
    s: Seq<u32>,
    slots: Seq<Option<OffspringRecord>>,
    k: int,
    x: Option<OffspringRecord>,
    p: int,
    active: bool,
    owner: Option<Seq<char>>,
)
    requires
        indexes(s, slots, active, owner),
        0 <= k < slots.len(),
        slots.len() <= u32::MAX,
        0 <= p < s.len(),
        s[p] as int == k,
        !slot_selected(slots.update(k, x), k, active, owner),
    ensures
        indexes(s.remove(p), slots.update(k, x), active, owner),
{
    let slots2 = slots.update(k, x);
    let s2 = s.remove(p);
    assert forall|i: int| 0 <= i < s2.len() implies #[trigger] slot_selected(slots2, s2[i] as int, active, owner) by {
        let src = if i < p { i } else { i + 1 };
        assert(s2[i] == s[src]);
        assert(slot_selected(slots, s[src] as int, active, owner));
        assert(s[src] != s[p]);
    }
    assert forall|j: int|
        #![trigger slot_selected(slots2, j, active, owner)]
        slot_selected(slots2, j, active, owner) implies s2.contains(j as u32) by {
        assert(j != k);
        assert(slot_selected(slots, j, active, owner));
        let q = choose|q: int| 0 <= q < s.len() && s[q] == j as u32;
        assert(q != p);
        if q < p {
            assert(s2[q] == j as u32);
        } else {
            assert(s2[q - 1] == j as u32);
        }
    }
    assert forall|a: int, b: int| 0 <= a < s2.len() && 0 <= b < s2.len() && a != b implies s2[a] != s2[b] by {
        let sa = if a < p { a } else { a + 1 };
        let sb = if b < p { b } else { b + 1 };
        assert(s2[a] == s[sa]);
        assert(s2[b] == s[sb]);
    }
}

/// The invariant rests on the slots, the indices and the ticket alone.
pub proof fn lemma_wf_same_indices(a: Registry, b: Registry)
    requires
        a.wf(),
        b.pending == a.pending,
        b.slots == a.slots,
        b.active == a.active,
        b.inactive == a.inactive,
        b.owners == a.owners,
    ensures
        b.wf(),
{
    assert forall|o: Seq<char>| #[trigger] indexes(b.owner_active(o), b.slots@, true, Some(o)) by {
        assert(indexes(a.owner_active(o), a.slots@, true, Some(o)));
    }
    assert forall|o: Seq<char>| #[trigger] indexes(b.owner_inactive(o), b.slots@, false, Some(o)) by {
        assert(indexes(a.owner_inactive(o), a.slots@, false, Some(o)));
    }
}

/// Every registered record is listed exactly once in exactly one of the
/// global active index and the global inactive log, and exactly once in
/// exactly one of its owner's active index and inactive log: the active
/// ones while it is active, the inactive ones once it has been deactivated.
/// No other owner lists it.
pub proof fn lemma_record_placement(reg: Registry, k: u32, rec: OffspringRecord)
    requires
        reg.wf(),
        (k as int) < reg.slots@.len(),
        reg.slots@[k as int] == Some(rec),
    ensures
        reg.active@.no_duplicates(),
        reg.inactive@.no_duplicates(),
        reg.owner_active(rec.owner@).no_duplicates(),
        reg.owner_inactive(rec.owner@).no_duplicates(),
        reg.active@.contains(k) == rec.active,
        reg.inactive@.contains(k) == !rec.active,
        reg.owner_active(rec.owner@).contains(k) == rec.active,
        reg.owner_inactive(rec.owner@).contains(k) == !rec.active,
        forall|o: Seq<char>| o != rec.owner@ ==> !#[trigger] reg.owner_active(o).contains(k),
        forall|o: Seq<char>| o != rec.owner@ ==> !#[trigger] reg.owner_inactive(o).contains(k),
{
    let ki = k as int;
    let o = rec.owner@;
    assert(indexes(reg.owner_active(o), reg.slots@, true, Some(o)));
    assert(indexes(reg.owner_inactive(o), reg.slots@, false, Some(o)));
    if rec.active {
        assert(slot_selected(reg.slots@, ki, true, None));
        assert(slot_selected(reg.slots@, ki, true, Some(o)));
    } else {
        assert(slot_selected(reg.slots@, ki, false, None));
        assert(slot_selected(reg.slots@, ki, false, Some(o)));
    }
    assert(reg.active@.contains(k) ==> rec.active) by {
        if reg.active@.contains(k) {
            let p = choose|p: int| 0 <= p < reg.active@.len() && reg.active@[p] == k;
            assert(slot_selected(reg.slots@, reg.active@[p] as int, true, None));
        }
    }
    assert(reg.inactive@.contains(k) ==> !rec.active) by {
        if reg.inactive@.contains(k) {
            let p = choose|p: int| 0 <= p < reg.inactive@.len() && reg.inactive@[p] == k;
            assert(slot_selected(reg.slots@, reg.inactive@[p] as int, false, None));
        }
    }
    let sa = reg.owner_active(o);
    let si = reg.owner_inactive(o);
    assert(sa.contains(k) ==> rec.active) by {
        if sa.contains(k) {
            let p = choose|p: int| 0 <= p < sa.len() && sa[p] == k;
            assert(slot_selected(reg.slots@, sa[p] as int, true, Some(o)));
        }
    }
    assert(si.contains(k) ==> !rec.active) by {
        if si.contains(k) {
            let p = choose|p: int| 0 <= p < si.len() && si[p] == k;
            assert(slot_selected(reg.slots@, si[p] as int, false, Some(o)));
        }
    }
    assert forall|o2: Seq<char>| o2 != o implies !#[trigger] reg.owner_active(o2).contains(k) by {
        assert(indexes(reg.owner_active(o2), reg.slots@, true, Some(o2)));
        let a2 = reg.owner_active(o2);
        if a2.contains(k) {
            let p = choose|p: int| 0 <= p < a2.len() && a2[p] == k;
            assert(slot_selected(reg.slots@, a2[p] as int, true, Some(o2)));
        }
    }
    assert forall|o2: Seq<char>| o2 != o implies !#[trigger] reg.owner_inactive(o2).contains(k) by {
        assert(indexes(reg.owner_inactive(o2), reg.slots@, false, Some(o2)));
        let i2 = reg.owner_inactive(o2);
        if i2.contains(k) {
            let p = choose|p: int| 0 <= p < i2.len() && i2[p] == k;
            assert(slot_selected(reg.slots@, i2[p] as int, false, Some(o2)));
        }
    }
}

/// An empty slot added at the end changes no index.
pub proof fn lemma_indexes_new_slot(
    s: Seq<u32>,
    slots: Seq<Option<OffspringRecord>>,
    active: bool,
    owner: Option<Seq<char>>,
)
    requires
        indexes(s, slots, active, owner),
    ensures
        indexes(s, slots.push(None), active, owner),
{
    let slots2 = slots.push(None);
    assert forall|i: int| 0 <= i < s.len() implies #[trigger] slot_selected(slots2, s[i] as int, active, owner) by {
        assert(slot_selected(slots, s[i] as int, active, owner));
    }
    assert forall|j: int|
        #![trigger slot_selected(slots2, j, active, owner)]
        slot_selected(slots2, j, active, owner) implies s.contains(j as u32) by {
        assert(slot_selected(slots, j, active, owner));
    }
}

/// The position of `owner`'s lists in `owners`.
pub fn owner_position(owners: &Vec<OwnerLists>, owner: &String) -> (r: Option<usize>)
    ensures
        r matches Some(i) ==> position_of(owner_names(owners@), owner@) == Some(i as int),
        r is None ==> position_of(owner_names(owners@), owner@) is None,
{
    let ghost names = owner_names(owners@);
    let mut i: usize = 0;
    while i < owners.len()
        invariant
            i <= owners@.len(),
            names == owner_names(owners@),
            forall|j: int| 0 <= j < i ==> names[j] != owner@,
        decreases owners@.len() - i,
    {
        if owners[i].owner == *owner {
            proof {
                assert(first_match(names, owner@, i as int));
                lemma_position_of(names, owner@, i as int);
            }
            return Some(i);
        }
        i += 1;
    }
    proof {
        lemma_position_none(names, owner@);
    }
    None
}

/// The position of `address`'s key in `keys`.
pub fn key_position(keys: &Vec<KeyEntry>, address: &String) -> (r: Option<usize>)
    ensures
        r matches Some(i) ==> position_of(key_names(keys@), address@) == Some(i as int),
        r is None ==> position_of(key_names(keys@), address@) is None,
{
    let ghost names = key_names(keys@);
    let mut i: usize = 0;
    while i < keys.len()
        invariant
            i <= keys@.len(),
            names == key_names(keys@),
            forall|j: int| 0 <= j < i ==> names[j] != address@,
        decreases keys@.len() - i,
    {
        if keys[i].address == *address {
            proof {
                assert(first_match(names, address@, i as int));
                lemma_position_of(names, address@, i as int);
            }
            return Some(i);
        }
        i += 1;
    }
    proof {
        lemma_position_none(names, address@);
    }
    None
}

/// The position of `value` in `s`, if it occurs.
pub fn find_index(s: &Vec<u32>, value: u32) -> (r: Option<usize>)
    ensures
        r matches Some(p) ==> p < s@.len() && s@[p as int] == value,
        r is None ==> !s@.contains(value),
{
    let mut i: usize = 0;
    while i < s.len()
        invariant
            i <= s@.len(),
            forall|j: int| 0 <= j < i ==> s@[j] != value,
        decreases s@.len() - i,
    {
        if s[i] == value {
            return Some(i);
        }
        i += 1;
    }
    None
}

/// Stores `hashed` as `address`'s key, replacing any earlier one.
pub fn store_key(keys: &mut Vec<KeyEntry>, address: &String, hashed: [u8; 32])
    ensures
        forall|a: Seq<char>| #[trigger] key_of(final(keys)@, a) == if a == address@ {
            Some(hashed@)
        } else {
            key_of(old(keys)@, a)
        },
{
    let ghost names = key_names(keys@);
    match key_position(keys, address) {
        Some(i) => {
            let entry = KeyEntry { address: keys[i].address.clone(), hashed };
            keys.set(i, entry);
            proof {
                assert(key_names(keys@) =~= names);
            }
        },
        None => {
            keys.push(KeyEntry { address: address.clone(), hashed });
            proof {
                assert(key_names(keys@) =~= names.push(address@));
                assert forall|a: Seq<char>| #[trigger] key_of(keys@, a) == if a == address@ {
                    Some(hashed@)
                } else {
                    key_of(old(keys)@, a)
                } by {
                    lemma_position_push(names, address@, a);
                }
            }
        },
    }
}

/// Appends `k` to `owner`'s active index, creating its lists when it has none.
pub fn add_owner_active(owners: &mut Vec<OwnerLists>, owner: &String, k: u32)
    ensures
        forall|o: Seq<char>| #[trigger] active_of(final(owners)@, o) == if o == owner@ {
            active_of(old(owners)@, o).push(k)
        } else {
            active_of(old(owners)@, o)
        },
        forall|o: Seq<char>| #[trigger] inactive_of(final(owners)@, o) == inactive_of(old(owners)@, o),
{
    let ghost names = owner_names(owners@);
    match owner_position(owners, owner) {
        Some(i) => {
            let mut entry = owners.remove(i);
            entry.active.push(k);
            owners.insert(i, entry);
            proof {
                assert(owners@ =~= old(owners)@.update(i as int, entry));
                assert(owner_names(owners@) =~= names);
            }
        },
        None => {
            let mut fresh: Vec<u32> = Vec::new();
            fresh.push(k);
            owners.push(OwnerLists { owner: owner.clone(), active: fresh, inactive: Vec::new() });
            proof {
                assert(owner_names(owners@) =~= names.push(owner@));
                assert forall|o: Seq<char>| #[trigger] active_of(owners@, o) == if o == owner@ {
                    active_of(old(owners)@, o).push(k)
                } else {
                    active_of(old(owners)@, o)
                } by {
                    lemma_position_push(names, owner@, o);
                    if o == owner@ {
                        assert(active_of(owners@, o) =~= Seq::<u32>::empty().push(k));
                    }
                }
                assert forall|o: Seq<char>| #[trigger] inactive_of(owners@, o) == inactive_of(old(owners)@, o) by {
                    lemma_position_push(names, owner@, o);
                    if o == owner@ {
                        assert(inactive_of(owners@, o) =~= Seq::<u32>::empty());
                    }
                }
            }
        },
    }
}

/// Appends `k` to `owner`'s inactive index, creating its lists when it has none.
pub fn add_owner_inactive(owners: &mut Vec<OwnerLists>, owner: &String, k: u32)
    ensures
        forall|o: Seq<char>| #[trigger] inactive_of(final(owners)@, o) == if o == owner@ {
            inactive_of(old(owners)@, o).push(k)
        } else {
            inactive_of(old(owners)@, o)
        },
        forall|o: Seq<char>| #[trigger] active_of(final(owners)@, o) == active_of(old(owners)@, o),
{
    let ghost names = owner_names(owners@);
    match owner_position(owners, owner) {
        Some(i) => {
            let mut entry = owners.remove(i);
            entry.inactive.push(k);
            owners.insert(i, entry);
            proof {
                assert(owners@ =~= old(owners)@.update(i as int, entry));
                assert(owner_names(owners@) =~= names);
            }
        },
        None => {
            let mut fresh: Vec<u32> = Vec::new();
            fresh.push(k);
            owners.push(OwnerLists { owner: owner.clone(), active: Vec::new(), inactive: fresh });
            proof {
                assert(owner_names(owners@) =~= names.push(owner@));
                assert forall|o: Seq<char>| #[trigger] inactive_of(owners@, o) == if o == owner@ {
                    inactive_of(old(owners)@, o).push(k)
                } else {
                    inactive_of(old(owners)@, o)
                } by {
                    lemma_position_push(names, owner@, o);
                    if o == owner@ {
                        assert(inactive_of(owners@, o) =~= Seq::<u32>::empty().push(k));
                    }
                }
                assert forall|o: Seq<char>| #[trigger] active_of(owners@, o) == active_of(old(owners)@, o) by {
                    lemma_position_push(names, owner@, o);
                    if o == owner@ {
                        assert(active_of(owners@, o) =~= Seq::<u32>::empty());
                    }
                }
            }
        },
    }
}

/// Removes `k` from `person`'s active index, where it is listed.
pub fn remove_from_persons_active(owners: &mut Vec<OwnerLists>, person: &String, k: u32)
    ensures
        active_of(old(owners)@, person@).contains(k) ==> exists|q: int|
            0 <= q < active_of(old(owners)@, person@).len()
            && active_of(old(owners)@, person@)[q] == k
            && active_of(final(owners)@, person@) == active_of(old(owners)@, person@).remove(q),
        !active_of(old(owners)@, person@).contains(k) ==> active_of(final(owners)@, person@)
            == active_of(old(owners)@, person@),
        forall|o: Seq<char>| o != person@ ==> #[trigger] active_of(final(owners)@, o) == active_of(old(owners)@, o),
        forall|o: Seq<char>| #[trigger] inactive_of(final(owners)@, o) == inactive_of(old(owners)@, o),
{
    let ghost names = owner_names(owners@);
    match owner_position(owners, person) {
        Some(i) => {
            match find_index(&owners[i].active, k) {
                Some(q) => {
                    let mut entry = owners.remove(i);
                    entry.active.remove(q);
                    owners.insert(i, entry);
                    proof {
                        assert(owners@ =~= old(owners)@.update(i as int, entry));
                        assert(owner_names(owners@) =~= names);
                        assert(active_of(owners@, person@) == active_of(old(owners)@, person@).remove(q as int));
                    }
                },
                None => {},
            }
        },
        None => {},
    }
}

/// Whether slot `k` holds a record selected by `active` and `owner`.
fn is_selected(slots: &Vec<Option<OffspringRecord>>, k: usize, active: bool, owner: Option<&String>) -> (r: bool)
    ensures
        r == slot_selected(slots@, k as int, active, opt_view(owner)),
{
    if k >= slots.len() {
        return false;
    }
    match &slots[k] {
        Some(rec) => {
            if rec.active != active {
                false
            } else {
                match owner {
                    Some(o) => rec.owner == *o,
                    None => true,
                }
            }
        },
        None => false,
    }
}

/// Checks at run time that `s` indexes exactly the selected records.
fn check_indexes(
    s: &Vec<u32>,
    slots: &Vec<Option<OffspringRecord>>,
    active: bool,
    owner: Option<&String>,
) -> (r: bool)
    requires
        slots@.len() <= u32::MAX,
    ensures
        r ==> indexes(s@, slots@, active, opt_view(owner)),
{
    let n = slots.len();
    let ghost ov = opt_view(owner);
    let mut seen: Vec<bool> = Vec::new();
    let mut j: usize = 0;
    while j < n
        invariant
            j <= n,
            n == slots@.len(),
            seen@.len() == j,
            forall|k: int| 0 <= k < j ==> !seen@[k],
        decreases n - j,
    {
        seen.push(false);
        j += 1;
    }
    let mut i: usize = 0;
    while i < s.len()
        invariant
            i <= s@.len(),
            n == slots@.len(),
            n <= u32::MAX,
            seen@.len() == n,
            ov == opt_view(owner),
            forall|a: int| 0 <= a < i ==> #[trigger] slot_selected(slots@, s@[a] as int, active, ov),
            forall|a: int, b: int| 0 <= a < i && 0 <= b < i && a != b ==> s@[a] != s@[b],
            forall|k: int| 0 <= k < n ==> seen@[k] == s@.subrange(0, i as int).contains(k as u32),
        decreases s@.len() - i,
    {
        let k = s[i] as usize;
        if k >= n {
            return false;
        }
        if seen[k] {
            return false;
        }
        if !is_selected(slots, k, active, owner) {
            return false;
        }
        proof {
            assert forall|b: int| 0 <= b < i implies s@[b] != s@[i as int] by {
                assert(s@.subrange(0, i as int)[b] == s@[b]);
                if s@[b] == s@[i as int] {
                    assert(s@.subrange(0, i as int).contains(k as u32));
                }
            }
        }
        let ghost prev = s@.subrange(0, i as int);
        let ghost seen_prev = seen@;
        seen.set(k, true);
        i += 1;
        proof {
            let cur = s@.subrange(0, i as int);
            assert(cur =~= prev.push(s@[i - 1]));
            assert forall|kk: int| 0 <= kk < n implies seen@[kk] == cur.contains(kk as u32) by {
                if kk == k as int {
                    assert(cur[i - 1] == kk as u32);
                } else {
                    assert(seen@[kk] == seen_prev[kk]);
                    assert((kk as u32) != s@[i - 1]);
                    if prev.contains(kk as u32) {
                        let w = choose|w: int| 0 <= w < prev.len() && prev[w] == kk as u32;
                        assert(cur[w] == kk as u32);
                    }
                    if cur.contains(kk as u32) {
                        let w = choose|w: int| 0 <= w < cur.len() && cur[w] == kk as u32;
                        assert(w < prev.len());
                        assert(prev[w] == kk as u32);
                    }
                }
            }
        }
    }
    let mut k: usize = 0;
    while k < n
        invariant
            k <= n,
            n == slots@.len(),
            n <= u32::MAX,
            seen@.len() == n,
            ov == opt_view(owner),
            i == s@.len(),
            forall|kk: int| 0 <= kk < n ==> seen@[kk] == s@.subrange(0, i as int).contains(kk as u32),
            forall|kk: int| 0 <= kk < k && slot_selected(slots@, kk, active, ov) ==> s@.contains(kk as u32),
        decreases n - k,
    {
        if is_selected(slots, k, active, owner) && !seen[k] {
            return false;
        }
        proof {
            assert(s@.subrange(0, i as int) =~= s@);
        }
        k += 1;
    }
    true
}

impl Registry {
    /// Checks the invariant at run time; for a state that comes from outside
    /// the verified operations (storage, say) before they are called on it.
    pub fn check_wf(&self) -> (r: bool)
        ensures
            r ==> self.wf(),
    {
        let n = self.slots.len();
        if n > 0xffff_ffffusize {
            return false;
        }
        match self.pending {
            Some(t) => {
                if t.index as usize >= n {
                    return false;
                }
                if self.slots[t.index as usize].is_some() {
                    return false;
                }
            },
            None => {},
        }
        if !check_indexes(&self.active, &self.slots, true, None) {
            return false;
        }
        if !check_indexes(&self.inactive, &self.slots, false, None) {
            return false;
        }
        let ghost names = owner_names(self.owners@);
        // every record's owner has lists
        let mut k: usize = 0;
        while k < n
            invariant
                k <= n,
                n == self.slots@.len(),
                names == owner_names(self.owners@),
                forall|kk: int|
                    0 <= kk < k ==> (#[trigger] self.slots@[kk] matches Some(rec) ==> position_of(
                        names,
                        rec.owner@,
                    ) is Some),
            decreases n - k,
        {
            match &self.slots[k] {
                Some(rec) => {
                    if owner_position(&self.owners, &rec.owner).is_none() {
                        return false;
                    }
                },
                None => {},
            }
            k += 1;
        }
        // each owner's lists index its records
        let mut i: usize = 0;
        while i < self.owners.len()
            invariant
                i <= self.owners@.len(),
                n == self.slots@.len(),
                n <= u32::MAX,
                names == owner_names(self.owners@),
                forall|o: Seq<char>|
                    #![trigger position_of(names, o)]
                    position_of(names, o) is Some && position_of(names, o)->0 < i ==> {
                        &&& indexes(self.owner_active(o), self.slots@, true, Some(o))
                        &&& indexes(self.owner_inactive(o), self.slots@, false, Some(o))
                    },
            decreases self.owners@.len() - i,
        {
            let owner = &self.owners[i].owner;
            match owner_position(&self.owners, owner) {
                Some(j) => {
                    if j == i {
                        if !check_indexes(&self.owners[i].active, &self.slots, true, Some(owner)) {
                            return false;
                        }
                        if !check_indexes(&self.owners[i].inactive, &self.slots, false, Some(owner)) {
                            return false;
                        }
                    }
                },
                None => {},
            }
            proof {
                assert forall|o: Seq<char>|
                    #![trigger position_of(names, o)]
                    position_of(names, o) is Some && position_of(names, o)->0 < i + 1 implies {
                        &&& indexes(self.owner_active(o), self.slots@, true, Some(o))
                        &&& indexes(self.owner_inactive(o), self.slots@, false, Some(o))
                    } by {
                    if position_of(names, o) == Some(i as int) {
                        assert(first_match(names, o, i as int)) by {
                            let c = choose|c: int| first_match(names, o, c);
                        }
                        assert(names[i as int] == o);
                        assert(position_of(names, owner@) == Some(i as int));
                    }
                }
            }
            i += 1;
        }
        proof {
            assert forall|o: Seq<char>| #[trigger] indexes(self.owner_active(o), self.slots@, true, Some(o)) by {
                if position_of(names, o) is Some {
                    assert(position_of(names, o)->0 < self.owners@.len());
                } else {
                    assert forall|kk: int|
                        #![trigger slot_selected(self.slots@, kk, true, Some(o))]
                        slot_selected(self.slots@, kk, true, Some(o)) implies self.owner_active(o).contains(kk as u32) by {
                        assert(self.slots@[kk] matches Some(rec) ==> position_of(names, rec.owner@) is Some);
                    }
                }
            }
            assert forall|o: Seq<char>| #[trigger] indexes(self.owner_inactive(o), self.slots@, false, Some(o)) by {
                if position_of(names, o) is Some {
                    assert(position_of(names, o)->0 < self.owners@.len());
                } else {
                    assert forall|kk: int|
                        #![trigger slot_selected(self.slots@, kk, false, Some(o))]
                        slot_selected(self.slots@, kk, false, Some(o)) implies self.owner_inactive(o).contains(kk as u32) by {
                        assert(self.slots@[kk] matches Some(rec) ==> position_of(names, rec.owner@) is Some);
                    }
                }
            }
        }
        true
    }
}

} // verus!
