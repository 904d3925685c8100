//! The directory of records: a keyed store addressed by the (owner, handle)
//! pair, offering the four host-facing operations — create a record, delete
//! a record, add links, delete links. Each record is one slot: the account
//! state beside its exactly-fitted backing storage.

use vstd::prelude::*;

use crate::account::LinkTreeAccount;
use crate::auth::authorize;
use crate::account::AccountModel;
use crate::account::account_after_add;
use crate::account::account_after_remove;
use crate::account::account_wf;
use crate::account::add_error;
use crate::account::add_ok;
use crate::account::assigned_ids;
use crate::account::empty_account;
use crate::address::AddressModel;
use crate::address::spec_derive;
use crate::bounds::MAX_FOOTPRINT;
use crate::bounds::MAX_USERNAME_CHARS;
use crate::bounds::required_footprint;
use crate::bounds::spec_required_footprint;
use crate::error::ErrorCode;
use crate::identity::Identity;
use crate::identity::identity_eq;
use crate::storage::Storage;
use crate::storage::StorageModel;
use crate::text::fits_within;

verus! {

/// One record and its backing storage.
struct Slot {
    account: LinkTreeAccount,
    storage: Storage,
}

/// The mathematical image of a slot.
#[verifier::ext_equal]
pub ghost struct SlotModel {
    pub account: AccountModel,
    pub storage: StorageModel,
}

/// The address a slot answers to: derived from its own handle and owner.
pub open spec fn key_of(m: SlotModel) -> AddressModel {
    spec_derive(m.account.username, m.account.owner)
}

/// A slot is well formed: its account invariants hold, its storage is sized
/// to exactly the footprint its link count requires, and its budget is the
/// fixed allocation every record receives.
pub open spec fn slot_wf(m: SlotModel) -> bool {
    &&& account_wf(m.account)
    &&& m.storage.data.len() == spec_required_footprint(m.account.links.len())
    &&& m.storage.limit == MAX_FOOTPRINT
}

/// The directory: every record the host currently stores.
pub struct Directory {
    slots: Vec<Slot>,
}

impl Directory {
    /// The images of the stored slots, in storage order.
    pub closed spec fn models(self) -> Seq<SlotModel> {
        Seq::new(
            self.slots@.len(),
            |i: int| SlotModel { account: self.slots@[i].account@, storage: self.slots@[i].storage@ },
        )
    }

    /// The directory invariants: every slot is well formed and no two slots
    /// answer to the same address.
    pub closed spec fn wf(self) -> bool {
        &&& (forall|i: int| 0 <= i < self.models().len() ==> slot_wf(#[trigger] self.models()[i]))
        &&& (forall|i: int, j: int|
            0 <= i < j < self.models().len() ==> key_of(#[trigger] self.models()[i]) != key_of(
                #[trigger] self.models()[j],
            ))
    }

    /// Whether a record exists at `addr`.
    pub closed spec fn contains_addr(self, addr: AddressModel) -> bool {
        exists|i: int| 0 <= i < self.models().len() && key_of(#[trigger] self.models()[i]) == addr
    }

    /// The index of the record at `addr` (meaningful under `contains_addr`).
    closed spec fn index_of(self, addr: AddressModel) -> int {
        choose|i: int| 0 <= i < self.models().len() && key_of(#[trigger] self.models()[i]) == addr
    }

    /// The record stored at `addr` (meaningful under `contains_addr`).
    pub closed spec fn record_at(self, addr: AddressModel) -> AccountModel {
        self.models()[self.index_of(addr)].account
    }

    /// The storage footprint currently allocated to the record at `addr`
    /// (meaningful under `contains_addr`).
    pub closed spec fn footprint_at(self, addr: AddressModel) -> nat {
        self.models()[self.index_of(addr)].storage.data.len()
    }

    /// An empty directory.
    pub fn new() -> (r: Directory)
        ensures
            r.wf(),
            forall|a: AddressModel| !r.contains_addr(a),
    {
        let r = Directory { slots: Vec::new() };
        proof {
            assert(r.models().len() == 0);
        }
        r
    }
}

/// What a well-formed directory guarantees of every record it stores: the
/// record's own invariants hold, it answers to exactly the address derived
/// from its handle and owner, and its storage footprint is exactly the
/// footprint its link count requires — no over- or under-allocation ever
/// survives an operation.
pub proof fn lemma_stored_record_invariants(d: Directory, addr: AddressModel)
    requires
        d.wf(),
        d.contains_addr(addr),
    ensures
        account_wf(d.record_at(addr)),
        d.record_at(addr).owner == addr.owner,
        d.record_at(addr).username == addr.username,
        d.footprint_at(addr) == spec_required_footprint(d.record_at(addr).links.len()),
{
    let i = d.index_of(addr);
    assert(0 <= i < d.models().len() && key_of(d.models()[i]) == addr);
    assert(slot_wf(d.models()[i]));
}

/// The record and footprint visible at `a` agree between `d1` and `d2`.
pub open spec fn preserved_at(d1: Directory, d2: Directory, a: AddressModel) -> bool {
    &&& (d1.contains_addr(a) <==> d2.contains_addr(a))
    &&& (d1.contains_addr(a) ==> d1.record_at(a) == d2.record_at(a) && d1.footprint_at(a)
        == d2.footprint_at(a))
}

/// `d2` stores exactly what `d1` stores: a refused operation changes nothing
/// observable.
pub open spec fn same_directory_state(d1: Directory, d2: Directory) -> bool {
    forall|a: AddressModel| #[trigger] preserved_at(d1, d2, a)
}

/// Every address but `addr` is untouched.
pub open spec fn others_preserved(d1: Directory, d2: Directory, addr: AddressModel) -> bool {
    forall|a: AddressModel| a != addr ==> #[trigger] preserved_at(d1, d2, a)
}

impl Directory {
    /// A slot whose key is `addr` fixes where `addr` is found.
    proof fn lemma_found(self, addr: AddressModel, i: int)
        requires
            self.wf(),
            0 <= i < self.models().len(),
            key_of(self.models()[i]) == addr,
        ensures
            self.contains_addr(addr),
            self.index_of(addr) == i,
            self.record_at(addr) == self.models()[i].account,
            self.footprint_at(addr) == self.models()[i].storage.data.len(),
    {
        assert(self.contains_addr(addr));
        let j = self.index_of(addr);
        assert(0 <= j < self.models().len() && key_of(self.models()[j]) == addr);
        if i < j {
            assert(key_of(self.models()[i]) != key_of(self.models()[j]));
        }
        if j < i {
            assert(key_of(self.models()[j]) != key_of(self.models()[i]));
        }
    }

    /// Directories with the same slot images present the same state.
    proof fn lemma_same_models_same_state(self, other: Directory)
        requires
            self.wf(),
            self.models() == other.models(),
        ensures
            other.wf(),
            same_directory_state(self, other),
    {
        let d1 = self;
        let d2 = other;
        assert forall|a: AddressModel| #[trigger] preserved_at(d1, d2, a) by {
            if d1.contains_addr(a) {
                let i = d1.index_of(a);
                assert(0 <= i < d1.models().len() && key_of(d1.models()[i]) == a);
                d2.lemma_found_unchecked(a, i);
            }
            if d2.contains_addr(a) {
                let i = d2.index_of(a);
                assert(0 <= i < d2.models().len() && key_of(d2.models()[i]) == a);
                d1.lemma_found(a, i);
                d2.lemma_found_unchecked(a, i);
            }
        }
    }

    /// As `lemma_found`, for a directory only known well formed through its
    /// images.
    proof fn lemma_found_unchecked(self, addr: AddressModel, i: int)
        requires
            forall|p: int, q: int|
                0 <= p < q < self.models().len() ==> key_of(#[trigger] self.models()[p]) != key_of(
                    #[trigger] self.models()[q],
                ),
            0 <= i < self.models().len(),
            key_of(self.models()[i]) == addr,
        ensures
            self.contains_addr(addr),
            self.index_of(addr) == i,
            self.record_at(addr) == self.models()[i].account,
            self.footprint_at(addr) == self.models()[i].storage.data.len(),
    {
        assert(self.contains_addr(addr));
        let j = self.index_of(addr);
        assert(0 <= j < self.models().len() && key_of(self.models()[j]) == addr);
        if i < j {
            assert(key_of(self.models()[i]) != key_of(self.models()[j]));
        }
        if j < i {
            assert(key_of(self.models()[j]) != key_of(self.models()[i]));
        }
    }

    /// After replacing the slot at `i` by one answering to the same address,
    /// the directory is well formed again and every other address untouched.
    proof fn lemma_update_slot(self, d1: Directory, i: int, addr: AddressModel)
        requires
            self.wf(),
            0 <= i < self.models().len(),
            d1.models().len() == self.models().len(),
            forall|j: int|
                0 <= j < self.models().len() && j != i ==> d1.models()[j] == self.models()[j],
            key_of(d1.models()[i]) == key_of(self.models()[i]),
            key_of(self.models()[i]) == addr,
            slot_wf(d1.models()[i]),
        ensures
            d1.wf(),
            d1.contains_addr(addr),
            d1.index_of(addr) == i,
            d1.record_at(addr) == d1.models()[i].account,
            d1.footprint_at(addr) == d1.models()[i].storage.data.len(),
            others_preserved(self, d1, addr),
    {
        let d0 = self;
        let n = d0.models().len();
        assert forall|p: int, q: int|
            0 <= p < q < n implies key_of(#[trigger] d1.models()[p]) != key_of(
            #[trigger] d1.models()[q],
        ) by {
            assert(key_of(d1.models()[p]) == key_of(d0.models()[p]));
            assert(key_of(d1.models()[q]) == key_of(d0.models()[q]));
        }
        assert forall|j: int| 0 <= j < n implies slot_wf(#[trigger] d1.models()[j]) by {
            if j != i {
                assert(d1.models()[j] == d0.models()[j]);
            }
        }
        assert(d1.wf());
        d1.lemma_found(addr, i);
        assert forall|a: AddressModel| a != addr implies #[trigger] preserved_at(d0, d1, a) by {
            if d0.contains_addr(a) {
                let p = d0.index_of(a);
                assert(0 <= p < n && key_of(d0.models()[p]) == a);
                assert(p != i);
                d1.lemma_found(a, p);
            }
            if d1.contains_addr(a) {
                let p = d1.index_of(a);
                assert(0 <= p < n && key_of(d1.models()[p]) == a);
                assert(p != i);
                d0.lemma_found(a, p);
                d1.lemma_found(a, p);
            }
        }
    }

    /// After removing the slot at `i`, its address is vacant, the directory
    /// is well formed, and every other address is untouched.
    proof fn lemma_remove_slot(self, d1: Directory, i: int, addr: AddressModel)
        requires
            self.wf(),
            0 <= i < self.models().len(),
            d1.models() == self.models().remove(i),
            key_of(self.models()[i]) == addr,
        ensures
            d1.wf(),
            !d1.contains_addr(addr),
            others_preserved(self, d1, addr),
    {
        let d0 = self;
        let n = d0.models().len();
        d0.models().remove_ensures(i);
        assert(d1.models().len() == n - 1);
        assert forall|p: int, q: int|
            0 <= p < q < n - 1 implies key_of(#[trigger] d1.models()[p]) != key_of(
            #[trigger] d1.models()[q],
        ) by {
            let p0: int = if p < i {
                p
            } else {
                p + 1
            };
            let q0: int = if q < i {
                q
            } else {
                q + 1
            };
            assert(d1.models()[p] == d0.models()[p0]);
            assert(d1.models()[q] == d0.models()[q0]);
            assert(key_of(d0.models()[p0]) != key_of(d0.models()[q0]));
        }
        assert forall|j: int| 0 <= j < n - 1 implies slot_wf(#[trigger] d1.models()[j]) by {
            if j < i {
                assert(d1.models()[j] == d0.models()[j]);
            } else {
                assert(d1.models()[j] == d0.models()[j + 1]);
            }
        }
        assert(d1.wf());
        assert forall|j: int| 0 <= j < n - 1 implies key_of(#[trigger] d1.models()[j]) != addr by {
            if j < i {
                assert(d1.models()[j] == d0.models()[j]);
                assert(key_of(d0.models()[j]) != key_of(d0.models()[i]));
            } else {
                assert(d1.models()[j] == d0.models()[j + 1]);
                assert(key_of(d0.models()[i]) != key_of(d0.models()[j + 1]));
            }
        }
        assert(!d1.contains_addr(addr));
        assert forall|a: AddressModel| a != addr implies #[trigger] preserved_at(d0, d1, a) by {
            if d0.contains_addr(a) {
                let p = d0.index_of(a);
                assert(0 <= p < n && key_of(d0.models()[p]) == a);
                assert(p != i);
                let p1: int = if p < i {
                    p
                } else {
                    p - 1
                };
                assert(d1.models()[p1] == d0.models()[p]);
                d1.lemma_found(a, p1);
            }
            if d1.contains_addr(a) {
                let p = d1.index_of(a);
                assert(0 <= p < n - 1 && key_of(d1.models()[p]) == a);
                let p0: int = if p < i {
                    p
                } else {
                    p + 1
                };
                assert(d1.models()[p] == d0.models()[p0]);
                d0.lemma_found(a, p0);
                d1.lemma_found(a, p);
            }
        }
    }

    /// Looks up the slot index answering to `(username, owner)`.
    fn find_slot(&self, owner: &Identity, username: &String) -> (r: Option<usize>)
        requires
            self.wf(),
        ensures
            match r {
                Some(i) => {
                    &&& (i as int) < self.models().len()
                    &&& key_of(self.models()[i as int]) == spec_derive(username@, owner@)
                    &&& self.contains_addr(spec_derive(username@, owner@))
                    &&& self.index_of(spec_derive(username@, owner@)) == i as int
                },
                None => !self.contains_addr(spec_derive(username@, owner@)),
            },
    {
        let ghost addr = spec_derive(username@, owner@);
        let mut i: usize = 0;
        while i < self.slots.len()
            invariant
                self.wf(),
                addr == spec_derive(username@, owner@),
                i <= self.slots@.len(),
                forall|j: int| 0 <= j < i ==> key_of(#[trigger] self.models()[j]) != addr,
            decreases self.slots@.len() - i,
        {
            let slot = &self.slots[i];
            if identity_eq(&slot.account.owner, owner) && slot.account.username == *username {
                proof {
                    assert(key_of(self.models()[i as int]) =~= addr);
                    self.lemma_found(addr, i as int);
                }
                return Some(i);
            }
            proof {
                if key_of(self.models()[i as int]) == addr {
                    assert(self.models()[i as int].account.owner == owner@);
                    assert(self.models()[i as int].account.username == username@);
                    assert(false);
                }
            }
            i = i + 1;
        }
        assert(!self.contains_addr(addr));
        None
    }

    /// Creates the record for `(username, owner)`: refused when the handle
    /// is too long or a record already occupies the derived address. The new
    /// record is empty, its counter at zero, its storage sized for zero
    /// links.
    pub fn create_linktree_account(&mut self, owner: &Identity, username: &String) -> (r: Result<
        (),
        ErrorCode,
    >)
        requires
            old(self).wf(),
        ensures
            final(self).wf(),
            ({
                let addr = spec_derive(username@, owner@);
                match r {
                    Ok(()) => {
                        &&& username@.len() <= MAX_USERNAME_CHARS
                        &&& !old(self).contains_addr(addr)
                        &&& final(self).contains_addr(addr)
                        &&& final(self).record_at(addr) == empty_account(owner@, username@)
                        &&& final(self).footprint_at(addr) == spec_required_footprint(0)
                        &&& others_preserved(*old(self), *final(self), addr)
                    },
                    Err(e) => {
                        &&& same_directory_state(*old(self), *final(self))
                        &&& (e == ErrorCode::HandleTooLong <==> username@.len()
                            > MAX_USERNAME_CHARS)
                        &&& (e == ErrorCode::AlreadyExists <==> username@.len()
                            <= MAX_USERNAME_CHARS && old(self).contains_addr(addr))
                        &&& (username@.len() > MAX_USERNAME_CHARS || old(self).contains_addr(addr))
                    },
                }
            }),
    {
        let ghost addr = spec_derive(username@, owner@);
        if !fits_within(username.as_str(), MAX_USERNAME_CHARS) {
            proof {
                old(self).lemma_same_models_same_state(*self);
            }
            return Err(ErrorCode::HandleTooLong);
        }
        match self.find_slot(owner, username) {
            Some(_) => {
                proof {
                    old(self).lemma_same_models_same_state(*self);
                }
                return Err(ErrorCode::AlreadyExists);
            },
            None => {},
        }
        let account = LinkTreeAccount::new(*owner, username.clone());
        let mut storage = Storage::new(MAX_FOOTPRINT);
        let fp = required_footprint(0);
        storage.resize_exact(fp);
        let ghost m = SlotModel { account: account@, storage: storage@ };
        self.slots.push(Slot { account, storage });
        proof {
            let d0 = *old(self);
            let d1 = *self;
            let n = d0.models().len();
            assert(d1.models() =~= d0.models().push(m));
            assert(key_of(m) =~= addr);
            assert forall|p: int, q: int|
                0 <= p < q < d1.models().len() implies key_of(#[trigger] d1.models()[p]) != key_of(
                #[trigger] d1.models()[q],
            ) by {
                if q < n {
                    assert(d1.models()[p] == d0.models()[p]);
                    assert(d1.models()[q] == d0.models()[q]);
                } else {
                    assert(d1.models()[q] == m);
                    assert(d1.models()[p] == d0.models()[p]);
                    if key_of(d0.models()[p]) == addr {
                        d0.lemma_found(addr, p);
                        assert(d0.contains_addr(addr));
                    }
                }
            }
            assert(d1.wf());
            d1.lemma_found(addr, n as int);
            assert(d1.record_at(addr) =~= empty_account(owner@, username@));
            assert forall|a: AddressModel| a != addr implies #[trigger] preserved_at(
                d0,
                d1,
                a,
            ) by {
                if d0.contains_addr(a) {
                    let i = d0.index_of(a);
                    assert(0 <= i < n && key_of(d0.models()[i]) == a);
                    assert(key_of(d1.models()[i]) == a);
                    d1.lemma_found(a, i);
                }
                if d1.contains_addr(a) {
                    let i = d1.index_of(a);
                    assert(0 <= i < n + 1 && key_of(d1.models()[i]) == a);
                    assert(i < n);
                    d0.lemma_found(a, i);
                    d1.lemma_found(a, i);
                }
            }
        }
        Ok(())
    }

    /// Deletes the record at `(username, owner)` outright, reclaiming its
    /// storage: the address becomes vacant, so a later create under the same
    /// pair starts from a fresh record with its counter at zero. Refused
    /// when no record exists there or the caller is not the owner.
    pub fn delete_linktree_account(
        &mut self,
        owner: &Identity,
        username: &String,
        caller: &Identity,
    ) -> (r: Result<(), ErrorCode>)
        requires
            old(self).wf(),
        ensures
            final(self).wf(),
            ({
                let addr = spec_derive(username@, owner@);
                match r {
                    Ok(()) => {
                        &&& old(self).contains_addr(addr)
                        &&& old(self).record_at(addr).owner == caller@
                        &&& !final(self).contains_addr(addr)
                        &&& others_preserved(*old(self), *final(self), addr)
                    },
                    Err(e) => {
                        &&& same_directory_state(*old(self), *final(self))
                        &&& e == (if !old(self).contains_addr(addr) {
                            ErrorCode::NotFound
                        } else {
                            ErrorCode::Unauthorized
                        })
                        &&& !(old(self).contains_addr(addr) && old(self).record_at(addr).owner
                            == caller@)
                    },
                }
            }),
    {
        let ghost addr = spec_derive(username@, owner@);
        let i = match self.find_slot(owner, username) {
            None => {
                proof {
                    old(self).lemma_same_models_same_state(*self);
                }
                return Err(ErrorCode::NotFound);
            },
            Some(i) => i,
        };
        match authorize(&self.slots[i].account, caller) {
            Err(e) => {
                proof {
                    old(self).lemma_same_models_same_state(*self);
                }
                return Err(e);
            },
            Ok(()) => {},
        }
        let _slot = self.slots.remove(i);
        proof {
            assert(self.models() =~= old(self).models().remove(i as int));
            old(self).lemma_remove_slot(*self, i as int, addr);
        }
        Ok(())
    }

    /// Appends a batch of links to the record at `(username, owner)` and
    /// resizes its storage to the new exact footprint, returning the
    /// assigned identifiers in batch order. Refused — with the record
    /// observably untouched — when the record is missing, the caller is not
    /// the owner, the lists do not pair up, the batch would exceed the link
    /// capacity, or a field exceeds its bound.
    pub fn add_links(
        &mut self,
        owner: &Identity,
        username: &String,
        caller: &Identity,
        urls: &Vec<String>,
        titles: &Vec<String>,
    ) -> (r: Result<Vec<u64>, ErrorCode>)
        requires
            old(self).wf(),
            old(self).contains_addr(spec_derive(username@, owner@)) ==> old(self).record_at(
                spec_derive(username@, owner@),
            ).link_counter + urls@.len() <= u64::MAX,
        ensures
            final(self).wf(),
            ({
                let addr = spec_derive(username@, owner@);
                let u = urls.deep_view();
                let t = titles.deep_view();
                match r {
                    Ok(ids) => {
                        &&& old(self).contains_addr(addr)
                        &&& old(self).record_at(addr).owner == caller@
                        &&& add_ok(old(self).record_at(addr), u, t)
                        &&& final(self).contains_addr(addr)
                        &&& final(self).record_at(addr) == account_after_add(
                            old(self).record_at(addr),
                            u,
                            t,
                        )
                        &&& final(self).footprint_at(addr) == spec_required_footprint(
                            final(self).record_at(addr).links.len(),
                        )
                        &&& ids@ == assigned_ids(old(self).record_at(addr).link_counter, u.len())
                        &&& others_preserved(*old(self), *final(self), addr)
                    },
                    Err(e) => {
                        &&& same_directory_state(*old(self), *final(self))
                        &&& e == (if !old(self).contains_addr(addr) {
                            ErrorCode::NotFound
                        } else if old(self).record_at(addr).owner != caller@ {
                            ErrorCode::Unauthorized
                        } else {
                            add_error(old(self).record_at(addr), u, t)
                        })
                        &&& !(old(self).contains_addr(addr) && old(self).record_at(addr).owner
                            == caller@ && add_ok(old(self).record_at(addr), u, t))
                    },
                }
            }),
    {
        let ghost addr = spec_derive(username@, owner@);
        let i = match self.find_slot(owner, username) {
            None => {
                proof {
                    old(self).lemma_same_models_same_state(*self);
                }
                return Err(ErrorCode::NotFound);
            },
            Some(i) => i,
        };
        match authorize(&self.slots[i].account, caller) {
            Err(e) => {
                proof {
                    old(self).lemma_same_models_same_state(*self);
                }
                return Err(e);
            },
            Ok(()) => {},
        }
        let mut slot = self.slots.remove(i);
        let res = slot.account.append_links(urls, titles);
        match res {
            Ok(ids) => {
                let nlinks = slot.account.links.len();
                let fp = required_footprint(nlinks);
                proof {
                    assert(slot.storage@.limit == MAX_FOOTPRINT);
                }
                slot.storage.resize_exact(fp);
                let ghost m = SlotModel { account: slot.account@, storage: slot.storage@ };
                self.slots.insert(i, slot);
                proof {
                    let d0 = *old(self);
                    let d1 = *self;
                    assert(d1.models() =~= d0.models().update(i as int, m)) by {
                        assert(self.slots@ =~= old(self).slots@.remove(i as int).insert(
                            i as int,
                            self.slots@[i as int],
                        ));
                    }
                    d0.lemma_update_slot(d1, i as int, addr);
                }
                Ok(ids)
            },
            Err(e) => {
                let ghost m = SlotModel { account: slot.account@, storage: slot.storage@ };
                self.slots.insert(i, slot);
                proof {
                    let d0 = *old(self);
                    let d1 = *self;
                    assert(d1.models() =~= d0.models());
                    d0.lemma_same_models_same_state(d1);
                }
                Err(e)
            },
        }
    }

    /// Removes from the record at `(username, owner)` every link whose
    /// identifier occurs in `link_ids` — identifiers that match nothing are
    /// silently ignored — and resizes storage down to the new exact
    /// footprint. Returns how many links were removed; the counter is not
    /// decremented. Refused when the record is missing or the caller is not
    /// the owner.
    pub fn delete_links(
        &mut self,
        owner: &Identity,
        username: &String,
        caller: &Identity,
        link_ids: &Vec<u64>,
    ) -> (r: Result<usize, ErrorCode>)
        requires
            old(self).wf(),
        ensures
            final(self).wf(),
            ({
                let addr = spec_derive(username@, owner@);
                match r {
                    Ok(deleted) => {
                        &&& old(self).contains_addr(addr)
                        &&& old(self).record_at(addr).owner == caller@
                        &&& final(self).contains_addr(addr)
                        &&& final(self).record_at(addr) == account_after_remove(
                            old(self).record_at(addr),
                            link_ids@,
                        )
                        &&& final(self).footprint_at(addr) == spec_required_footprint(
                            final(self).record_at(addr).links.len(),
                        )
                        &&& deleted == old(self).record_at(addr).links.len() - final(
                            self
                        ).record_at(addr).links.len()
                        &&& others_preserved(*old(self), *final(self), addr)
                    },
                    Err(e) => {
                        &&& same_directory_state(*old(self), *final(self))
                        &&& e == (if !old(self).contains_addr(addr) {
                            ErrorCode::NotFound
                        } else {
                            ErrorCode::Unauthorized
                        })
                        &&& !(old(self).contains_addr(addr) && old(self).record_at(addr).owner
                            == caller@)
                    },
                }
            }),
    {
        let ghost addr = spec_derive(username@, owner@);
        let i = match self.find_slot(owner, username) {
            None => {
                proof {
                    old(self).lemma_same_models_same_state(*self);
                }
                return Err(ErrorCode::NotFound);
            },
            Some(i) => i,
        };
        match authorize(&self.slots[i].account, caller) {
            Err(e) => {
                proof {
                    old(self).lemma_same_models_same_state(*self);
                }
                return Err(e);
            },
            Ok(()) => {},
        }
        let mut slot = self.slots.remove(i);
        let deleted = slot.account.remove_links(link_ids);
        let nlinks = slot.account.links.len();
        let fp = required_footprint(nlinks);
        proof {
            assert(slot.storage@.limit == MAX_FOOTPRINT);
        }
        slot.storage.resize_exact(fp);
        let ghost m = SlotModel { account: slot.account@, storage: slot.storage@ };
        self.slots.insert(i, slot);
        proof {
            let d0 = *old(self);
            let d1 = *self;
            assert(d1.models() =~= d0.models().update(i as int, m)) by {
                assert(self.slots@ =~= old(self).slots@.remove(i as int).insert(
                    i as int,
                    self.slots@[i as int],
                ));
            }
            d0.lemma_update_slot(d1, i as int, addr);
        }
        Ok(deleted)
    }

    /// Reads the record stored for `(username, owner)`, if any.
    pub fn get_record(&self, owner: &Identity, username: &String) -> (r: Option<&LinkTreeAccount>)
        requires
            self.wf(),
        ensures
            match r {
                Some(account) => {
                    &&& self.contains_addr(spec_derive(username@, owner@))
                    &&& account@ == self.record_at(spec_derive(username@, owner@))
                },
                None => !self.contains_addr(spec_derive(username@, owner@)),
            },
    {
        match self.find_slot(owner, username) {
            Some(i) => Some(&self.slots[i].account),
            None => None,
        }
    }
}

} // verus!
