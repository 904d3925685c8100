//! The per-owner record and the mutations it admits: creating an empty
//! record, appending a validated batch of links, and removing links by
//! identifier.

use vstd::prelude::*;

use crate::bounds::MAX_LINKS;
use crate::bounds::MAX_TITLE_CHARS;
use crate::bounds::MAX_URL_CHARS;
use crate::bounds::MAX_USERNAME_CHARS;
use crate::error::ErrorCode;
use crate::identity::Identity;
use crate::link::Link;
use crate::link::LinkModel;
use crate::link::link_wf;
use crate::link::links_model;
use crate::text::fits_within;

verus! {

/// The persisted per-owner state: owner identity, handle, monotonic link
/// counter, and the insertion-ordered bounded list of links.
#[derive(Debug)]
pub struct LinkTreeAccount {
    /// Set once at creation, immutable thereafter.
    pub owner: Identity,
    /// The handle; with `owner` it forms the record's unique address.
    pub username: String,
    /// Insertion-ordered; never longer than [`MAX_LINKS`].
    pub links: Vec<Link>,
    /// Source of link identifiers; never decreases, never reused.
    pub link_counter: u64,
}

/// The mathematical image of a [`LinkTreeAccount`].
#[verifier::ext_equal]
pub ghost struct AccountModel {
    pub owner: Seq<u8>,
    pub username: Seq<char>,
    pub links: Seq<LinkModel>,
    pub link_counter: u64,
}

impl View for LinkTreeAccount {
    type V = AccountModel;

    open spec fn view(&self) -> AccountModel {
        AccountModel {
            owner: self.owner@,
            username: self.username@,
            links: links_model(self.links@),
            link_counter: self.link_counter,
        }
    }
}

/// The record invariants: the handle fits its bound, the link list is within
/// capacity, link identifiers are pairwise distinct and below the counter,
/// and every link's fields fit their bounds.
pub open spec fn account_wf(a: AccountModel) -> bool {
    &&& a.username.len() <= MAX_USERNAME_CHARS
    &&& a.links.len() <= MAX_LINKS
    &&& (forall|i: int, j: int|
        0 <= i < j < a.links.len() ==> #[trigger] a.links[i].id != #[trigger] a.links[j].id)
    &&& (forall|i: int| 0 <= i < a.links.len() ==> (#[trigger] a.links[i]).id < a.link_counter)
    &&& (forall|i: int| 0 <= i < a.links.len() ==> link_wf(#[trigger] a.links[i]))
}

/// An empty record for `owner` under the handle `username`.
pub open spec fn empty_account(owner: Seq<u8>, username: Seq<char>) -> AccountModel {
    AccountModel { owner, username, links: Seq::empty(), link_counter: 0 }
}

/// Every url and title in the batch fits its length bound.
pub open spec fn all_fields_fit(urls: Seq<Seq<char>>, titles: Seq<Seq<char>>) -> bool {
    forall|k: int|
        0 <= k < urls.len() ==> (#[trigger] urls[k]).len() <= MAX_URL_CHARS && k < titles.len()
            && titles[k].len() <= MAX_TITLE_CHARS
}

/// A batch addition is accepted: the lists pair up, the result stays within
/// capacity, and every field fits its bound.
pub open spec fn add_ok(a: AccountModel, urls: Seq<Seq<char>>, titles: Seq<Seq<char>>) -> bool {
    &&& urls.len() == titles.len()
    &&& a.links.len() + urls.len() <= MAX_LINKS
    &&& all_fields_fit(urls, titles)
}

/// The error a refused batch addition reports, checking the pairing first,
/// then the capacity bound, then the field bounds.
pub open spec fn add_error(a: AccountModel, urls: Seq<Seq<char>>, titles: Seq<Seq<char>>) -> ErrorCode {
    if urls.len() != titles.len() {
        ErrorCode::LengthMismatch
    } else if a.links.len() + urls.len() > MAX_LINKS {
        ErrorCode::CapacityExceeded
    } else {
        ErrorCode::FieldTooLong
    }
}

/// The `n` identifiers a batch addition assigns when the counter stands at
/// `counter`: consecutive values starting there.
pub open spec fn assigned_ids(counter: u64, n: nat) -> Seq<u64> {
    Seq::new(n, |k: int| (counter + k) as u64)
}

/// The link list after appending the batch in input order.
pub open spec fn appended_links(
    links: Seq<LinkModel>,
    counter: u64,
    urls: Seq<Seq<char>>,
    titles: Seq<Seq<char>>,
) -> Seq<LinkModel> {
    links + Seq::new(
        urls.len(),
        |k: int| LinkModel { id: (counter + k) as u64, title: titles[k], url: urls[k], active: true },
    )
}

/// The record after a successful batch addition.
pub open spec fn account_after_add(
    a: AccountModel,
    urls: Seq<Seq<char>>,
    titles: Seq<Seq<char>>,
) -> AccountModel {
    AccountModel {
        links: appended_links(a.links, a.link_counter, urls, titles),
        link_counter: (a.link_counter + urls.len()) as u64,
        ..a
    }
}

/// The links that survive deleting `ids`: those whose identifier is not a
/// member, in unchanged relative order.
pub open spec fn retained(links: Seq<LinkModel>, ids: Seq<u64>) -> Seq<LinkModel>
    decreases links.len(),
{
    if links.len() == 0 {
        Seq::empty()
    } else {
        let front = retained(links.drop_last(), ids);
        if ids.contains(links.last().id) {
            front
        } else {
            front.push(links.last())
        }
    }
}

/// The record after deleting `ids`: the counter is untouched, only the link
/// list shrinks.
pub open spec fn account_after_remove(a: AccountModel, ids: Seq<u64>) -> AccountModel {
    AccountModel { links: retained(a.links, ids), ..a }
}

impl LinkTreeAccount {
    /// Creates an empty record owned by `owner` under `username`, with the
    /// link counter at zero.
    pub fn new(owner: Identity, username: String) -> (r: LinkTreeAccount)
        requires
            username@.len() <= MAX_USERNAME_CHARS,
        ensures
            r@ == empty_account(owner@, username@),
            account_wf(r@),
    {
        let r = LinkTreeAccount { owner, username, links: Vec::new(), link_counter: 0 };
        proof {
            assert(links_model(r.links@) =~= Seq::<LinkModel>::empty());
            assert(r@ =~= empty_account(r.owner@, r.username@));
        }
        r
    }

    /// Validates and appends a batch of links, one per (url, title) pair in
    /// input order, assigning each the next counter value as its identifier.
    /// The whole batch is rejected — and the record left unchanged — if the
    /// lists do not pair up, the result would exceed capacity, or any field
    /// exceeds its bound.
    pub fn append_links(&mut self, urls: &Vec<String>, titles: &Vec<String>) -> (r: Result<
        Vec<u64>,
        ErrorCode,
    >)
        requires
            account_wf(old(self)@),
            old(self).link_counter + urls@.len() <= u64::MAX,
        ensures
            account_wf(final(self)@),
            final(self)@.owner == old(self)@.owner,
            final(self)@.username == old(self)@.username,
            final(self)@.link_counter >= old(self)@.link_counter,
            match r {
                Ok(ids) => {
                    &&& add_ok(old(self)@, urls.deep_view(), titles.deep_view())
                    &&& final(self)@ == account_after_add(old(self)@, urls.deep_view(), titles.deep_view())
                    &&& ids@ == assigned_ids(old(self)@.link_counter, urls.deep_view().len())
                },
                Err(e) => {
                    &&& !add_ok(old(self)@, urls.deep_view(), titles.deep_view())
                    &&& e == add_error(old(self)@, urls.deep_view(), titles.deep_view())
                    &&& final(self)@ == old(self)@
                },
            },
    {
        let ghost a0 = self@;
        let ghost u = urls.deep_view();
        let ghost t = titles.deep_view();
        if urls.len() != titles.len() {
            return Err(ErrorCode::LengthMismatch);
        }
        assert(a0.links.len() == self.links@.len());
        if urls.len() > MAX_LINKS - self.links.len() {
            return Err(ErrorCode::CapacityExceeded);
        }
        let mut k: usize = 0;
        while k < urls.len()
            invariant
                u == urls.deep_view(),
                t == titles.deep_view(),
                t.len() == u.len(),
                k <= u.len(),
                a0 == old(self)@,
                self@ == a0,
                account_wf(a0),
                a0.links.len() + u.len() <= MAX_LINKS,
                forall|j: int|
                    0 <= j < k ==> (#[trigger] u[j]).len() <= MAX_URL_CHARS && t[j].len()
                        <= MAX_TITLE_CHARS,
            decreases u.len() - k,
        {
            if !fits_within(titles[k].as_str(), MAX_TITLE_CHARS) {
                assert(!all_fields_fit(u, t)) by {
                    assert(0 <= (k as int) && (k as int) < u.len());
                    if all_fields_fit(u, t) {
                        assert((u[k as int]).len() <= MAX_URL_CHARS && (k as int) < t.len() && t[
                            k as int
                        ].len() <= MAX_TITLE_CHARS);
                    }
                }
                return Err(ErrorCode::FieldTooLong);
            }
            if !fits_within(urls[k].as_str(), MAX_URL_CHARS) {
                assert(!all_fields_fit(u, t)) by {
                    assert(0 <= (k as int) && (k as int) < u.len());
                    if all_fields_fit(u, t) {
                        assert((u[k as int]).len() <= MAX_URL_CHARS && (k as int) < t.len() && t[
                            k as int
                        ].len() <= MAX_TITLE_CHARS);
                    }
                }
                return Err(ErrorCode::FieldTooLong);
            }
            k = k + 1;
        }
        assert(all_fields_fit(u, t));
        let ghost n = u.len();
        let mut ids: Vec<u64> = Vec::new();
        let mut k: usize = 0;
        while k < urls.len()
            invariant
                u == urls.deep_view(),
                t == titles.deep_view(),
                t.len() == u.len(),
                k <= u.len(),
                account_wf(a0),
                all_fields_fit(u, t),
                a0.link_counter + u.len() <= u64::MAX,
                a0.links.len() + u.len() <= MAX_LINKS,
                self.link_counter == a0.link_counter + k,
                self.links@.len() == a0.links.len() + k,
                self@.owner == a0.owner,
                self@.username == a0.username,
                forall|i: int| 0 <= i < a0.links.len() ==> links_model(self.links@)[i] == a0.links[i],
                forall|j: int|
                    0 <= j < k ==> links_model(self.links@)[a0.links.len() + j] == (LinkModel {
                        id: (a0.link_counter + j) as u64,
                        title: t[j],
                        url: u[j],
                        active: true,
                    }),
                ids@.len() == k,
                forall|j: int| 0 <= j < k ==> ids@[j] == (a0.link_counter + j) as u64,
            decreases u.len() - k,
        {
            let id = self.link_counter;
            let title = titles[k].clone();
            let url = urls[k].clone();
            self.links.push(Link { id, title, url, active: true });
            self.link_counter = self.link_counter + 1;
            ids.push(id);
            k = k + 1;
        }
        proof {
            assert(links_model(self.links@) =~= appended_links(a0.links, a0.link_counter, u, t));
            assert(self@ =~= account_after_add(a0, u, t));
            assert(ids@ =~= assigned_ids(a0.link_counter, n));
            assert(account_wf(self@)) by {
                let ls = self@.links;
                assert forall|i: int, j: int| 0 <= i < j < ls.len() implies ls[i].id != ls[j].id by {
                    if j >= a0.links.len() {
                        assert(ls[j].id == a0.link_counter + (j - a0.links.len()));
                        if i >= a0.links.len() {
                            assert(ls[i].id == a0.link_counter + (i - a0.links.len()));
                        } else {
                            assert(ls[i].id < a0.link_counter);
                        }
                    }
                }
            }
        }
        Ok(ids)
    }

    /// Removes every link whose identifier is a member of `link_ids`;
    /// identifiers that match no link are ignored. Remaining links keep
    /// their relative order and the counter is not decremented. Returns how
    /// many links were removed.
    pub fn remove_links(&mut self, link_ids: &Vec<u64>) -> (deleted: usize)
        requires
            account_wf(old(self)@),
        ensures
            account_wf(final(self)@),
            final(self)@ == account_after_remove(old(self)@, link_ids@),
            final(self)@.link_counter == old(self)@.link_counter,
            final(self)@.owner == old(self)@.owner,
            final(self)@.username == old(self)@.username,
            deleted == old(self)@.links.len() - final(self)@.links.len(),
    {
        let ghost a0 = self@;
        let n = self.links.len();
        let mut kept: Vec<Link> = Vec::new();
        let mut i: usize = 0;
        while i < n
            invariant
                account_wf(a0),
                i <= n,
                n == a0.links.len(),
                self@.owner == a0.owner,
                self@.username == a0.username,
                self.link_counter == a0.link_counter,
                self.links@.len() == n - i,
                forall|j: int| 0 <= j < n - i ==> links_model(self.links@)[j] == a0.links[i + j],
                links_model(kept@) =~= retained(a0.links.take(i as int), link_ids@),
                kept@.len() <= i,
            decreases n - i,
        {
            let ghost pre = self.links@;
            let l = self.links.remove(0);
            proof {
                assert(l@ == links_model(pre)[0]);
                assert(l@ == a0.links[i as int]);
                assert(self.links@ =~= pre.subrange(1, pre.len() as int));
                assert forall|j: int| 0 <= j < n - (i + 1) implies links_model(self.links@)[j]
                    == a0.links[i + 1 + j] by {
                    assert(self.links@[j] == pre[j + 1]);
                    assert(links_model(pre)[j + 1] == a0.links[i + (j + 1)]);
                }
            }
            let ghost kept0 = links_model(kept@);
            if !ids_contain(link_ids, l.id) {
                kept.push(l);
                assert(links_model(kept@) =~= kept0.push(a0.links[i as int]));
            }
            proof {
                assert(a0.links.take(i + 1).drop_last() =~= a0.links.take(i as int));
                assert(a0.links.take(i + 1).last() == a0.links[i as int]);
                assert(links_model(kept@) =~= retained(a0.links.take(i + 1), link_ids@));
            }
            i = i + 1;
        }
        proof {
            assert(a0.links.take(n as int) =~= a0.links);
            assert(links_model(kept@) == retained(a0.links, link_ids@));
            lemma_retained_len(a0.links, link_ids@);
            lemma_retained_membership(a0.links, link_ids@);
            lemma_retained_distinct(a0.links, link_ids@);
        }
        let deleted = n - kept.len();
        self.links = kept;
        proof {
            assert(self@ =~= account_after_remove(a0, link_ids@));
            assert(account_wf(self@)) by {
                let ls = self@.links;
                assert forall|i: int| 0 <= i < ls.len() implies ls[i].id < self@.link_counter
                    && link_wf(ls[i]) by {
                    let j = choose|j: int| 0 <= j < a0.links.len() && ls[i] == a0.links[j];
                    assert(a0.links[j].id < a0.link_counter);
                    assert(link_wf(a0.links[j]));
                }
            }
        }
        deleted
    }
}

/// Decides whether `x` occurs in `ids`.
pub fn ids_contain(ids: &Vec<u64>, x: u64) -> (r: bool)
    ensures
        r == ids@.contains(x),
{
    let mut i: usize = 0;
    while i < ids.len()
        invariant
            i <= ids@.len(),
            forall|j: int| 0 <= j < i ==> ids@[j] != x,
        decreases ids@.len() - i,
    {
        if ids[i] == x {
            assert(ids@.contains(x)) by {
                assert(ids@[i as int] == x);
            }
            return true;
        }
        i = i + 1;
    }
    assert(!ids@.contains(x));
    false
}

/// Deleted links stay deleted: no link surviving a deletion has its
/// identifier in the deleted set.
pub proof fn lemma_retained_excludes(links: Seq<LinkModel>, ids: Seq<u64>)
    ensures
        forall|i: int|
            0 <= i < retained(links, ids).len() ==> !ids.contains(
                (#[trigger] retained(links, ids)[i]).id,
            ),
    decreases links.len(),
{
    if links.len() > 0 {
        lemma_retained_excludes(links.drop_last(), ids);
        let front = retained(links.drop_last(), ids);
        let res = retained(links, ids);
        assert forall|i: int| 0 <= i < res.len() implies !ids.contains(res[i].id) by {
            if i < front.len() {
                assert(res[i] == front[i]);
            } else {
                assert(res[i] == links.last());
            }
        }
    }
}

/// A deletion that hits nothing is a no-op on the link list.
pub proof fn lemma_retained_already_clean(links: Seq<LinkModel>, ids: Seq<u64>)
    requires
        forall|i: int| 0 <= i < links.len() ==> !ids.contains((#[trigger] links[i]).id),
    ensures
        retained(links, ids) == links,
    decreases links.len(),
{
    if links.len() > 0 {
        lemma_retained_already_clean(links.drop_last(), ids);
        assert(retained(links, ids) =~= links);
    }
}

/// Deleting the same identifiers twice leaves exactly what the first
/// deletion left: the second pass removes nothing.
pub proof fn lemma_delete_idempotent(links: Seq<LinkModel>, ids: Seq<u64>)
    ensures
        retained(retained(links, ids), ids) == retained(links, ids),
{
    lemma_retained_excludes(links, ids);
    lemma_retained_already_clean(retained(links, ids), ids);
}

/// A deletion never lengthens the link list.
pub proof fn lemma_retained_len(links: Seq<LinkModel>, ids: Seq<u64>)
    ensures
        retained(links, ids).len() <= links.len(),
    decreases links.len(),
{
    if links.len() > 0 {
        lemma_retained_len(links.drop_last(), ids);
    }
}

/// Every link surviving a deletion was in the list before it.
pub proof fn lemma_retained_membership(links: Seq<LinkModel>, ids: Seq<u64>)
    ensures
        forall|i: int|
            0 <= i < retained(links, ids).len() ==> exists|j: int|
                0 <= j < links.len() && #[trigger] retained(links, ids)[i] == links[j],
    decreases links.len(),
{
    if links.len() > 0 {
        lemma_retained_membership(links.drop_last(), ids);
        let front = retained(links.drop_last(), ids);
        let res = retained(links, ids);
        assert forall|i: int| 0 <= i < res.len() implies exists|j: int|
            0 <= j < links.len() && #[trigger] res[i] == links[j] by {
            if i < front.len() {
                let j = choose|j: int|
                    0 <= j < links.drop_last().len() && #[trigger] front[i] == links.drop_last()[j];
                assert(res[i] == links[j]);
            } else {
                assert(res[i] == links[links.len() - 1]);
            }
        }
    }
}

/// Deletion preserves pairwise-distinct link identifiers.
pub proof fn lemma_retained_distinct(links: Seq<LinkModel>, ids: Seq<u64>)
    requires
        forall|i: int, j: int|
            0 <= i < j < links.len() ==> #[trigger] links[i].id != #[trigger] links[j].id,
    ensures
        forall|i: int, j: int|
            0 <= i < j < retained(links, ids).len() ==> #[trigger] retained(links, ids)[i].id
                != #[trigger] retained(links, ids)[j].id,
    decreases links.len(),
{
    if links.len() > 0 {
        lemma_retained_distinct(links.drop_last(), ids);
        lemma_retained_membership(links.drop_last(), ids);
        let front = retained(links.drop_last(), ids);
        let res = retained(links, ids);
        if !ids.contains(links.last().id) {
            assert forall|i: int, j: int| 0 <= i < j < res.len() implies res[i].id != res[j].id by {
                if j == front.len() {
                    let j2 = choose|j2: int|
                        0 <= j2 < links.drop_last().len() && #[trigger] front[i]
                            == links.drop_last()[j2];
                    assert(links[j2].id != links[links.len() - 1].id);
                }
            }
        }
    }
}

/// Two successful additions never share an identifier: a batch assigned when
/// the counter stood at `c1` lies wholly below one assigned later at `c2`,
/// since every addition moves the counter past the identifiers it handed out
/// and nothing — deletions included — ever moves it back.
pub proof fn lemma_batches_never_reuse_ids(c1: u64, n1: nat, c2: u64, n2: nat)
    requires
        c1 + n1 <= c2,
        c2 + n2 <= u64::MAX,
    ensures
        forall|k1: int, k2: int|
            0 <= k1 < n1 && 0 <= k2 < n2 ==> #[trigger] assigned_ids(c1, n1)[k1]
                < #[trigger] assigned_ids(c2, n2)[k2],
{
}

/// Identifiers assigned by a successful addition are strictly increasing in
/// batch order and collide with no identifier already in the record: every
/// existing identifier lies below the counter, and the counter never goes
/// back down — not even across deletions — so no identifier is ever reused.
pub proof fn lemma_new_ids_fresh(a: AccountModel, n: nat)
    requires
        account_wf(a),
        a.link_counter + n <= u64::MAX,
    ensures
        forall|k1: int, k2: int|
            0 <= k1 < k2 < n ==> #[trigger] assigned_ids(a.link_counter, n)[k1]
                < #[trigger] assigned_ids(a.link_counter, n)[k2],
        forall|k: int, i: int|
            0 <= k < n && 0 <= i < a.links.len() ==> #[trigger] assigned_ids(a.link_counter, n)[k]
                != (#[trigger] a.links[i]).id,
{
}

} // verus!
