use std::collections::HashMap;
use vstd::prelude::*;
use crate::types::{
    Address, MiddlemanError, Notice, Offer, Receipt, Status, Transfer, holder_payout,
    is_native_token, is_native_transfer, is_token_transfer, native_token_id, payout_of,
};

verus! {

broadcast use vstd::std_specs::hash::group_hash_axioms;

/// The registry's storage: the id counter, the offers by id, and the two party
/// indices (offers an address made, offers made to an address).
///
/// The offer with id `i` sits at position `i - 1`. Index lists only ever grow:
/// an offer stays listed under its holder and its spender for good, and queries
/// filter by status when they run.
pub struct Middleman {
    owner: Address,
    offers_count: u64,
    offers: Vec<Offer>,
    offers_from: HashMap<Address, Vec<u64>>,
    offers_to: HashMap<Address, Vec<u64>>,
}

/// The list stored under `a` in a party index, empty where none is stored.
pub open spec fn listed(index: Map<Address, Vec<u64>>, a: Address) -> Seq<u64> {
    if index.contains_key(a) {
        index[a]@
    } else {
        Seq::empty()
    }
}

/// The counter after bootstrap: set to 1 where it was still unset (0), else kept.
pub open spec fn bootstrapped(count: u64) -> u64 {
    if count == 0 {
        1
    } else {
        count
    }
}

/// A party-index list whose ids name stored offers, rise strictly, and so are
/// no more than the offers stored.
pub open spec fn index_list_ok(ids: Seq<u64>, n: int) -> bool {
    &&& ids.len() <= n
    &&& forall|k: int| 0 <= k < ids.len() ==> 1 <= #[trigger] ids[k] <= n
    &&& forall|i: int, j: int| 0 <= i < j < ids.len() ==> ids[i] < ids[j]
}

impl Middleman {
    /// The administrator, who alone may withdraw the registry's own balance.
    pub closed spec fn admin(self) -> Address {
        self.owner
    }

    /// The stored counter: the next id to be issued, or 0 before bootstrap.
    pub closed spec fn next_id(self) -> u64 {
        self.offers_count
    }

    /// The stored offers, the one with id `i` at position `i - 1`.
    pub closed spec fn offer_seq(self) -> Seq<Offer> {
        self.offers@
    }

    /// The ids of the offers that `a` made, oldest first.
    pub closed spec fn from_ids(self, a: Address) -> Seq<u64> {
        listed(self.offers_from@, a)
    }

    /// The ids of the offers made to `a`, oldest first.
    pub closed spec fn to_ids(self, a: Address) -> Seq<u64> {
        listed(self.offers_to@, a)
    }

    /// The storage invariant.
    pub open spec fn wf(self) -> bool {
        &&& self.next_id() == 0 ==> self.offer_seq().len() == 0
        &&& self.next_id() != 0 ==> self.next_id() == self.offer_seq().len() + 1
        &&& forall|i: int| 0 <= i < self.offer_seq().len() ==> (#[trigger] self.offer_seq()[i]).id == i + 1
        &&& forall|a: Address| index_list_ok(#[trigger] self.from_ids(a), self.offer_seq().len() as int)
        &&& forall|a: Address| index_list_ok(#[trigger] self.to_ids(a), self.offer_seq().len() as int)
    }

    /// Whether an offer with this id is stored.
    pub open spec fn has_offer(self, id: u64) -> bool {
        1 <= id <= self.offer_seq().len()
    }

    /// The offer with this id.
    pub open spec fn offer(self, id: u64) -> Offer {
        self.offer_seq()[id - 1]
    }

    /// The offers are those of `pre`, with the one of id `id` now in `status`.
    pub open spec fn offers_with_status(self, pre: Middleman, id: u64, status: Status) -> bool {
        self.offer_seq() == pre.offer_seq().update(id - 1, Offer { status, ..pre.offer(id) })
    }

    /// Counter, administrator and both party indices are those of `pre`.
    pub open spec fn same_bookkeeping(self, pre: Middleman) -> bool {
        &&& self.next_id() == pre.next_id()
        &&& self.admin() == pre.admin()
        &&& forall|a: Address| #[trigger] self.from_ids(a) == pre.from_ids(a)
        &&& forall|a: Address| #[trigger] self.to_ids(a) == pre.to_ids(a)
    }

    /// What `create_offer` does: the next id is issued to a new `Submitted`
    /// offer, which is listed under its holder and its spender, and the spender
    /// is notified by a transfer of one unit of the native asset.
    pub open spec fn create_step(
        pre: Middleman,
        post: Middleman,
        caller: Address,
        token: Seq<u8>,
        nonce: u64,
        spender: Address,
        amount: u128,
        r: Result<Receipt, MiddlemanError>,
    ) -> bool {
        let id = pre.next_id();
        match r {
            Ok(receipt) => {
                &&& receipt.id == id
                &&& receipt.transfers@.len() == 1
                &&& is_native_transfer(receipt.transfers@[0], spender, 1, Notice::NewOffer)
                &&& post.next_id() == id + 1
                &&& post.admin() == pre.admin()
                &&& post.offer_seq().len() == pre.offer_seq().len() + 1
                &&& post.offer_seq().drop_last() == pre.offer_seq()
                &&& post.offer(id).id == id
                &&& post.offer(id).nft_holder == caller
                &&& post.offer(id).spender == spender
                &&& post.offer(id).amount == amount
                &&& post.offer(id).token_id@ == token
                &&& post.offer(id).nonce == nonce
                &&& post.offer(id).status == Status::Submitted
                &&& forall|a: Address| #[trigger] post.from_ids(a) == if a == caller {
                    pre.from_ids(a).push(id)
                } else {
                    pre.from_ids(a)
                }
                &&& forall|a: Address| #[trigger] post.to_ids(a) == if a == spender {
                    pre.to_ids(a).push(id)
                } else {
                    pre.to_ids(a)
                }
            },
            Err(_) => false,
        }
    }

    /// Empty storage, before bootstrap, administered by `owner`.
    pub fn new(owner: Address) -> (r: Middleman)
        ensures
            r.wf(),
            r.admin() == owner,
            r.next_id() == 0,
            r.offer_seq().len() == 0,
            forall|a: Address| #[trigger] r.from_ids(a) == Seq::<u64>::empty(),
            forall|a: Address| #[trigger] r.to_ids(a) == Seq::<u64>::empty(),
    {
        Middleman {
            owner,
            offers_count: 0,
            offers: Vec::new(),
            offers_from: HashMap::new(),
            offers_to: HashMap::new(),
        }
    }

    /// Bootstrap: sets the counter to 1 where it is still unset; never resets it.
    pub fn init(&mut self)
        requires
            old(self).wf(),
        ensures
            final(self).wf(),
            final(self).next_id() == bootstrapped(old(self).next_id()),
            final(self).admin() == old(self).admin(),
            final(self).offer_seq() == old(self).offer_seq(),
            forall|a: Address| #[trigger] final(self).from_ids(a) == old(self).from_ids(a),
            forall|a: Address| #[trigger] final(self).to_ids(a) == old(self).to_ids(a),
    {
        let ghost pre = *self;
        if self.offers_count == 0 {
            self.offers_count = 1;
        }
        assert forall|a: Address| #[trigger] self.from_ids(a) == pre.from_ids(a) by {}
        assert forall|a: Address| #[trigger] self.to_ids(a) == pre.to_ids(a) by {}
    }

    /// The stored counter.
    pub fn offers_count(&self) -> (r: u64)
        ensures
            r == self.next_id(),
    {
        self.offers_count
    }

    /// Appends `id` to the list stored under `a` in `index`.
    fn append_listed(index: &mut HashMap<Address, Vec<u64>>, a: Address, id: u64)
        ensures
            forall|b: Address| #[trigger] listed(final(index)@, b) == if b == a {
                listed(old(index)@, b).push(id)
            } else {
                listed(old(index)@, b)
            },
    {
        let mut ids: Vec<u64> = match index.remove(&a) {
            Some(v) => v,
            None => Vec::new(),
        };
        assert(ids@ == listed(old(index)@, a));
        ids.push(id);
        index.insert(a, ids);
    }

    /// Records a new offer by `caller` of one unit of `(token_id, nonce)`, to be
    /// paid `amount` by `spender`, and returns its id.
    pub fn create_offer(
        &mut self,
        caller: Address,
        token_id: Vec<u8>,
        nonce: u64,
        spender: Address,
        amount: u128,
    ) -> (r: Result<Receipt, MiddlemanError>)
        requires
            old(self).wf(),
            old(self).next_id() != 0,
            old(self).next_id() < u64::MAX,
        ensures
            final(self).wf(),
            r is Ok,
            Self::create_step(*old(self), *final(self), caller, token_id@, nonce, spender, amount, r),
    {
        let id = self.offers_count;
        let ghost pre = *self;
        Self::append_listed(&mut self.offers_from, caller, id);
        Self::append_listed(&mut self.offers_to, spender, id);
        self.offers_count = id + 1;
        self.offers.push(Offer {
            id,
            spender,
            nft_holder: caller,
            amount,
            token_id,
            nonce,
            status: Status::Submitted,
        });
        assert(self.offer_seq().drop_last() =~= pre.offer_seq());
        assert forall|a: Address| index_list_ok(#[trigger] self.from_ids(a), self.offer_seq().len() as int) by {
            assert(index_list_ok(pre.from_ids(a), pre.offer_seq().len() as int));
        }
        assert forall|a: Address| index_list_ok(#[trigger] self.to_ids(a), self.offer_seq().len() as int) by {
            assert(index_list_ok(pre.to_ids(a), pre.offer_seq().len() as int));
        }
        let mut transfers: Vec<Transfer> = Vec::new();
        transfers.push(Transfer::Native { to: spender, amount: 1, notice: Notice::NewOffer });
        Ok(Receipt { id, transfers })
    }

    /// Which refusal, if any, `delete_offer` gives, in the order it checks.
    pub open spec fn delete_check(self, caller: Address, id: u64) -> Result<(), MiddlemanError> {
        if !self.has_offer(id) {
            Err(MiddlemanError::NotFound)
        } else if self.offer(id).nft_holder != caller {
            Err(MiddlemanError::Unauthorized)
        } else if self.offer(id).status != Status::Submitted {
            Err(MiddlemanError::InvalidState)
        } else {
            Ok(())
        }
    }

    /// Which refusal, if any, `accept_offer` gives, in the order it checks.
    pub open spec fn accept_check(
        self,
        caller: Address,
        payment_token: Seq<u8>,
        payment_amount: u128,
        id: u64,
    ) -> Result<(), MiddlemanError> {
        if !self.has_offer(id) {
            Err(MiddlemanError::NotFound)
        } else if self.offer(id).spender != caller {
            Err(MiddlemanError::Unauthorized)
        } else if payment_token != native_token_id() {
            Err(MiddlemanError::PaymentMismatch)
        } else if self.offer(id).status != Status::Submitted {
            Err(MiddlemanError::InvalidState)
        } else if payment_amount != self.offer(id).amount {
            Err(MiddlemanError::PaymentMismatch)
        } else {
            Ok(())
        }
    }

    /// What `delete_offer` does: a refusal leaves everything as it was;
    /// otherwise the escrowed unit goes back to the holder and the offer
    /// becomes `Deleted`.
    pub open spec fn delete_step(
        pre: Middleman,
        post: Middleman,
        caller: Address,
        id: u64,
        r: Result<Receipt, MiddlemanError>,
    ) -> bool {
        match pre.delete_check(caller, id) {
            Err(e) => r == Err::<Receipt, MiddlemanError>(e) && post == pre,
            Ok(_) => match r {
                Ok(receipt) => {
                    let offer = pre.offer(id);
                    &&& receipt.id == id
                    &&& receipt.transfers@.len() == 1
                    &&& is_token_transfer(receipt.transfers@[0], caller, offer.token_id@, offer.nonce, 1)
                    &&& post.offers_with_status(pre, id, Status::Deleted)
                    &&& post.same_bookkeeping(pre)
                },
                Err(_) => false,
            },
        }
    }

    /// What `accept_offer` does: a refusal leaves everything as it was;
    /// otherwise the holder is paid the amount less the fee, the escrowed unit
    /// goes to the caller, and the offer becomes `Completed`.
    pub open spec fn accept_step(
        pre: Middleman,
        post: Middleman,
        caller: Address,
        payment_token: Seq<u8>,
        payment_amount: u128,
        id: u64,
        r: Result<Receipt, MiddlemanError>,
    ) -> bool {
        match pre.accept_check(caller, payment_token, payment_amount, id) {
            Err(e) => r == Err::<Receipt, MiddlemanError>(e) && post == pre,
            Ok(_) => match r {
                Ok(receipt) => {
                    let offer = pre.offer(id);
                    &&& receipt.id == id
                    &&& receipt.transfers@.len() == 2
                    &&& is_native_transfer(
                        receipt.transfers@[0],
                        offer.nft_holder,
                        payout_of(payment_amount as int) as u128,
                        Notice::OfferAccepted,
                    )
                    &&& is_token_transfer(receipt.transfers@[1], caller, offer.token_id@, offer.nonce, 1)
                    &&& post.offers_with_status(pre, id, Status::Completed)
                    &&& post.same_bookkeeping(pre)
                },
                Err(_) => false,
            },
        }
    }

    /// Sets the status of the stored offer `id`.
    fn set_status(&mut self, id: u64, status: Status)
        requires
            old(self).wf(),
            old(self).has_offer(id),
            old(self).offer(id).status == Status::Submitted,
        ensures
            final(self).wf(),
            final(self).offers_with_status(*old(self), id, status),
            final(self).same_bookkeeping(*old(self)),
    {
        let ghost pre = *self;
        let len: usize = self.offers.len();
        assert(id - 1 < len);
        let i: usize = (id - 1) as usize;
        self.offers[i].status = status;
        assert(self.offer_seq() =~= pre.offer_seq().update(id - 1, Offer { status, ..pre.offer(id) }));
        assert forall|a: Address| #[trigger] self.from_ids(a) == pre.from_ids(a) by {}
        assert forall|a: Address| #[trigger] self.to_ids(a) == pre.to_ids(a) by {}
        assert forall|j: int| 0 <= j < self.offer_seq().len() implies (#[trigger] self.offer_seq()[j]).id == j + 1 by {
            assert(pre.offer_seq()[j].id == j + 1);
        }
    }

    /// The holder `caller` withdraws the offer `id`: the escrowed unit is sent
    /// back and the offer becomes `Deleted`.
    pub fn delete_offer(&mut self, caller: Address, id: u64) -> (r: Result<Receipt, MiddlemanError>)
        requires
            old(self).wf(),
        ensures
            final(self).wf(),
            r is Ok <==> old(self).delete_check(caller, id) is Ok,
            Self::delete_step(*old(self), *final(self), caller, id, r),
    {
        let n: u64 = self.offers.len() as u64;
        if id == 0 || id > n {
            return Err(MiddlemanError::NotFound);
        }
        let i: usize = (id - 1) as usize;
        if self.offers[i].nft_holder != caller {
            return Err(MiddlemanError::Unauthorized);
        }
        if self.offers[i].status != Status::Submitted {
            return Err(MiddlemanError::InvalidState);
        }
        let token_id = self.offers[i].token_id.clone();
        let nonce = self.offers[i].nonce;
        let mut transfers: Vec<Transfer> = Vec::new();
        transfers.push(Transfer::Token { to: caller, token_id, nonce, amount: 1 });
        self.set_status(id, Status::Deleted);
        Ok(Receipt { id, transfers })
    }

    /// The spender `caller` takes the offer `id`, paying `payment_amount` of
    /// the asset `payment_token`: the holder is paid the amount less a fee of
    /// two percent (rounded down, the rest stays with the registry), the
    /// escrowed unit goes to the caller, and the offer becomes `Completed`.
    pub fn accept_offer(
        &mut self,
        caller: Address,
        payment_token: &Vec<u8>,
        payment_amount: u128,
        id: u64,
    ) -> (r: Result<Receipt, MiddlemanError>)
        requires
            old(self).wf(),
        ensures
            final(self).wf(),
            r is Ok <==> old(self).accept_check(caller, payment_token@, payment_amount, id) is Ok,
            Self::accept_step(*old(self), *final(self), caller, payment_token@, payment_amount, id, r),
    {
        let n: u64 = self.offers.len() as u64;
        if id == 0 || id > n {
            return Err(MiddlemanError::NotFound);
        }
        let i: usize = (id - 1) as usize;
        if self.offers[i].spender != caller {
            return Err(MiddlemanError::Unauthorized);
        }
        if !is_native_token(payment_token) {
            return Err(MiddlemanError::PaymentMismatch);
        }
        if self.offers[i].status != Status::Submitted {
            return Err(MiddlemanError::InvalidState);
        }
        if payment_amount != self.offers[i].amount {
            return Err(MiddlemanError::PaymentMismatch);
        }
        let payout = holder_payout(payment_amount);
        let token_id = self.offers[i].token_id.clone();
        let nonce = self.offers[i].nonce;
        let holder = self.offers[i].nft_holder;
        let mut transfers: Vec<Transfer> = Vec::new();
        transfers.push(Transfer::Native { to: holder, amount: payout, notice: Notice::OfferAccepted });
        transfers.push(Transfer::Token { to: caller, token_id, nonce, amount: 1 });
        self.set_status(id, Status::Completed);
        Ok(Receipt { id, transfers })
    }

    /// The administrator sweeps the registry's whole native balance,
    /// `balance`, to themselves.
    pub fn withdraw_balance(&self, caller: Address, balance: u128) -> (r: Result<Transfer, MiddlemanError>)
        ensures
            caller != self.admin() ==> r == Err::<Transfer, MiddlemanError>(MiddlemanError::Unauthorized),
            caller == self.admin() ==> r == Ok::<Transfer, MiddlemanError>(
                Transfer::Native { to: caller, amount: balance, notice: Notice::Plain },
            ),
    {
        if caller != self.owner {
            return Err(MiddlemanError::Unauthorized);
        }
        Ok(Transfer::Native { to: caller, amount: balance, notice: Notice::Plain })
    }

    /// Whether the stored offer `id` is `Submitted`.
    pub open spec fn is_submitted(self, id: u64) -> bool {
        self.has_offer(id) && self.offer(id).status == Status::Submitted
    }

    /// Whether the stored offer `id` is `Completed`.
    pub open spec fn is_completed(self, id: u64) -> bool {
        self.has_offer(id) && self.offer(id).status == Status::Completed
    }

    /// The ids of `ids` whose offers are `Submitted`, in the order of `ids`.
    pub open spec fn submitted_among(self, ids: Seq<u64>) -> Seq<u64>
        decreases ids.len(),
    {
        if ids.len() == 0 {
            Seq::empty()
        } else {
            let rest = self.submitted_among(ids.drop_last());
            if self.is_submitted(ids.last()) {
                rest.push(ids.last())
            } else {
                rest
            }
        }
    }

    /// The ids `hi`, `hi - 1`, ..., `lo + 1` whose offers are `Completed`,
    /// highest first.
    pub open spec fn completed_down(self, hi: int, lo: int) -> Seq<u64>
        decreases hi - lo,
    {
        if hi <= lo {
            Seq::empty()
        } else {
            let head: Seq<u64> = if self.is_completed(hi as u64) {
                seq![hi as u64]
            } else {
                Seq::empty()
            };
            head + self.completed_down(hi - 1, lo)
        }
    }

    /// Scanning one id further down appends it when it is `Completed`.
    proof fn lemma_completed_down_extend(self, hi: int, lo: int)
        requires
            lo <= hi,
        ensures
            self.completed_down(hi, lo - 1) == self.completed_down(hi, lo) + if self.is_completed(
                lo as u64,
            ) {
                seq![lo as u64]
            } else {
                Seq::<u64>::empty()
            },
        decreases hi - lo,
    {
        if hi > lo {
            self.lemma_completed_down_extend(hi - 1, lo);
            let head: Seq<u64> = if self.is_completed(hi as u64) {
                seq![hi as u64]
            } else {
                Seq::empty()
            };
            let tail: Seq<u64> = if self.is_completed(lo as u64) {
                seq![lo as u64]
            } else {
                Seq::empty()
            };
            assert(head + (self.completed_down(hi - 1, lo) + tail) =~= (head + self.completed_down(hi - 1, lo))
                + tail);
        } else {
            assert(self.completed_down(hi, lo) =~= Seq::<u64>::empty());
            assert(self.completed_down(hi - 1, lo - 1) =~= Seq::<u64>::empty());
        }
    }

    /// The ids scanned down to `lo` are a prefix of the ids scanned down to 0.
    proof fn lemma_completed_down_prefix(self, hi: int, lo: int)
        requires
            0 <= lo <= hi,
        ensures
            self.completed_down(hi, lo).len() <= self.completed_down(hi, 0).len(),
            self.completed_down(hi, 0).take(self.completed_down(hi, lo).len() as int) == self.completed_down(hi, lo),
        decreases lo,
    {
        if lo > 0 {
            self.lemma_completed_down_extend(hi, lo);
            self.lemma_completed_down_prefix(hi, lo - 1);
            let s = self.completed_down(hi, lo);
            let t = self.completed_down(hi, lo - 1);
            assert(t.take(s.len() as int) =~= s);
            assert(self.completed_down(hi, 0).take(s.len() as int) =~= t.take(s.len() as int));
        } else {
            assert(self.completed_down(hi, 0).take(self.completed_down(hi, 0).len() as int)
                =~= self.completed_down(hi, 0));
        }
    }

    /// The ids of `ids` whose offers are `Submitted`, in order.
    fn submitted_in(&self, ids: &Vec<u64>) -> (r: Vec<u64>)
        requires
            self.wf(),
            index_list_ok(ids@, self.offer_seq().len() as int),
        ensures
            r@ == self.submitted_among(ids@),
            r@.len() <= ids@.len(),
    {
        let mut r: Vec<u64> = Vec::new();
        let mut k: usize = 0;
        let len: usize = self.offers.len();
        while k < ids.len()
            invariant
                self.wf(),
                len == self.offer_seq().len(),
                index_list_ok(ids@, self.offer_seq().len() as int),
                0 <= k <= ids@.len(),
                r@ == self.submitted_among(ids@.take(k as int)),
                r@.len() <= k,
            decreases ids@.len() - k,
        {
            let id = ids[k];
            assert(1 <= ids@[k as int] <= self.offer_seq().len());
            let i: usize = (id - 1) as usize;
            assert(ids@.take(k + 1).drop_last() =~= ids@.take(k as int));
            assert(ids@.take(k + 1).last() == id);
            if self.offers[i].status == Status::Submitted {
                r.push(id);
            }
            k = k + 1;
        }
        assert(ids@.take(k as int) =~= ids@);
        r
    }

    /// The ids of the offers made to `spender` that are still `Submitted`,
    /// oldest first.
    pub fn get_offers_submitted_to(&self, spender: Address) -> (r: Vec<u64>)
        requires
            self.wf(),
        ensures
            r@ == self.submitted_among(self.to_ids(spender)),
    {
        match self.offers_to.get(&spender) {
            Some(ids) => {
                assert(ids@ == self.to_ids(spender));
                assert(index_list_ok(self.to_ids(spender), self.offer_seq().len() as int));
                self.submitted_in(ids)
            },
            None => Vec::new(),
        }
    }

    /// The ids of the offers that `holder` made that are still `Submitted`,
    /// oldest first.
    pub fn get_offers_submitted_from(&self, holder: Address) -> (r: Vec<u64>)
        requires
            self.wf(),
        ensures
            r@ == self.submitted_among(self.from_ids(holder)),
    {
        match self.offers_from.get(&holder) {
            Some(ids) => {
                assert(ids@ == self.from_ids(holder));
                assert(index_list_ok(self.from_ids(holder), self.offer_seq().len() as int));
                self.submitted_in(ids)
            },
            None => Vec::new(),
        }
    }

    /// How many `Submitted` offers `party` takes part in: those made to it,
    /// plus those it made (an offer to oneself counts twice).
    pub fn get_nb_submitted_for(&self, party: Address) -> (r: u64)
        requires
            self.wf(),
            2 * self.offer_seq().len() <= u64::MAX,
        ensures
            r == self.submitted_among(self.to_ids(party)).len() + self.submitted_among(
                self.from_ids(party),
            ).len(),
    {
        let to = self.get_offers_submitted_to(party);
        let from = self.get_offers_submitted_from(party);
        assert(index_list_ok(self.to_ids(party), self.offer_seq().len() as int));
        assert(index_list_ok(self.from_ids(party), self.offer_seq().len() as int));
        proof {
            self.lemma_submitted_among_len(self.to_ids(party));
            self.lemma_submitted_among_len(self.from_ids(party));
        }
        to.len() as u64 + from.len() as u64
    }

    /// Filtering keeps no more ids than it is given.
    proof fn lemma_submitted_among_len(self, ids: Seq<u64>)
        ensures
            self.submitted_among(ids).len() <= ids.len(),
        decreases ids.len(),
    {
        if ids.len() > 0 {
            self.lemma_submitted_among_len(ids.drop_last());
        }
    }

    /// The `Completed` offers, most recent first, at most `limit` of them.
    pub fn get_last_completed_offers(&self, limit: u64) -> (r: Vec<u64>)
        requires
            self.wf(),
        ensures
            r@ == if self.completed_down(self.offer_seq().len() as int, 0).len() <= limit {
                self.completed_down(self.offer_seq().len() as int, 0)
            } else {
                self.completed_down(self.offer_seq().len() as int, 0).take(limit as int)
            },
    {
        let hi: usize = self.offers.len();
        let mut r: Vec<u64> = Vec::new();
        let mut k: usize = hi;
        assert(r@ =~= self.completed_down(hi as int, hi as int));
        while k > 0 && (r.len() as u64) < limit
            invariant
                self.wf(),
                hi == self.offer_seq().len(),
                0 <= k <= hi,
                r@ == self.completed_down(hi as int, k as int),
                r@.len() <= hi - k,
                r@.len() <= limit,
            decreases k,
        {
            proof {
                self.lemma_completed_down_extend(hi as int, k as int);
            }
            if self.offers[k - 1].status == Status::Completed {
                assert(self.offers@[k - 1].id == k);
                r.push(k as u64);
            }
            k = k - 1;
        }
        proof {
            self.lemma_completed_down_prefix(hi as int, k as int);
            if k > 0 {
                assert(r@.len() == limit);
            } else {
                assert(r@ == self.completed_down(hi as int, 0));
            }
        }
        r
    }

    /// The offer with this id, if one is stored.
    pub fn offer_with_id(&self, id: u64) -> (r: Option<&Offer>)
        requires
            self.wf(),
        ensures
            r is Some <==> self.has_offer(id),
            r is Some ==> *r->Some_0 == self.offer(id),
    {
        let n: u64 = self.offers.len() as u64;
        if id == 0 || id > n {
            None
        } else {
            Some(&self.offers[(id - 1) as usize])
        }
    }

    /// The ids of all offers made to `spender`, whatever their status, oldest first.
    pub fn offers_to(&self, spender: Address) -> (r: Vec<u64>)
        ensures
            r@ == self.to_ids(spender),
    {
        match self.offers_to.get(&spender) {
            Some(ids) => {
                let r = ids.clone();
                assert(r@ =~= ids@);
                r
            },
            None => Vec::new(),
        }
    }

    /// The ids of all offers that `holder` made, whatever their status, oldest first.
    pub fn offers_from(&self, holder: Address) -> (r: Vec<u64>)
        ensures
            r@ == self.from_ids(holder),
    {
        match self.offers_from.get(&holder) {
            Some(ids) => {
                let r = ids.clone();
                assert(r@ =~= ids@);
                r
            },
            None => Vec::new(),
        }
    }
}

} // verus!
