//! Properties of the registry that span several calls, proved from the
//! operations' contracts.
use vstd::prelude::*;
use crate::middleman::{Middleman, bootstrapped};
use crate::types::{
    Address, MiddlemanError, Notice, Receipt, Status, is_native_transfer, is_token_transfer,
    native_token_id, payout_of,
};

verus! {

/// Bootstrap sets an unset counter to 1, and a second bootstrap changes nothing.
pub proof fn lemma_bootstrap_idempotent(count: u64)
    ensures
        bootstrapped(0) == 1,
        bootstrapped(bootstrapped(count)) == bootstrapped(count),
{
}

/// Ids are issued one after another: a creation right after bootstrap gets id 1,
/// and each creation gets the id after the one before it.
pub proof fn lemma_ids_consecutive(
    s0: Middleman,
    s1: Middleman,
    s2: Middleman,
    c1: Address,
    t1: Seq<u8>,
    n1: u64,
    p1: Address,
    a1: u128,
    r1: Result<Receipt, MiddlemanError>,
    c2: Address,
    t2: Seq<u8>,
    n2: u64,
    p2: Address,
    a2: u128,
    r2: Result<Receipt, MiddlemanError>,
)
    requires
        Middleman::create_step(s0, s1, c1, t1, n1, p1, a1, r1),
        Middleman::create_step(s1, s2, c2, t2, n2, p2, a2, r2),
    ensures
        r1 is Ok && r2 is Ok,
        r2->Ok_0.id == r1->Ok_0.id + 1,
        s0.next_id() == bootstrapped(0) ==> r1->Ok_0.id == 1,
{
}

/// A `Completed` or `Deleted` offer can be neither withdrawn nor accepted, by
/// anyone, whatever is paid.
pub proof fn lemma_final_status_refuses(
    s: Middleman,
    id: u64,
    caller: Address,
    payment_token: Seq<u8>,
    payment_amount: u128,
)
    requires
        s.has_offer(id),
        s.offer(id).status == Status::Completed || s.offer(id).status == Status::Deleted,
    ensures
        s.delete_check(caller, id) is Err,
        s.accept_check(caller, payment_token, payment_amount, id) is Err,
{
}

/// A `Completed` or `Deleted` offer keeps its status through every creation,
/// withdrawal and acceptance.
pub proof fn lemma_final_status_kept(
    s0: Middleman,
    id: u64,
    create_post: Middleman,
    c: Address,
    t: Seq<u8>,
    n: u64,
    p: Address,
    a: u128,
    rc: Result<Receipt, MiddlemanError>,
    delete_post: Middleman,
    d_caller: Address,
    d_id: u64,
    rd: Result<Receipt, MiddlemanError>,
    accept_post: Middleman,
    x_caller: Address,
    x_token: Seq<u8>,
    x_amount: u128,
    x_id: u64,
    rx: Result<Receipt, MiddlemanError>,
)
    requires
        s0.has_offer(id),
        s0.offer(id).status == Status::Completed || s0.offer(id).status == Status::Deleted,
        Middleman::create_step(s0, create_post, c, t, n, p, a, rc),
        Middleman::delete_step(s0, delete_post, d_caller, d_id, rd),
        Middleman::accept_step(s0, accept_post, x_caller, x_token, x_amount, x_id, rx),
    ensures
        create_post.has_offer(id) && create_post.offer(id) == s0.offer(id),
        delete_post.has_offer(id) && delete_post.offer(id) == s0.offer(id),
        accept_post.has_offer(id) && accept_post.offer(id) == s0.offer(id),
{
    assert(create_post.offer_seq().drop_last()[id - 1] == create_post.offer_seq()[id - 1]);
}

/// Only the holder may withdraw an offer, and only the spender may accept it.
pub proof fn lemma_authorization(
    s: Middleman,
    id: u64,
    caller: Address,
    payment_token: Seq<u8>,
    payment_amount: u128,
)
    requires
        s.has_offer(id),
    ensures
        caller != s.offer(id).nft_holder ==> s.delete_check(caller, id) == Err::<(), MiddlemanError>(
            MiddlemanError::Unauthorized,
        ),
        caller != s.offer(id).spender ==> s.accept_check(caller, payment_token, payment_amount, id)
            == Err::<(), MiddlemanError>(MiddlemanError::Unauthorized),
{
}

/// Create, then withdraw as the holder: the escrowed unit goes back to the
/// holder, the offer is `Deleted`, and a second withdrawal is refused.
pub proof fn lemma_create_delete_round_trip(
    s0: Middleman,
    s1: Middleman,
    s2: Middleman,
    s3: Middleman,
    holder: Address,
    token: Seq<u8>,
    nonce: u64,
    spender: Address,
    amount: u128,
    r1: Result<Receipt, MiddlemanError>,
    r2: Result<Receipt, MiddlemanError>,
    r3: Result<Receipt, MiddlemanError>,
)
    requires
        s0.wf(),
        s0.next_id() != 0,
        Middleman::create_step(s0, s1, holder, token, nonce, spender, amount, r1),
        Middleman::delete_step(s1, s2, holder, r1->Ok_0.id, r2),
        Middleman::delete_step(s2, s3, holder, r1->Ok_0.id, r3),
    ensures
        r2 is Ok,
        r2->Ok_0.transfers@.len() == 1,
        is_token_transfer(r2->Ok_0.transfers@[0], holder, token, nonce, 1),
        s2.offer(r1->Ok_0.id).status == Status::Deleted,
        r3 == Err::<Receipt, MiddlemanError>(MiddlemanError::InvalidState),
{
    let id = r1->Ok_0.id;
    assert(s2.offer_seq()[id - 1] == s1.offer_seq().update(id - 1, s2.offer_seq()[id - 1])[id - 1]);
}

/// Create, then accept as the spender paying the agreed amount of the native
/// asset: the holder is paid the amount less the fee, the spender gets the
/// escrowed unit, and the offer is `Completed`.
pub proof fn lemma_create_accept_round_trip(
    s0: Middleman,
    s1: Middleman,
    s2: Middleman,
    holder: Address,
    token: Seq<u8>,
    nonce: u64,
    spender: Address,
    amount: u128,
    r1: Result<Receipt, MiddlemanError>,
    r2: Result<Receipt, MiddlemanError>,
)
    requires
        s0.wf(),
        s0.next_id() != 0,
        Middleman::create_step(s0, s1, holder, token, nonce, spender, amount, r1),
        Middleman::accept_step(s1, s2, spender, native_token_id(), amount, r1->Ok_0.id, r2),
    ensures
        r2 is Ok,
        r2->Ok_0.transfers@.len() == 2,
        is_native_transfer(
            r2->Ok_0.transfers@[0],
            holder,
            payout_of(amount as int) as u128,
            Notice::OfferAccepted,
        ),
        is_token_transfer(r2->Ok_0.transfers@[1], spender, token, nonce, 1),
        s2.offer(r1->Ok_0.id).status == Status::Completed,
{
}

/// Filtering by status reads only the offers named: where those are the same
/// in two states, so is the result.
proof fn lemma_submitted_among_same_offers(s0: Middleman, s1: Middleman, ids: Seq<u64>)
    requires
        forall|k: int| 0 <= k < ids.len() ==> #[trigger] s0.has_offer(ids[k]),
        forall|k: int| 0 <= k < ids.len() ==> #[trigger] s1.has_offer(ids[k]) && s1.offer(ids[k]) == s0.offer(ids[k]),
    ensures
        s1.submitted_among(ids) == s0.submitted_among(ids),
    decreases ids.len(),
{
    if ids.len() > 0 {
        let rest = ids.drop_last();
        assert forall|k: int| 0 <= k < rest.len() implies #[trigger] s0.has_offer(rest[k]) by {
            assert(rest[k] == ids[k]);
        }
        assert forall|k: int| 0 <= k < rest.len() implies #[trigger] s1.has_offer(rest[k]) && s1.offer(rest[k]) == s0.offer(rest[k]) by {
            assert(rest[k] == ids[k]);
        }
        lemma_submitted_among_same_offers(s0, s1, rest);
        assert(s1.has_offer(ids[ids.len() - 1]));
    }
}

/// An offer that is not `Submitted` is left out by the filter.
proof fn lemma_submitted_among_excludes(s: Middleman, ids: Seq<u64>, id: u64)
    requires
        !s.is_submitted(id),
    ensures
        !s.submitted_among(ids).contains(id),
    decreases ids.len(),
{
    if ids.len() > 0 {
        lemma_submitted_among_excludes(s, ids.drop_last(), id);
        let rest = s.submitted_among(ids.drop_last());
        if s.is_submitted(ids.last()) {
            assert forall|k: int| 0 <= k < rest.push(ids.last()).len() implies rest.push(ids.last())[k] != id by {
                if k < rest.len() {
                    assert(rest.push(ids.last())[k] == rest[k]);
                }
            }
        }
    }
}

/// A new offer is listed among the spender's `Submitted` offers, after those
/// listed before; once it is accepted it is no longer, though the index still
/// holds its id.
pub proof fn lemma_submitted_to_tracks_lifecycle(
    s0: Middleman,
    s1: Middleman,
    s2: Middleman,
    holder: Address,
    token: Seq<u8>,
    nonce: u64,
    spender: Address,
    amount: u128,
    r1: Result<Receipt, MiddlemanError>,
    r2: Result<Receipt, MiddlemanError>,
)
    requires
        s0.wf(),
        s0.next_id() != 0,
        Middleman::create_step(s0, s1, holder, token, nonce, spender, amount, r1),
        Middleman::accept_step(s1, s2, spender, native_token_id(), amount, r1->Ok_0.id, r2),
    ensures
        s1.submitted_among(s1.to_ids(spender)) == s0.submitted_among(s0.to_ids(spender)).push(
            r1->Ok_0.id,
        ),
        s2.to_ids(spender).contains(r1->Ok_0.id),
        !s2.submitted_among(s2.to_ids(spender)).contains(r1->Ok_0.id),
{
    let id = r1->Ok_0.id;
    let before = s0.to_ids(spender);
    let after = s1.to_ids(spender);
    assert(after.drop_last() =~= before);
    assert forall|k: int| 0 <= k < before.len() implies #[trigger] s0.has_offer(before[k]) by {
        assert(1 <= before[k] <= s0.offer_seq().len());
    }
    assert forall|k: int| 0 <= k < before.len() implies #[trigger] s1.has_offer(before[k]) && s1.offer(before[k]) == s0.offer(before[k]) by {
        assert(1 <= before[k] <= s0.offer_seq().len());
        assert(s1.offer_seq().drop_last()[before[k] - 1] == s1.offer_seq()[before[k] - 1]);
    }
    lemma_submitted_among_same_offers(s0, s1, before);
    assert(s2.to_ids(spender)[after.len() - 1] == id);
    lemma_submitted_among_excludes(s2, s2.to_ids(spender), id);
}

} // verus!
