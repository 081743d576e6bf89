use vstd::prelude::*;

verus! {

/// An account of the host ledger, identified by its account number.
pub type Address = u64;

/// Where an offer stands in its lifecycle. `Completed` and `Deleted` are final.
#[derive(PartialEq, Eq, Structural, Clone, Copy, Debug)]
pub enum Status {
    Submitted,
    Completed,
    Deleted,
}

/// One bilateral exchange: one unit of the token instance `(token_id, nonce)`,
/// held in escrow, against `amount` of the native asset paid by `spender`.
#[derive(PartialEq, Eq, Debug)]
pub struct Offer {
    pub id: u64,
    pub spender: Address,
    pub nft_holder: Address,
    pub amount: u128,
    pub token_id: Vec<u8>,
    pub nonce: u64,
    pub status: Status,
}

/// Why an operation was refused. A refused operation changes nothing.
#[derive(PartialEq, Eq, Structural, Clone, Copy, Debug)]
pub enum MiddlemanError {
    /// The caller is not the holder, spender or administrator that the operation needs.
    Unauthorized,
    /// The offer is no longer `Submitted`.
    InvalidState,
    /// The attached payment is not the native asset, or not the exact amount.
    PaymentMismatch,
    /// No offer has this id.
    NotFound,
}

/// The message that goes with a native-asset transfer.
#[derive(PartialEq, Eq, Structural, Clone, Copy, Debug)]
pub enum Notice {
    /// No message.
    Plain,
    /// Tells the spender that an offer was made to them.
    NewOffer,
    /// Tells the holder that their offer was accepted.
    OfferAccepted,
}

/// A transfer from the registry's own account that the host must carry out.
#[derive(PartialEq, Eq, Debug)]
pub enum Transfer {
    /// `amount` of the native asset to `to`, with a message.
    Native { to: Address, amount: u128, notice: Notice },
    /// `amount` units of the token instance `(token_id, nonce)` to `to`.
    Token { to: Address, token_id: Vec<u8>, nonce: u64, amount: u128 },
}

/// What a successful lifecycle operation returns: the offer's id and the
/// transfers to carry out, in order.
#[derive(PartialEq, Eq, Debug)]
pub struct Receipt {
    pub id: u64,
    pub transfers: Vec<Transfer>,
}

/// The identifier under which the ledger's native asset is attached to a call.
pub open spec fn native_token_id() -> Seq<u8> {
    seq![0x45u8, 0x47u8, 0x4cu8, 0x44u8]
}

/// What the holder receives when an offer of `amount` is accepted: the amount
/// less a fee of two percent, rounded down.
pub open spec fn payout_of(amount: int) -> int {
    amount * 98 / 100
}

/// `t` moves `amount` of the native asset to `to` with `notice`.
pub open spec fn is_native_transfer(t: Transfer, to: Address, amount: u128, notice: Notice) -> bool {
    t == Transfer::Native { to, amount, notice }
}

/// `t` moves `amount` units of the token instance `(token, nonce)` to `to`.
pub open spec fn is_token_transfer(t: Transfer, to: Address, token: Seq<u8>, nonce: u64, amount: u128) -> bool {
    match t {
        Transfer::Token { to: t_to, token_id, nonce: t_nonce, amount: t_amount } => {
            &&& t_to == to
            &&& token_id@ == token
            &&& t_nonce == nonce
            &&& t_amount == amount
        },
        Transfer::Native { .. } => false,
    }
}

/// Whether `token_id` names the ledger's native asset.
pub fn is_native_token(token_id: &Vec<u8>) -> (r: bool)
    ensures
        r == (token_id@ == native_token_id()),
{
    let native: [u8; 4] = [0x45u8, 0x47u8, 0x4cu8, 0x44u8];
    if token_id.len() != 4 {
        return false;
    }
    let mut i: usize = 0;
    while i < 4
        invariant
            token_id@.len() == 4,
            native@ == native_token_id(),
            0 <= i <= 4,
            forall|k: int| 0 <= k < i ==> token_id@[k] == native_token_id()[k],
        decreases 4 - i,
    {
        if token_id[i] != native[i] {
            return false;
        }
        i = i + 1;
    }
    assert(token_id@ =~= native_token_id());
    true
}

/// The holder's share of an accepted payment of `amount`, computed without
/// intermediate overflow.
pub fn holder_payout(amount: u128) -> (r: u128)
    ensures
        r as int == payout_of(amount as int),
        r <= amount,
{
    let q: u128 = amount / 100;
    let m: u128 = amount % 100;
    proof {
        let a = amount as int;
        let qi = q as int;
        let mi = m as int;
        assert(a == 100 * qi + mi && 0 <= mi < 100) by (nonlinear_arith)
            requires qi == a / 100, mi == a % 100, a >= 0;
        assert((a * 98) / 100 == 98 * qi + (mi * 98) / 100) by (nonlinear_arith)
            requires a == 100 * qi + mi, 0 <= mi < 100, qi >= 0;
        assert(98 * qi + (mi * 98) / 100 <= a) by (nonlinear_arith)
            requires a == 100 * qi + mi, 0 <= mi < 100, qi >= 0;
    }
    q * 98 + m * 98 / 100
}

} // verus!
