use middleman::{
    holder_payout, is_native_token, Middleman, MiddlemanError, Notice, Offer, Receipt, Status,
    Transfer,
};

const OWNER: u64 = 1;
const HOLDER: u64 = 10;
const SPENDER: u64 = 20;
const OTHER: u64 = 30;

fn native() -> Vec<u8> {
    b"EGLD".to_vec()
}

fn nft() -> Vec<u8> {
    b"NFT-abcdef".to_vec()
}

fn started() -> Middleman {
    let mut m = Middleman::new(OWNER);
    m.init();
    m
}

fn create(m: &mut Middleman, holder: u64, spender: u64, amount: u128) -> u64 {
    m.create_offer(holder, nft(), 7, spender, amount).unwrap().id
}

#[test]
fn bootstrap_sets_counter_once() {
    let mut m = Middleman::new(OWNER);
    assert_eq!(m.offers_count(), 0);
    m.init();
    assert_eq!(m.offers_count(), 1);
    m.init();
    assert_eq!(m.offers_count(), 1);
    create(&mut m, HOLDER, SPENDER, 5);
    m.init();
    assert_eq!(m.offers_count(), 2);
}

#[test]
fn ids_rise_by_one_from_one() {
    let mut m = started();
    for expected in 1..=5u64 {
        assert_eq!(create(&mut m, HOLDER, SPENDER, 10), expected);
        assert_eq!(m.offers_count(), expected + 1);
    }
}

#[test]
fn create_records_offer_and_notifies_spender() {
    let mut m = started();
    let r = m.create_offer(HOLDER, nft(), 7, SPENDER, 500).unwrap();
    assert_eq!(
        r,
        Receipt {
            id: 1,
            transfers: vec![Transfer::Native { to: SPENDER, amount: 1, notice: Notice::NewOffer }],
        }
    );
    assert_eq!(
        m.offer_with_id(1),
        Some(&Offer {
            id: 1,
            spender: SPENDER,
            nft_holder: HOLDER,
            amount: 500,
            token_id: nft(),
            nonce: 7,
            status: Status::Submitted,
        })
    );
    assert_eq!(m.offers_from(HOLDER), vec![1]);
    assert_eq!(m.offers_to(SPENDER), vec![1]);
    assert_eq!(m.offers_to(HOLDER), Vec::<u64>::new());
}

#[test]
fn zero_amount_is_accepted() {
    let mut m = started();
    assert!(m.create_offer(HOLDER, nft(), 7, SPENDER, 0).is_ok());
    let r = m.accept_offer(SPENDER, &native(), 0, 1).unwrap();
    assert_eq!(r.transfers[0], Transfer::Native { to: HOLDER, amount: 0, notice: Notice::OfferAccepted });
}

#[test]
fn finished_offer_cannot_be_deleted_or_accepted() {
    let mut m = started();
    let a = create(&mut m, HOLDER, SPENDER, 100);
    let b = create(&mut m, HOLDER, SPENDER, 100);
    m.accept_offer(SPENDER, &native(), 100, a).unwrap();
    m.delete_offer(HOLDER, b).unwrap();
    for id in [a, b] {
        assert_eq!(m.delete_offer(HOLDER, id), Err(MiddlemanError::InvalidState));
        assert_eq!(m.accept_offer(SPENDER, &native(), 100, id), Err(MiddlemanError::InvalidState));
    }
    assert_eq!(m.offer_with_id(a).unwrap().status, Status::Completed);
    assert_eq!(m.offer_with_id(b).unwrap().status, Status::Deleted);
}

#[test]
fn only_holder_deletes_and_only_spender_accepts() {
    let mut m = started();
    let id = create(&mut m, HOLDER, SPENDER, 100);
    assert_eq!(m.delete_offer(SPENDER, id), Err(MiddlemanError::Unauthorized));
    assert_eq!(m.delete_offer(OTHER, id), Err(MiddlemanError::Unauthorized));
    assert_eq!(m.accept_offer(HOLDER, &native(), 100, id), Err(MiddlemanError::Unauthorized));
    assert_eq!(m.accept_offer(OTHER, &native(), 100, id), Err(MiddlemanError::Unauthorized));
    assert_eq!(m.offer_with_id(id).unwrap().status, Status::Submitted);
}

#[test]
fn unauthorized_comes_before_state() {
    let mut m = started();
    let id = create(&mut m, HOLDER, SPENDER, 100);
    m.delete_offer(HOLDER, id).unwrap();
    assert_eq!(m.delete_offer(OTHER, id), Err(MiddlemanError::Unauthorized));
    assert_eq!(m.accept_offer(OTHER, &native(), 100, id), Err(MiddlemanError::Unauthorized));
}

#[test]
fn fee_is_two_percent_rounded_down() {
    assert_eq!(holder_payout(100), 98);
    assert_eq!(holder_payout(99), 97);
    assert_eq!(holder_payout(0), 0);
    assert_eq!(holder_payout(1), 0);
    assert_eq!(holder_payout(51), 49);
    assert_eq!(holder_payout(u128::MAX), u128::MAX / 100 * 98 + (u128::MAX % 100) * 98 / 100);
}

#[test]
fn accept_pays_holder_amount_less_fee() {
    let mut m = started();
    let a = create(&mut m, HOLDER, SPENDER, 100);
    let b = create(&mut m, HOLDER, SPENDER, 99);
    let ra = m.accept_offer(SPENDER, &native(), 100, a).unwrap();
    assert_eq!(ra.transfers[0], Transfer::Native { to: HOLDER, amount: 98, notice: Notice::OfferAccepted });
    let rb = m.accept_offer(SPENDER, &native(), 99, b).unwrap();
    assert_eq!(rb.transfers[0], Transfer::Native { to: HOLDER, amount: 97, notice: Notice::OfferAccepted });
}

#[test]
fn create_then_delete_round_trip() {
    let mut m = started();
    let id = m.create_offer(HOLDER, nft(), 42, SPENDER, 1_000).unwrap().id;
    let r = m.delete_offer(HOLDER, id).unwrap();
    assert_eq!(
        r,
        Receipt {
            id,
            transfers: vec![Transfer::Token { to: HOLDER, token_id: nft(), nonce: 42, amount: 1 }],
        }
    );
    assert_eq!(m.offer_with_id(id).unwrap().status, Status::Deleted);
    assert_eq!(m.delete_offer(HOLDER, id), Err(MiddlemanError::InvalidState));
}

#[test]
fn create_then_accept_round_trip() {
    let mut m = started();
    let id = m.create_offer(HOLDER, nft(), 42, SPENDER, 1_000).unwrap().id;
    let r = m.accept_offer(SPENDER, &native(), 1_000, id).unwrap();
    assert_eq!(
        r,
        Receipt {
            id,
            transfers: vec![
                Transfer::Native { to: HOLDER, amount: 980, notice: Notice::OfferAccepted },
                Transfer::Token { to: SPENDER, token_id: nft(), nonce: 42, amount: 1 },
            ],
        }
    );
    assert_eq!(m.offer_with_id(id).unwrap().status, Status::Completed);
}

#[test]
fn accept_refuses_wrong_payment() {
    let mut m = started();
    let id = create(&mut m, HOLDER, SPENDER, 100);
    assert_eq!(m.accept_offer(SPENDER, &nft(), 100, id), Err(MiddlemanError::PaymentMismatch));
    assert_eq!(m.accept_offer(SPENDER, &native(), 99, id), Err(MiddlemanError::PaymentMismatch));
    assert_eq!(m.accept_offer(SPENDER, &native(), 101, id), Err(MiddlemanError::PaymentMismatch));
    assert_eq!(m.offer_with_id(id).unwrap().status, Status::Submitted);
    assert!(m.accept_offer(SPENDER, &native(), 100, id).is_ok());
}

#[test]
fn unknown_id_is_not_found() {
    let mut m = started();
    create(&mut m, HOLDER, SPENDER, 100);
    assert_eq!(m.delete_offer(HOLDER, 0), Err(MiddlemanError::NotFound));
    assert_eq!(m.delete_offer(HOLDER, 2), Err(MiddlemanError::NotFound));
    assert_eq!(m.accept_offer(SPENDER, &native(), 100, 0), Err(MiddlemanError::NotFound));
    assert_eq!(m.accept_offer(SPENDER, &native(), 100, 9), Err(MiddlemanError::NotFound));
    assert!(m.offer_with_id(0).is_none());
    assert!(m.offer_with_id(2).is_none());
}

#[test]
fn submitted_to_follows_status() {
    let mut m = started();
    let id = create(&mut m, HOLDER, SPENDER, 100);
    assert_eq!(m.get_offers_submitted_to(SPENDER), vec![id]);
    m.accept_offer(SPENDER, &native(), 100, id).unwrap();
    assert_eq!(m.get_offers_submitted_to(SPENDER), Vec::<u64>::new());
    assert_eq!(m.offers_to(SPENDER), vec![id]);
}

#[test]
fn submitted_from_and_counts() {
    let mut m = started();
    let a = create(&mut m, HOLDER, SPENDER, 100);
    let b = create(&mut m, SPENDER, HOLDER, 100);
    let c = create(&mut m, HOLDER, OTHER, 100);
    let d = create(&mut m, HOLDER, HOLDER, 100);
    assert_eq!(m.get_offers_submitted_from(HOLDER), vec![a, c, d]);
    assert_eq!(m.get_offers_submitted_to(HOLDER), vec![b, d]);
    assert_eq!(m.get_nb_submitted_for(HOLDER), 5);
    assert_eq!(m.get_nb_submitted_for(SPENDER), 2);
    m.delete_offer(HOLDER, c).unwrap();
    m.accept_offer(HOLDER, &native(), 100, b).unwrap();
    assert_eq!(m.get_offers_submitted_from(HOLDER), vec![a, d]);
    assert_eq!(m.get_offers_submitted_to(HOLDER), vec![d]);
    assert_eq!(m.get_nb_submitted_for(HOLDER), 3);
    assert_eq!(m.get_nb_submitted_for(SPENDER), 1);
    assert_eq!(m.get_nb_submitted_for(OTHER), 0);
    assert_eq!(m.offers_from(HOLDER), vec![a, c, d]);
}

#[test]
fn last_completed_most_recent_first() {
    let mut m = started();
    for _ in 0..8 {
        create(&mut m, HOLDER, SPENDER, 10);
    }
    for id in [3u64, 5, 7] {
        m.accept_offer(SPENDER, &native(), 10, id).unwrap();
    }
    m.delete_offer(HOLDER, 8).unwrap();
    assert_eq!(m.get_last_completed_offers(2), vec![7, 5]);
    assert_eq!(m.get_last_completed_offers(3), vec![7, 5, 3]);
    assert_eq!(m.get_last_completed_offers(10), vec![7, 5, 3]);
    assert_eq!(m.get_last_completed_offers(0), Vec::<u64>::new());
}

#[test]
fn last_completed_on_empty_storage() {
    let m = Middleman::new(OWNER);
    assert_eq!(m.get_last_completed_offers(5), Vec::<u64>::new());
    let m = started();
    assert_eq!(m.get_last_completed_offers(5), Vec::<u64>::new());
}

#[test]
fn withdraw_is_for_the_administrator() {
    let m = started();
    assert_eq!(m.withdraw_balance(HOLDER, 50), Err(MiddlemanError::Unauthorized));
    assert_eq!(
        m.withdraw_balance(OWNER, 50),
        Ok(Transfer::Native { to: OWNER, amount: 50, notice: Notice::Plain })
    );
}

#[test]
fn native_token_is_recognised() {
    assert!(is_native_token(&native()));
    assert!(!is_native_token(&b"EGL".to_vec()));
    assert!(!is_native_token(&b"EGLX".to_vec()));
    assert!(!is_native_token(&b"EGLD-123456".to_vec()));
    assert!(!is_native_token(&Vec::new()));
}
