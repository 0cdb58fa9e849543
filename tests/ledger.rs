use kickstart::balances::{BalanceError, Balances};
use kickstart::campaign::{CampaignStatus, Error, Event, Module, MAX_CAMPAIGNS_PER_BLOCK};
use kickstart::mint::mint_campaign_id;

const OWNER: u64 = 1;
const B: u64 = 2;
const C: u64 = 3;
const ID: u64 = 77;

fn funded_bank() -> Balances {
    let mut bank = Balances::new();
    bank.set_free_balance(OWNER, 1000).unwrap();
    bank.set_free_balance(B, 1000).unwrap();
    bank.set_free_balance(C, 1000).unwrap();
    bank
}

fn opened(height: u64) -> (Module, Balances) {
    let mut m = Module::new(100);
    let mut bank = funded_bank();
    let r = m.create_campaign(&mut bank, OWNER, ID, b"film".to_vec(), 100, 0, height + 10, height);
    assert_eq!(r, Ok(Event::CreateCampaign(OWNER, ID, 100, 0, height + 10)));
    (m, bank)
}

#[test]
fn successful_campaign_pays_owner() {
    let h = 5;
    let (mut m, mut bank) = opened(h);
    assert_eq!(m.invest(&mut bank, B, ID, 60, h + 1), Ok(Event::Invest(ID, B, 60)));
    assert_eq!(m.invest(&mut bank, C, ID, 50, h + 2), Ok(Event::Invest(ID, C, 50)));
    assert_eq!(bank.reserved_balance(B), 60);
    assert_eq!(bank.reserved_balance(C), 50);
    let events = m.on_finalize(&mut bank, h + 10);
    assert_eq!(events, vec![Event::CampaignFinalized(ID, 110, h + 10, true)]);
    assert_eq!(m.campaign_status(ID), Some(CampaignStatus::Succeeded));
    assert_eq!(bank.reserved_balance(B), 0);
    assert_eq!(bank.reserved_balance(C), 0);
    assert_eq!(bank.free_balance(B), 940);
    assert_eq!(bank.free_balance(C), 950);
    assert_eq!(bank.free_balance(OWNER), 1000);
    assert_eq!(bank.reserved_balance(OWNER), 110);
}

#[test]
fn failed_campaign_refunds_investors() {
    let h = 5;
    let (mut m, mut bank) = opened(h);
    m.invest(&mut bank, B, ID, 60, h + 1).unwrap();
    m.invest(&mut bank, C, ID, 30, h + 2).unwrap();
    let events = m.on_finalize(&mut bank, h + 10);
    assert_eq!(events, vec![Event::CampaignFinalized(ID, 90, h + 10, false)]);
    assert_eq!(m.campaign_status(ID), Some(CampaignStatus::Failed));
    assert_eq!(bank.free_balance(B), 1000);
    assert_eq!(bank.free_balance(C), 1000);
    assert_eq!(bank.reserved_balance(B), 0);
    assert_eq!(bank.reserved_balance(C), 0);
    assert_eq!(bank.free_balance(OWNER), 1000);
    assert_eq!(bank.reserved_balance(OWNER), 0);
}

#[test]
fn investing_at_or_after_expiry_is_refused() {
    let h = 5;
    let (mut m, mut bank) = opened(h);
    assert_eq!(m.invest(&mut bank, B, ID, 10, h + 10), Err(Error::CampaignExpired));
    assert_eq!(m.invest(&mut bank, B, ID, 10, h + 50), Err(Error::CampaignExpired));
    // an expired campaign is refused even where the investor could not pay
    assert_eq!(m.invest(&mut bank, B, ID, 5000, h + 11), Err(Error::CampaignExpired));
    assert_eq!(bank.reserved_balance(B), 0);
    assert_eq!(m.total_amount_of_campaign(ID), 0);
}

#[test]
fn owner_cannot_invest_in_own_campaign() {
    let (mut m, mut bank) = opened(0);
    assert_eq!(m.invest(&mut bank, OWNER, ID, 10, 1), Err(Error::OwnerInvestment));
    assert_eq!(bank.free_balance(OWNER), 1000);
    assert_eq!(m.invest_accounts_count(ID), 0);
}

#[test]
fn same_identifier_is_refused_the_second_time() {
    let (mut m, mut bank) = opened(0);
    assert_eq!(m.nonce(), 1);
    let r = m.create_campaign(&mut bank, B, ID, b"again".to_vec(), 50, 0, 5, 0);
    assert_eq!(r, Err(Error::CampaignExists));
    assert_eq!(m.campaign_count(), 1);
    assert_eq!(m.nonce(), 1);
}

#[test]
fn support_above_target_is_refused() {
    let mut m = Module::new(100);
    let mut bank = funded_bank();
    let r = m.create_campaign(&mut bank, OWNER, ID, Vec::new(), 100, 101, 10, 0);
    assert_eq!(r, Err(Error::SupportExceedsTarget));
    let r = m.create_campaign(&mut bank, OWNER, ID, Vec::new(), 100, 100, 10, 0);
    assert!(r.is_ok());
}

#[test]
fn expiry_window_is_enforced() {
    let mut m = Module::new(100);
    let mut bank = funded_bank();
    assert_eq!(m.create_campaign(&mut bank, OWNER, 1, Vec::new(), 10, 0, 20, 20), Err(Error::ExpiryNotInFuture));
    assert_eq!(m.create_campaign(&mut bank, OWNER, 1, Vec::new(), 10, 0, 19, 20), Err(Error::ExpiryNotInFuture));
    assert_eq!(m.create_campaign(&mut bank, OWNER, 1, Vec::new(), 10, 0, 121, 20), Err(Error::ExpiryBeyondLimit));
    assert!(m.create_campaign(&mut bank, OWNER, 1, Vec::new(), 10, 0, 120, 20).is_ok());
    assert!(m.create_campaign(&mut bank, OWNER, 2, Vec::new(), 10, 0, 21, 20).is_ok());
    assert_eq!(m.campaign_period_limit(), 100);
}

#[test]
fn fourth_campaign_at_one_height_is_refused() {
    let mut m = Module::new(100);
    let mut bank = funded_bank();
    for id in 0..MAX_CAMPAIGNS_PER_BLOCK as u64 {
        assert!(m.create_campaign(&mut bank, OWNER, id, Vec::new(), 10, 0, 30, 0).is_ok());
    }
    let r = m.create_campaign(&mut bank, B, 9, Vec::new(), 10, 0, 30, 0);
    assert_eq!(r, Err(Error::TooManyCampaignsAtExpiry));
    assert_eq!(m.campaign_expire_at(30), vec![0, 1, 2]);
    assert!(m.create_campaign(&mut bank, B, 9, Vec::new(), 10, 0, 31, 0).is_ok());
}

#[test]
fn repeat_investments_accumulate_in_one_record() {
    let (mut m, mut bank) = opened(0);
    m.invest(&mut bank, B, ID, 10, 1).unwrap();
    m.invest(&mut bank, B, ID, 15, 2).unwrap();
    m.invest(&mut bank, B, ID, 7, 3).unwrap();
    m.invest(&mut bank, C, ID, 4, 3).unwrap();
    assert_eq!(m.invest_amount_of(ID, B), 32);
    assert_eq!(m.invest_amount_of(ID, C), 4);
    assert_eq!(m.total_amount_of_campaign(ID), 36);
    assert_eq!(bank.reserved_balance(B), 32);
    assert_eq!(bank.free_balance(B), 968);
    // one index entry per distinct campaign
    assert_eq!(m.invested_campaign_count(B), 1);
    assert_eq!(m.invested_campaign_by_index(B, 0), Some(ID));
    assert_eq!(m.invested_campaign_by_index(B, 1), None);
    assert_eq!(m.invested_campaign_index(B, ID), Some(0));
    assert_eq!(m.invest_accounts(ID), vec![B, C]);
    assert_eq!(m.invest_accounts_count(ID), 2);
}

#[test]
fn total_equals_sum_of_records() {
    let (mut m, mut bank) = opened(0);
    m.invest(&mut bank, B, ID, 3, 1).unwrap();
    m.invest(&mut bank, C, ID, 8, 1).unwrap();
    m.invest(&mut bank, B, ID, 5, 2).unwrap();
    let sum: u128 = m.invest_accounts(ID).iter().map(|a| m.invest_amount_of(ID, *a)).sum();
    assert_eq!(sum, 16);
    assert_eq!(m.total_amount_of_campaign(ID), sum);
}

#[test]
fn owner_support_is_escrowed_and_recorded() {
    let mut m = Module::new(100);
    let mut bank = funded_bank();
    let r = m.create_campaign(&mut bank, OWNER, ID, b"x".to_vec(), 100, 40, 10, 0);
    assert_eq!(r, Ok(Event::CreateCampaign(OWNER, ID, 100, 40, 10)));
    assert_eq!(bank.reserved_balance(OWNER), 40);
    assert_eq!(bank.free_balance(OWNER), 960);
    assert_eq!(m.invest_amount_of(ID, OWNER), 40);
    assert_eq!(m.total_amount_of_campaign(ID), 40);
    assert_eq!(m.invested_campaign_count(OWNER), 1);
    m.invest(&mut bank, B, ID, 60, 3).unwrap();
    let events = m.on_finalize(&mut bank, 10);
    assert_eq!(events, vec![Event::CampaignFinalized(ID, 100, 10, true)]);
    // the owner's own support is unreserved, not transferred, then escrowed again with the rest
    assert_eq!(bank.free_balance(OWNER), 960);
    assert_eq!(bank.reserved_balance(OWNER), 100);
    assert_eq!(bank.free_balance(B), 940);
    assert_eq!(bank.reserved_balance(B), 0);
}

#[test]
fn owner_support_beyond_free_balance_is_refused() {
    let mut m = Module::new(100);
    let mut bank = funded_bank();
    let r = m.create_campaign(&mut bank, OWNER, ID, Vec::new(), 5000, 2000, 10, 0);
    assert_eq!(r, Err(Error::InsufficientBalance));
    assert_eq!(m.campaign_exists(ID), false);
    assert_eq!(m.nonce(), 0);
}

#[test]
fn investing_beyond_free_balance_is_refused() {
    let (mut m, mut bank) = opened(0);
    assert_eq!(m.invest(&mut bank, B, ID, 1001, 1), Err(Error::InsufficientBalance));
    assert_eq!(m.invest_accounts_count(ID), 0);
}

#[test]
fn investing_in_unknown_campaign_is_refused() {
    let (mut m, mut bank) = opened(0);
    assert_eq!(m.invest(&mut bank, B, 999, 10, 1), Err(Error::NoSuchCampaign));
}

#[test]
fn total_overflow_is_refused() {
    let (mut m, mut bank) = opened(0);
    bank.set_free_balance(B, u128::MAX).unwrap();
    m.invest(&mut bank, B, ID, 1, 1).unwrap();
    bank.set_free_balance(C, u128::MAX).unwrap();
    assert_eq!(m.invest(&mut bank, C, ID, u128::MAX, 1), Err(Error::Overflow));
    assert_eq!(m.total_amount_of_campaign(ID), 1);
}

#[test]
fn zero_investment_makes_an_investor() {
    let (mut m, mut bank) = opened(0);
    assert_eq!(m.invest(&mut bank, B, ID, 0, 1), Ok(Event::Invest(ID, B, 0)));
    assert_eq!(m.invest_accounts(ID), vec![B]);
    assert_eq!(m.invest_amount_of(ID, B), 0);
}

#[test]
fn finalizing_twice_settles_once() {
    let (mut m, mut bank) = opened(0);
    m.invest(&mut bank, B, ID, 120, 1).unwrap();
    assert_eq!(m.on_finalize(&mut bank, 10).len(), 1);
    assert_eq!(m.on_finalize(&mut bank, 10), vec![]);
    assert_eq!(bank.reserved_balance(OWNER), 120);
    assert_eq!(bank.free_balance(B), 880);
}

#[test]
fn failed_transfer_stops_payout_without_report() {
    let (mut m, mut bank) = opened(0);
    m.invest(&mut bank, B, ID, 100, 1).unwrap();
    // the owner's account is filled up so the transfer cannot be received
    bank.set_free_balance(OWNER, u128::MAX).unwrap();
    let events = m.on_finalize(&mut bank, 10);
    assert_eq!(events, vec![]);
    assert_eq!(m.campaign_status(ID), Some(CampaignStatus::Succeeded));
    assert_eq!(bank.reserved_balance(B), 0);
    assert_eq!(bank.free_balance(B), 1000);
    assert_eq!(bank.reserved_balance(OWNER), 0);
}

#[test]
fn indices_follow_creation_order() {
    let mut m = Module::new(100);
    let mut bank = funded_bank();
    m.create_campaign(&mut bank, OWNER, 10, Vec::new(), 1, 0, 5, 0).unwrap();
    m.create_campaign(&mut bank, B, 11, Vec::new(), 1, 0, 6, 0).unwrap();
    m.create_campaign(&mut bank, OWNER, 12, Vec::new(), 1, 0, 5, 0).unwrap();
    assert_eq!(m.campaign_count(), 3);
    assert_eq!(m.campaign_by_index(1), Some(11));
    assert_eq!(m.campaign_by_index(3), None);
    assert_eq!(m.campaign_index(12), Some(2));
    assert_eq!(m.campaign_index(13), None);
    assert_eq!(m.owned_campaign_count(OWNER), 2);
    assert_eq!(m.campaign_of_owner_by_index(OWNER, 1), Some(12));
    assert_eq!(m.campaign_of_owner_by_index(OWNER, 2), None);
    assert_eq!(m.owned_campaign_index(OWNER, 12), Some(1));
    assert_eq!(m.owned_campaign_index(B, 12), None);
    assert_eq!(m.owner_of_campaign(11), Some(B));
    assert_eq!(m.owner_of_campaign(99), None);
    assert_eq!(m.campaign_expire_at(5), vec![10, 12]);
    let c = m.campaign(11).unwrap();
    assert_eq!(c.campaign_manager, B);
    assert_eq!(c.campaign_expiry, 6);
    assert_eq!(c.campaign_status, CampaignStatus::Raising);
    assert_eq!(m.nonce(), 3);
}

#[test]
fn balance_primitives() {
    let mut bank = Balances::new();
    assert_eq!(bank.free_balance(4), 0);
    bank.set_free_balance(4, 50).unwrap();
    assert_eq!(bank.reserve(4, 60), Err(BalanceError::InsufficientBalance));
    bank.reserve(4, 20).unwrap();
    assert_eq!(bank.free_balance(4), 30);
    assert_eq!(bank.reserved_balance(4), 20);
    assert_eq!(bank.unreserve(4, 25), 5);
    assert_eq!(bank.free_balance(4), 50);
    assert_eq!(bank.reserved_balance(4), 0);
    assert_eq!(bank.transfer(4, 5, 51), Err(BalanceError::InsufficientBalance));
    bank.transfer(4, 5, 20).unwrap();
    assert_eq!(bank.free_balance(4), 30);
    assert_eq!(bank.free_balance(5), 20);
    bank.set_free_balance(6, u128::MAX).unwrap();
    assert_eq!(bank.transfer(4, 6, 1), Err(BalanceError::BalanceTooHigh));
    bank.reserve(5, 10).unwrap();
    assert_eq!(bank.set_free_balance(5, u128::MAX), Err(BalanceError::BalanceTooHigh));
}

#[test]
fn minted_identifiers_match_blake2b_of_the_encoding() {
    assert_eq!(mint_campaign_id(&[0u8; 32], 1, 0), 5088405840869960684);
    assert_eq!(mint_campaign_id(&[0u8; 32], 1, 1), 5288577966001926717);
    assert_eq!(mint_campaign_id(&[7u8; 32], 2, 5), 18170491647966522228);
}

#[test]
fn create_funding_mints_from_seed_sender_and_nonce() {
    let mut m = Module::new(100);
    let mut bank = funded_bank();
    let seed = [0u8; 32];
    let first = m.create_funding(&mut bank, OWNER, &seed, b"a".to_vec(), 100, 0, 10, 0);
    assert_eq!(first, Ok(Event::CreateCampaign(OWNER, 5088405840869960684, 100, 0, 10)));
    // the nonce advanced, so the same seed and sender mint a fresh identifier
    let second = m.create_funding(&mut bank, OWNER, &seed, b"b".to_vec(), 100, 0, 10, 0);
    assert_eq!(second, Ok(Event::CreateCampaign(OWNER, 5288577966001926717, 100, 0, 10)));
    assert_eq!(m.nonce(), 2);
    assert_eq!(m.campaign_by_index(0), Some(5088405840869960684));
}

#[test]
fn same_seed_sender_and_nonce_cannot_create_twice() {
    let mut m = Module::new(100);
    let mut bank = funded_bank();
    let seed = [7u8; 32];
    // a campaign already stands under the identifier of (seed, B, nonce 1)
    let taken = mint_campaign_id(&seed, B, 1);
    m.create_campaign(&mut bank, OWNER, taken, Vec::new(), 10, 0, 10, 0).unwrap();
    assert_eq!(m.nonce(), 1);
    let r = m.create_funding(&mut bank, B, &seed, Vec::new(), 10, 0, 10, 0);
    assert_eq!(r, Err(Error::CampaignExists));
    assert_eq!(m.campaign_count(), 1);
    assert_eq!(m.nonce(), 1);
}

#[test]
fn investor_in_two_campaigns_is_settled_per_campaign() {
    let mut m = Module::new(100);
    let mut bank = funded_bank();
    m.create_campaign(&mut bank, OWNER, 1, Vec::new(), 50, 0, 10, 0).unwrap();
    m.create_campaign(&mut bank, C, 2, Vec::new(), 500, 0, 10, 0).unwrap();
    m.invest(&mut bank, B, 1, 70, 1).unwrap();
    m.invest(&mut bank, B, 2, 30, 1).unwrap();
    assert_eq!(bank.reserved_balance(B), 100);
    assert_eq!(m.invested_campaign_count(B), 2);
    let events = m.on_finalize(&mut bank, 10);
    assert_eq!(
        events,
        vec![
            Event::CampaignFinalized(1, 70, 10, true),
            Event::CampaignFinalized(2, 30, 10, false),
        ]
    );
    assert_eq!(m.campaign_status(1), Some(CampaignStatus::Succeeded));
    assert_eq!(m.campaign_status(2), Some(CampaignStatus::Failed));
    assert_eq!(bank.reserved_balance(B), 0);
    assert_eq!(bank.free_balance(B), 930);
    assert_eq!(bank.reserved_balance(OWNER), 70);
    assert_eq!(bank.reserved_balance(C), 0);
    assert_eq!(bank.free_balance(C), 1000);
}
