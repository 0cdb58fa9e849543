//! The campaign ledger: the campaign store, its four index families, the
//! investment records, and the per-height settlement of expiring campaigns.
use crate::balances::{amount_at, min_nat, AccountId, Balance, Balances};
use crate::escrow::{escrow_intact, pay_out, refund};
use crate::mint::{mint_campaign_id, minted_id, Seed};
use crate::seqs::{
    lemma_index_of_unique, lemma_not_in_prefix, lemma_push_contains, lemma_push_no_duplicates,
    lemma_record_push, lemma_record_update, lemma_seq_sum_le, lemma_seq_sum_prefix,
    lemma_seq_sum_push, lemma_seq_sum_update, record_in, seq_sum,
};
use std::collections::HashMap;
use vstd::prelude::*;

verus! {

broadcast use vstd::std_specs::hash::group_hash_axioms;

pub type CampaignId = u64;

pub type BlockNumber = u64;

/// How many campaigns may expire at one height; bounds the settlement work
/// of a single height.
pub const MAX_CAMPAIGNS_PER_BLOCK: usize = 3;

/// The usual number of heights a campaign may run for.
pub const DEFAULT_PERIOD_LIMIT: BlockNumber = 864000;

/// Where a campaign stands: raising until its expiry height, then settled
/// once and for all.
#[derive(Debug, Clone, Copy, PartialEq, Eq, Structural)]
pub enum CampaignStatus {
    Raising,
    Succeeded,
    Failed,
}

/// A funding campaign. Only its status changes after creation.
#[derive(Debug)]
pub struct Campaign {
    pub campaign_id: CampaignId,
    pub campaign_manager: AccountId,
    pub campaign_name: Vec<u8>,
    pub campaign_target_money: Balance,
    pub campaign_expiry: BlockNumber,
    pub campaign_status: CampaignStatus,
}

/// Why a request was refused. A refused request changes nothing.
#[derive(Debug, Clone, Copy, PartialEq, Eq, Structural)]
pub enum Error {
    /// The minted identifier already names a campaign.
    CampaignExists,
    /// The owner's own support exceeds the target.
    SupportExceedsTarget,
    /// The expiry height is not after the current height.
    ExpiryNotInFuture,
    /// The expiry height lies beyond the allowed campaign period.
    ExpiryBeyondLimit,
    /// The expiry height already has the most campaigns it may have.
    TooManyCampaignsAtExpiry,
    /// No campaign has this identifier.
    NoSuchCampaign,
    /// The owner of a campaign cannot invest in it.
    OwnerInvestment,
    /// The campaign's expiry height has been reached.
    CampaignExpired,
    /// The account's free balance does not cover the amount.
    InsufficientBalance,
    /// A counter or a total would exceed its type.
    Overflow,
}

/// What the ledger reports to observers.
#[derive(Debug, Clone, Copy, PartialEq, Eq, Structural)]
pub enum Event {
    /// Owner, campaign, target, the owner's own support, expiry height.
    CreateCampaign(AccountId, CampaignId, Balance, Balance, BlockNumber),
    /// Campaign, investor, the amount of this one investment.
    Invest(CampaignId, AccountId, Balance),
    /// Campaign, amount collected, height, whether it succeeded.
    CampaignFinalized(CampaignId, Balance, BlockNumber, bool),
}

/// The list that `m` holds at `k`, empty where it holds none.
pub open spec fn list_at(m: Map<u64, Vec<u64>>, k: u64) -> Seq<u64> {
    if m.contains_key(k) {
        m[k]@
    } else {
        Seq::empty()
    }
}

/// The amounts that `m` holds at `k`, empty where it holds none.
pub open spec fn amounts_at(m: Map<u64, Vec<Balance>>, k: u64) -> Seq<Balance> {
    if m.contains_key(k) {
        m[k]@
    } else {
        Seq::empty()
    }
}

/// Appends `x` to the list held at `k`.
fn push_to(m: &mut HashMap<u64, Vec<u64>>, k: u64, x: u64)
    ensures
        forall|j: u64|
            #[trigger] list_at(final(m)@, j) == if j == k {
                list_at(old(m)@, k).push(x)
            } else {
                list_at(old(m)@, j)
            },
{
    let mut v = match m.remove(&k) {
        Some(v) => v,
        None => Vec::new(),
    };
    v.push(x);
    m.insert(k, v);
}

/// Appends `x` to the amounts held at `k`.
fn push_amount(m: &mut HashMap<u64, Vec<Balance>>, k: u64, x: Balance)
    ensures
        forall|j: u64|
            #[trigger] amounts_at(final(m)@, j) == if j == k {
                amounts_at(old(m)@, k).push(x)
            } else {
                amounts_at(old(m)@, j)
            },
{
    let mut v = match m.remove(&k) {
        Some(v) => v,
        None => Vec::new(),
    };
    v.push(x);
    m.insert(k, v);
}

/// Replaces the amount at position `i` of the amounts held at `k` by `x`.
fn set_amount(m: &mut HashMap<u64, Vec<Balance>>, k: u64, i: usize, x: Balance)
    requires
        i < amounts_at(old(m)@, k).len(),
    ensures
        forall|j: u64|
            #[trigger] amounts_at(final(m)@, j) == if j == k {
                amounts_at(old(m)@, k).update(i as int, x)
            } else {
                amounts_at(old(m)@, j)
            },
{
    let mut v = match m.remove(&k) {
        Some(v) => v,
        None => Vec::new(),
    };
    v.set(i, x);
    m.insert(k, v);
}

/// The first position at which `v` holds `x`.
fn position_in(v: &Vec<u64>, x: u64) -> (r: Option<usize>)
    ensures
        r matches Some(i) ==> i < v@.len() && v@[i as int] == x,
        r is None ==> !v@.contains(x),
{
    let mut i: usize = 0;
    while i < v.len()
        invariant
            i <= v@.len(),
            forall|k: int| 0 <= k < i ==> v@[k] != x,
        decreases v.len() - i,
    {
        if v[i] == x {
            return Some(i);
        }
        i = i + 1;
    }
    None
}

/// The whole ledger state of the campaigns.
pub struct Module {
    period_limit: BlockNumber,
    nonce: u64,
    campaigns: HashMap<CampaignId, Campaign>,
    all_campaigns: Vec<CampaignId>,
    by_expiry: HashMap<BlockNumber, Vec<CampaignId>>,
    owned: HashMap<AccountId, Vec<CampaignId>>,
    invested: HashMap<AccountId, Vec<CampaignId>>,
    invest_accounts: HashMap<CampaignId, Vec<AccountId>>,
    invest_amounts: HashMap<CampaignId, Vec<Balance>>,
    supported: HashMap<CampaignId, Balance>,
}

impl Module {
    /// Every campaign, by identifier.
    pub closed spec fn spec_campaigns(&self) -> Map<CampaignId, Campaign> {
        self.campaigns@
    }

    /// Every campaign identifier in order of creation.
    pub closed spec fn all_ids(&self) -> Seq<CampaignId> {
        self.all_campaigns@
    }

    /// The campaigns that expire at height `h`, in order of creation.
    pub closed spec fn bucket(&self, h: BlockNumber) -> Seq<CampaignId> {
        list_at(self.by_expiry@, h)
    }

    /// The campaigns that `a` owns, in order of creation.
    pub closed spec fn owned_ids(&self, a: AccountId) -> Seq<CampaignId> {
        list_at(self.owned@, a)
    }

    /// The campaigns that `a` has invested in, each once, in order of first
    /// investment.
    pub closed spec fn invested_ids(&self, a: AccountId) -> Seq<CampaignId> {
        list_at(self.invested@, a)
    }

    /// The distinct investors of campaign `id`, in order of first investment.
    pub closed spec fn investors(&self, id: CampaignId) -> Seq<AccountId> {
        list_at(self.invest_accounts@, id)
    }

    /// The cumulative amounts of the investors of `id`, position by position.
    pub closed spec fn amounts(&self, id: CampaignId) -> Seq<Balance> {
        amounts_at(self.invest_amounts@, id)
    }

    /// The total amount that campaign `id` has collected.
    pub closed spec fn supported_of(&self, id: CampaignId) -> nat {
        amount_at(self.supported@, id)
    }

    /// The number of campaigns created so far.
    pub closed spec fn nonce_of(&self) -> nat {
        self.nonce as nat
    }

    /// How many heights ahead a campaign may expire.
    pub closed spec fn period_limit_of(&self) -> nat {
        self.period_limit as nat
    }

    /// The cumulative amount that `a` has invested in campaign `id`.
    pub open spec fn record(&self, id: CampaignId, a: AccountId) -> nat {
        record_in(self.investors(id), self.amounts(id), a)
    }

    pub open spec fn has_campaign(&self, id: CampaignId) -> bool {
        self.spec_campaigns().contains_key(id)
    }

    /// The invariant that ties the store and its indices together.
    pub closed spec fn wf(&self) -> bool {
        &&& self.all_campaigns@.no_duplicates()
        &&& forall|id: CampaignId| #[trigger]
            self.campaigns@.contains_key(id) <==> self.all_campaigns@.contains(id)
        &&& forall|id: CampaignId| #[trigger]
            self.campaigns@.contains_key(id) ==> self.campaigns@[id].campaign_id == id
        &&& forall|id: CampaignId| #[trigger]
            self.campaigns@.contains_key(id) ==> {
                &&& self.investors(id).len() == self.amounts(id).len()
                &&& self.investors(id).no_duplicates()
                &&& self.supported_of(id) == seq_sum(self.amounts(id))
            }
        &&& forall|a: AccountId| #[trigger] self.invested_ids(a).no_duplicates()
        &&& forall|a: AccountId, id: CampaignId|
            #![trigger self.invested_ids(a).contains(id)]
            #![trigger self.investors(id).contains(a)]
            self.invested_ids(a).contains(id) <==> (self.campaigns@.contains_key(id)
                && self.investors(id).contains(a))
        &&& forall|h: BlockNumber| #[trigger] self.bucket(h).no_duplicates()
        &&& forall|h: BlockNumber| #[trigger] self.bucket(h).len() <= MAX_CAMPAIGNS_PER_BLOCK
        &&& forall|h: BlockNumber, id: CampaignId| #[trigger]
            self.bucket(h).contains(id) <==> (self.campaigns@.contains_key(id)
                && self.campaigns@[id].campaign_expiry == h)
        &&& forall|a: AccountId| #[trigger] self.owned_ids(a).no_duplicates()
        &&& forall|a: AccountId, id: CampaignId| #[trigger]
            self.owned_ids(a).contains(id) <==> (self.campaigns@.contains_key(id)
                && self.campaigns@[id].campaign_manager == a)
    }

    /// The error that a creation request meets, checked in this order, or
    /// `None` where it is accepted.
    pub open spec fn creation_error(
        &self,
        bank: &Balances,
        sender: AccountId,
        id: CampaignId,
        target_money: Balance,
        support_money: Balance,
        expiry: BlockNumber,
        now: BlockNumber,
    ) -> Option<Error> {
        if self.has_campaign(id) {
            Some(Error::CampaignExists)
        } else if support_money > target_money {
            Some(Error::SupportExceedsTarget)
        } else if expiry <= now {
            Some(Error::ExpiryNotInFuture)
        } else if expiry > now + self.period_limit_of() {
            Some(Error::ExpiryBeyondLimit)
        } else if self.bucket(expiry).len() >= MAX_CAMPAIGNS_PER_BLOCK {
            Some(Error::TooManyCampaignsAtExpiry)
        } else if support_money > bank.free_of(sender) {
            Some(Error::InsufficientBalance)
        } else if self.nonce_of() >= u64::MAX {
            Some(Error::Overflow)
        } else {
            None
        }
    }

    /// What an accepted creation does: `after` is `self` with the campaign
    /// recorded in the store and in every index, and `bank_after` is `bank`
    /// with the owner's own support escrowed.
    pub open spec fn creation_effect(
        &self,
        after: &Module,
        bank: &Balances,
        bank_after: &Balances,
        sender: AccountId,
        campaign_id: CampaignId,
        name: Seq<u8>,
        target_money: Balance,
        support_money: Balance,
        expiry: BlockNumber,
    ) -> bool {
        &&& after.spec_campaigns() == self.spec_campaigns().insert(
            campaign_id,
            after.spec_campaigns()[campaign_id],
        )
        &&& after.spec_campaigns()[campaign_id].campaign_id == campaign_id
        &&& after.spec_campaigns()[campaign_id].campaign_manager == sender
        &&& after.spec_campaigns()[campaign_id].campaign_name@ == name
        &&& after.spec_campaigns()[campaign_id].campaign_target_money == target_money
        &&& after.spec_campaigns()[campaign_id].campaign_expiry == expiry
        &&& after.spec_campaigns()[campaign_id].campaign_status == CampaignStatus::Raising
        &&& after.all_ids() == self.all_ids().push(campaign_id)
        &&& after.nonce_of() == self.nonce_of() + 1
        &&& after.period_limit_of() == self.period_limit_of()
        &&& forall|h: BlockNumber| #[trigger]
                after.bucket(h) == if h == expiry {
                    self.bucket(h).push(campaign_id)
                } else {
                    self.bucket(h)
                }
        &&& forall|a: AccountId| #[trigger]
                after.owned_ids(a) == if a == sender {
                    self.owned_ids(a).push(campaign_id)
                } else {
                    self.owned_ids(a)
                }
        &&& forall|a: AccountId| #[trigger]
                after.invested_ids(a) == if a == sender && support_money > 0 {
                    self.invested_ids(a).push(campaign_id)
                } else {
                    self.invested_ids(a)
                }
        &&& after.investors(campaign_id) == if support_money > 0 {
            seq![sender]
        } else {
            Seq::<AccountId>::empty()
        }
        &&& after.amounts(campaign_id) == if support_money > 0 {
            seq![support_money]
        } else {
            Seq::<Balance>::empty()
        }
        &&& after.supported_of(campaign_id) == support_money
        &&& forall|c: CampaignId|
                #![trigger after.investors(c)]
                #![trigger after.amounts(c)]
                #![trigger after.supported_of(c)]
                c != campaign_id ==> (after.investors(c) == self.investors(c)
                    && after.amounts(c) == self.amounts(c)
                    && after.supported_of(c) == self.supported_of(c))
        &&& bank_after.free_of(sender) == bank.free_of(sender) - support_money
        &&& bank_after.reserved_of(sender) == bank.reserved_of(sender) + support_money
        &&& bank_after.same_except(bank, sender)
    }

    /// The error that an investment request meets, checked in this order, or
    /// `None` where it is accepted.
    pub open spec fn investment_error(
        &self,
        bank: &Balances,
        sender: AccountId,
        campaign_id: CampaignId,
        amount: Balance,
        now: BlockNumber,
    ) -> Option<Error> {
        if !self.has_campaign(campaign_id) {
            Some(Error::NoSuchCampaign)
        } else if self.spec_campaigns()[campaign_id].campaign_manager == sender {
            Some(Error::OwnerInvestment)
        } else if now >= self.spec_campaigns()[campaign_id].campaign_expiry {
            Some(Error::CampaignExpired)
        } else if amount > bank.free_of(sender) {
            Some(Error::InsufficientBalance)
        } else if self.supported_of(campaign_id) + amount > u128::MAX {
            Some(Error::Overflow)
        } else {
            None
        }
    }

    /// What an accepted investment does: `sender`'s record for the campaign
    /// and the campaign's total grow by `amount`, `sender` joins the
    /// campaign's investors and the campaign joins `sender`'s investments
    /// where this is its first investment there, and `amount` is escrowed.
    pub open spec fn investment_effect(
        &self,
        after: &Module,
        bank: &Balances,
        bank_after: &Balances,
        sender: AccountId,
        campaign_id: CampaignId,
        amount: Balance,
    ) -> bool {
        let first = !self.investors(campaign_id).contains(sender);
        &&& after.spec_campaigns() == self.spec_campaigns()
        &&& after.all_ids() == self.all_ids()
        &&& after.nonce_of() == self.nonce_of()
        &&& after.period_limit_of() == self.period_limit_of()
        &&& forall|h: BlockNumber| #[trigger] after.bucket(h) == self.bucket(h)
        &&& forall|a: AccountId| #[trigger] after.owned_ids(a) == self.owned_ids(a)
        &&& after.record(campaign_id, sender) == self.record(campaign_id, sender) + amount
        &&& forall|a: AccountId|
            a != sender ==> (#[trigger] after.record(campaign_id, a) == self.record(campaign_id, a))
        &&& after.supported_of(campaign_id) == self.supported_of(campaign_id) + amount
        &&& after.investors(campaign_id) == if first {
            self.investors(campaign_id).push(sender)
        } else {
            self.investors(campaign_id)
        }
        &&& forall|a: AccountId| #[trigger]
            after.invested_ids(a) == if a == sender && first {
                self.invested_ids(a).push(campaign_id)
            } else {
                self.invested_ids(a)
            }
        &&& forall|c: CampaignId|
            #![trigger after.investors(c)]
            #![trigger after.amounts(c)]
            #![trigger after.supported_of(c)]
            c != campaign_id ==> (after.investors(c) == self.investors(c)
                && after.amounts(c) == self.amounts(c)
                && after.supported_of(c) == self.supported_of(c))
        &&& bank_after.free_of(sender) == bank.free_of(sender) - amount
        &&& bank_after.reserved_of(sender) == bank.reserved_of(sender) + amount
        &&& bank_after.same_except(bank, sender)
    }

    /// The status that settlement gives campaign `id`: it succeeded where it
    /// collected at least its target.
    pub open spec fn settled_status(&self, id: CampaignId) -> CampaignStatus {
        if self.supported_of(id) >= self.spec_campaigns()[id].campaign_target_money {
            CampaignStatus::Succeeded
        } else {
            CampaignStatus::Failed
        }
    }

    /// Every investor of `id` still has its whole record for `id` in escrow.
    pub open spec fn escrow_covers(&self, bank: &Balances, id: CampaignId) -> bool {
        escrow_intact(bank, self.investors(id), self.amounts(id))
    }

    /// `after` is `self` with the status of campaign `id` set to `status`.
    pub open spec fn status_changed(&self, after: &Module, id: CampaignId, status: CampaignStatus) -> bool {
        &&& after.spec_campaigns().dom() == self.spec_campaigns().dom()
        &&& after.spec_campaigns()[id].campaign_status == status
        &&& after.spec_campaigns()[id].campaign_id == self.spec_campaigns()[id].campaign_id
        &&& after.spec_campaigns()[id].campaign_manager == self.spec_campaigns()[id].campaign_manager
        &&& after.spec_campaigns()[id].campaign_name == self.spec_campaigns()[id].campaign_name
        &&& after.spec_campaigns()[id].campaign_target_money
            == self.spec_campaigns()[id].campaign_target_money
        &&& after.spec_campaigns()[id].campaign_expiry == self.spec_campaigns()[id].campaign_expiry
        &&& forall|c: CampaignId|
            c != id ==> (#[trigger] after.spec_campaigns()[c] == self.spec_campaigns()[c])
        &&& after.all_ids() == self.all_ids()
        &&& after.nonce_of() == self.nonce_of()
        &&& after.period_limit_of() == self.period_limit_of()
        &&& forall|h: BlockNumber| #[trigger] after.bucket(h) == self.bucket(h)
        &&& forall|a: AccountId| #[trigger] after.owned_ids(a) == self.owned_ids(a)
        &&& forall|a: AccountId| #[trigger] after.invested_ids(a) == self.invested_ids(a)
        &&& forall|c: CampaignId|
            #![trigger after.investors(c)]
            #![trigger after.amounts(c)]
            #![trigger after.supported_of(c)]
            after.investors(c) == self.investors(c) && after.amounts(c) == self.amounts(c)
                && after.supported_of(c) == self.supported_of(c)
    }

    /// `after` is `self` once the campaigns expiring at `now` are settled:
    /// each of them that was raising has its settled status, and nothing
    /// else of any campaign has changed.
    pub open spec fn finalized_at(&self, after: &Module, now: BlockNumber) -> bool {
        &&& after.spec_campaigns().dom() == self.spec_campaigns().dom()
        &&& forall|c: CampaignId|
            #![trigger after.spec_campaigns()[c]]
            self.has_campaign(c) ==> {
                &&& after.spec_campaigns()[c].campaign_status == if self.bucket(now).contains(c)
                    && self.spec_campaigns()[c].campaign_status == CampaignStatus::Raising {
                    self.settled_status(c)
                } else {
                    self.spec_campaigns()[c].campaign_status
                }
                &&& after.spec_campaigns()[c].campaign_manager
                    == self.spec_campaigns()[c].campaign_manager
                &&& after.spec_campaigns()[c].campaign_target_money
                    == self.spec_campaigns()[c].campaign_target_money
                &&& after.spec_campaigns()[c].campaign_expiry
                    == self.spec_campaigns()[c].campaign_expiry
            }
        &&& forall|c: CampaignId|
            #![trigger after.investors(c)]
            #![trigger after.amounts(c)]
            #![trigger after.supported_of(c)]
            after.investors(c) == self.investors(c) && after.amounts(c) == self.amounts(c)
                && after.supported_of(c) == self.supported_of(c)
        &&& after.all_ids() == self.all_ids()
        &&& forall|h: BlockNumber| #[trigger] after.bucket(h) == self.bucket(h)
    }

    /// The sum of the records of the first `n` investors of `id`.
    pub open spec fn records_upto(&self, id: CampaignId, n: nat) -> int
        decreases n,
    {
        if n == 0 {
            0
        } else {
            self.records_upto(id, (n - 1) as nat) + self.record(id, self.investors(id)[n - 1])
        }
    }

    /// The sum of the records of all investors of `id`.
    pub open spec fn sum_of_records(&self, id: CampaignId) -> int {
        self.records_upto(id, self.investors(id).len())
    }

    /// The report that settling campaign `id` at height `now` gives where it
    /// gives one.
    pub open spec fn settlement_report(&self, id: CampaignId, now: BlockNumber) -> Event {
        Event::CampaignFinalized(
            id,
            self.supported_of(id) as Balance,
            now,
            self.settled_status(id) == CampaignStatus::Succeeded,
        )
    }

    /// Campaign `id` expires at `now` and is still raising.
    pub open spec fn due_at(&self, id: CampaignId, now: BlockNumber) -> bool {
        self.bucket(now).contains(id) && self.spec_campaigns()[id].campaign_status
            == CampaignStatus::Raising
    }

    /// `e` is the settlement report of a campaign due at `now`.
    pub open spec fn is_due_report(&self, e: Event, now: BlockNumber) -> bool {
        match e {
            Event::CampaignFinalized(c, _, _, _) => self.due_at(c, now) && e
                == self.settlement_report(c, now),
            _ => false,
        }
    }

    /// What campaign `c` holds in escrow for account `a`: its record while
    /// the campaign is raising, nothing once it is settled.
    pub open spec fn held(&self, c: CampaignId, a: AccountId) -> nat {
        if self.has_campaign(c) && self.spec_campaigns()[c].campaign_status
            == CampaignStatus::Raising {
            self.record(c, a)
        } else {
            0
        }
    }

    /// What the campaigns listed in `ids` hold in escrow for `a` together.
    pub open spec fn held_over(&self, ids: Seq<CampaignId>, a: AccountId) -> nat
        decreases ids.len(),
    {
        if ids.len() == 0 {
            0
        } else {
            self.held_over(ids.drop_last(), a) + self.held(ids.last(), a)
        }
    }

    /// What all raising campaigns hold in escrow for `a`.
    pub open spec fn escrowed(&self, a: AccountId) -> nat {
        self.held_over(self.all_ids(), a)
    }

    /// Every account's reserved balance covers what the raising campaigns
    /// hold in escrow for it.
    pub open spec fn backed_by(&self, bank: &Balances) -> bool {
        forall|a: AccountId| #[trigger] bank.reserved_of(a) >= self.escrowed(a)
    }

    /// An empty ledger whose campaigns may run for at most `period_limit`
    /// heights.
    pub fn new(period_limit: BlockNumber) -> (r: Module)
        ensures
            r.wf(),
            r.spec_campaigns() == Map::<CampaignId, Campaign>::empty(),
            r.all_ids() == Seq::<CampaignId>::empty(),
            r.nonce_of() == 0,
            r.period_limit_of() == period_limit,
            forall|h: BlockNumber| #[trigger] r.bucket(h) == Seq::<CampaignId>::empty(),
            forall|a: AccountId| #[trigger] r.owned_ids(a) == Seq::<CampaignId>::empty(),
            forall|a: AccountId| #[trigger] r.invested_ids(a) == Seq::<CampaignId>::empty(),
            forall|c: CampaignId|
                #![trigger r.investors(c)]
                #![trigger r.amounts(c)]
                #![trigger r.supported_of(c)]
                r.investors(c) == Seq::<AccountId>::empty() && r.amounts(c) == Seq::<
                    Balance,
                >::empty() && r.supported_of(c) == 0,
    {
        let r = Module {
            period_limit,
            nonce: 0,
            campaigns: HashMap::new(),
            all_campaigns: Vec::new(),
            by_expiry: HashMap::new(),
            owned: HashMap::new(),
            invested: HashMap::new(),
            invest_accounts: HashMap::new(),
            invest_amounts: HashMap::new(),
            supported: HashMap::new(),
        };
        assert(r.all_campaigns@ =~= Seq::<CampaignId>::empty());
        r
    }

    /// The number of campaigns created so far; it feeds the minting of
    /// identifiers.
    pub fn nonce(&self) -> (r: u64)
        ensures
            r == self.nonce_of(),
    {
        self.nonce
    }

    /// The number of heights ahead that a campaign may expire.
    pub fn campaign_period_limit(&self) -> (r: BlockNumber)
        ensures
            r == self.period_limit_of(),
    {
        self.period_limit
    }

    /// The campaigns that expire at height `h`, in order of creation.
    pub fn campaign_expire_at(&self, h: BlockNumber) -> (r: Vec<CampaignId>)
        ensures
            r@ == self.bucket(h),
    {
        match self.by_expiry.get(&h) {
            Some(v) => v.clone(),
            None => Vec::new(),
        }
    }

    /// Whether campaign `id` exists.
    pub fn campaign_exists(&self, id: CampaignId) -> (r: bool)
        ensures
            r == self.has_campaign(id),
    {
        self.campaigns.contains_key(&id)
    }

    /// The campaign `id`, where it exists.
    pub fn campaign(&self, id: CampaignId) -> (r: Option<&Campaign>)
        ensures
            r matches Some(c) ==> self.has_campaign(id) && *c == self.spec_campaigns()[id],
            r is None ==> !self.has_campaign(id),
    {
        self.campaigns.get(&id)
    }

    /// The owner of campaign `id`, where it exists.
    pub fn owner_of_campaign(&self, id: CampaignId) -> (r: Option<AccountId>)
        ensures
            r matches Some(a) ==> self.has_campaign(id) && a == self.spec_campaigns()[id].campaign_manager,
            r is None ==> !self.has_campaign(id),
    {
        match self.campaigns.get(&id) {
            Some(c) => Some(c.campaign_manager),
            None => None,
        }
    }

    /// The status of campaign `id`, where it exists.
    pub fn campaign_status(&self, id: CampaignId) -> (r: Option<CampaignStatus>)
        ensures
            r matches Some(st) ==> self.has_campaign(id) && st == self.spec_campaigns()[id].campaign_status,
            r is None ==> !self.has_campaign(id),
    {
        match self.campaigns.get(&id) {
            Some(c) => Some(c.campaign_status),
            None => None,
        }
    }

    /// The number of campaigns.
    pub fn campaign_count(&self) -> (r: usize)
        ensures
            r == self.all_ids().len(),
    {
        self.all_campaigns.len()
    }

    /// The campaign created `index`-th, counting from zero.
    pub fn campaign_by_index(&self, index: usize) -> (r: Option<CampaignId>)
        ensures
            index < self.all_ids().len() ==> r == Some(self.all_ids()[index as int]),
            index >= self.all_ids().len() ==> r is None,
    {
        if index < self.all_campaigns.len() {
            Some(self.all_campaigns[index])
        } else {
            None
        }
    }

    /// The position of campaign `id` in the order of creation.
    pub fn campaign_index(&self, id: CampaignId) -> (r: Option<usize>)
        ensures
            r matches Some(i) ==> i < self.all_ids().len() && self.all_ids()[i as int] == id,
            r is None ==> !self.all_ids().contains(id),
    {
        position_in(&self.all_campaigns, id)
    }

    /// The number of campaigns that `owner` owns.
    pub fn owned_campaign_count(&self, owner: AccountId) -> (r: usize)
        ensures
            r == self.owned_ids(owner).len(),
    {
        match self.owned.get(&owner) {
            Some(v) => v.len(),
            None => 0,
        }
    }

    /// The `index`-th campaign that `owner` created, counting from zero.
    pub fn campaign_of_owner_by_index(&self, owner: AccountId, index: usize) -> (r: Option<CampaignId>)
        ensures
            index < self.owned_ids(owner).len() ==> r == Some(self.owned_ids(owner)[index as int]),
            index >= self.owned_ids(owner).len() ==> r is None,
    {
        match self.owned.get(&owner) {
            Some(v) => if index < v.len() {
                Some(v[index])
            } else {
                None
            },
            None => None,
        }
    }

    /// The position of campaign `id` among those that `owner` created.
    pub fn owned_campaign_index(&self, owner: AccountId, id: CampaignId) -> (r: Option<usize>)
        ensures
            r matches Some(i) ==> i < self.owned_ids(owner).len() && self.owned_ids(owner)[i as int] == id,
            r is None ==> !self.owned_ids(owner).contains(id),
    {
        match self.owned.get(&owner) {
            Some(v) => position_in(v, id),
            None => None,
        }
    }

    /// The number of distinct campaigns that `investor` has invested in.
    pub fn invested_campaign_count(&self, investor: AccountId) -> (r: usize)
        ensures
            r == self.invested_ids(investor).len(),
    {
        match self.invested.get(&investor) {
            Some(v) => v.len(),
            None => 0,
        }
    }

    /// The `index`-th campaign that `investor` invested in, counting from
    /// zero.
    pub fn invested_campaign_by_index(&self, investor: AccountId, index: usize) -> (r: Option<CampaignId>)
        ensures
            index < self.invested_ids(investor).len() ==> r == Some(self.invested_ids(investor)[index as int]),
            index >= self.invested_ids(investor).len() ==> r is None,
    {
        match self.invested.get(&investor) {
            Some(v) => if index < v.len() {
                Some(v[index])
            } else {
                None
            },
            None => None,
        }
    }

    /// The position of campaign `id` among those that `investor` invested in.
    pub fn invested_campaign_index(&self, investor: AccountId, id: CampaignId) -> (r: Option<usize>)
        ensures
            r matches Some(i) ==> i < self.invested_ids(investor).len() && self.invested_ids(investor)[i as int] == id,
            r is None ==> !self.invested_ids(investor).contains(id),
    {
        match self.invested.get(&investor) {
            Some(v) => position_in(v, id),
            None => None,
        }
    }

    /// The cumulative amount that `investor` has invested in campaign `id`.
    pub fn invest_amount_of(&self, id: CampaignId, investor: AccountId) -> (r: Balance)
        requires
            self.wf(),
        ensures
            r == if self.has_campaign(id) {
                self.record(id, investor)
            } else {
                0
            },
    {
        if !self.campaigns.contains_key(&id) {
            return 0;
        }
        match self.investor_position(id, investor) {
            Some(j) => {
                proof {
                    lemma_index_of_unique_when_wf(self, id, j as int);
                }
                match self.invest_amounts.get(&id) {
                    Some(v) => v[j],
                    None => 0,
                }
            },
            None => 0,
        }
    }

    /// The distinct investors of campaign `id`, in order of first investment.
    pub fn invest_accounts(&self, id: CampaignId) -> (r: Vec<AccountId>)
        ensures
            r@ == self.investors(id),
    {
        match self.invest_accounts.get(&id) {
            Some(v) => v.clone(),
            None => Vec::new(),
        }
    }

    /// The number of distinct investors of campaign `id`.
    pub fn invest_accounts_count(&self, id: CampaignId) -> (r: usize)
        ensures
            r == self.investors(id).len(),
    {
        match self.invest_accounts.get(&id) {
            Some(v) => v.len(),
            None => 0,
        }
    }

    /// The total amount that campaign `id` has collected.
    pub fn total_amount_of_campaign(&self, id: CampaignId) -> (r: Balance)
        ensures
            r == self.supported_of(id),
    {
        match self.supported.get(&id) {
            Some(v) => *v,
            None => 0,
        }
    }

    /// Opens a campaign of `sender` under the identifier `campaign_id`.
    /// Where `support_money` is not zero, the owner invests it at once.
    pub fn create_campaign(
        &mut self,
        bank: &mut Balances,
        sender: AccountId,
        campaign_id: CampaignId,
        project_name: Vec<u8>,
        target_money: Balance,
        support_money: Balance,
        expiry: BlockNumber,
        now: BlockNumber,
    ) -> (r: Result<Event, Error>)
        requires
            old(self).wf(),
            old(bank).wf(),
        ensures
            final(self).wf(),
            final(bank).wf(),
            old(self).creation_error(
                &*old(bank),
                sender,
                campaign_id,
                target_money,
                support_money,
                expiry,
                now,
            ) matches Some(e) ==> r == Err::<Event, Error>(e) && *final(self) == *old(self)
                && *final(bank) == *old(bank),
            old(self).creation_error(
                &*old(bank),
                sender,
                campaign_id,
                target_money,
                support_money,
                expiry,
                now,
            ) is None ==> r == Ok::<Event, Error>(
                Event::CreateCampaign(sender, campaign_id, target_money, support_money, expiry),
            ) && old(self).creation_effect(
                final(self),
                &*old(bank),
                &*final(bank),
                sender,
                campaign_id,
                project_name@,
                target_money,
                support_money,
                expiry,
            ),
            old(self).backed_by(&*old(bank)) ==> final(self).backed_by(&*final(bank)),
    {
        if self.campaigns.contains_key(&campaign_id) {
            return Err(Error::CampaignExists);
        }
        if support_money > target_money {
            return Err(Error::SupportExceedsTarget);
        }
        if expiry <= now {
            return Err(Error::ExpiryNotInFuture);
        }
        if expiry - now > self.period_limit {
            return Err(Error::ExpiryBeyondLimit);
        }
        let expiring = match self.by_expiry.get(&expiry) {
            Some(v) => v.len(),
            None => 0,
        };
        if expiring >= MAX_CAMPAIGNS_PER_BLOCK {
            return Err(Error::TooManyCampaignsAtExpiry);
        }
        if support_money > bank.free_balance(sender) {
            return Err(Error::InsufficientBalance);
        }
        if self.nonce == u64::MAX {
            return Err(Error::Overflow);
        }
        let ghost name = project_name@;
        self.mint(bank, sender, campaign_id, project_name, target_money, support_money, expiry);
        proof {
            if old(self).backed_by(&*old(bank)) {
                lemma_creation_keeps_backing(
                    *old(self),
                    *self,
                    *old(bank),
                    *bank,
                    sender,
                    campaign_id,
                    name,
                    target_money,
                    support_money,
                    expiry,
                );
            }
        }
        Ok(Event::CreateCampaign(sender, campaign_id, target_money, support_money, expiry))
    }

    /// Opens a campaign of `sender` under the identifier minted from the
    /// height's entropy seed, `sender` and the number of campaigns created so
    /// far. Where `support_money` is not zero, the owner invests it at once.
    pub fn create_funding(
        &mut self,
        bank: &mut Balances,
        sender: AccountId,
        random_seed: &Seed,
        project_name: Vec<u8>,
        target_money: Balance,
        support_money: Balance,
        expiry: BlockNumber,
        now: BlockNumber,
    ) -> (r: Result<Event, Error>)
        requires
            old(self).wf(),
            old(bank).wf(),
        ensures
            final(self).wf(),
            final(bank).wf(),
            ({
                let id = minted_id(random_seed@, sender, old(self).nonce_of() as u64);
                &&& old(self).creation_error(
                    &*old(bank),
                    sender,
                    id,
                    target_money,
                    support_money,
                    expiry,
                    now,
                ) matches Some(e) ==> r == Err::<Event, Error>(e) && *final(self) == *old(self)
                    && *final(bank) == *old(bank)
                &&& old(self).creation_error(
                    &*old(bank),
                    sender,
                    id,
                    target_money,
                    support_money,
                    expiry,
                    now,
                ) is None ==> r == Ok::<Event, Error>(
                    Event::CreateCampaign(sender, id, target_money, support_money, expiry),
                ) && old(self).creation_effect(
                    final(self),
                    &*old(bank),
                    &*final(bank),
                    sender,
                    id,
                    project_name@,
                    target_money,
                    support_money,
                    expiry,
                )
            }),
            old(self).backed_by(&*old(bank)) ==> final(self).backed_by(&*final(bank)),
    {
        let campaign_id = mint_campaign_id(random_seed, sender, self.nonce);
        self.create_campaign(
            bank,
            sender,
            campaign_id,
            project_name,
            target_money,
            support_money,
            expiry,
            now,
        )
    }

    /// Records an accepted campaign in the store and every index, and
    /// escrows the owner's own support.
    fn mint(
        &mut self,
        bank: &mut Balances,
        sender: AccountId,
        campaign_id: CampaignId,
        project_name: Vec<u8>,
        target_money: Balance,
        support_money: Balance,
        expiry: BlockNumber,
    )
        requires
            old(self).wf(),
            old(bank).wf(),
            !old(self).has_campaign(campaign_id),
            support_money <= old(bank).free_of(sender),
            old(self).nonce_of() < u64::MAX,
            old(self).bucket(expiry).len() < MAX_CAMPAIGNS_PER_BLOCK,
        ensures
            final(self).wf(),
            final(bank).wf(),
            old(self).creation_effect(
                final(self),
                &*old(bank),
                &*final(bank),
                sender,
                campaign_id,
                project_name@,
                target_money,
                support_money,
                expiry,
            ),
    {
        let new_campaign = Campaign {
            campaign_id,
            campaign_manager: sender,
            campaign_name: project_name,
            campaign_target_money: target_money,
            campaign_expiry: expiry,
            campaign_status: CampaignStatus::Raising,
        };
        self.campaigns.insert(campaign_id, new_campaign);
        self.all_campaigns.push(campaign_id);
        push_to(&mut self.by_expiry, expiry, campaign_id);
        push_to(&mut self.owned, sender, campaign_id);
        let mut accounts: Vec<AccountId> = Vec::new();
        let mut amounts: Vec<Balance> = Vec::new();
        if support_money > 0 {
            let reserved = bank.reserve(sender, support_money);
            accounts.push(sender);
            amounts.push(support_money);
            push_to(&mut self.invested, sender, campaign_id);
        } else {
            proof {
                assert(bank.same_except(&*old(bank), sender));
            }
        }
        self.invest_accounts.insert(campaign_id, accounts);
        self.invest_amounts.insert(campaign_id, amounts);
        self.supported.insert(campaign_id, support_money);
        self.nonce = self.nonce + 1;
        proof {
            assert(self.amounts(campaign_id) =~= amounts@);
            lemma_seq_sum_push(Seq::<Balance>::empty(), support_money);
            assert(Seq::<Balance>::empty().push(support_money) =~= seq![support_money]);
            assert(Seq::<AccountId>::empty().push(sender) =~= seq![sender]);
            assert(seq_sum(Seq::<Balance>::empty()) == 0);
            let o = old(self);
            assert(!o.all_campaigns@.contains(campaign_id));
            assert(self.all_campaigns@.no_duplicates()) by {
                assert forall|i: int, j: int|
                    0 <= i < self.all_campaigns@.len() && 0 <= j < self.all_campaigns@.len() && i
                        != j implies self.all_campaigns@[i] != self.all_campaigns@[j] by {
                    if i == o.all_campaigns@.len() as int {
                        assert(o.all_campaigns@.contains(self.all_campaigns@[j]));
                    } else if j == o.all_campaigns@.len() as int {
                        assert(o.all_campaigns@.contains(self.all_campaigns@[i]));
                    }
                }
            }
            assert forall|id: CampaignId| #[trigger]
                self.campaigns@.contains_key(id) <==> self.all_campaigns@.contains(id) by {
                if o.all_campaigns@.contains(id) {
                    let k = o.all_campaigns@.index_of(id);
                    assert(self.all_campaigns@[k] == id);
                }
                if id == campaign_id {
                    assert(self.all_campaigns@[o.all_campaigns@.len() as int] == id);
                }
                if self.all_campaigns@.contains(id) && id != campaign_id {
                    let k = self.all_campaigns@.index_of(id);
                    assert(k < o.all_campaigns@.len());
                    assert(o.all_campaigns@[k] == id);
                }
            }
            assert forall|a: AccountId| #[trigger] self.invested_ids(a).no_duplicates() by {
                assert(o.invested_ids(a).no_duplicates());
                if a == sender && support_money > 0 {
                    assert(!o.invested_ids(a).contains(campaign_id));
                    lemma_push_no_duplicates(o.invested_ids(a), campaign_id);
                }
            }
            assert forall|a: AccountId, id: CampaignId|
                #![trigger self.invested_ids(a).contains(id)]
                #![trigger self.investors(id).contains(a)]
                self.invested_ids(a).contains(id) <==> (self.campaigns@.contains_key(id)
                    && self.investors(id).contains(a)) by {
                lemma_push_contains(o.invested_ids(a), campaign_id, id);
                if id == campaign_id {
                    assert(!o.invested_ids(a).contains(id));
                    if support_money > 0 {
                        assert(self.investors(id).contains(a) <==> a == sender) by {
                            if a == sender {
                                assert(self.investors(id)[0] == sender);
                            }
                        }
                    }
                } else {
                    assert(o.invested_ids(a).contains(id) <==> (o.campaigns@.contains_key(id)
                        && o.investors(id).contains(a)));
                }
            }
            assert forall|h: BlockNumber| #[trigger] self.bucket(h).len() <= MAX_CAMPAIGNS_PER_BLOCK by {
                assert(o.bucket(h).len() <= MAX_CAMPAIGNS_PER_BLOCK);
            }
            assert forall|h: BlockNumber| #[trigger] self.bucket(h).no_duplicates() by {
                assert(o.bucket(h).no_duplicates());
                if h == expiry {
                    assert(!o.bucket(h).contains(campaign_id));
                    lemma_push_no_duplicates(o.bucket(h), campaign_id);
                }
            }
            assert forall|h: BlockNumber, id: CampaignId| #[trigger]
                self.bucket(h).contains(id) <==> (self.campaigns@.contains_key(id)
                    && self.campaigns@[id].campaign_expiry == h) by {
                lemma_push_contains(o.bucket(h), campaign_id, id);
                assert(o.bucket(h).contains(id) <==> (o.campaigns@.contains_key(id)
                    && o.campaigns@[id].campaign_expiry == h));
            }
            assert forall|a: AccountId| #[trigger] self.owned_ids(a).no_duplicates() by {
                assert(o.owned_ids(a).no_duplicates());
                if a == sender {
                    assert(!o.owned_ids(a).contains(campaign_id));
                    lemma_push_no_duplicates(o.owned_ids(a), campaign_id);
                }
            }
            assert forall|a: AccountId, id: CampaignId| #[trigger]
                self.owned_ids(a).contains(id) <==> (self.campaigns@.contains_key(id)
                    && self.campaigns@[id].campaign_manager == a) by {
                lemma_push_contains(o.owned_ids(a), campaign_id, id);
                assert(o.owned_ids(a).contains(id) <==> (o.campaigns@.contains_key(id)
                    && o.campaigns@[id].campaign_manager == a));
            }
            assert forall|id: CampaignId| #[trigger]
                self.campaigns@.contains_key(id) implies {
                    &&& self.investors(id).len() == self.amounts(id).len()
                    &&& self.investors(id).no_duplicates()
                    &&& self.supported_of(id) == seq_sum(self.amounts(id))
                } by {
                if id != campaign_id {
                    assert(o.campaigns@.contains_key(id));
                }
            }
        }
    }

    /// The position of `who` among the investors of `campaign_id`.
    fn investor_position(&self, campaign_id: CampaignId, who: AccountId) -> (r: Option<usize>)
        ensures
            r matches Some(j) ==> j < self.investors(campaign_id).len() && self.investors(
                campaign_id,
            )[j as int] == who,
            r is None ==> !self.investors(campaign_id).contains(who),
    {
        match self.invest_accounts.get(&campaign_id) {
            Some(accounts) => {
                let mut i: usize = 0;
                while i < accounts.len()
                    invariant
                        accounts@ == self.investors(campaign_id),
                        i <= accounts.len(),
                        forall|k: int| 0 <= k < i ==> accounts@[k] != who,
                    decreases accounts.len() - i,
                {
                    if accounts[i] == who {
                        return Some(i);
                    }
                    i = i + 1;
                }
                None
            },
            None => None,
        }
    }

    /// `sender` invests `invest_amount` in campaign `campaign_id` at height
    /// `now`; the amount is escrowed under `sender` until the campaign is
    /// settled. An amount of zero is accepted, and on a first investment it
    /// makes `sender` an investor with a record of zero.
    pub fn invest(
        &mut self,
        bank: &mut Balances,
        sender: AccountId,
        campaign_id: CampaignId,
        invest_amount: Balance,
        now: BlockNumber,
    ) -> (r: Result<Event, Error>)
        requires
            old(self).wf(),
            old(bank).wf(),
        ensures
            final(self).wf(),
            final(bank).wf(),
            old(self).investment_error(&*old(bank), sender, campaign_id, invest_amount, now) matches Some(e)
                ==> r == Err::<Event, Error>(e) && *final(self) == *old(self) && *final(bank) == *old(bank),
            old(self).investment_error(&*old(bank), sender, campaign_id, invest_amount, now) is None
                ==> r == Ok::<Event, Error>(Event::Invest(campaign_id, sender, invest_amount))
                && old(self).investment_effect(
                final(self),
                &*old(bank),
                &*final(bank),
                sender,
                campaign_id,
                invest_amount,
            ),
            old(self).backed_by(&*old(bank)) ==> final(self).backed_by(&*final(bank)),
    {
        let (manager, expiry) = match self.campaigns.get(&campaign_id) {
            Some(c) => (c.campaign_manager, c.campaign_expiry),
            None => {
                return Err(Error::NoSuchCampaign);
            },
        };
        if manager == sender {
            return Err(Error::OwnerInvestment);
        }
        if now >= expiry {
            return Err(Error::CampaignExpired);
        }
        if invest_amount > bank.free_balance(sender) {
            return Err(Error::InsufficientBalance);
        }
        let total = match self.supported.get(&campaign_id) {
            Some(v) => *v,
            None => 0,
        };
        if total > u128::MAX - invest_amount {
            return Err(Error::Overflow);
        }
        match self.investor_position(campaign_id, sender) {
            Some(j) => self.invest_before(bank, sender, campaign_id, invest_amount, j),
            None => self.not_invest_before(bank, sender, campaign_id, invest_amount),
        }
        proof {
            if old(self).backed_by(&*old(bank)) {
                lemma_investment_keeps_backing(
                    *old(self),
                    *self,
                    *old(bank),
                    *bank,
                    sender,
                    campaign_id,
                    invest_amount,
                );
            }
        }
        Ok(Event::Invest(campaign_id, sender, invest_amount))
    }

    /// A further investment by an account that already invested in the
    /// campaign: its record at position `j` grows, no index changes.
    fn invest_before(
        &mut self,
        bank: &mut Balances,
        sender: AccountId,
        campaign_id: CampaignId,
        invest_amount: Balance,
        j: usize,
    )
        requires
            old(self).wf(),
            old(bank).wf(),
            old(self).has_campaign(campaign_id),
            j < old(self).investors(campaign_id).len(),
            old(self).investors(campaign_id)[j as int] == sender,
            invest_amount <= old(bank).free_of(sender),
            old(self).supported_of(campaign_id) + invest_amount <= u128::MAX,
        ensures
            final(self).wf(),
            final(bank).wf(),
            old(self).investment_effect(
                final(self),
                &*old(bank),
                &*final(bank),
                sender,
                campaign_id,
                invest_amount,
            ),
    {
        let ghost accs = self.investors(campaign_id);
        let ghost amts = self.amounts(campaign_id);
        proof {
            lemma_seq_sum_le(amts, j as int);
            lemma_index_of_unique(accs, j as int);
        }
        let current = match self.invest_amounts.get(&campaign_id) {
            Some(v) => v[j],
            None => 0,
        };
        let total = match self.supported.get(&campaign_id) {
            Some(v) => *v,
            None => 0,
        };
        let _ = bank.reserve(sender, invest_amount);
        set_amount(&mut self.invest_amounts, campaign_id, j, current + invest_amount);
        self.supported.insert(campaign_id, total + invest_amount);
        proof {
            lemma_record_update(accs, amts, j as int, (current + invest_amount) as u128);
            lemma_seq_sum_update(amts, j as int, (current + invest_amount) as u128);
            assert(accs.contains(sender));
            let o = old(self);
            assert forall|h: BlockNumber| #[trigger] self.bucket(h).no_duplicates() by {
                assert(o.bucket(h).no_duplicates());
            }
            assert forall|h: BlockNumber| #[trigger] self.bucket(h).len() <= MAX_CAMPAIGNS_PER_BLOCK by {
                assert(o.bucket(h).len() <= MAX_CAMPAIGNS_PER_BLOCK);
            }
            assert forall|a: AccountId| #[trigger] self.owned_ids(a).no_duplicates() by {
                assert(o.owned_ids(a).no_duplicates());
            }
            assert forall|a: AccountId| #[trigger] self.invested_ids(a).no_duplicates() by {
                assert(o.invested_ids(a).no_duplicates());
            }
            assert forall|id: CampaignId| #[trigger]
                self.campaigns@.contains_key(id) implies {
                    &&& self.investors(id).len() == self.amounts(id).len()
                    &&& self.investors(id).no_duplicates()
                    &&& self.supported_of(id) == seq_sum(self.amounts(id))
                } by {
                assert(o.campaigns@.contains_key(id));
            }
            assert forall|a: AccountId, id: CampaignId|
                #![trigger self.invested_ids(a).contains(id)]
                #![trigger self.investors(id).contains(a)]
                self.invested_ids(a).contains(id) <==> (self.campaigns@.contains_key(id)
                    && self.investors(id).contains(a)) by {
                assert(o.invested_ids(a).contains(id) <==> (o.campaigns@.contains_key(id)
                    && o.investors(id).contains(a)));
            }
            assert forall|h: BlockNumber, id: CampaignId| #[trigger]
                self.bucket(h).contains(id) <==> (self.campaigns@.contains_key(id)
                    && self.campaigns@[id].campaign_expiry == h) by {
                assert(o.bucket(h).contains(id) <==> (o.campaigns@.contains_key(id)
                    && o.campaigns@[id].campaign_expiry == h));
            }
            assert forall|a: AccountId, id: CampaignId| #[trigger]
                self.owned_ids(a).contains(id) <==> (self.campaigns@.contains_key(id)
                    && self.campaigns@[id].campaign_manager == a) by {
                assert(o.owned_ids(a).contains(id) <==> (o.campaigns@.contains_key(id)
                    && o.campaigns@[id].campaign_manager == a));
            }
        }
    }

    /// A first investment of an account in the campaign: it joins the
    /// campaign's investors and the campaign joins its investments.
    fn not_invest_before(
        &mut self,
        bank: &mut Balances,
        sender: AccountId,
        campaign_id: CampaignId,
        invest_amount: Balance,
    )
        requires
            old(self).wf(),
            old(bank).wf(),
            old(self).has_campaign(campaign_id),
            !old(self).investors(campaign_id).contains(sender),
            invest_amount <= old(bank).free_of(sender),
            old(self).supported_of(campaign_id) + invest_amount <= u128::MAX,
        ensures
            final(self).wf(),
            final(bank).wf(),
            old(self).investment_effect(
                final(self),
                &*old(bank),
                &*final(bank),
                sender,
                campaign_id,
                invest_amount,
            ),
    {
        let ghost accs = self.investors(campaign_id);
        let ghost amts = self.amounts(campaign_id);
        let total = match self.supported.get(&campaign_id) {
            Some(v) => *v,
            None => 0,
        };
        let _ = bank.reserve(sender, invest_amount);
        push_to(&mut self.invest_accounts, campaign_id, sender);
        push_amount(&mut self.invest_amounts, campaign_id, invest_amount);
        push_to(&mut self.invested, sender, campaign_id);
        self.supported.insert(campaign_id, total + invest_amount);
        proof {
            let o = old(self);
            lemma_record_push(accs, amts, sender, invest_amount);
            lemma_seq_sum_push(amts, invest_amount);
            assert(!o.invested_ids(sender).contains(campaign_id));
            assert forall|h: BlockNumber| #[trigger] self.bucket(h).no_duplicates() by {
                assert(o.bucket(h).no_duplicates());
            }
            assert forall|h: BlockNumber| #[trigger] self.bucket(h).len() <= MAX_CAMPAIGNS_PER_BLOCK by {
                assert(o.bucket(h).len() <= MAX_CAMPAIGNS_PER_BLOCK);
            }
            assert forall|a: AccountId| #[trigger] self.owned_ids(a).no_duplicates() by {
                assert(o.owned_ids(a).no_duplicates());
            }
            assert forall|id: CampaignId| #[trigger]
                self.campaigns@.contains_key(id) implies {
                    &&& self.investors(id).len() == self.amounts(id).len()
                    &&& self.investors(id).no_duplicates()
                    &&& self.supported_of(id) == seq_sum(self.amounts(id))
                } by {
                assert(o.campaigns@.contains_key(id));
            }
            assert forall|a: AccountId| #[trigger] self.invested_ids(a).no_duplicates() by {
                assert(o.invested_ids(a).no_duplicates());
                if a == sender {
                    lemma_push_no_duplicates(o.invested_ids(a), campaign_id);
                }
            }
            assert forall|a: AccountId, id: CampaignId|
                #![trigger self.invested_ids(a).contains(id)]
                #![trigger self.investors(id).contains(a)]
                self.invested_ids(a).contains(id) <==> (self.campaigns@.contains_key(id)
                    && self.investors(id).contains(a)) by {
                assert(o.invested_ids(a).contains(id) <==> (o.campaigns@.contains_key(id)
                    && o.investors(id).contains(a)));
                lemma_push_contains(o.invested_ids(a), campaign_id, id);
                lemma_push_contains(accs, sender, a);
            }
            assert forall|h: BlockNumber, id: CampaignId| #[trigger]
                self.bucket(h).contains(id) <==> (self.campaigns@.contains_key(id)
                    && self.campaigns@[id].campaign_expiry == h) by {
                assert(o.bucket(h).contains(id) <==> (o.campaigns@.contains_key(id)
                    && o.campaigns@[id].campaign_expiry == h));
            }
            assert forall|a: AccountId, id: CampaignId| #[trigger]
                self.owned_ids(a).contains(id) <==> (self.campaigns@.contains_key(id)
                    && self.campaigns@[id].campaign_manager == a) by {
                assert(o.owned_ids(a).contains(id) <==> (o.campaigns@.contains_key(id)
                    && o.campaigns@[id].campaign_manager == a));
            }
        }
    }

    /// Sets the status of campaign `id`, which exists, to `status`.
    fn set_status(&mut self, id: CampaignId, status: CampaignStatus)
        requires
            old(self).wf(),
            old(self).has_campaign(id),
        ensures
            final(self).wf(),
            old(self).status_changed(final(self), id, status),
    {
        let ghost o = *self;
        match self.campaigns.remove(&id) {
            Some(c) => {
                let mut c = c;
                c.campaign_status = status;
                self.campaigns.insert(id, c);
            },
            None => {},
        }
        proof {
            assert(self.campaigns@.dom() =~= o.campaigns@.dom());
            assert forall|c: CampaignId| c != id implies #[trigger] self.campaigns@[c]
                == o.campaigns@[c] by {}
            assert forall|x: CampaignId| #[trigger]
                self.campaigns@.contains_key(x) implies {
                    &&& self.investors(x).len() == self.amounts(x).len()
                    &&& self.investors(x).no_duplicates()
                    &&& self.supported_of(x) == seq_sum(self.amounts(x))
                } by {
                assert(o.campaigns@.contains_key(x));
            }
            assert forall|a: AccountId| #[trigger] self.invested_ids(a).no_duplicates() by {
                assert(o.invested_ids(a).no_duplicates());
            }
            assert forall|h: BlockNumber| #[trigger] self.bucket(h).no_duplicates() by {
                assert(o.bucket(h).no_duplicates());
            }
            assert forall|h: BlockNumber| #[trigger] self.bucket(h).len() <= MAX_CAMPAIGNS_PER_BLOCK by {
                assert(o.bucket(h).len() <= MAX_CAMPAIGNS_PER_BLOCK);
            }
            assert forall|a: AccountId| #[trigger] self.owned_ids(a).no_duplicates() by {
                assert(o.owned_ids(a).no_duplicates());
            }
            assert forall|a: AccountId, x: CampaignId|
                #![trigger self.invested_ids(a).contains(x)]
                #![trigger self.investors(x).contains(a)]
                self.invested_ids(a).contains(x) <==> (self.campaigns@.contains_key(x)
                    && self.investors(x).contains(a)) by {
                assert(o.invested_ids(a).contains(x) <==> (o.campaigns@.contains_key(x)
                    && o.investors(x).contains(a)));
            }
            assert forall|h: BlockNumber, x: CampaignId| #[trigger]
                self.bucket(h).contains(x) <==> (self.campaigns@.contains_key(x)
                    && self.campaigns@[x].campaign_expiry == h) by {
                assert(o.bucket(h).contains(x) <==> (o.campaigns@.contains_key(x)
                    && o.campaigns@[x].campaign_expiry == h));
            }
            assert forall|a: AccountId, x: CampaignId| #[trigger]
                self.owned_ids(a).contains(x) <==> (self.campaigns@.contains_key(x)
                    && self.campaigns@[x].campaign_manager == a) by {
                assert(o.owned_ids(a).contains(x) <==> (o.campaigns@.contains_key(x)
                    && o.campaigns@[x].campaign_manager == a));
            }
        }
    }

    /// Settles campaign `id` at height `now`. A campaign that is no longer
    /// raising is left alone. One that collected at least its target
    /// succeeds: each investor's record is unreserved and, for investors
    /// other than the owner, transferred to the owner; where every transfer
    /// went through, the owner then escrows the whole collected amount and
    /// the success is reported. A failed transfer ends the payout of this
    /// campaign and nothing is reported. One that collected less fails: each
    /// investor's record is unreserved and the failure is reported.
    pub fn finalize_campaign(&mut self, bank: &mut Balances, id: CampaignId, now: BlockNumber) -> (r:
        Option<Event>)
        requires
            old(self).wf(),
            old(bank).wf(),
            old(self).has_campaign(id),
        ensures
            final(self).wf(),
            final(bank).wf(),
            old(self).spec_campaigns()[id].campaign_status != CampaignStatus::Raising ==> r is None
                && *final(self) == *old(self) && *final(bank) == *old(bank),
            old(self).spec_campaigns()[id].campaign_status == CampaignStatus::Raising ==> old(
                self,
            ).status_changed(final(self), id, old(self).settled_status(id)),
            old(self).spec_campaigns()[id].campaign_status == CampaignStatus::Raising
                && old(self).settled_status(id) == CampaignStatus::Failed ==> {
                &&& r == Some(
                    Event::CampaignFinalized(id, old(self).supported_of(id) as Balance, now, false),
                )
                &&& forall|a: AccountId|
                    #![trigger final(bank).reserved_of(a)]
                    #![trigger final(bank).free_of(a)]
                    final(bank).reserved_of(a) == old(bank).reserved_of(a) - min_nat(
                        old(self).record(id, a),
                        old(bank).reserved_of(a),
                    ) && final(bank).free_of(a) == old(bank).free_of(a) + min_nat(
                        old(self).record(id, a),
                        old(bank).reserved_of(a),
                    )
            },
            old(self).backed_by(&*old(bank)) ==> final(self).backed_by(&*final(bank)),
            old(self).spec_campaigns()[id].campaign_status == CampaignStatus::Raising
                && old(self).settled_status(id) == CampaignStatus::Succeeded ==> r is None || r
                == Some(Event::CampaignFinalized(id, old(self).supported_of(id) as Balance, now, true)),
            old(self).spec_campaigns()[id].campaign_status == CampaignStatus::Raising
                && old(self).settled_status(id) == CampaignStatus::Succeeded
                && old(self).escrow_covers(&*old(bank), id) && old(bank).free_of(
                old(self).spec_campaigns()[id].campaign_manager,
            ) + old(bank).reserved_of(old(self).spec_campaigns()[id].campaign_manager)
                + old(self).supported_of(id) <= u128::MAX ==> {
                let owner = old(self).spec_campaigns()[id].campaign_manager;
                &&& r == Some(
                    Event::CampaignFinalized(id, old(self).supported_of(id) as Balance, now, true),
                )
                &&& forall|a: AccountId| #[trigger]
                    final(bank).free_of(a) == old(bank).free_of(a)
                &&& forall|a: AccountId|
                    a != owner ==> (#[trigger] final(bank).reserved_of(a) == old(bank).reserved_of(a)
                        - old(self).record(id, a))
                &&& final(bank).reserved_of(owner) == old(bank).reserved_of(owner) - old(
                    self,
                ).record(id, owner) + old(self).supported_of(id)
            },
    {
        let (owner, target, status) = match self.campaigns.get(&id) {
            Some(c) => (c.campaign_manager, c.campaign_target_money, c.campaign_status),
            None => {
                return None;
            },
        };
        if status != CampaignStatus::Raising {
            return None;
        }
        let collected = match self.supported.get(&id) {
            Some(v) => *v,
            None => 0,
        };
        let accounts = match self.invest_accounts.get(&id) {
            Some(v) => v.clone(),
            None => Vec::new(),
        };
        let amounts = match self.invest_amounts.get(&id) {
            Some(v) => v.clone(),
            None => Vec::new(),
        };
        let ghost accs = self.investors(id);
        let ghost amts = self.amounts(id);
        proof {
            assert(accounts@ =~= accs);
            assert(amounts@ =~= amts);
        }
        if collected >= target {
            self.set_status(id, CampaignStatus::Succeeded);
            let no_error = pay_out(bank, owner, &accounts, &amounts);
            let ghost paid = *bank;
            let r = if no_error {
                let _ = bank.reserve(owner, collected);
                Some(Event::CampaignFinalized(id, collected, now, true))
            } else {
                None
            };
            proof {
                assert forall|a: AccountId| #[trigger] bank.reserved_of(a) >= paid.reserved_of(a) by {}
                if old(self).backed_by(&*old(bank)) {
                    lemma_settlement_keeps_backing(
                        *old(self),
                        *self,
                        *old(bank),
                        *bank,
                        id,
                        CampaignStatus::Succeeded,
                    );
                }
            }
            r
        } else {
            self.set_status(id, CampaignStatus::Failed);
            refund(bank, &accounts, &amounts);
            proof {
                if old(self).backed_by(&*old(bank)) {
                    lemma_settlement_keeps_backing(
                        *old(self),
                        *self,
                        *old(bank),
                        *bank,
                        id,
                        CampaignStatus::Failed,
                    );
                }
            }
            Some(Event::CampaignFinalized(id, collected, now, false))
        }
    }

    /// Settles, in order of creation, every campaign that expires at height
    /// `now`, and returns what the settlements report.
    pub fn on_finalize(&mut self, bank: &mut Balances, now: BlockNumber) -> (events: Vec<Event>)
        requires
            old(self).wf(),
            old(bank).wf(),
        ensures
            final(self).wf(),
            final(bank).wf(),
            old(self).finalized_at(final(self), now),
            old(self).backed_by(&*old(bank)) ==> final(self).backed_by(&*final(bank)),
            events@.len() <= old(self).bucket(now).len(),
            forall|k: int|
                #![trigger events@[k]]
                0 <= k < events@.len() ==> old(self).is_due_report(events@[k], now),
            forall|c: CampaignId|
                #![trigger old(self).due_at(c, now)]
                old(self).due_at(c, now) && old(self).settled_status(c)
                    == CampaignStatus::Failed ==> events@.contains(old(self).settlement_report(c, now)),
    {
        let ids = self.campaign_expire_at(now);
        let ghost o = *self;
        let mut events: Vec<Event> = Vec::new();
        let mut i: usize = 0;
        proof {
            assert(o.bucket(now).no_duplicates());
        }
        while i < ids.len()
            invariant
                self.wf(),
                bank.wf(),
                o.wf(),
                ids@ == o.bucket(now),
                ids@.no_duplicates(),
                i <= ids@.len(),
                self.spec_campaigns().dom() == o.spec_campaigns().dom(),
                forall|c: CampaignId|
                    #![trigger self.spec_campaigns()[c]]
                    o.has_campaign(c) ==> {
                        &&& self.spec_campaigns()[c].campaign_status == if ids@.subrange(
                            0,
                            i as int,
                        ).contains(c) && o.spec_campaigns()[c].campaign_status
                            == CampaignStatus::Raising {
                            o.settled_status(c)
                        } else {
                            o.spec_campaigns()[c].campaign_status
                        }
                        &&& self.spec_campaigns()[c].campaign_manager
                            == o.spec_campaigns()[c].campaign_manager
                        &&& self.spec_campaigns()[c].campaign_target_money
                            == o.spec_campaigns()[c].campaign_target_money
                        &&& self.spec_campaigns()[c].campaign_expiry
                            == o.spec_campaigns()[c].campaign_expiry
                    },
                forall|c: CampaignId|
                    #![trigger self.investors(c)]
                    #![trigger self.amounts(c)]
                    #![trigger self.supported_of(c)]
                    self.investors(c) == o.investors(c) && self.amounts(c) == o.amounts(c)
                        && self.supported_of(c) == o.supported_of(c),
                self.all_ids() == o.all_ids(),
                forall|h: BlockNumber| #[trigger] self.bucket(h) == o.bucket(h),
                events@.len() <= i,
                o.backed_by(&*old(bank)) ==> self.backed_by(&*bank),
                forall|k: int|
                    #![trigger events@[k]]
                    0 <= k < events@.len() ==> o.is_due_report(events@[k], now),
                forall|c: CampaignId|
                    #![trigger o.due_at(c, now)]
                    o.due_at(c, now) && o.settled_status(c) == CampaignStatus::Failed
                        && ids@.subrange(0, i as int).contains(c) ==> events@.contains(
                        o.settlement_report(c, now),
                    ),
            decreases ids.len() - i,
        {
            let id = ids[i];
            let ghost prefix = ids@.subrange(0, i as int);
            let ghost before = *self;
            proof {
                assert(ids@.contains(id));
                lemma_not_in_prefix(ids@, i as int);
                assert(ids@.subrange(0, i + 1) =~= prefix.push(id));
            }
            let ghost events_before = events@;
            let event = self.finalize_campaign(bank, id, now);
            proof {
                assert(before.spec_campaigns()[id].campaign_status == o.spec_campaigns()[id].campaign_status);
                assert(before.supported_of(id) == o.supported_of(id));
                assert(before.settled_status(id) == o.settled_status(id));
            }
            match event {
                Some(e) => events.push(e),
                None => {},
            }
            i = i + 1;
            proof {
                if event is Some {
                    assert(o.due_at(id, now));
                    assert(events@.last() == o.settlement_report(id, now));
                    assert forall|k: int|
                        #![trigger events@[k]]
                        0 <= k < events@.len() implies o.is_due_report(events@[k], now) by {
                        if k < events_before.len() {
                            assert(events@[k] == events_before[k]);
                        } else {
                            assert(o.due_at(id, now) && events@[k] == o.settlement_report(id, now));
                        }
                    }
                    assert forall|c: CampaignId|
                        #![trigger o.due_at(c, now)]
                        o.due_at(c, now) && o.settled_status(c) == CampaignStatus::Failed
                            && ids@.subrange(0, i as int).contains(c) implies events@.contains(
                            o.settlement_report(c, now),
                        ) by {
                        lemma_push_contains(prefix, id, c);
                        if c != id {
                            assert(events_before.contains(o.settlement_report(c, now)));
                            let k = events_before.index_of(o.settlement_report(c, now));
                            assert(events@[k] == events_before[k]);
                        } else {
                            assert(events@[events@.len() - 1] == o.settlement_report(c, now));
                        }
                    }
                } else {
                    assert forall|c: CampaignId|
                        #![trigger o.due_at(c, now)]
                        o.due_at(c, now) && o.settled_status(c) == CampaignStatus::Failed
                            && ids@.subrange(0, i as int).contains(c) implies events@.contains(
                            o.settlement_report(c, now),
                        ) by {
                        lemma_push_contains(prefix, id, c);
                    }
                }
                assert forall|c: CampaignId| #[trigger]
                    ids@.subrange(0, i as int).contains(c) == (prefix.contains(c) || c == id) by {
                    lemma_push_contains(prefix, id, c);
                }
                assert forall|c: CampaignId| #[trigger]
                    self.supported_of(c) == o.supported_of(c) by {
                    assert(before.supported_of(c) == o.supported_of(c));
                }
                assert forall|c: CampaignId| #[trigger]
                    self.investors(c) == o.investors(c) by {
                    assert(before.investors(c) == o.investors(c));
                }
                assert forall|c: CampaignId| #[trigger]
                    self.amounts(c) == o.amounts(c) by {
                    assert(before.amounts(c) == o.amounts(c));
                }
                assert forall|h: BlockNumber| #[trigger] self.bucket(h) == o.bucket(h) by {
                    assert(before.bucket(h) == o.bucket(h));
                }
                assert(self.spec_campaigns().dom() =~= o.spec_campaigns().dom());
                assert forall|c: CampaignId| #![trigger self.spec_campaigns()[c]]
                    o.has_campaign(c) implies {
                        &&& self.spec_campaigns()[c].campaign_status == if ids@.subrange(
                            0,
                            i as int,
                        ).contains(c) && o.spec_campaigns()[c].campaign_status
                            == CampaignStatus::Raising {
                            o.settled_status(c)
                        } else {
                            o.spec_campaigns()[c].campaign_status
                        }
                        &&& self.spec_campaigns()[c].campaign_manager
                            == o.spec_campaigns()[c].campaign_manager
                        &&& self.spec_campaigns()[c].campaign_target_money
                            == o.spec_campaigns()[c].campaign_target_money
                        &&& self.spec_campaigns()[c].campaign_expiry
                            == o.spec_campaigns()[c].campaign_expiry
                    } by {
                    assert(before.spec_campaigns()[c] == before.spec_campaigns()[c]);
                    if c != id {
                        assert(self.spec_campaigns()[c] == before.spec_campaigns()[c]);
                    } else {
                        assert(before.supported_of(c) == o.supported_of(c));
                    }
                }
            }
        }
        proof {
            assert(ids@.subrange(0, ids@.len() as int) =~= ids@);
        }
        events
    }
}


/// A campaign identifier, once created, cannot be created again: a second
/// creation request under the same identifier is refused as a duplicate,
/// whoever sends it and whatever else it asks for.
pub proof fn lemma_identifier_created_once(
    before: Module,
    after: Module,
    bank: Balances,
    bank_after: Balances,
    sender: AccountId,
    id: CampaignId,
    name: Seq<u8>,
    target_money: Balance,
    support_money: Balance,
    expiry: BlockNumber,
    bank_later: Balances,
    sender2: AccountId,
    target2: Balance,
    support2: Balance,
    expiry2: BlockNumber,
    now2: BlockNumber,
)
    requires
        before.creation_effect(
            &after,
            &bank,
            &bank_after,
            sender,
            id,
            name,
            target_money,
            support_money,
            expiry,
        ),
    ensures
        after.creation_error(&bank_later, sender2, id, target2, support2, expiry2, now2) == Some(
            Error::CampaignExists,
        ),
{
    assert(after.spec_campaigns().contains_key(id));
}

/// No height ever has more campaigns expiring at it than the per-height
/// maximum.
pub proof fn lemma_expiry_bucket_bounded(m: Module, h: BlockNumber)
    requires
        m.wf(),
    ensures
        m.bucket(h).len() <= MAX_CAMPAIGNS_PER_BLOCK,
        m.bucket(h).no_duplicates(),
        forall|id: CampaignId|
            #[trigger] m.bucket(h).contains(id) <==> (m.has_campaign(id)
                && m.spec_campaigns()[id].campaign_expiry == h),
{
}

/// The amount a campaign has collected is the sum of the records of its
/// investors.
pub proof fn lemma_total_is_sum_of_records(m: Module, id: CampaignId)
    requires
        m.wf(),
        m.has_campaign(id),
    ensures
        m.supported_of(id) == m.sum_of_records(id),
{
    let accs = m.investors(id);
    let amts = m.amounts(id);
    lemma_records_upto(m, id, accs.len());
    assert(amts.subrange(0, accs.len() as int) =~= amts);
}

proof fn lemma_records_upto(m: Module, id: CampaignId, n: nat)
    requires
        m.wf(),
        m.has_campaign(id),
        n <= m.investors(id).len(),
    ensures
        m.records_upto(id, n) == seq_sum(m.amounts(id).subrange(0, n as int)),
    decreases n,
{
    if n > 0 {
        lemma_records_upto(m, id, (n - 1) as nat);
        lemma_index_of_unique(m.investors(id), n - 1);
        lemma_seq_sum_prefix(m.amounts(id), n - 1);
    } else {
        assert(m.amounts(id).subrange(0, 0) =~= Seq::<Balance>::empty());
    }
}

/// Each campaign stands once in an investor's index, and exactly when the
/// investor has a record for it, however many times the investor invested.
pub proof fn lemma_investor_index_once(m: Module, a: AccountId, id: CampaignId)
    requires
        m.wf(),
    ensures
        m.invested_ids(a).no_duplicates(),
        m.invested_ids(a).contains(id) <==> (m.has_campaign(id) && m.investors(id).contains(a)),
        m.has_campaign(id) ==> m.investors(id).no_duplicates(),
{
}

proof fn lemma_index_of_unique_when_wf(m: &Module, id: CampaignId, j: int)
    requires
        m.wf(),
        m.has_campaign(id),
        0 <= j < m.investors(id).len(),
    ensures
        m.record(id, m.investors(id)[j]) == m.amounts(id)[j],
        j < m.amounts(id).len(),
{
    assert(m.investors(id).contains(m.investors(id)[j]));
    lemma_index_of_unique(m.investors(id), j);
}

/// Over a list without duplicates, two ledgers that agree on what every
/// listed campaign but `c` holds for `a` differ in total by what `c` holds.
proof fn lemma_held_over_frame(
    m1: Module,
    m2: Module,
    ids: Seq<CampaignId>,
    a: AccountId,
    c: CampaignId,
)
    requires
        ids.no_duplicates(),
        forall|x: CampaignId| ids.contains(x) && x != c ==> #[trigger] m1.held(x, a) == m2.held(x, a),
    ensures
        ids.contains(c) ==> m2.held_over(ids, a) + m1.held(c, a) == m1.held_over(ids, a) + m2.held(
            c,
            a,
        ),
        !ids.contains(c) ==> m2.held_over(ids, a) == m1.held_over(ids, a),
    decreases ids.len(),
{
    if ids.len() > 0 {
        let rest = ids.drop_last();
        assert(rest.no_duplicates());
        assert forall|x: CampaignId| rest.contains(x) && x != c implies #[trigger] m1.held(x, a)
            == m2.held(x, a) by {
            let k = rest.index_of(x);
            assert(ids[k] == x);
        }
        lemma_held_over_frame(m1, m2, rest, a, c);
        let l = ids.last();
        assert(ids.contains(l));
        if ids.contains(c) {
            if l == c {
                if rest.contains(c) {
                    let k = rest.index_of(c);
                    assert(ids[k] == ids[ids.len() - 1]);
                }
            } else {
                let k = ids.index_of(c);
                assert(k != ids.len() - 1);
                assert(rest[k] == c);
            }
        } else {
            if rest.contains(c) {
                let k = rest.index_of(c);
                assert(ids[k] == c);
            }
        }
    }
}

/// What one listed campaign holds for `a` is at most what the list holds.
proof fn lemma_held_le_held_over(m: Module, ids: Seq<CampaignId>, a: AccountId, c: CampaignId)
    requires
        ids.contains(c),
    ensures
        m.held(c, a) <= m.held_over(ids, a),
    decreases ids.len(),
{
    let rest = ids.drop_last();
    if ids.last() != c {
        let k = ids.index_of(c);
        assert(rest[k] == c);
        lemma_held_le_held_over(m, rest, a, c);
    }
}

/// Where the reserved balances back the raising campaigns, each raising
/// campaign finds every investor's record in escrow.
pub proof fn lemma_backed_escrow_covers(m: Module, bank: Balances, id: CampaignId)
    requires
        m.wf(),
        m.backed_by(&bank),
        m.has_campaign(id),
        m.spec_campaigns()[id].campaign_status == CampaignStatus::Raising,
    ensures
        m.escrow_covers(&bank, id),
{
    assert(m.all_ids().contains(id));
    assert forall|a: AccountId| #![trigger m.investors(id).contains(a)]
        m.investors(id).contains(a) implies bank.reserved_of(a) >= record_in(
            m.investors(id),
            m.amounts(id),
            a,
        ) by {
        lemma_held_le_held_over(m, m.all_ids(), a, id);
        assert(bank.reserved_of(a) >= m.escrowed(a));
    }
}

/// A ledger without campaigns is backed by any balances.
pub proof fn lemma_empty_ledger_backed(m: Module, bank: Balances)
    requires
        m.all_ids() == Seq::<CampaignId>::empty(),
    ensures
        m.backed_by(&bank),
{
}

proof fn lemma_investment_keeps_backing(
    o: Module,
    n: Module,
    bank0: Balances,
    bank1: Balances,
    sender: AccountId,
    id: CampaignId,
    amount: Balance,
)
    requires
        o.wf(),
        o.has_campaign(id),
        o.investment_effect(&n, &bank0, &bank1, sender, id, amount),
        o.backed_by(&bank0),
    ensures
        n.backed_by(&bank1),
{
    assert(o.all_ids().contains(id));
    assert(o.all_ids().no_duplicates());
    assert forall|a: AccountId| #[trigger] bank1.reserved_of(a) >= n.escrowed(a) by {
        assert forall|x: CampaignId| o.all_ids().contains(x) && x != id implies #[trigger] o.held(
            x,
            a,
        ) == n.held(x, a) by {
            assert(n.investors(x) == o.investors(x));
            assert(n.amounts(x) == o.amounts(x));
        }
        lemma_held_over_frame(o, n, o.all_ids(), a, id);
        assert(bank0.reserved_of(a) >= o.escrowed(a));
        if a != sender {
            assert(n.record(id, a) == o.record(id, a));
            assert(bank1.reserved_of(a) == bank0.reserved_of(a));
        }
    }
}

proof fn lemma_creation_keeps_backing(
    o: Module,
    n: Module,
    bank0: Balances,
    bank1: Balances,
    sender: AccountId,
    id: CampaignId,
    name: Seq<u8>,
    target_money: Balance,
    support_money: Balance,
    expiry: BlockNumber,
)
    requires
        o.wf(),
        !o.has_campaign(id),
        o.creation_effect(
            &n,
            &bank0,
            &bank1,
            sender,
            id,
            name,
            target_money,
            support_money,
            expiry,
        ),
        o.backed_by(&bank0),
    ensures
        n.backed_by(&bank1),
{
    assert(!o.all_ids().contains(id));
    assert(o.all_ids().no_duplicates());
    assert(n.all_ids().drop_last() =~= o.all_ids());
    assert forall|a: AccountId| #[trigger] bank1.reserved_of(a) >= n.escrowed(a) by {
        assert forall|x: CampaignId| o.all_ids().contains(x) && x != id implies #[trigger] o.held(
            x,
            a,
        ) == n.held(x, a) by {
            assert(n.spec_campaigns()[x] == o.spec_campaigns()[x]);
            assert(n.investors(x) == o.investors(x));
            assert(n.amounts(x) == o.amounts(x));
        }
        lemma_held_over_frame(o, n, o.all_ids(), a, id);
        assert(bank0.reserved_of(a) >= o.escrowed(a));
        assert(n.escrowed(a) == n.held_over(o.all_ids(), a) + n.held(id, a));
        if support_money > 0 {
            let accs = n.investors(id);
            assert(accs[0] == sender);
            if accs.contains(a) {
                let k = accs.index_of(a);
                assert(k == 0);
            }
            if a != sender {
                assert(!accs.contains(a));
                assert(bank1.reserved_of(a) == bank0.reserved_of(a));
            }
        } else {
            assert(!n.investors(id).contains(a));
            if a != sender {
                assert(bank1.reserved_of(a) == bank0.reserved_of(a));
            }
        }
    }
}

proof fn lemma_settlement_keeps_backing(
    o: Module,
    n: Module,
    bank0: Balances,
    bank1: Balances,
    id: CampaignId,
    status: CampaignStatus,
)
    requires
        o.wf(),
        o.has_campaign(id),
        o.spec_campaigns()[id].campaign_status == CampaignStatus::Raising,
        status != CampaignStatus::Raising,
        o.status_changed(&n, id, status),
        o.backed_by(&bank0),
        forall|a: AccountId| #[trigger] bank1.reserved_of(a) + o.record(id, a) >= bank0.reserved_of(a),
    ensures
        n.backed_by(&bank1),
{
    assert(o.all_ids().contains(id));
    assert(o.all_ids().no_duplicates());
    assert forall|a: AccountId| #[trigger] bank1.reserved_of(a) >= n.escrowed(a) by {
        assert forall|x: CampaignId| o.all_ids().contains(x) && x != id implies #[trigger] o.held(
            x,
            a,
        ) == n.held(x, a) by {
            assert(n.spec_campaigns()[x] == o.spec_campaigns()[x]);
            assert(n.investors(x) == o.investors(x));
            assert(n.amounts(x) == o.amounts(x));
        }
        lemma_held_over_frame(o, n, o.all_ids(), a, id);
        assert(bank0.reserved_of(a) >= o.escrowed(a));
        assert(bank1.reserved_of(a) + o.record(id, a) >= bank0.reserved_of(a));
        assert(n.held(id, a) == 0);
        assert(o.held(id, a) == o.record(id, a));
    }
}

/// Whether the reserved balances back the ledger depends on the reserved
/// balances alone: changing free balances keeps the backing, and so does
/// reserving more.
pub proof fn lemma_backing_needs_reserved_only(m: Module, bank0: Balances, bank1: Balances)
    requires
        m.backed_by(&bank0),
        forall|a: AccountId| #[trigger] bank1.reserved_of(a) >= bank0.reserved_of(a),
    ensures
        m.backed_by(&bank1),
{
    assert forall|a: AccountId| #[trigger] bank1.reserved_of(a) >= m.escrowed(a) by {
        assert(bank0.reserved_of(a) >= m.escrowed(a));
    }
}

} // verus!
