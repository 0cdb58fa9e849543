//! Settlement of a campaign's escrow: refunding every investor, or paying
//! every investor's amount out to the owner.
use crate::balances::{min_nat, AccountId, Balance, Balances};
use crate::seqs::{
    lemma_index_of_unique, lemma_not_in_prefix, lemma_push_contains, lemma_seq_sum_nonneg,
    lemma_seq_sum_prefix, record_in, seq_sum,
};
use vstd::prelude::*;

verus! {

/// Every listed account has at least its recorded amount in escrow.
pub open spec fn escrow_intact(bank: &Balances, accs: Seq<AccountId>, amts: Seq<Balance>) -> bool {
    forall|a: AccountId|
        #![trigger accs.contains(a)]
        accs.contains(a) ==> bank.reserved_of(a) >= record_in(accs, amts, a)
}

/// Unreserves each listed account's amount: the refund of a failed campaign.
pub fn refund(bank: &mut Balances, accounts: &Vec<AccountId>, amounts: &Vec<Balance>)
    requires
        old(bank).wf(),
        accounts@.no_duplicates(),
        accounts@.len() == amounts@.len(),
    ensures
        final(bank).wf(),
        forall|a: AccountId|
            #![trigger final(bank).reserved_of(a)]
            #![trigger final(bank).free_of(a)]
            final(bank).reserved_of(a) == old(bank).reserved_of(a) - min_nat(
                record_in(accounts@, amounts@, a),
                old(bank).reserved_of(a),
            ) && final(bank).free_of(a) == old(bank).free_of(a) + min_nat(
                record_in(accounts@, amounts@, a),
                old(bank).reserved_of(a),
            ),
{
    let mut i: usize = 0;
    while i < accounts.len()
        invariant
            bank.wf(),
            i <= accounts@.len(),
            accounts@.len() == amounts@.len(),
            accounts@.no_duplicates(),
            forall|a: AccountId| #[trigger]
                bank.reserved_of(a) == if accounts@.subrange(0, i as int).contains(a) {
                    old(bank).reserved_of(a) - min_nat(
                        record_in(accounts@, amounts@, a),
                        old(bank).reserved_of(a),
                    )
                } else {
                    old(bank).reserved_of(a) as int
                } && bank.free_of(a) == if accounts@.subrange(0, i as int).contains(a) {
                    (old(bank).free_of(a) + min_nat(
                        record_in(accounts@, amounts@, a),
                        old(bank).reserved_of(a),
                    )) as int
                } else {
                    old(bank).free_of(a) as int
                },
        decreases accounts.len() - i,
    {
        let ghost prefix = accounts@.subrange(0, i as int);
        let ghost who = accounts@[i as int];
        proof {
            lemma_index_of_unique(accounts@, i as int);
            lemma_not_in_prefix(accounts@, i as int);
            assert(accounts@.subrange(0, i + 1) =~= prefix.push(who));
        }
        let ghost before = *bank;
        let _ = bank.unreserve(accounts[i], amounts[i]);
        i = i + 1;
        proof {
            assert(bank.same_except(&before, who));
            assert(record_in(accounts@, amounts@, who) == amounts@[i - 1]);
            assert(before.reserved_of(who) == old(bank).reserved_of(who));
            assert(before.free_of(who) == old(bank).free_of(who));
            assert forall|a: AccountId| #[trigger]
                accounts@.subrange(0, i as int).contains(a) == (prefix.contains(a) || a == who) by {
                lemma_push_contains(prefix, who, a);
            }
            assert forall|a: AccountId| a != who implies #[trigger] bank.reserved_of(a)
                == before.reserved_of(a) && bank.free_of(a) == before.free_of(a) by {}
        }
    }
    proof {
        assert(accounts@.subrange(0, i as int) =~= accounts@);
    }
}

/// Unreserves each listed account's amount and transfers it to `owner`,
/// stopping at the first transfer that is refused; returns whether none was.
/// Where every account has its amount in escrow and `owner` has room for
/// the sum, no transfer is refused: every account but `owner` ends with its
/// free balance as before and its amount gone from escrow, and `owner` has
/// the sum added to its free balance and its own amount unreserved.
pub fn pay_out(
    bank: &mut Balances,
    owner: AccountId,
    accounts: &Vec<AccountId>,
    amounts: &Vec<Balance>,
) -> (no_error: bool)
    requires
        old(bank).wf(),
        accounts@.no_duplicates(),
        accounts@.len() == amounts@.len(),
    ensures
        final(bank).wf(),
        forall|a: AccountId| #[trigger]
            final(bank).reserved_of(a) + record_in(accounts@, amounts@, a) >= old(bank).reserved_of(a),
        escrow_intact(&*old(bank), accounts@, amounts@) && old(bank).free_of(owner) + old(bank).reserved_of(owner) + seq_sum(amounts@)
            <= u128::MAX ==> {
            &&& no_error
            &&& forall|a: AccountId| #[trigger]
                final(bank).free_of(a) == if a == owner {
                    old(bank).free_of(a) + seq_sum(amounts@)
                } else {
                    old(bank).free_of(a) as int
                }
            &&& forall|a: AccountId| #[trigger]
                final(bank).reserved_of(a) == old(bank).reserved_of(a) - record_in(
                    accounts@,
                    amounts@,
                    a,
                )
        },
{
    let ghost covered = escrow_intact(&*old(bank), accounts@, amounts@) && old(bank).free_of(owner) + old(bank).reserved_of(owner) + seq_sum(amounts@)
        <= u128::MAX;
    let mut no_error = true;
    let mut i: usize = 0;
    while i < accounts.len() && no_error
        invariant
            bank.wf(),
            i <= accounts@.len(),
            accounts@.len() == amounts@.len(),
            accounts@.no_duplicates(),
            covered == (escrow_intact(&*old(bank), accounts@, amounts@) && old(bank).free_of(owner)
                + old(bank).reserved_of(owner) + seq_sum(amounts@) <= u128::MAX),
            covered ==> no_error,
            forall|a: AccountId| #[trigger]
                bank.reserved_of(a) + (if accounts@.subrange(0, i as int).contains(a) {
                    record_in(accounts@, amounts@, a)
                } else {
                    0
                }) >= old(bank).reserved_of(a),
            forall|a: AccountId|
                !accounts@.subrange(0, i as int).contains(a) ==> #[trigger] bank.reserved_of(a)
                    == old(bank).reserved_of(a),
            covered ==> forall|a: AccountId| #[trigger]
                bank.free_of(a) == if a == owner {
                    old(bank).free_of(a) + seq_sum(amounts@.subrange(0, i as int))
                } else {
                    old(bank).free_of(a) as int
                },
            covered ==> forall|a: AccountId| #[trigger]
                bank.reserved_of(a) == if accounts@.subrange(0, i as int).contains(a) {
                    old(bank).reserved_of(a) - record_in(accounts@, amounts@, a)
                } else {
                    old(bank).reserved_of(a) as int
                },
        decreases accounts.len() - i,
    {
        let ghost prefix = accounts@.subrange(0, i as int);
        let ghost who = accounts@[i as int];
        let ghost before = *bank;
        proof {
            lemma_index_of_unique(accounts@, i as int);
            lemma_not_in_prefix(accounts@, i as int);
            assert(accounts@.subrange(0, i + 1) =~= prefix.push(who));
            lemma_seq_sum_prefix(amounts@, i as int);
            lemma_seq_sum_prefix(amounts@, i + 1);
            lemma_seq_sum_nonneg(amounts@.subrange(0, i as int));
            if covered {
                assert(accounts@.contains(who));
            }
        }
        let investor = accounts[i];
        let amount = amounts[i];
        proof {
            assert(record_in(accounts@, amounts@, who) == amount);
            if covered {
                assert(bank.reserved_of(who) == old(bank).reserved_of(who));
                assert(accounts@.contains(who));
                assert(old(bank).reserved_of(who) >= record_in(accounts@, amounts@, who));
                assert(bank.reserved_of(who) >= amount);
                assert(bank.reserved_of(owner) <= old(bank).reserved_of(owner));
            }
        }
        let _ = bank.unreserve(investor, amount);
        let ghost middle = *bank;
        if investor != owner {
            let transferred = bank.transfer(investor, owner, amount);
            if transferred.is_err() {
                no_error = false;
            }
        }
        i = i + 1;
        proof {
            assert forall|a: AccountId| #[trigger]
                accounts@.subrange(0, i as int).contains(a) == (prefix.contains(a) || a == who) by {
                lemma_push_contains(prefix, who, a);
            }
            assert(before.reserved_of(who) == old(bank).reserved_of(who));
            assert forall|a: AccountId| #[trigger] bank.reserved_of(a) == middle.reserved_of(a) by {}
            assert forall|a: AccountId| a != who implies #[trigger] middle.reserved_of(a)
                == before.reserved_of(a) by {}
            if covered {
                assert(middle.reserved_of(who) == before.reserved_of(who) - amount);
                assert(middle.free_of(who) == before.free_of(who) + amount);
                assert forall|a: AccountId| a != who implies #[trigger] middle.reserved_of(a)
                    == before.reserved_of(a) && middle.free_of(a) == before.free_of(a) by {}
                if investor != owner {
                    assert(before.free_of(owner) == old(bank).free_of(owner) + seq_sum(
                        amounts@.subrange(0, i - 1),
                    ));
                    assert(before.reserved_of(owner) <= old(bank).reserved_of(owner));
                    assert(middle.free_of(owner) == before.free_of(owner));
                    assert(middle.reserved_of(owner) == before.reserved_of(owner));
                    assert(seq_sum(amounts@.subrange(0, i as int)) <= seq_sum(amounts@));
                    assert(middle.free_of(owner) + middle.reserved_of(owner) + amount
                        <= u128::MAX);
                    assert(no_error);
                }
                assert(no_error);
                assert forall|a: AccountId| #[trigger]
                    bank.free_of(a) == if a == owner {
                        old(bank).free_of(a) + seq_sum(amounts@.subrange(0, i as int))
                    } else {
                        old(bank).free_of(a) as int
                    } by {
                    if a != who && a != owner {
                        assert(bank.free_of(a) == middle.free_of(a));
                    }
                }
                assert forall|a: AccountId| #[trigger]
                    bank.reserved_of(a) == if accounts@.subrange(0, i as int).contains(a) {
                        old(bank).reserved_of(a) - record_in(accounts@, amounts@, a)
                    } else {
                        old(bank).reserved_of(a) as int
                    } by {
                    assert(bank.reserved_of(a) == middle.reserved_of(a));
                }
            }
        }
    }
    proof {
        assert(accounts@.subrange(0, accounts@.len() as int) =~= accounts@);
        assert(amounts@.subrange(0, amounts@.len() as int) =~= amounts@);
        assert forall|a: AccountId| #[trigger]
            bank.reserved_of(a) + record_in(accounts@, amounts@, a) >= old(bank).reserved_of(a) by {
            if !accounts@.subrange(0, i as int).contains(a) {
                assert(bank.reserved_of(a) == old(bank).reserved_of(a));
            }
        }
        if covered {
            assert(i == accounts@.len());
            assert forall|a: AccountId|
                !accounts@.contains(a) implies #[trigger] record_in(accounts@, amounts@, a) == 0 by {}
        }
    }
    no_error
}

} // verus!
