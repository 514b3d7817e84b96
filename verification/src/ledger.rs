//! The wrapped-asset side of the bridge: per-asset account balances and
//! supply counters, mutated only by mint and burn, gated by quorum
//! verification and the replay guard.
//!
//! Conservation is the standing invariant: after every transition each
//! asset's total supply equals the sum of its account balances.

use crate::codec::spec_deserialize;
use crate::bytesops::bytes32_eq;
use crate::message::{ChainId, VAA};
use crate::quorum::{keys_view, spec_quorum_met};
use crate::replay::ProcessedNonceSet;
use crate::BridgeError;
use vstd::prelude::*;

verus! {

/// One authorized guardian: its Ed25519 public key.
#[derive(Debug, Clone, Copy)]
pub struct Guardian {
    pub pubkey: [u8; 32],
}

/// One account's balance in one wrapped asset.
#[derive(Debug, Clone, Copy)]
pub struct AccountBalance {
    pub account: [u8; 32],
    pub balance: u128,
}

/// The balances and the supply counter of one wrapped asset.
#[derive(Debug)]
pub struct AssetBook {
    pub asset_id: [u8; 32],
    pub balances: Vec<AccountBalance>,
    pub supply: u128,
}

/// The byte strings of a guardian roster.
pub open spec fn guardian_keys(gs: Seq<Guardian>) -> Seq<Seq<u8>> {
    Seq::new(gs.len(), |i: int| gs[i].pubkey@)
}

/// The sum of all balances in a book.
pub open spec fn sum_balances(s: Seq<AccountBalance>) -> int
    decreases s.len(),
{
    if s.len() == 0 {
        0
    } else {
        s[0].balance + sum_balances(s.drop_first())
    }
}

/// Whether some entry of the book belongs to `account`.
pub open spec fn has_account(s: Seq<AccountBalance>, account: Seq<u8>) -> bool {
    exists|i: int| 0 <= i < s.len() && (#[trigger] s[i]).account@ == account
}

/// The balance of `account` in the book, zero when absent.
pub open spec fn spec_book_balance(s: Seq<AccountBalance>, account: Seq<u8>) -> u128
    decreases s.len(),
{
    if s.len() == 0 {
        0
    } else if s[0].account@ == account {
        s[0].balance
    } else {
        spec_book_balance(s.drop_first(), account)
    }
}

/// No two entries of the book name one account.
pub open spec fn distinct_accounts(s: Seq<AccountBalance>) -> bool {
    forall|i: int, j: int|
        0 <= i < j < s.len() ==> (#[trigger] s[i]).account@ != (#[trigger] s[j]).account@
}

/// Whether some book carries `asset`.
pub open spec fn has_asset(s: Seq<AssetBook>, asset: Seq<u8>) -> bool {
    exists|i: int| 0 <= i < s.len() && (#[trigger] s[i]).asset_id@ == asset
}

/// No two books name one asset.
pub open spec fn distinct_assets(s: Seq<AssetBook>) -> bool {
    forall|i: int, j: int|
        0 <= i < j < s.len() ==> (#[trigger] s[i]).asset_id@ != (#[trigger] s[j]).asset_id@
}

/// The recorded supply of `asset`, zero when no book carries it.
pub open spec fn spec_asset_supply(s: Seq<AssetBook>, asset: Seq<u8>) -> u128
    decreases s.len(),
{
    if s.len() == 0 {
        0
    } else if s[0].asset_id@ == asset {
        s[0].supply
    } else {
        spec_asset_supply(s.drop_first(), asset)
    }
}

/// The balance of `account` in `asset`, zero when either is absent.
pub open spec fn spec_asset_balance(s: Seq<AssetBook>, asset: Seq<u8>, account: Seq<u8>) -> u128
    decreases s.len(),
{
    if s.len() == 0 {
        0
    } else if s[0].asset_id@ == asset {
        spec_book_balance(s[0].balances@, account)
    } else {
        spec_asset_balance(s.drop_first(), asset, account)
    }
}

/// A sum of balances is never negative.
pub proof fn lemma_sum_nonneg(s: Seq<AccountBalance>)
    ensures
        sum_balances(s) >= 0,
    decreases s.len(),
{
    if s.len() > 0 {
        lemma_sum_nonneg(s.drop_first());
    }
}

/// No single balance exceeds the sum of all of them.
pub proof fn lemma_book_balance_le_sum(s: Seq<AccountBalance>, account: Seq<u8>)
    ensures
        spec_book_balance(s, account) <= sum_balances(s),
    decreases s.len(),
{
    if s.len() > 0 {
        if s[0].account@ == account {
            lemma_sum_nonneg(s.drop_first());
        } else {
            lemma_book_balance_le_sum(s.drop_first(), account);
        }
    }
}

/// In a book with distinct accounts, an entry that names `account`
/// gives its balance.
pub proof fn lemma_book_found(s: Seq<AccountBalance>, i: int, account: Seq<u8>)
    requires
        distinct_accounts(s),
        0 <= i < s.len(),
        s[i].account@ == account,
    ensures
        has_account(s, account),
        spec_book_balance(s, account) == s[i].balance,
    decreases s.len(),
{
    if i > 0 {
        assert(s.drop_first()[i - 1] == s[i]);
        lemma_book_found(s.drop_first(), i - 1, account);
    }
}

/// A book with no entry for `account` gives it balance zero.
pub proof fn lemma_book_absent(s: Seq<AccountBalance>, account: Seq<u8>)
    requires
        !has_account(s, account),
    ensures
        spec_book_balance(s, account) == 0,
    decreases s.len(),
{
    if s.len() > 0 {
        assert(forall|k: int|
            0 <= k < s.drop_first().len() ==> (#[trigger] s.drop_first()[k]) == s[k + 1]);
        lemma_book_absent(s.drop_first(), account);
    }
}

/// Replacing one entry by another for the same account changes the sum
/// by the difference and no other account's balance.
pub proof fn lemma_book_update(s: Seq<AccountBalance>, i: int, e: AccountBalance)
    requires
        distinct_accounts(s),
        0 <= i < s.len(),
        e.account@ == s[i].account@,
    ensures
        distinct_accounts(s.update(i, e)),
        sum_balances(s.update(i, e)) == sum_balances(s) - s[i].balance + e.balance,
        forall|acc: Seq<u8>|
            #[trigger] spec_book_balance(s.update(i, e), acc) == if acc == e.account@ {
                e.balance
            } else {
                spec_book_balance(s, acc)
            },
    decreases s.len(),
{
    let t = s.update(i, e);
    assert(forall|k: int| 0 <= k < t.len() ==> (#[trigger] t[k]).account@ == s[k].account@);
    if i == 0 {
        assert(t.drop_first() =~= s.drop_first());
        assert forall|acc: Seq<u8>|
            #[trigger] spec_book_balance(t, acc) == (if acc == e.account@ {
                e.balance
            } else {
                spec_book_balance(s, acc)
            }) by {
            if acc != e.account@ {
                assert(s[0].account@ != acc);
                assert(spec_book_balance(t, acc) == spec_book_balance(t.drop_first(), acc));
                assert(spec_book_balance(s, acc) == spec_book_balance(s.drop_first(), acc));
            }
        }
    } else {
        assert(t.drop_first() =~= s.drop_first().update(i - 1, e));
        assert(s.drop_first()[i - 1] == s[i]);
        lemma_book_update(s.drop_first(), i - 1, e);
        assert(s[0].account@ != e.account@);
        assert forall|acc: Seq<u8>|
            #[trigger] spec_book_balance(t, acc) == (if acc == e.account@ {
                e.balance
            } else {
                spec_book_balance(s, acc)
            }) by {
            assert(spec_book_balance(s.drop_first().update(i - 1, e), acc) == (if acc
                == e.account@ {
                e.balance
            } else {
                spec_book_balance(s.drop_first(), acc)
            }));
            assert(spec_book_balance(t, acc) == (if t[0].account@ == acc {
                t[0].balance
            } else {
                spec_book_balance(t.drop_first(), acc)
            }));
            assert(spec_book_balance(s, acc) == (if s[0].account@ == acc {
                s[0].balance
            } else {
                spec_book_balance(s.drop_first(), acc)
            }));
        }
    }
}

/// Appending an entry for a fresh account adds its balance to the sum
/// and leaves every other account's balance alone.
pub proof fn lemma_book_push(s: Seq<AccountBalance>, e: AccountBalance)
    requires
        distinct_accounts(s),
        !has_account(s, e.account@),
    ensures
        distinct_accounts(s.push(e)),
        sum_balances(s.push(e)) == sum_balances(s) + e.balance,
        forall|acc: Seq<u8>|
            #[trigger] spec_book_balance(s.push(e), acc) == if acc == e.account@ {
                e.balance
            } else {
                spec_book_balance(s, acc)
            },
    decreases s.len(),
{
    let t = s.push(e);
    assert(forall|k: int| 0 <= k < s.len() ==> (#[trigger] t[k]) == s[k]);
    if s.len() == 0 {
        assert(t.drop_first() =~= Seq::<AccountBalance>::empty());
        assert(sum_balances(Seq::<AccountBalance>::empty()) == 0);
        assert(sum_balances(s) == 0);
        assert(sum_balances(t) == t[0].balance + sum_balances(t.drop_first()));
        assert forall|acc: Seq<u8>|
            #[trigger] spec_book_balance(t, acc) == (if acc == e.account@ {
                e.balance
            } else {
                spec_book_balance(s, acc)
            }) by {
            assert(spec_book_balance(Seq::<AccountBalance>::empty(), acc) == 0);
            assert(spec_book_balance(t, acc) == (if t[0].account@ == acc {
                t[0].balance
            } else {
                spec_book_balance(t.drop_first(), acc)
            }));
            assert(spec_book_balance(s, acc) == 0);
        }
    } else {
        assert(t.drop_first() =~= s.drop_first().push(e));
        assert(forall|k: int|
            0 <= k < s.drop_first().len() ==> (#[trigger] s.drop_first()[k]) == s[k + 1]);
        assert(!has_account(s.drop_first(), e.account@));
        lemma_book_push(s.drop_first(), e);
        assert forall|acc: Seq<u8>|
            #[trigger] spec_book_balance(t, acc) == (if acc == e.account@ {
                e.balance
            } else {
                spec_book_balance(s, acc)
            }) by {
            assert(spec_book_balance(s.drop_first().push(e), acc) == (if acc == e.account@ {
                e.balance
            } else {
                spec_book_balance(s.drop_first(), acc)
            }));
            assert(spec_book_balance(t, acc) == (if t[0].account@ == acc {
                t[0].balance
            } else {
                spec_book_balance(t.drop_first(), acc)
            }));
            assert(spec_book_balance(s, acc) == (if s[0].account@ == acc {
                s[0].balance
            } else {
                spec_book_balance(s.drop_first(), acc)
            }));
            if acc == e.account@ {
                assert(s[0].account@ != acc);
            }
        }
    }
}

/// In a roster of distinct assets, the book that names `asset` gives
/// its supply and balances.
pub proof fn lemma_asset_found(s: Seq<AssetBook>, i: int, asset: Seq<u8>)
    requires
        distinct_assets(s),
        0 <= i < s.len(),
        s[i].asset_id@ == asset,
    ensures
        has_asset(s, asset),
        spec_asset_supply(s, asset) == s[i].supply,
        forall|acc: Seq<u8>|
            #[trigger] spec_asset_balance(s, asset, acc) == spec_book_balance(s[i].balances@, acc),
    decreases s.len(),
{
    if i > 0 {
        assert(s.drop_first()[i - 1] == s[i]);
        lemma_asset_found(s.drop_first(), i - 1, asset);
        assert(s[0].asset_id@ != asset);
        assert forall|acc: Seq<u8>|
            #[trigger] spec_asset_balance(s, asset, acc) == spec_book_balance(
                s[i].balances@,
                acc,
            ) by {
            assert(spec_asset_balance(s.drop_first(), asset, acc) == spec_book_balance(
                s.drop_first()[i - 1].balances@,
                acc,
            ));
            assert(spec_asset_balance(s, asset, acc) == spec_asset_balance(
                s.drop_first(),
                asset,
                acc,
            ));
        }
    }
}

/// Without a book for `asset`, its supply and every balance in it are
/// zero.
pub proof fn lemma_asset_absent(s: Seq<AssetBook>, asset: Seq<u8>)
    requires
        !has_asset(s, asset),
    ensures
        spec_asset_supply(s, asset) == 0,
        forall|acc: Seq<u8>| #[trigger] spec_asset_balance(s, asset, acc) == 0,
    decreases s.len(),
{
    if s.len() > 0 {
        assert(forall|k: int|
            0 <= k < s.drop_first().len() ==> (#[trigger] s.drop_first()[k]) == s[k + 1]);
        assert(!has_asset(s.drop_first(), asset));
        lemma_asset_absent(s.drop_first(), asset);
        assert forall|acc: Seq<u8>| #[trigger] spec_asset_balance(s, asset, acc) == 0 by {
            assert(spec_asset_balance(s.drop_first(), asset, acc) == 0);
            assert(spec_asset_balance(s, asset, acc) == spec_asset_balance(
                s.drop_first(),
                asset,
                acc,
            ));
        }
    }
}

/// Replacing one asset's book touches no other asset's supply or
/// balances.
pub proof fn lemma_asset_update(s: Seq<AssetBook>, i: int, nb: AssetBook)
    requires
        distinct_assets(s),
        0 <= i < s.len(),
        nb.asset_id@ == s[i].asset_id@,
    ensures
        distinct_assets(s.update(i, nb)),
        forall|a: Seq<u8>|
            #[trigger] spec_asset_supply(s.update(i, nb), a) == if a == nb.asset_id@ {
                nb.supply
            } else {
                spec_asset_supply(s, a)
            },
        forall|a: Seq<u8>, acc: Seq<u8>|
            #[trigger] spec_asset_balance(s.update(i, nb), a, acc) == if a == nb.asset_id@ {
                spec_book_balance(nb.balances@, acc)
            } else {
                spec_asset_balance(s, a, acc)
            },
    decreases s.len(),
{
    let t = s.update(i, nb);
    assert(forall|k: int| 0 <= k < t.len() ==> (#[trigger] t[k]).asset_id@ == s[k].asset_id@);
    if i == 0 {
        assert(t.drop_first() =~= s.drop_first());
        assert forall|a: Seq<u8>|
            #[trigger] spec_asset_supply(t, a) == (if a == nb.asset_id@ {
                nb.supply
            } else {
                spec_asset_supply(s, a)
            }) by {
            if a != nb.asset_id@ {
                assert(s[0].asset_id@ != a);
                assert(spec_asset_supply(t, a) == spec_asset_supply(t.drop_first(), a));
                assert(spec_asset_supply(s, a) == spec_asset_supply(s.drop_first(), a));
            }
        }
        assert forall|a: Seq<u8>, acc: Seq<u8>|
            #[trigger] spec_asset_balance(t, a, acc) == (if a == nb.asset_id@ {
                spec_book_balance(nb.balances@, acc)
            } else {
                spec_asset_balance(s, a, acc)
            }) by {
            if a != nb.asset_id@ {
                assert(s[0].asset_id@ != a);
                assert(spec_asset_balance(t, a, acc) == spec_asset_balance(t.drop_first(), a, acc));
                assert(spec_asset_balance(s, a, acc) == spec_asset_balance(s.drop_first(), a, acc));
            }
        }
    } else {
        assert(t.drop_first() =~= s.drop_first().update(i - 1, nb));
        assert(s.drop_first()[i - 1] == s[i]);
        lemma_asset_update(s.drop_first(), i - 1, nb);
        assert(s[0].asset_id@ != nb.asset_id@);
        assert forall|a: Seq<u8>|
            #[trigger] spec_asset_supply(t, a) == (if a == nb.asset_id@ {
                nb.supply
            } else {
                spec_asset_supply(s, a)
            }) by {
            assert(spec_asset_supply(s.drop_first().update(i - 1, nb), a) == (if a
                == nb.asset_id@ {
                nb.supply
            } else {
                spec_asset_supply(s.drop_first(), a)
            }));
            assert(spec_asset_supply(t, a) == (if t[0].asset_id@ == a {
                t[0].supply
            } else {
                spec_asset_supply(t.drop_first(), a)
            }));
            assert(spec_asset_supply(s, a) == (if s[0].asset_id@ == a {
                s[0].supply
            } else {
                spec_asset_supply(s.drop_first(), a)
            }));
        }
        assert forall|a: Seq<u8>, acc: Seq<u8>|
            #[trigger] spec_asset_balance(t, a, acc) == (if a == nb.asset_id@ {
                spec_book_balance(nb.balances@, acc)
            } else {
                spec_asset_balance(s, a, acc)
            }) by {
            assert(spec_asset_balance(s.drop_first().update(i - 1, nb), a, acc) == (if a
                == nb.asset_id@ {
                spec_book_balance(nb.balances@, acc)
            } else {
                spec_asset_balance(s.drop_first(), a, acc)
            }));
            assert(spec_asset_balance(t, a, acc) == (if t[0].asset_id@ == a {
                spec_book_balance(t[0].balances@, acc)
            } else {
                spec_asset_balance(t.drop_first(), a, acc)
            }));
            assert(spec_asset_balance(s, a, acc) == (if s[0].asset_id@ == a {
                spec_book_balance(s[0].balances@, acc)
            } else {
                spec_asset_balance(s.drop_first(), a, acc)
            }));
        }
    }
}

/// Appending a book for a fresh asset touches no other asset.
pub proof fn lemma_asset_push(s: Seq<AssetBook>, nb: AssetBook)
    requires
        distinct_assets(s),
        !has_asset(s, nb.asset_id@),
    ensures
        distinct_assets(s.push(nb)),
        forall|a: Seq<u8>|
            #[trigger] spec_asset_supply(s.push(nb), a) == if a == nb.asset_id@ {
                nb.supply
            } else {
                spec_asset_supply(s, a)
            },
        forall|a: Seq<u8>, acc: Seq<u8>|
            #[trigger] spec_asset_balance(s.push(nb), a, acc) == if a == nb.asset_id@ {
                spec_book_balance(nb.balances@, acc)
            } else {
                spec_asset_balance(s, a, acc)
            },
    decreases s.len(),
{
    let t = s.push(nb);
    assert(forall|k: int| 0 <= k < s.len() ==> (#[trigger] t[k]) == s[k]);
    if s.len() == 0 {
        assert(t.drop_first() =~= Seq::<AssetBook>::empty());
        assert forall|a: Seq<u8>|
            #[trigger] spec_asset_supply(t, a) == (if a == nb.asset_id@ {
                nb.supply
            } else {
                spec_asset_supply(s, a)
            }) by {
            assert(spec_asset_supply(Seq::<AssetBook>::empty(), a) == 0);
            assert(spec_asset_supply(t, a) == (if t[0].asset_id@ == a {
                t[0].supply
            } else {
                spec_asset_supply(t.drop_first(), a)
            }));
            assert(spec_asset_supply(s, a) == 0);
        }
        assert forall|a: Seq<u8>, acc: Seq<u8>|
            #[trigger] spec_asset_balance(t, a, acc) == (if a == nb.asset_id@ {
                spec_book_balance(nb.balances@, acc)
            } else {
                spec_asset_balance(s, a, acc)
            }) by {
            assert(spec_asset_balance(Seq::<AssetBook>::empty(), a, acc) == 0);
            assert(spec_asset_balance(t, a, acc) == (if t[0].asset_id@ == a {
                spec_book_balance(t[0].balances@, acc)
            } else {
                spec_asset_balance(t.drop_first(), a, acc)
            }));
            assert(spec_asset_balance(s, a, acc) == 0);
        }
    } else {
        assert(t.drop_first() =~= s.drop_first().push(nb));
        assert(forall|k: int|
            0 <= k < s.drop_first().len() ==> (#[trigger] s.drop_first()[k]) == s[k + 1]);
        assert(!has_asset(s.drop_first(), nb.asset_id@));
        lemma_asset_push(s.drop_first(), nb);
        assert forall|a: Seq<u8>|
            #[trigger] spec_asset_supply(t, a) == (if a == nb.asset_id@ {
                nb.supply
            } else {
                spec_asset_supply(s, a)
            }) by {
            assert(spec_asset_supply(s.drop_first().push(nb), a) == (if a == nb.asset_id@ {
                nb.supply
            } else {
                spec_asset_supply(s.drop_first(), a)
            }));
            assert(spec_asset_supply(t, a) == (if t[0].asset_id@ == a {
                t[0].supply
            } else {
                spec_asset_supply(t.drop_first(), a)
            }));
            assert(spec_asset_supply(s, a) == (if s[0].asset_id@ == a {
                s[0].supply
            } else {
                spec_asset_supply(s.drop_first(), a)
            }));
            if a == nb.asset_id@ {
                assert(s[0].asset_id@ != a);
            }
        }
        assert forall|a: Seq<u8>, acc: Seq<u8>|
            #[trigger] spec_asset_balance(t, a, acc) == (if a == nb.asset_id@ {
                spec_book_balance(nb.balances@, acc)
            } else {
                spec_asset_balance(s, a, acc)
            }) by {
            assert(spec_asset_balance(s.drop_first().push(nb), a, acc) == (if a == nb.asset_id@ {
                spec_book_balance(nb.balances@, acc)
            } else {
                spec_asset_balance(s.drop_first(), a, acc)
            }));
            assert(spec_asset_balance(t, a, acc) == (if t[0].asset_id@ == a {
                spec_book_balance(t[0].balances@, acc)
            } else {
                spec_asset_balance(t.drop_first(), a, acc)
            }));
            assert(spec_asset_balance(s, a, acc) == (if s[0].asset_id@ == a {
                spec_book_balance(s[0].balances@, acc)
            } else {
                spec_asset_balance(s.drop_first(), a, acc)
            }));
            if a == nb.asset_id@ {
                assert(s[0].asset_id@ != a);
            }
        }
    }
}

impl AssetBook {
    /// Conservation and uniqueness inside one book.
    pub open spec fn wf(self) -> bool {
        &&& self.supply as int == sum_balances(self.balances@)
        &&& distinct_accounts(self.balances@)
    }
}

/// The wrapped-asset ledger: guardians, quorum, replay guard, and the
/// per-asset books, owned by one contract identity.
#[derive(Debug)]
pub struct NearBridge {
    /// Principal allowed to replace the guardian roster.
    pub owner: [u8; 32],
    /// This contract's identity; messages must name it as destination.
    pub contract_id: [u8; 32],
    /// Authorized guardian public keys.
    pub guardians: Vec<Guardian>,
    /// Required signature quorum.
    pub quorum: u32,
    /// Processed message nonces (replay protection).
    pub processed_vaas: ProcessedNonceSet,
    /// Wrapped balances and supply, one book per asset.
    pub assets: Vec<AssetBook>,
}

impl NearBridge {
    /// Well-formedness: a meaningful quorum, distinct books, and
    /// conservation in every book.
    pub open spec fn wf(self) -> bool {
        &&& 0 < self.quorum <= self.guardians@.len()
        &&& distinct_assets(self.assets@)
        &&& forall|i: int| 0 <= i < self.assets@.len() ==> (#[trigger] self.assets@[i]).wf()
    }
}

/// Conservation: in a well-formed ledger every asset's recorded supply
/// equals the sum of its account balances.  Every transition below
/// keeps `wf`, so this holds after any sequence of lock, mint, burn and
/// release operations.
pub proof fn lemma_conservation(s: NearBridge, i: int)
    requires
        s.wf(),
        0 <= i < s.assets@.len(),
    ensures
        s.assets@[i].supply as int == sum_balances(s.assets@[i].balances@),
{
}

/// The exact outcome of a mint: the first failing check names the
/// error, and only a message that passes them all is applied.
pub open spec fn spec_mint_result(s: NearBridge, data: Seq<u8>) -> Result<(), BridgeError> {
    match spec_deserialize(data) {
        Option::None => Result::Err(BridgeError::MalformedMessage),
        Option::Some(v) => {
            if !(v.destination_chain == ChainId::Near && v.destination_contract
                == s.contract_id@) {
                Result::Err(BridgeError::WrongDestination)
            } else if !spec_quorum_met(v, guardian_keys(s.guardians@), s.quorum as int) {
                Result::Err(BridgeError::VerificationFailed)
            } else if s.processed_vaas@.contains(v.nonce) {
                Result::Err(BridgeError::AlreadyProcessed)
            } else if spec_asset_supply(s.assets@, v.asset_id) + v.amount > u128::MAX {
                Result::Err(BridgeError::Overflow)
            } else {
                Result::Ok(())
            }
        },
    }
}

/// Replay protection, stated once and for all: a message whose nonce
/// already stands processed can never mint, whatever else it carries.
pub proof fn lemma_replay_refused(s: NearBridge, data: Seq<u8>)
    requires
        spec_deserialize(data) matches Some(v) && s.processed_vaas@.contains(v.nonce),
    ensures
        !(spec_mint_result(s, data) is Ok),
{
}

/// The exact outcome of a burn.
pub open spec fn spec_burn_result(
    s: NearBridge,
    caller: [u8; 32],
    asset_id: [u8; 32],
    amount: u128,
) -> Result<(), BridgeError> {
    if amount == 0 {
        Result::Err(BridgeError::InvalidAmount)
    } else if !has_asset(s.assets@, asset_id@) {
        Result::Err(BridgeError::AssetNotFound)
    } else if spec_asset_balance(s.assets@, asset_id@, caller@) < amount {
        Result::Err(BridgeError::InsufficientBalance)
    } else {
        Result::Ok(())
    }
}

/// The exact outcome of a guardian-roster update.
pub open spec fn spec_update_guardians_result(
    s: NearBridge,
    caller: [u8; 32],
    new_guardians: Seq<[u8; 32]>,
    new_quorum: u32,
) -> Result<(), BridgeError> {
    if caller@ != s.owner@ {
        Result::Err(BridgeError::NotOwner)
    } else if !(0 < new_quorum && new_quorum <= new_guardians.len()) {
        Result::Err(BridgeError::InvalidQuorum)
    } else {
        Result::Ok(())
    }
}

/// Find the book of `asset`, if one exists.
fn find_asset(assets: &Vec<AssetBook>, asset: &[u8; 32]) -> (r: Option<usize>)
    ensures
        match r {
            Some(i) => i < assets@.len() && assets@[i as int].asset_id@ == asset@,
            None => !has_asset(assets@, asset@),
        },
{
    let mut i: usize = 0;
    while i < assets.len()
        invariant
            i <= assets@.len(),
            forall|k: int| 0 <= k < i ==> (#[trigger] assets@[k]).asset_id@ != asset@,
        decreases assets@.len() - i,
    {
        if bytes32_eq(&assets[i].asset_id, asset) {
            return Some(i);
        }
        i = i + 1;
    }
    None
}

/// Find the entry of `account` in a book, if one exists.
fn find_account(balances: &Vec<AccountBalance>, account: &[u8; 32]) -> (r: Option<usize>)
    ensures
        match r {
            Some(i) => i < balances@.len() && balances@[i as int].account@ == account@,
            None => !has_account(balances@, account@),
        },
{
    let mut i: usize = 0;
    while i < balances.len()
        invariant
            i <= balances@.len(),
            forall|k: int| 0 <= k < i ==> (#[trigger] balances@[k]).account@ != account@,
        decreases balances@.len() - i,
    {
        if bytes32_eq(&balances[i].account, account) {
            return Some(i);
        }
        i = i + 1;
    }
    None
}

impl NearBridge {
    /// Set up the ledger; rejects a quorum outside (0, roster size].
    pub fn new(
        owner: [u8; 32],
        contract_id: [u8; 32],
        guardians: Vec<[u8; 32]>,
        quorum: u32,
    ) -> (r: Result<NearBridge, BridgeError>)
        ensures
            r is Ok <==> 0 < quorum <= guardians@.len(),
            r matches Err(e) ==> e == BridgeError::InvalidQuorum,
            r matches Ok(b) ==> {
                &&& b.wf()
                &&& b.owner == owner
                &&& b.contract_id == contract_id
                &&& b.quorum == quorum
                &&& guardian_keys(b.guardians@) == keys_view(guardians@)
                &&& b.processed_vaas@ == Set::<u64>::empty()
                &&& b.assets@ == Seq::<AssetBook>::empty()
            },
    {
        if quorum == 0 || quorum as usize > guardians.len() {
            return Err(BridgeError::InvalidQuorum);
        }
        let mut roster: Vec<Guardian> = Vec::new();
        let mut i: usize = 0;
        while i < guardians.len()
            invariant
                i <= guardians@.len(),
                roster@.len() == i,
                forall|k: int| 0 <= k < i ==> (#[trigger] roster@[k]).pubkey == guardians@[k],
            decreases guardians@.len() - i,
        {
            roster.push(Guardian { pubkey: guardians[i] });
            i = i + 1;
        }
        let b = NearBridge {
            owner,
            contract_id,
            guardians: roster,
            quorum,
            processed_vaas: ProcessedNonceSet::new(),
            assets: Vec::new(),
        };
        proof {
            assert(guardian_keys(b.guardians@) =~= keys_view(guardians@));
            assert(b.assets@ =~= Seq::<AssetBook>::empty());
        }
        Ok(b)
    }

    /// The guardian public keys, in roster order.
    pub fn get_guardians(&self) -> (r: Vec<[u8; 32]>)
        ensures
            keys_view(r@) == guardian_keys(self.guardians@),
            r@.len() == self.guardians@.len(),
    {
        let mut out: Vec<[u8; 32]> = Vec::new();
        let mut i: usize = 0;
        while i < self.guardians.len()
            invariant
                i <= self.guardians@.len(),
                out@.len() == i,
                forall|k: int| 0 <= k < i ==> out@[k] == (#[trigger] self.guardians@[k]).pubkey,
            decreases self.guardians@.len() - i,
        {
            out.push(self.guardians[i].pubkey);
            i = i + 1;
        }
        proof {
            assert(keys_view(out@) =~= guardian_keys(self.guardians@));
        }
        out
    }

    /// The wrapped balance of `account` in `asset_id`; zero when absent.
    pub fn balance_of(&self, asset_id: [u8; 32], account: [u8; 32]) -> (r: u128)
        requires
            self.wf(),
        ensures
            r == spec_asset_balance(self.assets@, asset_id@, account@),
    {
        match find_asset(&self.assets, &asset_id) {
            Some(ai) => {
                proof {
                    lemma_asset_found(self.assets@, ai as int, asset_id@);
                }
                let book = &self.assets[ai];
                match find_account(&book.balances, &account) {
                    Some(bi) => {
                        proof {
                            lemma_book_found(book.balances@, bi as int, account@);
                        }
                        book.balances[bi].balance
                    },
                    None => {
                        proof {
                            lemma_book_absent(book.balances@, account@);
                        }
                        0
                    },
                }
            },
            None => {
                proof {
                    lemma_asset_absent(self.assets@, asset_id@);
                }
                0
            },
        }
    }

    /// The total supply of a wrapped asset; zero when absent.
    pub fn total_supply(&self, asset_id: [u8; 32]) -> (r: u128)
        requires
            self.wf(),
        ensures
            r == spec_asset_supply(self.assets@, asset_id@),
    {
        match find_asset(&self.assets, &asset_id) {
            Some(ai) => {
                proof {
                    lemma_asset_found(self.assets@, ai as int, asset_id@);
                }
                self.assets[ai].supply
            },
            None => {
                proof {
                    lemma_asset_absent(self.assets@, asset_id@);
                }
                0
            },
        }
    }

    /// Whether a message nonce was already applied here.
    pub fn is_vaa_processed(&self, nonce: u64) -> (r: bool)
        ensures
            r == self.processed_vaas@.contains(nonce),
    {
        self.processed_vaas.has_processed(nonce)
    }

    /// Mint wrapped tokens from a serialized, guardian-signed message.
    ///
    /// The message must parse, name this contract on this chain, meet
    /// the quorum under the current roster, and carry an unprocessed
    /// nonce; then the recipient's balance and the asset's supply both
    /// grow by its amount and the nonce is marked, as one step.
    pub fn mint_wrapped(&mut self, vaa_bytes: &[u8]) -> (r: Result<(), BridgeError>)
        requires
            old(self).wf(),
        ensures
            final(self).wf(),
            r == spec_mint_result(*old(self), vaa_bytes@),
            final(self).owner == old(self).owner,
            final(self).contract_id == old(self).contract_id,
            final(self).guardians == old(self).guardians,
            final(self).quorum == old(self).quorum,
            r is Err ==> *final(self) == *old(self),
            r is Ok ==> {
                let v = spec_deserialize(vaa_bytes@)->Some_0;
                &&& final(self).processed_vaas@ == old(self).processed_vaas@.insert(v.nonce)
                &&& spec_asset_supply(final(self).assets@, v.asset_id) == spec_asset_supply(
                    old(self).assets@,
                    v.asset_id,
                ) + v.amount
                &&& spec_asset_balance(final(self).assets@, v.asset_id, v.recipient)
                    == spec_asset_balance(old(self).assets@, v.asset_id, v.recipient) + v.amount
                &&& forall|a: Seq<u8>|
                    a != v.asset_id ==> #[trigger] spec_asset_supply(final(self).assets@, a)
                        == spec_asset_supply(old(self).assets@, a)
                &&& forall|a: Seq<u8>, acc: Seq<u8>|
                    a != v.asset_id ==> #[trigger] spec_asset_balance(final(self).assets@, a, acc)
                        == spec_asset_balance(old(self).assets@, a, acc)
                &&& forall|acc: Seq<u8>|
                    acc != v.recipient ==> #[trigger] spec_asset_balance(
                        final(self).assets@,
                        v.asset_id,
                        acc,
                    ) == spec_asset_balance(old(self).assets@, v.asset_id, acc)
            },
    {
        let vaa = match VAA::from_bytes(vaa_bytes) {
            Ok(v) => v,
            Err(e) => {
                return Err(e);
            },
        };
        let right_chain = match vaa.destination_chain {
            ChainId::Near => true,
            ChainId::Stellar => false,
        };
        if !right_chain || !bytes32_eq(&vaa.destination_contract, &self.contract_id) {
            return Err(BridgeError::WrongDestination);
        }
        let roster = self.get_guardians();
        let quorum = self.quorum as usize;
        if !vaa.verify_signatures(roster.as_slice(), quorum) {
            proof {
                assert(keys_view(roster@) == guardian_keys(self.guardians@));
            }
            return Err(BridgeError::VerificationFailed);
        }
        if self.processed_vaas.has_processed(vaa.nonce) {
            return Err(BridgeError::AlreadyProcessed);
        }
        let ghost v = vaa@;
        let ghost assets0 = self.assets@;
        match find_asset(&self.assets, &vaa.asset_id) {
            Some(ai) => {
                proof {
                    lemma_asset_found(assets0, ai as int, v.asset_id);
                    assert(assets0[ai as int].wf());
                }
                if self.assets[ai].supply > u128::MAX - vaa.amount {
                    return Err(BridgeError::Overflow);
                }
                let mut book = self.assets.remove(ai);
                let ghost book0 = book;
                match find_account(&book.balances, &vaa.recipient) {
                    Some(bi) => {
                        proof {
                            lemma_book_found(book.balances@, bi as int, v.recipient);
                            lemma_book_balance_le_sum(book.balances@, v.recipient);
                        }
                        let account = book.balances[bi].account;
                        let new_balance = book.balances[bi].balance + vaa.amount;
                        let entry = AccountBalance { account, balance: new_balance };
                        proof {
                            lemma_book_update(book0.balances@, bi as int, entry);
                        }
                        book.balances[bi] = entry;
                    },
                    None => {
                        let entry = AccountBalance { account: vaa.recipient, balance: vaa.amount };
                        proof {
                            lemma_book_absent(book.balances@, v.recipient);
                            lemma_book_push(book0.balances@, entry);
                        }
                        book.balances.push(entry);
                    },
                }
                book.supply = book.supply + vaa.amount;
                proof {
                    assert(book.wf());
                    lemma_asset_update(assets0, ai as int, book);
                }
                let ghost removed = self.assets@;
                self.assets.insert(ai, book);
                proof {
                    assert(self.assets@ =~= assets0.update(ai as int, book));
                }
            },
            None => {
                proof {
                    lemma_asset_absent(assets0, v.asset_id);
                }
                let entry = AccountBalance { account: vaa.recipient, balance: vaa.amount };
                let mut balances: Vec<AccountBalance> = Vec::new();
                balances.push(entry);
                let book = AssetBook { asset_id: vaa.asset_id, balances, supply: vaa.amount };
                proof {
                    assert(book.balances@.drop_first() =~= Seq::<AccountBalance>::empty());
                    assert(sum_balances(Seq::<AccountBalance>::empty()) == 0);
                    assert(sum_balances(book.balances@) == book.balances@[0].balance
                        + sum_balances(book.balances@.drop_first()));
                    assert(book.wf());
                    lemma_asset_push(assets0, book);
                    assert forall|acc: Seq<u8>| acc != v.recipient implies spec_book_balance(
                        book.balances@,
                        acc,
                    ) == 0 by {
                        assert(spec_book_balance(Seq::<AccountBalance>::empty(), acc) == 0);
                        assert(spec_book_balance(book.balances@, acc) == spec_book_balance(
                            book.balances@.drop_first(),
                            acc,
                        ));
                    }
                }
                self.assets.push(book);
            },
        }
        self.processed_vaas.mark_processed(vaa.nonce);
        Ok(())
    }

    /// Burn wrapped tokens held by `caller`, shrinking its balance and
    /// the asset's supply; the routing arguments travel with the event
    /// the caller emits and play no part in the transition itself.
    #[allow(unused_variables)]
    pub fn burn_wrapped(
        &mut self,
        caller: [u8; 32],
        asset_id: [u8; 32],
        amount: u128,
        recipient_chain: u8,
        recipient: [u8; 32],
    ) -> (r: Result<(), BridgeError>)
        requires
            old(self).wf(),
        ensures
            final(self).wf(),
            r == spec_burn_result(*old(self), caller, asset_id, amount),
            final(self).owner == old(self).owner,
            final(self).contract_id == old(self).contract_id,
            final(self).guardians == old(self).guardians,
            final(self).quorum == old(self).quorum,
            final(self).processed_vaas@ == old(self).processed_vaas@,
            r is Err ==> *final(self) == *old(self),
            r is Ok ==> {
                &&& spec_asset_balance(final(self).assets@, asset_id@, caller@)
                    == spec_asset_balance(old(self).assets@, asset_id@, caller@) - amount
                &&& spec_asset_supply(final(self).assets@, asset_id@) == spec_asset_supply(
                    old(self).assets@,
                    asset_id@,
                ) - amount
                &&& forall|a: Seq<u8>|
                    a != asset_id@ ==> #[trigger] spec_asset_supply(final(self).assets@, a)
                        == spec_asset_supply(old(self).assets@, a)
                &&& forall|a: Seq<u8>, acc: Seq<u8>|
                    a != asset_id@ ==> #[trigger] spec_asset_balance(final(self).assets@, a, acc)
                        == spec_asset_balance(old(self).assets@, a, acc)
                &&& forall|acc: Seq<u8>|
                    acc != caller@ ==> #[trigger] spec_asset_balance(
                        final(self).assets@,
                        asset_id@,
                        acc,
                    ) == spec_asset_balance(old(self).assets@, asset_id@, acc)
            },
    {
        if amount == 0 {
            return Err(BridgeError::InvalidAmount);
        }
        let ghost assets0 = self.assets@;
        let ai = match find_asset(&self.assets, &asset_id) {
            Some(ai) => ai,
            None => {
                return Err(BridgeError::AssetNotFound);
            },
        };
        proof {
            lemma_asset_found(assets0, ai as int, asset_id@);
        }
        let bi = match find_account(&self.assets[ai].balances, &caller) {
            Some(bi) => bi,
            None => {
                proof {
                    lemma_book_absent(self.assets@[ai as int].balances@, caller@);
                }
                return Err(BridgeError::InsufficientBalance);
            },
        };
        proof {
            lemma_book_found(self.assets@[ai as int].balances@, bi as int, caller@);
        }
        if self.assets[ai].balances[bi].balance < amount {
            return Err(BridgeError::InsufficientBalance);
        }
        proof {
            assert(assets0[ai as int].wf());
            lemma_book_balance_le_sum(self.assets@[ai as int].balances@, caller@);
            lemma_sum_nonneg(self.assets@[ai as int].balances@);
        }
        let mut book = self.assets.remove(ai);
        let ghost book0 = book;
        let account = book.balances[bi].account;
        let new_balance = book.balances[bi].balance - amount;
        let entry = AccountBalance { account, balance: new_balance };
        proof {
            lemma_book_update(book0.balances@, bi as int, entry);
        }
        book.balances[bi] = entry;
        book.supply = book.supply - amount;
        proof {
            assert(book.wf());
            lemma_asset_update(assets0, ai as int, book);
        }
        self.assets.insert(ai, book);
        proof {
            assert(self.assets@ =~= assets0.update(ai as int, book));
        }
        Ok(())
    }

    /// Replace the guardian roster and the quorum atomically; only the
    /// owner may, and only with a quorum in (0, new roster size].
    pub fn update_guardians(
        &mut self,
        caller: [u8; 32],
        new_guardians: Vec<[u8; 32]>,
        new_quorum: u32,
    ) -> (r: Result<(), BridgeError>)
        requires
            old(self).wf(),
        ensures
            final(self).wf(),
            r == spec_update_guardians_result(*old(self), caller, new_guardians@, new_quorum),
            final(self).owner == old(self).owner,
            final(self).contract_id == old(self).contract_id,
            final(self).assets == old(self).assets,
            final(self).processed_vaas@ == old(self).processed_vaas@,
            r is Err ==> *final(self) == *old(self),
            r is Ok ==> {
                &&& guardian_keys(final(self).guardians@) == keys_view(new_guardians@)
                &&& final(self).quorum == new_quorum
            },
    {
        if !bytes32_eq(&caller, &self.owner) {
            return Err(BridgeError::NotOwner);
        }
        if new_quorum == 0 || new_quorum as usize > new_guardians.len() {
            return Err(BridgeError::InvalidQuorum);
        }
        let mut roster: Vec<Guardian> = Vec::new();
        let mut i: usize = 0;
        while i < new_guardians.len()
            invariant
                i <= new_guardians@.len(),
                roster@.len() == i,
                forall|k: int| 0 <= k < i ==> (#[trigger] roster@[k]).pubkey == new_guardians@[k],
            decreases new_guardians@.len() - i,
        {
            roster.push(Guardian { pubkey: new_guardians[i] });
            i = i + 1;
        }
        self.guardians = roster;
        self.quorum = new_quorum;
        proof {
            assert(guardian_keys(self.guardians@) =~= keys_view(new_guardians@));
        }
        Ok(())
    }
}

} // verus!
