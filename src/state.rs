use vstd::prelude::*;
use crate::ledger::{CoinID, CoinDataHeight, CoinV, HashVal, NetID, StakeDoc, Transaction};

verus! {

/// Why a batch of transactions was refused.
#[derive(Clone, Copy, Debug, PartialEq, Eq, Structural)]
pub enum StateError {
    DuplicateTx,
    MalformedTx,
    UnbalancedInOut,
    InsufficientFees(u128),
    NonexistentCoin(CoinID),
    NonexistentScript(HashVal),
    ViolatesScript(HashVal),
    CoinLocked,
    InvalidMelPoW,
}

/// What the applier reads of a sealed block header.
#[derive(Clone, Copy, Debug, PartialEq, Eq, Structural)]
pub struct Header {
    pub hash: HashVal,
    pub dosc_speed: u128,
}

/// A record of coin changes: the last entry for a coin says whether it is
/// present, and with what.
pub type CoinLog = Vec<(CoinID, Option<CoinDataHeight>)>;

pub open spec fn opt_view(o: Option<CoinDataHeight>) -> Option<CoinV> {
    match o {
        Some(c) => Some(c@),
        None => None,
    }
}

/// The last entry of a coin log for `id`: `None` where the log never touches it.
pub open spec fn log_lookup(log: Seq<(CoinID, Option<CoinDataHeight>)>, id: CoinID) -> Option<Option<CoinV>>
    decreases log.len(),
{
    if log.len() == 0 {
        None
    } else if log.last().0 == id {
        Some(opt_view(log.last().1))
    } else {
        log_lookup(log.drop_last(), id)
    }
}

/// The last registration for `h` in a stake log.
pub open spec fn stake_lookup(log: Seq<(HashVal, StakeDoc)>, h: HashVal) -> Option<StakeDoc>
    decreases log.len(),
{
    if log.len() == 0 {
        None
    } else if log.last().0 == h {
        Some(log.last().1)
    } else {
        stake_lookup(log.drop_last(), h)
    }
}

/// A later log overrides an earlier one.
pub proof fn lemma_log_append(a: Seq<(CoinID, Option<CoinDataHeight>)>, b: Seq<(CoinID, Option<CoinDataHeight>)>, id: CoinID)
    ensures
        log_lookup(a + b, id) == match log_lookup(b, id) {
            Some(v) => Some(v),
            None => log_lookup(a, id),
        },
    decreases b.len(),
{
    if b.len() == 0 {
        assert(a + b =~= a);
    } else {
        assert((a + b).drop_last() =~= a + b.drop_last());
        lemma_log_append(a, b.drop_last(), id);
    }
}

pub proof fn lemma_stake_append(a: Seq<(HashVal, StakeDoc)>, b: Seq<(HashVal, StakeDoc)>, h: HashVal)
    ensures
        stake_lookup(a + b, h) == match stake_lookup(b, h) {
            Some(v) => Some(v),
            None => stake_lookup(a, h),
        },
    decreases b.len(),
{
    if b.len() == 0 {
        assert(a + b =~= a);
    } else {
        assert((a + b).drop_last() =~= a + b.drop_last());
        lemma_stake_append(a, b.drop_last(), h);
    }
}

/// Looks up the last entry for `id`.
pub fn find_coin(log: &CoinLog, id: CoinID) -> (r: Option<Option<CoinDataHeight>>)
    ensures
        match r {
            Some(o) => log_lookup(log@, id) == Some(opt_view(o)),
            None => log_lookup(log@, id).is_none(),
        },
{
    let mut i: usize = log.len();
    proof {
        assert(log@.take(log@.len() as int) =~= log@);
    }
    while i > 0
        invariant
            i <= log@.len(),
            log_lookup(log@, id) == log_lookup(log@.take(i as int), id),
        decreases i,
    {
        proof {
            assert(log@.take(i as int).drop_last() =~= log@.take(i - 1));
        }
        if log[i - 1].0 == id {
            return match &log[i - 1].1 {
                Some(c) => Some(Some(c.copy())),
                None => Some(None),
            };
        }
        i = i - 1;
    }
    None
}

/// Looks up the last registration for `h`.
pub fn find_stake(log: &Vec<(HashVal, StakeDoc)>, h: HashVal) -> (r: Option<StakeDoc>)
    ensures
        r == stake_lookup(log@, h),
{
    let mut i: usize = log.len();
    proof {
        assert(log@.take(log@.len() as int) =~= log@);
    }
    while i > 0
        invariant
            i <= log@.len(),
            stake_lookup(log@, h) == stake_lookup(log@.take(i as int), h),
        decreases i,
    {
        proof {
            assert(log@.take(i as int).drop_last() =~= log@.take(i - 1));
        }
        if log[i - 1].0 == h {
            return Some(log[i - 1].1);
        }
        i = i - 1;
    }
    None
}

/// The ledger state that a batch is applied to: network and height, fee
/// parameters and pools, and the coin, transaction, stake and header stores.
/// A caller keeps a clone to restart from when a batch fails.
#[derive(Clone)]
pub struct State {
    pub network: NetID,
    pub height: u64,
    pub fee_multiplier: u128,
    pub fee_pool: u128,
    pub tips: u128,
    pub dosc_speed: u128,
    pub coins: CoinLog,
    pub transactions: Vec<(HashVal, Transaction)>,
    pub stakes: Vec<(HashVal, StakeDoc)>,
    pub history: Vec<Header>,
}

impl State {
    /// The coin stored under `id`, if any.
    pub open spec fn coin_spec(&self, id: CoinID) -> Option<CoinV> {
        match log_lookup(self.coins@, id) {
            Some(v) => v,
            None => None,
        }
    }

    /// The stake registered by the transaction `h`, if any.
    pub open spec fn stake_spec(&self, h: HashVal) -> Option<StakeDoc> {
        stake_lookup(self.stakes@, h)
    }

    /// An empty state at `height`, with no coins, stakes, history or fees.
    pub fn new(network: NetID, height: u64, fee_multiplier: u128) -> (r: State)
        ensures
            r.network == network,
            r.height == height,
            r.fee_multiplier == fee_multiplier,
            r.fee_pool == 0,
            r.tips == 0,
            r.dosc_speed == 0,
            r.coins@.len() == 0,
            r.transactions@.len() == 0,
            r.stakes@.len() == 0,
            r.history@.len() == 0,
    {
        State {
            network,
            height,
            fee_multiplier,
            fee_pool: 0,
            tips: 0,
            dosc_speed: 0,
            coins: Vec::new(),
            transactions: Vec::new(),
            stakes: Vec::new(),
            history: Vec::new(),
        }
    }

    /// The coin stored under `id`, if any.
    pub fn get_coin(&self, id: CoinID) -> (r: Option<CoinDataHeight>)
        ensures
            opt_view(r) == self.coin_spec(id),
    {
        match find_coin(&self.coins, id) {
            Some(o) => o,
            None => None,
        }
    }

    /// Stores `c` under `id`.
    pub fn insert_coin(&mut self, id: CoinID, c: CoinDataHeight)
        ensures
            forall|k: CoinID| final(self).coin_spec(k) == if k == id { Some(c@) } else { old(self).coin_spec(k) },
            final(self).stakes == old(self).stakes,
    {
        self.coins.push((id, Some(c)));
        proof {
            assert(self.coins@.drop_last() =~= old(self).coins@);
        }
    }

    /// Removes the coin under `id`.
    pub fn remove_coin(&mut self, id: CoinID)
        ensures
            forall|k: CoinID| final(self).coin_spec(k) == if k == id { None } else { old(self).coin_spec(k) },
            final(self).stakes == old(self).stakes,
    {
        self.coins.push((id, None));
        proof {
            assert(self.coins@.drop_last() =~= old(self).coins@);
        }
    }

    /// Registers a stake under the hash of its transaction.
    pub fn insert_stake(&mut self, h: HashVal, sd: StakeDoc)
        ensures
            forall|k: HashVal| final(self).stake_spec(k) == if k == h { Some(sd) } else { old(self).stake_spec(k) },
            final(self).coins == old(self).coins,
    {
        self.stakes.push((h, sd));
        proof {
            assert(self.stakes@.drop_last() =~= old(self).stakes@);
        }
    }

    /// The stake registered by the transaction `h`, if any.
    pub fn get_stake(&self, h: HashVal) -> (r: Option<StakeDoc>)
        ensures
            r == self.stake_spec(h),
    {
        find_stake(&self.stakes, h)
    }
}

} // verus!
