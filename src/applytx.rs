use vstd::prelude::*;
use crate::vm::{Covenant, Value, ValueV, authorizes, views};
use crate::u256::U256;
use crate::ledger::{TransactionV, covenant_hash, denom_to_bytes, denom_bytes, coinid_bytes, well_formed, NetID, STAKE_EPOCH, LEGACY_STAKE_HEIGHT, MIN_MINT_AGE, stake_doc_of, pow_claim_of, decode_stake_doc, decode_pow_claim, coinid_to_bytes, TxKind, cov_hash, CoinData, min_fee, sat, tx_hash, CoinDataHeight, CoinID, CoinV, Denom, HashVal, StakeDoc, Transaction, hash_bytes, hash_keyed, hash_to_bytes, keyed_blake3_of};
use crate::state::{StateError, CoinLog, State, find_coin, find_stake, lemma_log_append, lemma_stake_append, log_lookup, opt_view, stake_lookup};

verus! {

/// A handle on a state that collects the effects of transaction batches and
/// writes them to the state all at once, like a database transaction.
pub struct StateHandle {
    state: State,
    coin_cache: CoinLog,
    transactions_cache: Vec<(HashVal, Transaction)>,
    fee_pool_cache: u128,
    tips_cache: u128,
    dosc_speed_cache: u128,
    stakes_cache: Vec<(HashVal, StakeDoc)>,
}

/// The coin the handle sees under `id`: its own latest change, else the state's.
pub open spec fn overlay_coin(cache: Seq<(CoinID, Option<CoinDataHeight>)>, base: State, id: CoinID) -> Option<CoinV> {
    match log_lookup(cache, id) {
        Some(v) => v,
        None => base.coin_spec(id),
    }
}

/// The identifier of the zero-value marker coin that records a faucet transaction.
pub open spec fn faucet_pseudocoin(txhash: HashVal) -> CoinID {
    CoinID { txhash: keyed_blake3_of(seq![0x66u8, 0x64u8, 0x70u8], hash_bytes(txhash)), index: 0 }
}

/// The marker coin that records a faucet transaction.
pub open spec fn marker_coin() -> CoinV {
    CoinV { value: 0, denom: Denom::Mel, additional_data: Seq::empty(), covhash: HashVal { hi: 0, lo: 0 }, height: 0 }
}

fn faucet_dedup_pseudocoin(txhash: HashVal) -> (r: CoinID)
    ensures
        r == faucet_pseudocoin(txhash),
{
    let key: Vec<u8> = vec![0x66u8, 0x64u8, 0x70u8];
    let msg = hash_to_bytes(txhash);
    proof {
        assert(key@ =~= seq![0x66u8, 0x64u8, 0x70u8]);
    }
    CoinID { txhash: hash_keyed(key.as_slice(), msg.as_slice()), index: 0 }
}

/// The coin that output `i` of a transaction with hash `txhash` becomes at
/// `height`: a new-token output takes the custom denomination of the transaction.
pub open spec fn out_coin(tx: Transaction, txhash: HashVal, height: u64, i: int) -> CoinV {
    let o = tx.outputs@[i];
    CoinV {
        value: o.value,
        denom: if o.denom == Denom::NewCoin { Denom::Custom(txhash) } else { o.denom },
        additional_data: o.additional_data@,
        covhash: o.covhash,
        height,
    }
}

/// Whether output `i` is kept, that is, not sent to the destroying address.
pub open spec fn kept(tx: Transaction, i: int) -> bool {
    tx.outputs@[i].covhash != (HashVal { hi: 0, lo: 0 })
}

/// The coins the handle sees after the outputs of `tx` are applied.
pub open spec fn after_outputs(h: StateHandle, tx: Transaction, id: CoinID) -> Option<CoinV> {
    if id.txhash == tx_hash(tx) && (id.index as int) < tx.outputs@.len() && kept(tx, id.index as int) {
        Some(out_coin(tx, tx_hash(tx), h.base().height, id.index as int))
    } else {
        h.coin_spec(id)
    }
}

/// The last of the scripts whose hash is `h`.
pub open spec fn script_for(covs: Seq<Covenant>, h: HashVal) -> Option<Covenant>
    decreases covs.len(),
{
    if covs.len() == 0 {
        None
    } else if cov_hash(covs.last()) == h {
        Some(covs.last())
    } else {
        script_for(covs.drop_last(), h)
    }
}

/// What a script is given when it guards the coin `c` with identifier `id`,
/// spent by input `k` of `tx`: the input's position, the coin's value and
/// height, the fee, the coin's identifier, denomination, data and destination,
/// and the hash of the last sealed header (empty where there is none).
pub open spec fn env_args(tx: Transaction, k: int, id: CoinID, c: CoinV, last_header: Seq<u8>) -> Seq<ValueV> {
    seq![
        ValueV::Int(U256 { hi: 0, lo: k as u128 }),
        ValueV::Int(U256 { hi: 0, lo: c.value }),
        ValueV::Int(U256 { hi: 0, lo: c.height as u128 }),
        ValueV::Int(U256 { hi: 0, lo: tx.fee }),
        ValueV::Bytes(coinid_bytes(id)),
        ValueV::Bytes(denom_bytes(c.denom)),
        ValueV::Bytes(c.additional_data),
        ValueV::Bytes(hash_bytes(c.covhash)),
        ValueV::Bytes(last_header),
    ]
}

/// The hash of the last sealed header of `s`, or nothing where it has none.
pub open spec fn last_header_bytes(s: State) -> Seq<u8> {
    if s.height >= 1 && s.height - 1 < s.history@.len() {
        hash_bytes(s.history@[s.height - 1].hash)
    } else {
        Seq::empty()
    }
}

/// The sum of the outputs in `d`.
pub open spec fn out_sum(outs: Seq<CoinData>, d: Denom) -> nat
    decreases outs.len(),
{
    if outs.len() == 0 {
        0
    } else {
        out_sum(outs.drop_last(), d) + if outs.last().denom == d { outs.last().value as nat } else { 0 }
    }
}

/// The sum of the spent values in `d`.
pub open spec fn in_sum(pairs: Seq<(Denom, u128)>, d: Denom) -> nat
    decreases pairs.len(),
{
    if pairs.len() == 0 {
        0
    } else {
        in_sum(pairs.drop_last(), d) + if pairs.last().0 == d { pairs.last().1 as nat } else { 0 }
    }
}

/// What `tx` puts out in `d`; the fee counts as output in the native unit.
pub open spec fn out_total(tx: Transaction, d: Denom) -> nat {
    out_sum(tx.outputs@, d) + if d == Denom::Mel { tx.fee as nat } else { 0 }
}

/// Whether the balance of `d` is checked: not for the new-token marker, nor for
/// the minted unit of a proof-of-work mint.
pub open spec fn checked_denom(tx: Transaction, d: Denom) -> bool {
    d != Denom::NewCoin && !(tx.kind == TxKind::DoscMint && d == Denom::Erg)
}

/// Whether `d` balances: what goes out in it fits a `u128` and equals what came in.
pub open spec fn denom_ok(tx: Transaction, pairs: Seq<(Denom, u128)>, d: Denom) -> bool {
    checked_denom(tx, d) ==> out_total(tx, d) <= u128::MAX && out_total(tx, d) == in_sum(pairs, d)
}

/// Whether `d` is among the totals a transaction puts out: the native unit, or
/// the unit of one of its outputs.
pub open spec fn listed(tx: Transaction, d: Denom) -> bool {
    d == Denom::Mel || exists|k: int| 0 <= k < tx.outputs@.len() && tx.outputs@[k].denom == d
}

/// Whether some spent coin is in `d`.
pub open spec fn spent_in(pairs: Seq<(Denom, u128)>, d: Denom) -> bool {
    exists|k: int| 0 <= k < pairs.len() && pairs[k].0 == d
}

/// Whether inputs and outputs balance: a faucet is exempt; otherwise every
/// unit that is put out or spent balances.
pub open spec fn balanced(tx: Transaction, pairs: Seq<(Denom, u128)>) -> bool {
    tx.kind == TxKind::Faucet || forall|d: Denom| listed(tx, d) || spent_in(pairs, d) ==> #[trigger] denom_ok(tx, pairs, d)
}

/// What the input pass reads of a ledger: its coins and its stakes.
#[verifier::ext_equal]
pub struct LedgerView {
    pub coins: spec_fn(CoinID) -> Option<CoinV>,
    pub stakes: spec_fn(HashVal) -> Option<StakeDoc>,
    pub last_header: Seq<u8>,
}

/// What a handle sees.
pub open spec fn view_of(h: StateHandle) -> LedgerView {
    LedgerView {
        coins: |id: CoinID| h.coin_spec(id),
        stakes: |x: HashVal| h.stake_spec(x),
        last_header: last_header_bytes(h.base()),
    }
}

/// The coin that input `k` of `tx` spends, in the view `v`.
pub open spec fn spent_coin(v: LedgerView, tx: Transaction, k: int) -> CoinV {
    (v.coins)(tx.inputs@[k]).unwrap()
}

/// Whether input `k` is the first one whose coin has its destination.
pub open spec fn first_use(v: LedgerView, tx: Transaction, k: int) -> bool {
    forall|j: int| 0 <= j < k ==> spent_coin(v, tx, j).covhash != #[trigger] spent_coin(v, tx, k).covhash
}

/// The denomination and value of each spent coin.
pub open spec fn spent_pairs(v: LedgerView, tx: Transaction, n: int) -> Seq<(Denom, u128)> {
    Seq::new(n as nat, |k: int| (spent_coin(v, tx, k).denom, spent_coin(v, tx, k).value))
}

/// Whether the inputs of `tx` can be spent from the view `v`: none is locked
/// by a stake, each exists and is spent once, each destination is the hash of
/// one of the transaction's scripts, which authorises the spend at the first
/// input with that destination, and inputs and outputs balance.
pub open spec fn inputs_ok(v: LedgerView, tx: Transaction) -> bool {
    let ins = tx.inputs@;
    &&& forall|k: int| 0 <= k < ins.len() ==> (v.stakes)(#[trigger] ins[k].txhash).is_none()
    &&& forall|k: int| 0 <= k < ins.len() ==> (v.coins)(#[trigger] ins[k]).is_some()
    &&& forall|j: int, k: int| 0 <= j < k < ins.len() ==> ins[j] != ins[k]
    &&& forall|k: int| 0 <= k < ins.len() && #[trigger] first_use(v, tx, k) ==> script_ok(v, tx, k)
    &&& balanced(tx, spent_pairs(v, tx, ins.len() as int))
}

/// Whether the script for input `k`'s destination exists and authorises it.
pub open spec fn script_ok(v: LedgerView, tx: Transaction, k: int) -> bool {
    match script_for(tx.covenants@, spent_coin(v, tx, k).covhash) {
        Some(s) => authorizes(s.ops@, env_args(tx, k, tx.inputs@[k], spent_coin(v, tx, k), v.last_header)),
        None => false,
    }
}

/// The failure at input `k` of `tx`, the inputs before it having passed: a
/// stake locks the coin, the coin is absent or already spent by an earlier
/// input, or, at the first input with its destination, no script has that
/// hash or the script refuses.
pub open spec fn input_error(v: LedgerView, tx: Transaction, k: int) -> Option<StateError> {
    let id = tx.inputs@[k];
    if (v.stakes)(id.txhash).is_some() {
        Some(StateError::CoinLocked)
    } else if tx.inputs@.take(k).contains(id) || (v.coins)(id).is_none() {
        Some(StateError::NonexistentCoin(id))
    } else if first_use(v, tx, k) {
        let h = spent_coin(v, tx, k).covhash;
        match script_for(tx.covenants@, h) {
            None => Some(StateError::NonexistentScript(h)),
            Some(sc) => if authorizes(sc.ops@, env_args(tx, k, id, spent_coin(v, tx, k), v.last_header)) {
                None
            } else {
                Some(StateError::ViolatesScript(h))
            },
        }
    } else {
        None
    }
}

/// The outcome of the inputs of `tx` from input `k` on: the error of the first
/// failing input, else `UnbalancedInOut` where the values do not balance.
pub open spec fn inputs_from(v: LedgerView, tx: Transaction, k: int) -> Result<(), StateError>
    decreases tx.inputs@.len() - k,
{
    if k >= tx.inputs@.len() {
        if balanced(tx, spent_pairs(v, tx, tx.inputs@.len() as int)) {
            Ok(())
        } else {
            Err(StateError::UnbalancedInOut)
        }
    } else if k < 0 {
        inputs_from(v, tx, 0)
    } else {
        match input_error(v, tx, k) {
            Some(e) => Err(e),
            None => inputs_from(v, tx, k + 1),
        }
    }
}

proof fn lemma_out_sum_mono(s: Seq<CoinData>, d: Denom, i: int)
    requires
        0 <= i <= s.len(),
    ensures
        out_sum(s.take(i), d) <= out_sum(s, d),
    decreases s.len() - i,
{
    if i < s.len() {
        lemma_out_sum_mono(s, d, i + 1);
        assert(s.take(i + 1).drop_last() =~= s.take(i));
    } else {
        assert(s.take(i) =~= s);
    }
}

proof fn lemma_in_sum_mono(s: Seq<(Denom, u128)>, d: Denom, i: int)
    requires
        0 <= i <= s.len(),
    ensures
        in_sum(s.take(i), d) <= in_sum(s, d),
    decreases s.len() - i,
{
    if i < s.len() {
        lemma_in_sum_mono(s, d, i + 1);
        assert(s.take(i + 1).drop_last() =~= s.take(i));
    } else {
        assert(s.take(i) =~= s);
    }
}

/// What `tx` puts out in `d`, or `None` where it does not fit a `u128`.
fn out_total_exec(tx: &Transaction, d: Denom) -> (r: Option<u128>)
    ensures
        match r {
            Some(v) => v == out_total(*tx, d),
            None => out_total(*tx, d) > u128::MAX,
        },
{
    let mut acc: u128 = if d == Denom::Mel { tx.fee } else { 0 };
    let ghost extra: nat = if d == Denom::Mel { tx.fee as nat } else { 0 };
    let mut i: usize = 0;
    while i < tx.outputs.len()
        invariant
            i <= tx.outputs@.len(),
            extra == (if d == Denom::Mel { tx.fee as nat } else { 0 }),
            acc == out_sum(tx.outputs@.take(i as int), d) + extra,
        decreases tx.outputs@.len() - i,
    {
        proof {
            assert(tx.outputs@.take(i + 1).drop_last() =~= tx.outputs@.take(i as int));
        }
        if tx.outputs[i].denom == d {
            match acc.checked_add(tx.outputs[i].value) {
                Some(v) => {
                    acc = v;
                },
                None => {
                    proof {
                        lemma_out_sum_mono(tx.outputs@, d, i + 1);
                    }
                    return None;
                },
            }
        }
        i = i + 1;
    }
    proof {
        assert(tx.outputs@.take(tx.outputs@.len() as int) =~= tx.outputs@);
    }
    Some(acc)
}

/// What was spent in `d`, or `None` where it does not fit a `u128`.
fn in_total_exec(pairs: &Vec<(Denom, u128)>, d: Denom) -> (r: Option<u128>)
    ensures
        match r {
            Some(v) => v == in_sum(pairs@, d),
            None => in_sum(pairs@, d) > u128::MAX,
        },
{
    let mut acc: u128 = 0;
    let mut i: usize = 0;
    while i < pairs.len()
        invariant
            i <= pairs@.len(),
            acc == in_sum(pairs@.take(i as int), d),
        decreases pairs@.len() - i,
    {
        proof {
            assert(pairs@.take(i + 1).drop_last() =~= pairs@.take(i as int));
        }
        if pairs[i].0 == d {
            match acc.checked_add(pairs[i].1) {
                Some(v) => {
                    acc = v;
                },
                None => {
                    proof {
                        lemma_in_sum_mono(pairs@, d, i + 1);
                    }
                    return None;
                },
            }
        }
        i = i + 1;
    }
    proof {
        assert(pairs@.take(pairs@.len() as int) =~= pairs@);
    }
    Some(acc)
}

fn denom_balances(tx: &Transaction, pairs: &Vec<(Denom, u128)>, d: Denom) -> (r: bool)
    ensures
        r == denom_ok(*tx, pairs@, d),
{
    if d == Denom::NewCoin || (tx.kind == TxKind::DoscMint && d == Denom::Erg) {
        return true;
    }
    match out_total_exec(tx, d) {
        None => false,
        Some(o) => match in_total_exec(pairs, d) {
            None => false,
            Some(x) => o == x,
        },
    }
}

/// Whether the spent `pairs` balance the outputs of `tx`.
fn check_balance(tx: &Transaction, pairs: &Vec<(Denom, u128)>) -> (r: bool)
    ensures
        r == balanced(*tx, pairs@),
{
    if tx.kind == TxKind::Faucet {
        return true;
    }
    if !denom_balances(tx, pairs, Denom::Mel) {
        return false;
    }
    let mut i: usize = 0;
    while i < tx.outputs.len()
        invariant
            i <= tx.outputs@.len(),
            tx.kind != TxKind::Faucet,
            denom_ok(*tx, pairs@, Denom::Mel),
            forall|k: int| 0 <= k < i ==> denom_ok(*tx, pairs@, #[trigger] tx.outputs@[k].denom),
        decreases tx.outputs@.len() - i,
    {
        if !denom_balances(tx, pairs, tx.outputs[i].denom) {
            return false;
        }
        i = i + 1;
    }
    let mut j: usize = 0;
    while j < pairs.len()
        invariant
            j <= pairs@.len(),
            tx.kind != TxKind::Faucet,
            denom_ok(*tx, pairs@, Denom::Mel),
            forall|k: int| 0 <= k < tx.outputs@.len() ==> denom_ok(*tx, pairs@, #[trigger] tx.outputs@[k].denom),
            forall|k: int| 0 <= k < j ==> denom_ok(*tx, pairs@, #[trigger] pairs@[k].0),
        decreases pairs@.len() - j,
    {
        if !denom_balances(tx, pairs, pairs[j].0) {
            return false;
        }
        j = j + 1;
    }
    proof {
        assert forall|d: Denom| listed(*tx, d) || spent_in(pairs@, d) implies #[trigger] denom_ok(*tx, pairs@, d) by {
            if spent_in(pairs@, d) {
                let k = choose|k: int| 0 <= k < pairs@.len() && pairs@[k].0 == d;
                assert(denom_ok(*tx, pairs@, pairs@[k].0));
            } else if d != Denom::Mel {
                let k = choose|k: int| 0 <= k < tx.outputs@.len() && tx.outputs@[k].denom == d;
                assert(denom_ok(*tx, pairs@, tx.outputs@[k].denom));
            }
        }
    }
    true
}

/// The position of the last script whose hash is `h`.
fn find_script(covs: &Vec<Covenant>, h: HashVal) -> (r: Option<usize>)
    ensures
        match r {
            Some(k) => k < covs@.len() && script_for(covs@, h) == Some(covs@[k as int]),
            None => script_for(covs@, h).is_none(),
        },
{
    let mut i: usize = covs.len();
    proof {
        assert(covs@.take(covs@.len() as int) =~= covs@);
    }
    while i > 0
        invariant
            i <= covs@.len(),
            script_for(covs@, h) == script_for(covs@.take(i as int), h),
        decreases i,
    {
        proof {
            assert(covs@.take(i as int).drop_last() =~= covs@.take(i - 1));
        }
        if covenant_hash(&covs[i - 1]) == h {
            return Some(i - 1);
        }
        i = i - 1;
    }
    None
}

fn contains_hash(s: &Vec<HashVal>, h: HashVal) -> (r: bool)
    ensures
        r == exists|j: int| 0 <= j < s@.len() && s@[j] == h,
{
    let mut i: usize = 0;
    while i < s.len()
        invariant
            i <= s@.len(),
            forall|j: int| 0 <= j < i ==> s@[j] != h,
        decreases s@.len() - i,
    {
        if s[i] == h {
            return true;
        }
        i = i + 1;
    }
    false
}

/// The coins after the admission pass over the first `i` transactions: each
/// faucet leaves its marker coin.
pub open spec fn marked(h0: StateHandle, txx: Seq<Transaction>, i: int, id: CoinID) -> Option<CoinV>
    decreases i,
{
    if i <= 0 {
        h0.coin_spec(id)
    } else if txx[i - 1].kind == TxKind::Faucet && id == faucet_pseudocoin(tx_hash(txx[i - 1])) {
        Some(marker_coin())
    } else {
        marked(h0, txx, i - 1, id)
    }
}

/// The coins after the outputs of the first `i` of `txx` are applied on top of
/// the admission pass over all `n`.
pub open spec fn made(h0: StateHandle, txx: Seq<Transaction>, n: int, i: int, id: CoinID) -> Option<CoinV>
    decreases i,
{
    if i <= 0 {
        marked(h0, txx, n, id)
    } else {
        let t = txx[i - 1];
        if id.txhash == tx_hash(t) && (id.index as int) < t.outputs@.len() && kept(t, id.index as int) {
            Some(out_coin(t, tx_hash(t), h0.base().height, id.index as int))
        } else {
            made(h0, txx, n, i - 1, id)
        }
    }
}

/// Whether one of the first `i` transactions spends `id`.
pub open spec fn consumed(txx: Seq<Transaction>, i: int, id: CoinID) -> bool {
    exists|k: int| 0 <= k < i && (#[trigger] txx[k]).inputs@.contains(id)
}

/// The coins after a successful batch: what a transaction spent is gone;
/// otherwise what the outputs and faucet markers made, else what was there.
pub open spec fn batch_coins(h0: StateHandle, txx: Seq<Transaction>, id: CoinID) -> Option<CoinV> {
    if consumed(txx, txx.len() as int, id) {
        None
    } else {
        made(h0, txx, txx.len() as int, txx.len() as int, id)
    }
}

/// The fee pool and tips after the fees of the first `i` transactions accrue.
pub open spec fn pools_after(pool: u128, tips: u128, txx: Seq<Transaction>, i: int, mult: u128) -> (u128, u128)
    decreases i,
{
    if i <= 0 {
        (pool, tips)
    } else {
        let prev = pools_after(pool, tips, txx, i - 1, mult);
        let m = min_fee(txx[i - 1], mult);
        (sat((prev.0 + m) as nat), sat((prev.1 + (txx[i - 1].fee - m)) as nat))
    }
}

/// Whether `tx` registers a stake on a ledger at `height` of `network`.
pub open spec fn registers(tx: Transaction, network: NetID, height: u64) -> bool {
    &&& tx.kind == TxKind::Stake
    &&& stake_doc_of(tx.data@).is_some()
    &&& tx.outputs@.len() > 0
    &&& !legacy_stake(network, height)
    &&& tx.outputs@[0].denom == Denom::Sym
    &&& stake_admissible(stake_doc_of(tx.data@).unwrap(), tx.outputs@[0].value, height)
}

/// The stakes after the first `i` transactions of a batch.
pub open spec fn staked(h0: StateHandle, txx: Seq<Transaction>, i: int, h: HashVal) -> Option<StakeDoc>
    decreases i,
{
    if i <= 0 {
        h0.stake_spec(h)
    } else if registers(txx[i - 1], h0.base().network, h0.base().height) && tx_hash(txx[i - 1]) == h {
        Some(stake_doc_of(txx[i - 1].data@).unwrap())
    } else {
        staked(h0, txx, i - 1, h)
    }
}

/// The fastest mint after the first `i` transactions, the coins being those
/// after the admission pass.
pub open spec fn speed_after(h0: StateHandle, txx: Seq<Transaction>, i: int) -> u128
    decreases i,
{
    if i <= 0 {
        h0.dosc_speed_spec()
    } else {
        let prev = speed_after(h0, txx, i - 1);
        let t = txx[i - 1];
        if t.kind == TxKind::DoscMint {
            let c = marked(h0, txx, txx.len() as int, t.inputs@[0]).unwrap();
            let sp = mint_speed(pow_claim_of(t.data@).unwrap().0, coin_age(h0.base().height, c.height));
            if prev >= sp { prev } else { sp }
        } else {
            prev
        }
    }
}

/// Whether the admission pass accepts transaction `i`, the marker coins of
/// the faucets before it being in place: a faucet is not a replay and not on
/// the production network, the transaction is well formed, and it pays the
/// least fee.
pub open spec fn admitted(h0: StateHandle, txx: Seq<Transaction>, i: int) -> bool {
    let t = txx[i];
    &&& t.kind == TxKind::Faucet ==> marked(h0, txx, i, faucet_pseudocoin(tx_hash(t))).is_none()
    &&& well_formed(t)
    &&& !(t.kind == TxKind::Faucet && h0.base().network == NetID::Mainnet)
    &&& t.fee >= min_fee(t, h0.base().fee_multiplier)
}

/// Whether the staking rule accepts `t`: its payload is a staking record, it
/// has an output, and that output is in the staking unit unless the legacy
/// rule applies.
pub open spec fn stake_accepted(t: Transaction, network: NetID, height: u64) -> bool {
    t.kind == TxKind::Stake ==> stake_doc_of(t.data@).is_some() && t.outputs@.len() > 0 && (legacy_stake(network, height)
        || t.outputs@[0].denom == Denom::Sym)
}

/// What the input pass of transaction `i` reads: every output of the batch is
/// in place, the inputs of the transactions before `i` are spent, and the
/// batch's stakes are registered.
pub open spec fn view_before_inputs(h0: StateHandle, txx: Seq<Transaction>, i: int) -> LedgerView {
    LedgerView {
        coins: |id: CoinID| if consumed(txx, i, id) {
            None
        } else {
            made(h0, txx, txx.len() as int, txx.len() as int, id)
        },
        stakes: |x: HashVal| staked(h0, txx, txx.len() as int, x),
        last_header: last_header_bytes(h0.base()),
    }
}

/// Whether a batch passes every check that does not rest on the mint rules.
pub open spec fn batch_ok(h0: StateHandle, txx: Seq<Transaction>) -> bool {
    &&& forall|i: int| 0 <= i < txx.len() ==> #[trigger] admitted(h0, txx, i)
    &&& forall|i: int| 0 <= i < txx.len() ==> stake_accepted(#[trigger] txx[i], h0.base().network, h0.base().height)
    &&& forall|i: int| 0 <= i < txx.len() ==> inputs_ok(#[trigger] view_before_inputs(h0, txx, i), txx[i])
}

/// The failure of the admission pass at transaction `i`, those before it
/// having passed: a replayed faucet, a malformed transaction, a faucet on the
/// production network, a fee below the least.
pub open spec fn admit_error(h0: StateHandle, txx: Seq<Transaction>, i: int) -> Option<StateError> {
    let t = txx[i];
    if t.kind == TxKind::Faucet && marked(h0, txx, i, faucet_pseudocoin(tx_hash(t))).is_some() {
        Some(StateError::DuplicateTx)
    } else if !well_formed(t) {
        Some(StateError::MalformedTx)
    } else if t.kind == TxKind::Faucet && h0.base().network == NetID::Mainnet {
        Some(StateError::UnbalancedInOut)
    } else if t.fee < min_fee(t, h0.base().fee_multiplier) {
        Some(StateError::InsufficientFees(min_fee(t, h0.base().fee_multiplier)))
    } else {
        None
    }
}

/// The outcome of the admission pass from transaction `i` on.
pub open spec fn admit_from(h0: StateHandle, txx: Seq<Transaction>, i: int) -> Result<(), StateError>
    decreases txx.len() - i,
{
    if i >= txx.len() || i < 0 {
        Ok(())
    } else {
        match admit_error(h0, txx, i) {
            Some(e) => Err(e),
            None => admit_from(h0, txx, i + 1),
        }
    }
}

/// The outcome of the input pass from transaction `i` on.
pub open spec fn inputs_pass(h0: StateHandle, txx: Seq<Transaction>, i: int) -> Result<(), StateError>
    decreases txx.len() - i,
{
    if i >= txx.len() || i < 0 {
        Ok(())
    } else {
        match inputs_from(view_before_inputs(h0, txx, i), txx[i], 0) {
            Err(e) => Err(e),
            Ok(_) => inputs_pass(h0, txx, i + 1),
        }
    }
}

/// The outcome of a batch without proof-of-work mints: the first admission
/// failure, else `MalformedTx` where a staking transaction is refused, else
/// the first input failure.
pub open spec fn batch_result(h0: StateHandle, txx: Seq<Transaction>) -> Result<(), StateError> {
    match admit_from(h0, txx, 0) {
        Err(e) => Err(e),
        Ok(_) => if forall|k: int| 0 <= k < txx.len() ==> stake_accepted(#[trigger] txx[k], h0.base().network, h0.base().height) {
            inputs_pass(h0, txx, 0)
        } else {
            Err(StateError::MalformedTx)
        },
    }
}

/// The transactions a handle has recorded, as hash and content.
pub open spec fn recorded_view(h: StateHandle) -> Seq<(HashVal, TransactionV)> {
    h.recorded().map_values(|p: (HashVal, Transaction)| (p.0, p.1@))
}

/// The records that a batch adds: each transaction under its hash, in order.
pub open spec fn records(txx: Seq<Transaction>) -> Seq<(HashVal, TransactionV)> {
    txx.map_values(|t: Transaction| (tx_hash(t), t@))
}

/// Whether a batch holds a proof-of-work mint.
pub open spec fn has_mint(txx: Seq<Transaction>) -> bool {
    exists|i: int| 0 <= i < txx.len() && (#[trigger] txx[i]).kind == TxKind::DoscMint
}

/// The outcome of checking a proof of sequential work: which hash scheme it
/// verifies under, the legacy one being tried first, or neither.
#[derive(Clone, Copy, Debug, PartialEq, Eq, Structural)]
pub enum PowScheme {
    Legacy,
    Tip910,
    Invalid,
}

/// The rules of proof-of-work minting that lie outside this library: proof
/// verification under each hash scheme, and the reward curve.
pub trait MintRules {
    /// Whether `proof` verifies for the puzzle `seed` at `difficulty` under the legacy hash scheme.
    fn verify_legacy(&self, seed: &[u8], difficulty: u32, proof: &[u8]) -> bool;

    /// Whether `proof` verifies for the puzzle `seed` at `difficulty` under the successor hash scheme.
    fn verify_tip910(&self, seed: &[u8], difficulty: u32, proof: &[u8]) -> bool;

    /// The largest amount of the minted unit that a mint at `height` may claim.
    fn reward(&self, my_speed: u128, prev_speed: u128, difficulty: u32, tip910: bool, height: u64) -> u128;
}

/// What a mint's checked proof and claim decide: a proof under neither scheme,
/// or a minted total that does not fit or exceeds the reward, is refused;
/// otherwise the mint passes, saying whether the successor scheme was used.
pub open spec fn mint_verdict_spec(scheme: PowScheme, total_erg: Option<u128>, reward: u128) -> Result<bool, StateError> {
    match scheme {
        PowScheme::Invalid => Err(StateError::InvalidMelPoW),
        _ => if total_erg.is_some() && total_erg.unwrap() <= reward {
            Ok(scheme == PowScheme::Tip910)
        } else {
            Err(StateError::InvalidMelPoW)
        },
    }
}

/// Decides a mint from the scheme its proof verifies under, its minted total
/// (`None` where that does not fit a `u128`) and the reward.
pub fn mint_verdict(scheme: PowScheme, total_erg: Option<u128>, reward: u128) -> (r: Result<bool, StateError>)
    ensures
        r == mint_verdict_spec(scheme, total_erg, reward),
{
    match scheme {
        PowScheme::Invalid => Err(StateError::InvalidMelPoW),
        _ => match total_erg {
            Some(t) => if t <= reward {
                Ok(scheme == PowScheme::Tip910)
            } else {
                Err(StateError::InvalidMelPoW)
            },
            None => Err(StateError::InvalidMelPoW),
        },
    }
}

/// The first failure of a mint that does not rest on the mint rules, over the
/// coins `coins` of the state `s`: no input or no coin, a coin too young on the
/// production network, no header at the coin's height, a payload that is no
/// claim, a difficulty of 128 or more or a coin of age zero, no header before
/// the current height.
pub open spec fn mint_static_error(coins: spec_fn(CoinID) -> Option<CoinV>, s: State, tx: Transaction) -> Option<StateError> {
    if tx.inputs@.len() == 0 {
        Some(StateError::MalformedTx)
    } else {
        match coins(tx.inputs@[0]) {
            None => Some(StateError::MalformedTx),
            Some(c) => {
                let age = coin_age(s.height, c.height);
                if age < MIN_MINT_AGE && s.network == NetID::Mainnet {
                    Some(StateError::InvalidMelPoW)
                } else if c.height >= s.history@.len() {
                    Some(StateError::MalformedTx)
                } else {
                    match pow_claim_of(tx.data@) {
                        None => Some(StateError::MalformedTx),
                        Some(cl) => if cl.0 >= 128 || age == 0 {
                            Some(StateError::InvalidMelPoW)
                        } else if s.height == 0 || s.height - 1 >= s.history@.len() {
                            Some(StateError::MalformedTx)
                        } else {
                            None
                        },
                    }
                }
            },
        }
    }
}

/// The speed of a mint that passes its static checks.
pub open spec fn mint_speed_of(coins: spec_fn(CoinID) -> Option<CoinV>, s: State, tx: Transaction) -> u128 {
    mint_speed(pow_claim_of(tx.data@).unwrap().0, coin_age(s.height, coins(tx.inputs@[0]).unwrap().height))
}

/// Whether the network keeps the legacy rule that lets every staking
/// transaction below a historical height through.
pub open spec fn legacy_stake(network: NetID, height: u64) -> bool {
    (network == NetID::Mainnet || network == NetID::Testnet) && height < LEGACY_STAKE_HEIGHT
}

/// Whether a staking record is admitted for a first output of `value` in the current epoch.
pub open spec fn stake_admissible(sd: StakeDoc, value: u128, height: u64) -> bool {
    sd.e_start > (height / STAKE_EPOCH) && sd.e_post_end > sd.e_start && sd.syms_staked == value
}

/// The age of a coin made at `coin_height` when the ledger is at `height`.
pub open spec fn coin_age(height: u64, coin_height: u64) -> u64 {
    if coin_height > height { 0 } else { (height - coin_height) as u64 }
}

/// How fast a mint of `difficulty` was done on a coin of age `age`.
pub open spec fn mint_speed(difficulty: u32, age: u64) -> u128 {
    ((1u128 << difficulty) / (age as u128)) as u128
}

impl StateHandle {
    /// Applies a batch of transactions in four passes: admission of each in
    /// order (faucet replay, well-formedness, fees), the rules of special
    /// kinds, the outputs of all, then the inputs of all. The first error ends
    /// the batch and the handle with it.
    #[verifier::rlimit(80)]
    pub fn apply_tx_batch<M: MintRules>(self, txx: &[Transaction], rules: &M) -> (r: Result<StateHandle, StateError>)
        ensures
            r.is_ok() ==> batch_ok(self, txx@),
            batch_ok(self, txx@) && !has_mint(txx@) ==> r.is_ok(),
            admit_from(self, txx@, 0).is_err() ==> r == Err::<StateHandle, StateError>(admit_from(self, txx@, 0).get_Err_0()),
            !has_mint(txx@) ==> match batch_result(self, txx@) {
                Ok(_) => r.is_ok(),
                Err(e) => r == Err::<StateHandle, StateError>(e),
            },
            r.is_ok() ==> r.unwrap().base() == self.base(),
            r.is_ok() ==> recorded_view(r.unwrap()) == recorded_view(self) + records(txx@),
            r.is_ok() ==> forall|k: int| 0 <= k < txx@.len() && (#[trigger] txx@[k]).kind == TxKind::DoscMint ==> mint_static_error(
                |id: CoinID| marked(self, txx@, txx@.len() as int, id),
                self.base(),
                txx@[k],
            ).is_none() && out_total(txx@[k], Denom::Erg) <= u128::MAX,
            r.is_ok() ==> forall|k: int| 0 <= k < txx@.len() ==> well_formed(#[trigger] txx@[k]),
            r.is_ok() ==> forall|k: int| 0 <= k < txx@.len() && self.base().network == NetID::Mainnet
                ==> (#[trigger] txx@[k]).kind != TxKind::Faucet,
            r.is_ok() ==> forall|k: int| 0 <= k < txx@.len() ==> (#[trigger] txx@[k]).fee >= min_fee(
                txx@[k],
                self.base().fee_multiplier,
            ),
            r.is_ok() ==> forall|j: int, k: int|
                0 <= j < k < txx@.len() && (#[trigger] txx@[j]).kind == TxKind::Faucet && (#[trigger] txx@[k]).kind
                    == TxKind::Faucet ==> tx_hash(txx@[j]) != tx_hash(txx@[k]),
            r.is_ok() ==> forall|k: int, id: CoinID| 0 <= k < txx@.len() && (#[trigger] txx@[k]).inputs@.contains(id)
                ==> (#[trigger] r.unwrap().coin_spec(id)).is_none(),
            r.is_ok() ==> forall|id: CoinID| #[trigger] r.unwrap().coin_spec(id) == batch_coins(self, txx@, id),
            r.is_ok() ==> forall|h: HashVal| #[trigger] r.unwrap().stake_spec(h) == staked(self, txx@, txx@.len() as int, h),
            r.is_ok() ==> r.unwrap().dosc_speed_spec() == speed_after(self, txx@, txx@.len() as int),
            r.is_ok() ==> (r.unwrap().fee_pool_spec(), r.unwrap().tips_spec()) == pools_after(
                self.fee_pool_spec(),
                self.tips_spec(),
                txx@,
                txx@.len() as int,
                self.base().fee_multiplier,
            ),
    {
        let ghost h0 = self;
        let mut h = self;
        let n = txx.len();
        let mut i: usize = 0;
        while i < n
            invariant
                n == txx@.len(),
                i <= n,
                h0 == self,
                h.state == h0.state,
                forall|k: int| 0 <= k < i ==> well_formed(#[trigger] txx@[k]),
                forall|k: int| 0 <= k < i && h0.state.network == NetID::Mainnet ==> (#[trigger] txx@[k]).kind != TxKind::Faucet,
                forall|k: int| 0 <= k < i ==> (#[trigger] txx@[k]).fee >= min_fee(txx@[k], h0.state.fee_multiplier),
                forall|j: int| 0 <= j < i && (#[trigger] txx@[j]).kind == TxKind::Faucet ==> h.coin_spec(
                    faucet_pseudocoin(tx_hash(txx@[j])),
                ).is_some(),
                forall|j: int, k: int|
                    0 <= j < k < i && (#[trigger] txx@[j]).kind == TxKind::Faucet && (#[trigger] txx@[k]).kind
                        == TxKind::Faucet ==> tx_hash(txx@[j]) != tx_hash(txx@[k]),
                forall|id: CoinID| #[trigger] h.coin_spec(id) == marked(h0, txx@, i as int, id),
                (h.fee_pool_cache, h.tips_cache) == pools_after(h0.fee_pool_cache, h0.tips_cache, txx@, i as int, h0.state.fee_multiplier),
                h.stakes_cache == h0.stakes_cache,
                h.dosc_speed_cache == h0.dosc_speed_cache,
                forall|k: int| 0 <= k < i ==> #[trigger] admitted(h0, txx@, k),
                recorded_view(h) == recorded_view(h0) + records(txx@.take(i as int)),
                admit_from(h0, txx@, 0) == admit_from(h0, txx@, i as int),
            decreases n - i,
        {
            let tx = &txx[i];
            let txhash = tx.hash_nosigs();
            let ghost hb = h;
            if tx.kind == TxKind::Faucet {
                let pseudocoin = faucet_dedup_pseudocoin(txhash);
                if h.get_coin(pseudocoin).is_some() {
                    proof {
                        assert(!admitted(h0, txx@, i as int));
                    assert(admit_from(h0, txx@, i as int) == Err::<(), StateError>(StateError::DuplicateTx));
                    }
                    return Err(StateError::DuplicateTx);
                }
                let marker = CoinDataHeight {
                    coin_data: CoinData { denom: Denom::Mel, value: 0, additional_data: Vec::new(), covhash: HashVal::zero() },
                    height: 0,
                };
                h.set_coin(pseudocoin, marker);
            }
            proof {
                assert forall|j: int| 0 <= j <= i && (#[trigger] txx@[j]).kind == TxKind::Faucet implies h.coin_spec(
                    faucet_pseudocoin(tx_hash(txx@[j])),
                ).is_some() by {
                    if j < i {
                        assert(hb.coin_spec(faucet_pseudocoin(tx_hash(txx@[j]))).is_some());
                    }
                }
                assert forall|id: CoinID| #[trigger] h.coin_spec(id) == marked(h0, txx@, i + 1, id) by {
                    assert(hb.coin_spec(id) == marked(h0, txx@, i as int, id));
                }
            }
            let ghost hc = h;
            if !tx.is_well_formed() {
                proof {
                    assert(!admitted(h0, txx@, i as int));
                    assert(admit_from(h0, txx@, i as int) == Err::<(), StateError>(StateError::MalformedTx));
                }
                return Err(StateError::MalformedTx);
            }
            if tx.kind == TxKind::Faucet && h.state.network == NetID::Mainnet {
                proof {
                    assert(!admitted(h0, txx@, i as int));
                    assert(admit_from(h0, txx@, i as int) == Err::<(), StateError>(StateError::UnbalancedInOut));
                }
                return Err(StateError::UnbalancedInOut);
            }
            let ghost before = h.transactions_cache@;
            h.transactions_cache.push((txhash, tx.copy()));
            proof {
                assert(txx@.take(i + 1) =~= txx@.take(i as int).push(txx@[i as int]));
                assert(records(txx@.take(i + 1)) =~= records(txx@.take(i as int)).push((tx_hash(txx@[i as int]), txx@[i as int]@)));
                assert(recorded_view(h) =~= recorded_view(hc) .push((tx_hash(txx@[i as int]), txx@[i as int]@)));
            }
            match h.apply_tx_fees(tx) {
                Ok(()) => {},
                Err(e) => {
                    proof {
                        assert(!admitted(h0, txx@, i as int));
                    assert(admit_from(h0, txx@, i as int) == Err::<(), StateError>(e));
                    }
                    return Err(e);
                },
            }
            proof {
                assert(admitted(h0, txx@, i as int));
                assert(admit_error(h0, txx@, i as int).is_none());
            }
            proof {
                assert forall|j: int| 0 <= j <= i && (#[trigger] txx@[j]).kind == TxKind::Faucet implies h.coin_spec(
                    faucet_pseudocoin(tx_hash(txx@[j])),
                ).is_some() by {
                    assert(h.coin_spec(faucet_pseudocoin(tx_hash(txx@[j]))) == hc.coin_spec(faucet_pseudocoin(tx_hash(txx@[j]))));
                }
                assert forall|id: CoinID| #[trigger] h.coin_spec(id) == marked(h0, txx@, i + 1, id) by {
                    assert(h.coin_spec(id) == hc.coin_spec(id));
                }
            }
            i = i + 1;
        }
        proof {
            assert(txx@.take(n as int) =~= txx@);
        }
        let mut i: usize = 0;
        while i < n
            invariant
                n == txx@.len(),
                i <= n,
                h0 == self,
                h.state == h0.state,
                forall|k: int| 0 <= k < n ==> well_formed(#[trigger] txx@[k]),
                forall|id: CoinID| #[trigger] h.coin_spec(id) == marked(h0, txx@, n as int, id),
                (h.fee_pool_cache, h.tips_cache) == pools_after(h0.fee_pool_cache, h0.tips_cache, txx@, n as int, h0.state.fee_multiplier),
                forall|hh: HashVal| #[trigger] h.stake_spec(hh) == staked(h0, txx@, i as int, hh),
                h.dosc_speed_cache == speed_after(h0, txx@, i as int),
                forall|k: int| 0 <= k < n ==> #[trigger] admitted(h0, txx@, k),
                forall|k: int| 0 <= k < i ==> stake_accepted(#[trigger] txx@[k], h0.state.network, h0.state.height),
                forall|k: int| 0 <= k < i && (#[trigger] txx@[k]).kind == TxKind::DoscMint ==> mint_static_error(
                    |id: CoinID| marked(h0, txx@, n as int, id),
                    h0.state,
                    txx@[k],
                ).is_none() && out_total(txx@[k], Denom::Erg) <= u128::MAX,
                recorded_view(h) == recorded_view(h0) + records(txx@),
                admit_from(h0, txx@, 0) == Ok::<(), StateError>(()),
            decreases n - i,
        {
            let tx = &txx[i];
            let ghost hb = h;
            if tx.kind != TxKind::Normal && tx.kind != TxKind::Faucet {
                match h.apply_tx_special(tx, rules) {
                    Ok(()) => {},
                    Err(e) => {
                        proof {
                            if tx.kind == TxKind::DoscMint {
                                assert(has_mint(txx@));
                            } else {
                                assert(!stake_accepted(txx@[i as int], h0.state.network, h0.state.height));
                            }
                        }
                        return Err(e);
                    },
                }
            }
            proof {
                assert forall|id: CoinID| #[trigger] h.coin_spec(id) == marked(h0, txx@, n as int, id) by {
                    assert(h.coin_spec(id) == hb.coin_spec(id));
                }
                assert((|id: CoinID| hb.coin_spec(id)) =~= (|id: CoinID| marked(h0, txx@, n as int, id)));
                assert forall|hh: HashVal| #[trigger] h.stake_spec(hh) == staked(h0, txx@, i + 1, hh) by {
                    assert(hb.stake_spec(hh) == staked(h0, txx@, i as int, hh));
                }
            }
            i = i + 1;
        }
        let mut i: usize = 0;
        while i < n
            invariant
                n == txx@.len(),
                i <= n,
                h0 == self,
                h.state == h0.state,
                forall|k: int| 0 <= k < n ==> well_formed(#[trigger] txx@[k]),
                forall|id: CoinID| #[trigger] h.coin_spec(id) == made(h0, txx@, n as int, i as int, id),
                forall|hh: HashVal| #[trigger] h.stake_spec(hh) == staked(h0, txx@, n as int, hh),
                h.dosc_speed_cache == speed_after(h0, txx@, n as int),
                forall|k: int| 0 <= k < n ==> #[trigger] admitted(h0, txx@, k),
                forall|k: int| 0 <= k < n ==> stake_accepted(#[trigger] txx@[k], h0.state.network, h0.state.height),
                forall|k: int| 0 <= k < n && (#[trigger] txx@[k]).kind == TxKind::DoscMint ==> mint_static_error(
                    |id: CoinID| marked(h0, txx@, n as int, id),
                    h0.state,
                    txx@[k],
                ).is_none() && out_total(txx@[k], Denom::Erg) <= u128::MAX,
                recorded_view(h) == recorded_view(h0) + records(txx@),
                admit_from(h0, txx@, 0) == Ok::<(), StateError>(()),
                (h.fee_pool_cache, h.tips_cache) == pools_after(h0.fee_pool_cache, h0.tips_cache, txx@, n as int, h0.state.fee_multiplier),
            decreases n - i,
        {
            let ghost hb = h;
            h.apply_tx_outputs(&txx[i]);
            proof {
                assert forall|id: CoinID| #[trigger] h.coin_spec(id) == made(h0, txx@, n as int, i + 1, id) by {
                    assert(h.coin_spec(id) == after_outputs(hb, txx@[i as int], id));
                    assert(hb.coin_spec(id) == made(h0, txx@, n as int, i as int, id));
                }
                assert forall|hh: HashVal| #[trigger] h.stake_spec(hh) == staked(h0, txx@, n as int, hh) by {
                    assert(hb.stake_spec(hh) == staked(h0, txx@, n as int, hh));
                }
            }
            i = i + 1;
        }
        let mut i: usize = 0;
        while i < n
            invariant
                n == txx@.len(),
                i <= n,
                h0 == self,
                h.state == h0.state,
                forall|k: int, id: CoinID| 0 <= k < i && (#[trigger] txx@[k]).inputs@.contains(id) ==> (
                #[trigger] h.coin_spec(id)).is_none(),
                forall|id: CoinID| #[trigger] h.coin_spec(id) == if consumed(txx@, i as int, id) {
                    None
                } else {
                    made(h0, txx@, n as int, n as int, id)
                },
                forall|hh: HashVal| #[trigger] h.stake_spec(hh) == staked(h0, txx@, n as int, hh),
                h.dosc_speed_cache == speed_after(h0, txx@, n as int),
                forall|k: int| 0 <= k < n ==> #[trigger] admitted(h0, txx@, k),
                forall|k: int| 0 <= k < n ==> stake_accepted(#[trigger] txx@[k], h0.state.network, h0.state.height),
                forall|k: int| 0 <= k < n && (#[trigger] txx@[k]).kind == TxKind::DoscMint ==> mint_static_error(
                    |id: CoinID| marked(h0, txx@, n as int, id),
                    h0.state,
                    txx@[k],
                ).is_none() && out_total(txx@[k], Denom::Erg) <= u128::MAX,
                recorded_view(h) == recorded_view(h0) + records(txx@),
                admit_from(h0, txx@, 0) == Ok::<(), StateError>(()),
                (h.fee_pool_cache, h.tips_cache) == pools_after(h0.fee_pool_cache, h0.tips_cache, txx@, n as int, h0.state.fee_multiplier),
                forall|k: int| 0 <= k < i ==> inputs_ok(#[trigger] view_before_inputs(h0, txx@, k), txx@[k]),
                inputs_pass(h0, txx@, 0) == inputs_pass(h0, txx@, i as int),
            decreases n - i,
        {
            let ghost hb = h;
            proof {
                assert(view_of(hb) =~= view_before_inputs(h0, txx@, i as int));
            }
            match h.apply_tx_inputs(&txx[i]) {
                Ok(()) => {},
                Err(e) => {
                    proof {
                        assert(!inputs_ok(view_before_inputs(h0, txx@, i as int), txx@[i as int]));
                        assert(inputs_pass(h0, txx@, i as int) == Err::<(), StateError>(e));
                    }
                    return Err(e);
                },
            }
            proof {
                assert(inputs_pass(h0, txx@, i as int) == inputs_pass(h0, txx@, i + 1));
                assert forall|id: CoinID| #[trigger] h.coin_spec(id) == if consumed(txx@, i + 1, id) {
                    None
                } else {
                    made(h0, txx@, n as int, n as int, id)
                } by {
                    if consumed(txx@, i + 1, id) && !txx@[i as int].inputs@.contains(id) {
                        let k = choose|k: int| 0 <= k < i + 1 && (#[trigger] txx@[k]).inputs@.contains(id);
                        assert(consumed(txx@, i as int, id));
                    }
                    if txx@[i as int].inputs@.contains(id) {
                        assert(consumed(txx@, i + 1, id));
                    }
                    if consumed(txx@, i as int, id) {
                        let k = choose|k: int| 0 <= k < i && (#[trigger] txx@[k]).inputs@.contains(id);
                        assert(consumed(txx@, i + 1, id));
                    }
                }
                assert forall|hh: HashVal| #[trigger] h.stake_spec(hh) == staked(h0, txx@, n as int, hh) by {
                    assert(hb.stake_spec(hh) == staked(h0, txx@, n as int, hh));
                }
            }
            i = i + 1;
        }
        Ok(h)
    }

    /// Checks a staking transaction and registers its stake where it is admitted.
    fn apply_tx_special_stake(&mut self, tx: &Transaction) -> (r: Result<(), StateError>)
        ensures
            r.is_err() ==> *final(self) == *old(self),
            stake_doc_of(tx.data@).is_none() || tx.outputs@.len() == 0 ==> r == Err::<(), StateError>(StateError::MalformedTx),
            ({
                let sd = stake_doc_of(tx.data@).unwrap();
                let first = tx.outputs@[0];
                let height = old(self).state.height;
                stake_doc_of(tx.data@).is_some() && tx.outputs@.len() > 0 ==> {
                    if legacy_stake(old(self).state.network, height) {
                        r.is_ok() && *final(self) == *old(self)
                    } else if first.denom != Denom::Sym {
                        r == Err::<(), StateError>(StateError::MalformedTx)
                    } else if stake_admissible(sd, first.value, height) {
                        r.is_ok() && (forall|k: HashVal| #[trigger] final(self).stake_spec(k)
                            == if k == tx_hash(*tx) { Some(sd) } else { old(self).stake_spec(k) })
                            && final(self).state == old(self).state && final(self).coin_cache == old(self).coin_cache
                            && final(self).transactions_cache == old(self).transactions_cache
                            && final(self).fee_pool_cache == old(self).fee_pool_cache
                            && final(self).tips_cache == old(self).tips_cache
                            && final(self).dosc_speed_cache == old(self).dosc_speed_cache
                    } else {
                        r.is_ok() && *final(self) == *old(self)
                    }
                }
            }),
    {
        let stake_doc = match decode_stake_doc(tx.data.as_slice()) {
            Some(sd) => sd,
            None => {
                return Err(StateError::MalformedTx);
            },
        };
        let height = self.state.height;
        let curr_epoch = height / STAKE_EPOCH;
        if tx.outputs.len() == 0 {
            return Err(StateError::MalformedTx);
        }
        let first_coin = &tx.outputs[0];
        if (self.state.network == NetID::Mainnet || self.state.network == NetID::Testnet) && height < LEGACY_STAKE_HEIGHT {
            return Ok(());
        }
        if first_coin.denom != Denom::Sym {
            Err(StateError::MalformedTx)
        } else if stake_doc.e_start > curr_epoch && stake_doc.e_post_end > stake_doc.e_start && stake_doc.syms_staked
            == first_coin.value {
            let h = tx.hash_nosigs();
            self.set_stake(h, stake_doc);
            Ok(())
        } else {
            Ok(())
        }
    }

    /// Checks a proof-of-work mint: the spent coin must be old enough, the
    /// payload must hold a proof that verifies for the coin's puzzle, and the
    /// minted output must not exceed the reward. Tracks the fastest mint seen.
    fn apply_tx_special_doscmint<M: MintRules>(&mut self, tx: &Transaction, rules: &M) -> (r: Result<(), StateError>)
        ensures
            ({
                let e = mint_static_error(|id: CoinID| old(self).coin_spec(id), old(self).state, *tx);
                &&& e.is_some() ==> r == Err::<(), StateError>(e.unwrap())
                &&& e.is_none() ==> r.is_ok() || r == Err::<(), StateError>(StateError::InvalidMelPoW)
                &&& r.is_err() ==> *final(self) == *old(self)
                &&& r.is_ok() ==> {
                    let sp = mint_speed_of(|id: CoinID| old(self).coin_spec(id), old(self).state, *tx);
                    &&& e.is_none()
                    &&& out_total(*tx, Denom::Erg) <= u128::MAX
                    &&& final(self).dosc_speed_cache == if old(self).dosc_speed_cache >= sp {
                        old(self).dosc_speed_cache
                    } else {
                        sp
                    }
                    &&& final(self).state == old(self).state
                    &&& final(self).coin_cache == old(self).coin_cache
                    &&& final(self).stakes_cache == old(self).stakes_cache
                    &&& final(self).transactions_cache == old(self).transactions_cache
                    &&& final(self).fee_pool_cache == old(self).fee_pool_cache
                    &&& final(self).tips_cache == old(self).tips_cache
                }
            }),
    {
        if tx.inputs.len() == 0 {
            return Err(StateError::MalformedTx);
        }
        let coin_id = tx.inputs[0];
        let coin = match self.get_coin(coin_id) {
            Some(c) => c,
            None => {
                return Err(StateError::MalformedTx);
            },
        };
        let height = self.state.height;
        let age: u64 = if coin.height > height { 0 } else { height - coin.height };
        if age < MIN_MINT_AGE && self.state.network == NetID::Mainnet {
            return Err(StateError::InvalidMelPoW);
        }
        let ghost coins = |id: CoinID| old(self).coin_spec(id);
        proof {
            assert(coins(coin_id) == Some(coin@));
        }
        if coin.height >= self.state.history.len() as u64 {
            return Err(StateError::MalformedTx);
        }
        let header = self.state.history[coin.height as usize];
        let key = hash_to_bytes(header.hash);
        let msg = coinid_to_bytes(coin_id);
        let chi = hash_keyed(key.as_slice(), msg.as_slice());
        let (difficulty, proof) = match decode_pow_claim(tx.data.as_slice()) {
            Some(c) => c,
            None => {
                return Err(StateError::MalformedTx);
            },
        };
        if difficulty >= 128 || age == 0 {
            return Err(StateError::InvalidMelPoW);
        }
        if height == 0 || height - 1 >= self.state.history.len() as u64 {
            return Err(StateError::MalformedTx);
        }
        let prev_speed = self.state.history[(height - 1) as usize].dosc_speed;
        let seed = hash_to_bytes(chi);
        let legacy_ok = rules.verify_legacy(seed.as_slice(), difficulty, proof.as_slice());
        let tip910_ok = if legacy_ok { false } else { rules.verify_tip910(seed.as_slice(), difficulty, proof.as_slice()) };
        let scheme = if legacy_ok { PowScheme::Legacy } else if tip910_ok { PowScheme::Tip910 } else { PowScheme::Invalid };
        assert((1u128 << difficulty) > 0) by (bit_vector)
            requires
                difficulty < 128,
        ;
        let my_speed = (1u128 << difficulty) / (age as u128);
        let reward = if scheme == PowScheme::Invalid {
            0
        } else {
            rules.reward(my_speed, prev_speed, difficulty, scheme == PowScheme::Tip910, height)
        };
        match mint_verdict(scheme, out_total_exec(tx, Denom::Erg), reward) {
            Ok(_) => {
                if self.dosc_speed_cache < my_speed {
                    self.dosc_speed_cache = my_speed;
                }
                Ok(())
            },
            Err(e) => Err(e),
        }
    }

    /// Runs the rule of a transaction's kind: proof-of-work mint or stake.
    fn apply_tx_special<M: MintRules>(&mut self, tx: &Transaction, rules: &M) -> (r: Result<(), StateError>)
        ensures
            r.is_ok() ==> final(self).state == old(self).state && final(self).coin_cache == old(self).coin_cache
                && final(self).transactions_cache == old(self).transactions_cache
                && final(self).fee_pool_cache == old(self).fee_pool_cache
                && final(self).tips_cache == old(self).tips_cache,
            tx.kind != TxKind::DoscMint && tx.kind != TxKind::Stake ==> r.is_ok() && *final(self) == *old(self),
            r.is_ok() ==> forall|k: HashVal| #[trigger] final(self).stake_spec(k) == if registers(
                *tx,
                old(self).state.network,
                old(self).state.height,
            ) && k == tx_hash(*tx) {
                Some(stake_doc_of(tx.data@).unwrap())
            } else {
                old(self).stake_spec(k)
            },
            r.is_ok() && tx.kind == TxKind::DoscMint ==> {
                let coin = old(self).coin_spec(tx.inputs@[0]).unwrap();
                let sp = mint_speed(pow_claim_of(tx.data@).unwrap().0, coin_age(old(self).state.height, coin.height));
                final(self).dosc_speed_cache == if old(self).dosc_speed_cache >= sp { old(self).dosc_speed_cache } else { sp }
            },
            r.is_ok() && tx.kind != TxKind::DoscMint ==> final(self).dosc_speed_cache == old(self).dosc_speed_cache,
            tx.kind != TxKind::DoscMint ==> r.is_ok() == stake_accepted(*tx, old(self).state.network, old(self).state.height),
            tx.kind != TxKind::DoscMint && r.is_err() ==> r == Err::<(), StateError>(StateError::MalformedTx),
            r.is_ok() && tx.kind == TxKind::DoscMint ==> mint_static_error(
                |id: CoinID| old(self).coin_spec(id),
                old(self).state,
                *tx,
            ).is_none() && out_total(*tx, Denom::Erg) <= u128::MAX,
    {
        match tx.kind {
            TxKind::DoscMint => self.apply_tx_special_doscmint(tx, rules),
            TxKind::Stake => self.apply_tx_special_stake(tx),
            _ => Ok(()),
        }
    }

    /// Spends the inputs of `tx`: each must be unlocked, present, and
    /// authorised by its script, evaluated once per destination; then the spent
    /// values must balance the outputs.
    fn apply_tx_inputs(&mut self, tx: &Transaction) -> (r: Result<(), StateError>)
        ensures
            r.is_ok() == inputs_ok(view_of(*old(self)), *tx),
            r.is_ok() ==> forall|id: CoinID| #[trigger] final(self).coin_spec(id)
                == if tx.inputs@.contains(id) { None } else { old(self).coin_spec(id) },
            r.is_ok() ==> final(self).state == old(self).state && final(self).stakes_cache == old(self).stakes_cache
                && final(self).transactions_cache == old(self).transactions_cache
                && final(self).fee_pool_cache == old(self).fee_pool_cache
                && final(self).tips_cache == old(self).tips_cache
                && final(self).dosc_speed_cache == old(self).dosc_speed_cache,
            r == inputs_from(view_of(*old(self)), *tx, 0),
    {
        let ghost h0 = *self;
        let ghost ins = tx.inputs@;
        let mut pairs: Vec<(Denom, u128)> = Vec::new();
        let mut good: Vec<HashVal> = Vec::new();
        let mut i: usize = 0;
        while i < tx.inputs.len()
            invariant
                i <= ins.len(),
                ins == tx.inputs@,
                h0 == *old(self),
                forall|id: CoinID| #[trigger] self.coin_spec(id) == if ins.take(i as int).contains(id) { None } else { h0.coin_spec(id) },
                self.state == h0.state,
                self.stakes_cache == h0.stakes_cache,
                self.transactions_cache == h0.transactions_cache,
                self.fee_pool_cache == h0.fee_pool_cache,
                self.tips_cache == h0.tips_cache,
                self.dosc_speed_cache == h0.dosc_speed_cache,
                forall|k: int| 0 <= k < i ==> h0.stake_spec(#[trigger] ins[k].txhash).is_none(),
                forall|k: int| 0 <= k < i ==> h0.coin_spec(#[trigger] ins[k]).is_some(),
                forall|j: int, k: int| 0 <= j < k < i ==> ins[j] != ins[k],
                forall|k: int| 0 <= k < i && #[trigger] first_use(view_of(h0), *tx, k) ==> script_ok(view_of(h0), *tx, k),
                good@.len() == i,
                forall|k: int| 0 <= k < i ==> #[trigger] good@[k] == spent_coin(view_of(h0), *tx, k).covhash,
                pairs@ == spent_pairs(view_of(h0), *tx, i as int),
                inputs_from(view_of(h0), *tx, 0) == inputs_from(view_of(h0), *tx, i as int),
            decreases ins.len() - i,
        {
            let coin_id = tx.inputs[i];
            if self.get_stake(coin_id.txhash).is_some() {
                proof {
                    assert(ins[i as int] == coin_id);
                    assert(input_error(view_of(h0), *tx, i as int) == Some(StateError::CoinLocked));
                }
                return Err(StateError::CoinLocked);
            }
            let coin_data = self.get_coin(coin_id);
            proof {
                if ins.take(i as int).contains(coin_id) {
                    let j = choose|j: int| 0 <= j < i && #[trigger] ins.take(i as int)[j] == coin_id;
                    assert(ins[j] == ins[i as int]);
                }
            }
            match coin_data {
                None => {
                    proof {
                        assert(ins[i as int] == coin_id);
                        assert(ins.contains(coin_id));
                        assert(input_error(view_of(h0), *tx, i as int) == Some(StateError::NonexistentCoin(coin_id)));
                    }
                    return Err(StateError::NonexistentCoin(coin_id));
                },
                Some(coin) => {
                    let covhash = coin.coin_data.covhash;
                    proof {
                        assert(!ins.take(i as int).contains(coin_id));
                        assert forall|j: int| 0 <= j < i implies ins[j] != ins[i as int] by {
                            if ins[j] == coin_id {
                                assert(ins.take(i as int)[j] == coin_id);
                            }
                        }
                        assert(spent_coin(view_of(h0), *tx, i as int) == coin@);
                    }
                    let seen = contains_hash(&good, covhash);
                    if !seen {
                        proof {
                            assert forall|j: int| 0 <= j < i implies spent_coin(view_of(h0), *tx, j).covhash
                                != #[trigger] spent_coin(view_of(h0), *tx, i as int).covhash by {
                                assert(good@[j] == spent_coin(view_of(h0), *tx, j).covhash);
                            }
                            assert(first_use(view_of(h0), *tx, i as int));
                        }
                        match find_script(&tx.covenants, covhash) {
                            None => {
                                proof {
                                    assert(input_error(view_of(h0), *tx, i as int) == Some(StateError::NonexistentScript(covhash)));
                                }
                                return Err(StateError::NonexistentScript(covhash));
                            },
                            Some(k) => {
                                let mut args: Vec<Value> = Vec::new();
                                args.push(Value::Int(U256::from_u128(i as u128)));
                                args.push(Value::Int(U256::from_u128(coin.coin_data.value)));
                                args.push(Value::Int(U256::from_u128(coin.height as u128)));
                                args.push(Value::Int(U256::from_u128(tx.fee)));
                                args.push(Value::Bytes(coinid_to_bytes(coin_id)));
                                args.push(Value::Bytes(denom_to_bytes(coin.coin_data.denom)));
                                args.push(Value::Bytes(coin.coin_data.additional_data.clone()));
                                args.push(Value::Bytes(hash_to_bytes(coin.coin_data.covhash)));
                                args.push(Value::Bytes(self.last_header()));
                                proof {
                                    assert(views(args@) =~= env_args(*tx, i as int, coin_id, coin@, view_of(h0).last_header));
                                }
                                if !tx.covenants[k].check_raw(args.as_slice()) {
                                    proof {
                                        assert(!script_ok(view_of(h0), *tx, i as int));
                                        assert(input_error(view_of(h0), *tx, i as int) == Some(StateError::ViolatesScript(covhash)));
                                    }
                                    return Err(StateError::ViolatesScript(covhash));
                                }
                            },
                        }
                    } else {
                        proof {
                            let j = choose|j: int| 0 <= j < good@.len() && good@[j] == covhash;
                            assert(spent_coin(view_of(h0), *tx, j).covhash == spent_coin(view_of(h0), *tx, i as int).covhash);
                            assert(!first_use(view_of(h0), *tx, i as int));
                        }
                    }
                    self.del_coin(coin_id);
                    pairs.push((coin.coin_data.denom, coin.coin_data.value));
                    good.push(covhash);
                    proof {
                        assert(input_error(view_of(h0), *tx, i as int).is_none());
                        assert(ins.take(i + 1) =~= ins.take(i as int).push(coin_id));
                        assert forall|id: CoinID| #[trigger] self.coin_spec(id) == if ins.take(i + 1).contains(id) {
                            None
                        } else {
                            h0.coin_spec(id)
                        } by {
                            if id == coin_id {
                                assert(ins.take(i + 1)[i as int] == coin_id);
                            } else {
                                if ins.take(i + 1).contains(id) {
                                    let j = choose|j: int| 0 <= j < i + 1 && #[trigger] ins.take(i + 1)[j] == id;
                                    assert(ins.take(i as int)[j] == id);
                                }
                                if ins.take(i as int).contains(id) {
                                    let j = choose|j: int| 0 <= j < i && #[trigger] ins.take(i as int)[j] == id;
                                    assert(ins.take(i + 1)[j] == id);
                                }
                            }
                        }
                        assert(pairs@ =~= spent_pairs(view_of(h0), *tx, i + 1));
                        assert forall|k: int| 0 <= k < i + 1 && #[trigger] first_use(view_of(h0), *tx, k) implies script_ok(view_of(h0), *tx, k) by {
                            if k < i {
                            }
                        }
                    }
                },
            }
            i = i + 1;
        }
        proof {
            assert(ins.take(ins.len() as int) =~= ins);
        }
        if !check_balance(tx, &pairs) {
            proof {
                assert(inputs_from(view_of(h0), *tx, ins.len() as int) == Err::<(), StateError>(StateError::UnbalancedInOut));
            }
            return Err(StateError::UnbalancedInOut);
        }
        Ok(())
    }

    /// Charges the fee of `tx`: the least fee goes to the fee pool and the rest
    /// to the tips, both saturating; a fee below the least is refused.
    fn apply_tx_fees(&mut self, tx: &Transaction) -> (r: Result<(), StateError>)
        ensures
            tx.fee < min_fee(*tx, old(self).state.fee_multiplier) ==> r == Err::<(), StateError>(
                StateError::InsufficientFees(min_fee(*tx, old(self).state.fee_multiplier)),
            ) && *final(self) == *old(self),
            tx.fee >= min_fee(*tx, old(self).state.fee_multiplier) ==> r.is_ok()
                && final(self).tips_cache == sat((old(self).tips_cache + (tx.fee - min_fee(*tx, old(self).state.fee_multiplier))) as nat)
                && final(self).fee_pool_cache == sat((old(self).fee_pool_cache + min_fee(*tx, old(self).state.fee_multiplier)) as nat)
                && final(self).state == old(self).state
                && final(self).coin_cache == old(self).coin_cache
                && final(self).stakes_cache == old(self).stakes_cache
                && final(self).transactions_cache == old(self).transactions_cache
                && final(self).dosc_speed_cache == old(self).dosc_speed_cache,
    {
        let min = tx.base_fee(self.state.fee_multiplier);
        if tx.fee < min {
            Err(StateError::InsufficientFees(min))
        } else {
            let tips = tx.fee - min;
            self.tips_cache = self.tips_cache.saturating_add(tips);
            self.fee_pool_cache = self.fee_pool_cache.saturating_add(min);
            Ok(())
        }
    }

    /// Creates the coins of the outputs of `tx`, but those sent to the destroying address.
    fn apply_tx_outputs(&mut self, tx: &Transaction)
        requires
            tx.outputs@.len() <= 256,
        ensures
            forall|id: CoinID| #[trigger] final(self).coin_spec(id) == after_outputs(*old(self), *tx, id),
            final(self).state == old(self).state,
            final(self).stakes_cache == old(self).stakes_cache,
            final(self).transactions_cache == old(self).transactions_cache,
            final(self).fee_pool_cache == old(self).fee_pool_cache,
            final(self).tips_cache == old(self).tips_cache,
            final(self).dosc_speed_cache == old(self).dosc_speed_cache,
    {
        let height = self.state.height;
        let txhash = tx.hash_nosigs();
        let zero = HashVal::zero();
        let mut i: usize = 0;
        while i < tx.outputs.len()
            invariant
                i <= tx.outputs@.len(),
                tx.outputs@.len() <= 256,
                txhash == tx_hash(*tx),
                height == old(self).state.height,
                zero == (HashVal { hi: 0, lo: 0 }),
                forall|id: CoinID| #[trigger] self.coin_spec(id) == if id.txhash == txhash && (id.index as int) < i
                    && kept(*tx, id.index as int) {
                    Some(out_coin(*tx, txhash, height, id.index as int))
                } else {
                    old(self).coin_spec(id)
                },
                self.state == old(self).state,
                self.stakes_cache == old(self).stakes_cache,
                self.transactions_cache == old(self).transactions_cache,
                self.fee_pool_cache == old(self).fee_pool_cache,
                self.tips_cache == old(self).tips_cache,
                self.dosc_speed_cache == old(self).dosc_speed_cache,
            decreases tx.outputs@.len() - i,
        {
            let o = &tx.outputs[i];
            let denom = if o.denom == Denom::NewCoin { Denom::Custom(txhash) } else { o.denom };
            if o.covhash != zero {
                let c = CoinDataHeight {
                    coin_data: CoinData {
                        value: o.value,
                        denom,
                        additional_data: o.additional_data.clone(),
                        covhash: o.covhash,
                    },
                    height,
                };
                let id = CoinID { txhash, index: i as u8 };
                self.set_coin(id, c);
            }
            i = i + 1;
        }
    }

    /// The state underneath, as it was when the handle was made.
    pub closed spec fn base(&self) -> State {
        self.state
    }

    /// The coin the handle sees under `id`.
    pub closed spec fn coin_spec(&self, id: CoinID) -> Option<CoinV> {
        overlay_coin(self.coin_cache@, self.state, id)
    }

    /// The stake the handle sees registered by the transaction `h`.
    pub closed spec fn stake_spec(&self, h: HashVal) -> Option<StakeDoc> {
        match stake_lookup(self.stakes_cache@, h) {
            Some(sd) => Some(sd),
            None => self.state.stake_spec(h),
        }
    }

    /// The transactions recorded by the handle, in order.
    pub closed spec fn recorded(&self) -> Seq<(HashVal, Transaction)> {
        self.transactions_cache@
    }

    pub closed spec fn fee_pool_spec(&self) -> u128 {
        self.fee_pool_cache
    }

    pub closed spec fn tips_spec(&self) -> u128 {
        self.tips_cache
    }

    pub closed spec fn dosc_speed_spec(&self) -> u128 {
        self.dosc_speed_cache
    }

    /// A handle on `state` with no changes yet.
    pub fn new(state: State) -> (r: StateHandle)
        ensures
            r.base() == state,
            forall|id: CoinID| r.coin_spec(id) == state.coin_spec(id),
            forall|h: HashVal| r.stake_spec(h) == state.stake_spec(h),
            r.recorded().len() == 0,
            r.fee_pool_spec() == state.fee_pool,
            r.tips_spec() == state.tips,
            r.dosc_speed_spec() == state.dosc_speed,
    {
        let fee_pool_cache = state.fee_pool;
        let tips_cache = state.tips;
        let dosc_speed_cache = state.dosc_speed;
        StateHandle {
            state,
            coin_cache: Vec::new(),
            transactions_cache: Vec::new(),
            fee_pool_cache,
            tips_cache,
            dosc_speed_cache,
            stakes_cache: Vec::new(),
        }
    }

    /// Writes every change of the handle into the state and returns it.
    pub fn commit(self) -> (r: State)
        ensures
            forall|id: CoinID| r.coin_spec(id) == self.coin_spec(id),
            forall|h: HashVal| r.stake_spec(h) == self.stake_spec(h),
            r.transactions@ == self.base().transactions@ + self.recorded(),
            r.fee_pool == self.fee_pool_spec(),
            r.tips == self.tips_spec(),
            r.dosc_speed == self.dosc_speed_spec(),
            r.network == self.base().network,
            r.height == self.base().height,
            r.fee_multiplier == self.base().fee_multiplier,
            r.history == self.base().history,
    {
        let StateHandle {
            mut state,
            coin_cache,
            transactions_cache,
            fee_pool_cache,
            tips_cache,
            dosc_speed_cache,
            stakes_cache,
        } = self;
        let ghost base = state;
        let mut coins = coin_cache;
        state.coins.append(&mut coins);
        let mut txx = transactions_cache;
        state.transactions.append(&mut txx);
        let mut stakes = stakes_cache;
        state.stakes.append(&mut stakes);
        state.fee_pool = fee_pool_cache;
        state.tips = tips_cache;
        state.dosc_speed = dosc_speed_cache;
        proof {
            assert forall|id: CoinID| state.coin_spec(id) == overlay_coin(coin_cache@, base, id) by {
                lemma_log_append(base.coins@, coin_cache@, id);
            }
            assert forall|h: HashVal| state.stake_spec(h) == self.stake_spec(h) by {
                lemma_stake_append(base.stakes@, stakes_cache@, h);
            }
        }
        state
    }

    /// The hash of the last sealed header, or nothing.
    fn last_header(&self) -> (r: Vec<u8>)
        ensures
            r@ == last_header_bytes(self.state),
    {
        let height = self.state.height;
        if height >= 1 && height - 1 < self.state.history.len() as u64 {
            hash_to_bytes(self.state.history[(height - 1) as usize].hash)
        } else {
            let e: Vec<u8> = Vec::new();
            proof {
                assert(e@ =~= Seq::<u8>::empty());
            }
            e
        }
    }

    /// The coin the handle sees under `id`.
    fn get_coin(&self, id: CoinID) -> (r: Option<CoinDataHeight>)
        ensures
            opt_view(r) == self.coin_spec(id),
    {
        match find_coin(&self.coin_cache, id) {
            Some(o) => o,
            None => self.state.get_coin(id),
        }
    }

    fn set_coin(&mut self, id: CoinID, c: CoinDataHeight)
        ensures
            forall|k: CoinID| final(self).coin_spec(k) == if k == id { Some(c@) } else { old(self).coin_spec(k) },
            final(self).state == old(self).state,
            final(self).transactions_cache == old(self).transactions_cache,
            final(self).stakes_cache == old(self).stakes_cache,
            final(self).fee_pool_cache == old(self).fee_pool_cache,
            final(self).tips_cache == old(self).tips_cache,
            final(self).dosc_speed_cache == old(self).dosc_speed_cache,
    {
        self.coin_cache.push((id, Some(c)));
        proof {
            assert(self.coin_cache@.drop_last() =~= old(self).coin_cache@);
        }
    }

    fn del_coin(&mut self, id: CoinID)
        ensures
            forall|k: CoinID| final(self).coin_spec(k) == if k == id { None } else { old(self).coin_spec(k) },
            final(self).state == old(self).state,
            final(self).transactions_cache == old(self).transactions_cache,
            final(self).stakes_cache == old(self).stakes_cache,
            final(self).fee_pool_cache == old(self).fee_pool_cache,
            final(self).tips_cache == old(self).tips_cache,
            final(self).dosc_speed_cache == old(self).dosc_speed_cache,
    {
        self.coin_cache.push((id, None));
        proof {
            assert(self.coin_cache@.drop_last() =~= old(self).coin_cache@);
        }
    }

    fn get_stake(&self, h: HashVal) -> (r: Option<StakeDoc>)
        ensures
            r == self.stake_spec(h),
    {
        match find_stake(&self.stakes_cache, h) {
            Some(sd) => Some(sd),
            None => self.state.get_stake(h),
        }
    }

    fn set_stake(&mut self, h: HashVal, sd: StakeDoc)
        ensures
            forall|k: HashVal| final(self).stake_spec(k) == if k == h { Some(sd) } else { old(self).stake_spec(k) },
            final(self).state == old(self).state,
            final(self).coin_cache == old(self).coin_cache,
            final(self).transactions_cache == old(self).transactions_cache,
            final(self).fee_pool_cache == old(self).fee_pool_cache,
            final(self).tips_cache == old(self).tips_cache,
            final(self).dosc_speed_cache == old(self).dosc_speed_cache,
    {
        self.stakes_cache.push((h, sd));
        proof {
            assert(self.stakes_cache@.drop_last() =~= old(self).stakes_cache@);
        }
    }
}

} // verus!
