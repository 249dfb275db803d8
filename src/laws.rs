//! Laws of the batch applier: conservation of value, no double spending, and
//! splitting a batch.
use vstd::prelude::*;
use crate::applytx::{
    LedgerView, StateHandle, balanced, batch_coins, batch_ok, checked_denom, consumed, denom_ok, first_use, in_sum,
    inputs_ok, kept, listed, made, marked, out_total, pools_after, script_ok, spent_coin, spent_pairs, staked,
    view_before_inputs, admitted, stake_accepted, faucet_pseudocoin, marker_coin, recorded_view, records, has_mint,
    speed_after, input_error, admit_error,
};
use crate::state::StateError;
use crate::ledger::{CoinID, Denom, HashVal, Transaction, TxKind, tx_hash};

verus! {
/// Value is conserved: when the inputs of a transaction other than a faucet
/// are accepted, every listed unit but the new-token marker (and the minted
/// unit of a proof-of-work mint) goes out exactly as much as was spent.
pub proof fn lemma_value_conserved(v: LedgerView, tx: Transaction, d: Denom)
    requires
        inputs_ok(v, tx),
        tx.kind != TxKind::Faucet,
        listed(tx, d),
        checked_denom(tx, d),
    ensures
        out_total(tx, d) == in_sum(spent_pairs(v, tx, tx.inputs@.len() as int), d),
{
    assert(denom_ok(tx, spent_pairs(v, tx, tx.inputs@.len() as int), d));
}

/// A coin that is gone cannot be spent: after a batch that consumed it, any
/// transaction spending it again is refused.
pub proof fn lemma_spent_coin_unspendable(v: LedgerView, tx: Transaction, id: CoinID)
    requires
        (v.coins)(id).is_none(),
        tx.inputs@.contains(id),
    ensures
        !inputs_ok(v, tx),
{
    let k = choose|k: int| 0 <= k < tx.inputs@.len() && tx.inputs@[k] == id;
    assert((v.coins)(tx.inputs@[k]).is_none());
}

/// Spending a coin that is gone, or one an earlier input of the same
/// transaction spends, fails with `NonexistentCoin` unless a stake locks it.
pub proof fn lemma_reuse_is_nonexistent(v: LedgerView, tx: Transaction, k: int)
    requires
        0 <= k < tx.inputs@.len(),
        (v.stakes)(tx.inputs@[k].txhash).is_none(),
        (v.coins)(tx.inputs@[k]).is_none() || exists|j: int| 0 <= j < k && tx.inputs@[j] == tx.inputs@[k],
    ensures
        input_error(v, tx, k) == Some(StateError::NonexistentCoin(tx.inputs@[k])),
{
    if (v.coins)(tx.inputs@[k]).is_some() {
        let j = choose|j: int| 0 <= j < k && tx.inputs@[j] == tx.inputs@[k];
        assert(tx.inputs@.take(k)[j] == tx.inputs@[k]);
    }
}

proof fn lemma_marker_stays(h0: StateHandle, txx: Seq<Transaction>, j: int, i: int)
    requires
        0 <= j < i <= txx.len(),
        txx[j].kind == TxKind::Faucet,
    ensures
        marked(h0, txx, i, faucet_pseudocoin(tx_hash(txx[j]))).is_some(),
    decreases i,
{
    if i - 1 > j {
        lemma_marker_stays(h0, txx, j, i - 1);
    }
}

/// A faucet transaction whose hash repeats an earlier faucet of the same batch
/// fails admission with `DuplicateTx`.
pub proof fn lemma_faucet_replay(h0: StateHandle, txx: Seq<Transaction>, j: int, i: int)
    requires
        0 <= j < i < txx.len(),
        txx[j].kind == TxKind::Faucet,
        txx[i].kind == TxKind::Faucet,
        tx_hash(txx[j]) == tx_hash(txx[i]),
    ensures
        admit_error(h0, txx, i) == Some(StateError::DuplicateTx),
{
    lemma_marker_stays(h0, txx, j, i);
}



proof fn lemma_marked_prefix(h0: StateHandle, s: Seq<Transaction>, t: Transaction, i: int, id: CoinID)
    requires
        0 <= i <= s.len(),
    ensures
        marked(h0, s.push(t), i, id) == marked(h0, s, i, id),
    decreases i,
{
    if i > 0 {
        assert(s.push(t)[i - 1] == s[i - 1]);
        lemma_marked_prefix(h0, s, t, i - 1, id);
    }
}

proof fn lemma_staked_prefix(h0: StateHandle, s: Seq<Transaction>, t: Transaction, i: int, x: HashVal)
    requires
        0 <= i <= s.len(),
    ensures
        staked(h0, s.push(t), i, x) == staked(h0, s, i, x),
    decreases i,
{
    if i > 0 {
        assert(s.push(t)[i - 1] == s[i - 1]);
        lemma_staked_prefix(h0, s, t, i - 1, x);
    }
}

/// Whether output `id` is made by one of the first `i` transactions.
pub open spec fn made_by(txx: Seq<Transaction>, i: int, id: CoinID) -> bool {
    exists|k: int|
        0 <= k < i && id.txhash == tx_hash(#[trigger] txx[k]) && (id.index as int) < txx[k].outputs@.len() && kept(
            txx[k],
            id.index as int,
        )
}

proof fn lemma_made_prefix(h0: StateHandle, s: Seq<Transaction>, t: Transaction, i: int, id: CoinID)
    requires
        0 <= i <= s.len(),
    ensures
        !(t.kind == TxKind::Faucet && id == faucet_pseudocoin(tx_hash(t))) ==> made(
            h0,
            s.push(t),
            s.len() + 1 as int,
            i,
            id,
        ) == made(h0, s, s.len() as int, i, id),
        (t.kind == TxKind::Faucet && id == faucet_pseudocoin(tx_hash(t))) && !made_by(s, i, id) ==> made(
            h0,
            s.push(t),
            s.len() + 1 as int,
            i,
            id,
        ) == Some(marker_coin()),
    decreases i,
{
    if i > 0 {
        assert(s.push(t)[i - 1] == s[i - 1]);
        lemma_made_prefix(h0, s, t, i - 1, id);
        if !made_by(s, i - 1, id) && made_by(s, i, id) {
            let k = choose|k: int|
                0 <= k < i && id.txhash == tx_hash(#[trigger] s[k]) && (id.index as int) < s[k].outputs@.len() && kept(
                    s[k],
                    id.index as int,
                );
            assert(k == i - 1);
        }
        if made_by(s, i - 1, id) {
            let k = choose|k: int|
                0 <= k < i - 1 && id.txhash == tx_hash(#[trigger] s[k]) && (id.index as int) < s[k].outputs@.len()
                    && kept(s[k], id.index as int);
            assert(made_by(s, i, id));
        }
    } else {
        lemma_marked_prefix(h0, s, t, s.len() as int, id);
    }
}

/// Splitting the last transaction off a batch changes nothing when both ways
/// succeed: the coins, stakes and fee pools after the whole batch are those
/// after the shorter batch followed by a batch of the last transaction alone.
/// This holds where no earlier transaction spends a coin of the last one, and
/// where the marker of a last faucet is neither made nor spent by the earlier
/// ones.
pub proof fn lemma_batch_split_last(h0: StateHandle, h1: StateHandle, s: Seq<Transaction>, t: Transaction)
    requires
        forall|id: CoinID| #[trigger] h1.coin_spec(id) == batch_coins(h0, s, id),
        forall|x: HashVal| #[trigger] h1.stake_spec(x) == staked(h0, s, s.len() as int, x),
        (h1.fee_pool_spec(), h1.tips_spec()) == pools_after(
            h0.fee_pool_spec(),
            h0.tips_spec(),
            s,
            s.len() as int,
            h0.base().fee_multiplier,
        ),
        h1.base().height == h0.base().height,
        h1.base().network == h0.base().network,
        h1.base().fee_multiplier == h0.base().fee_multiplier,
        forall|id: CoinID| made_by(seq![t], 1, id) ==> !consumed(s, s.len() as int, id),
        t.kind == TxKind::Faucet ==> !made_by(s, s.len() as int, faucet_pseudocoin(tx_hash(t))) && !consumed(
            s,
            s.len() as int,
            faucet_pseudocoin(tx_hash(t)),
        ),
        recorded_view(h1) == recorded_view(h0) + records(s),
        h1.dosc_speed_spec() == speed_after(h0, s, s.len() as int),
        !has_mint(s.push(t)),
    ensures
        recorded_view(h0) + records(s.push(t)) == recorded_view(h1) + records(seq![t]),
        speed_after(h0, s.push(t), s.len() + 1 as int) == speed_after(h1, seq![t], 1),
        forall|id: CoinID| batch_coins(h0, s.push(t), id) == #[trigger] batch_coins(h1, seq![t], id),
        forall|x: HashVal| staked(h0, s.push(t), s.len() + 1 as int, x) == #[trigger] staked(h1, seq![t], 1, x),
        pools_after(h0.fee_pool_spec(), h0.tips_spec(), s.push(t), s.len() + 1 as int, h0.base().fee_multiplier)
            == pools_after(h1.fee_pool_spec(), h1.tips_spec(), seq![t], 1, h1.base().fee_multiplier),
{
    let n = s.len() as int;
    let big = s.push(t);
    assert(big[n] == t);
    assert(seq![t][0] == t);
    assert forall|id: CoinID| batch_coins(h0, big, id) == #[trigger] batch_coins(h1, seq![t], id) by {
        lemma_made_prefix(h0, s, t, n, id);
        lemma_marked_prefix(h0, s, t, n, id);
        assert(consumed(big, n + 1, id) == (consumed(s, n, id) || t.inputs@.contains(id))) by {
            if consumed(big, n + 1, id) {
                let k = choose|k: int| 0 <= k < n + 1 && (#[trigger] big[k]).inputs@.contains(id);
                if k < n {
                    assert(big[k] == s[k]);
                }
            }
            if consumed(s, n, id) {
                let k = choose|k: int| 0 <= k < n && (#[trigger] s[k]).inputs@.contains(id);
                assert(big[k] == s[k]);
            }
        }
        assert(consumed(seq![t], 1, id) == t.inputs@.contains(id)) by {
            if consumed(seq![t], 1, id) {
                let k = choose|k: int| 0 <= k < 1 && (#[trigger] seq![t][k]).inputs@.contains(id);
            }
        }
        if id.txhash == tx_hash(t) && (id.index as int) < t.outputs@.len() && kept(t, id.index as int) {
            assert(made_by(seq![t], 1, id));
        }
        assert(h1.coin_spec(id) == batch_coins(h0, s, id));
        assert(marked(h1, seq![t], 0, id) == h1.coin_spec(id));
        assert(made(h1, seq![t], 1, 0, id) == marked(h1, seq![t], 1, id));
        assert(made(h0, big, n + 1, 0, id) == marked(h0, big, n + 1, id));
    }
    assert forall|x: HashVal| staked(h0, big, n + 1, x) == #[trigger] staked(h1, seq![t], 1, x) by {
        lemma_staked_prefix(h0, s, t, n, x);
        assert(h1.stake_spec(x) == staked(h0, s, n, x));
        assert(staked(h1, seq![t], 0, x) == h1.stake_spec(x));
    }
    assert(pools_after(h0.fee_pool_spec(), h0.tips_spec(), big, n, h0.base().fee_multiplier) == pools_after(
        h0.fee_pool_spec(),
        h0.tips_spec(),
        s,
        n,
        h0.base().fee_multiplier,
    )) by {
        lemma_pools_prefix(h0.fee_pool_spec(), h0.tips_spec(), s, t, n, h0.base().fee_multiplier);
    }
    assert(pools_after(h1.fee_pool_spec(), h1.tips_spec(), seq![t], 0, h1.base().fee_multiplier) == (
    h1.fee_pool_spec(), h1.tips_spec()));
    assert(records(s.push(t)) =~= records(s) + records(seq![t]));
    assert(recorded_view(h0) + records(s.push(t)) =~= recorded_view(h1) + records(seq![t]));
    assert forall|i: int| 0 <= i < n + 1 implies (#[trigger] big[i]).kind != TxKind::DoscMint by {
        if big[i].kind == TxKind::DoscMint {
            assert(has_mint(big));
        }
    }
    assert forall|i: int| 0 <= i < n implies (#[trigger] s[i]).kind != TxKind::DoscMint by {
        assert(big[i] == s[i]);
    }
    assert forall|i: int| 0 <= i < 1 implies (#[trigger] seq![t][i]).kind != TxKind::DoscMint by {
        assert(big[n] == t);
    }
    lemma_speed_without_mint(h0, big, n + 1);
    lemma_speed_without_mint(h0, s, n);
    lemma_speed_without_mint(h1, seq![t], 1);
}

/// Without mints the fastest speed stays as it was.
proof fn lemma_speed_without_mint(h0: StateHandle, txx: Seq<Transaction>, i: int)
    requires
        0 <= i <= txx.len(),
        forall|k: int| 0 <= k < txx.len() ==> (#[trigger] txx[k]).kind != TxKind::DoscMint,
    ensures
        speed_after(h0, txx, i) == h0.dosc_speed_spec(),
    decreases i,
{
    if i > 0 {
        lemma_speed_without_mint(h0, txx, i - 1);
    }
}

proof fn lemma_pools_prefix(pool: u128, tips: u128, s: Seq<Transaction>, t: Transaction, i: int, mult: u128)
    requires
        0 <= i <= s.len(),
    ensures
        pools_after(pool, tips, s.push(t), i, mult) == pools_after(pool, tips, s, i, mult),
    decreases i,
{
    if i > 0 {
        assert(s.push(t)[i - 1] == s[i - 1]);
        lemma_pools_prefix(pool, tips, s, t, i - 1, mult);
    }
}



proof fn lemma_made_unmade(h0: StateHandle, s: Seq<Transaction>, n: int, i: int, id: CoinID)
    requires
        0 <= i <= s.len(),
        !made_by(s, i, id),
    ensures
        made(h0, s, n, i, id) == marked(h0, s, n, id),
    decreases i,
{
    if i > 0 {
        if made_by(s, i - 1, id) {
            let k = choose|k: int|
                0 <= k < i - 1 && id.txhash == tx_hash(#[trigger] s[k]) && (id.index as int) < s[k].outputs@.len()
                    && kept(s[k], id.index as int);
            assert(made_by(s, i, id));
        }
        if id.txhash == tx_hash(s[i - 1]) && (id.index as int) < s[i - 1].outputs@.len() && kept(s[i - 1], id.index as int) {
            assert(made_by(s, i, id));
        }
        lemma_made_unmade(h0, s, n, i - 1, id);
    }
}

proof fn lemma_inputs_ok_agree(v1: LedgerView, v2: LedgerView, tx: Transaction)
    requires
        inputs_ok(v1, tx),
        v1.last_header == v2.last_header,
        forall|k: int| 0 <= k < tx.inputs@.len() ==> (v2.coins)(#[trigger] tx.inputs@[k]) == (v1.coins)(tx.inputs@[k]),
        forall|k: int|
            0 <= k < tx.inputs@.len() && (v1.stakes)(#[trigger] tx.inputs@[k].txhash).is_none() ==> (v2.stakes)(
                tx.inputs@[k].txhash,
            ).is_none(),
    ensures
        inputs_ok(v2, tx),
{
    let ins = tx.inputs@;
    assert forall|k: int| 0 <= k < ins.len() implies #[trigger] spent_coin(v2, tx, k) == spent_coin(v1, tx, k) by {
        assert((v2.coins)(ins[k]) == (v1.coins)(ins[k]));
    }
    assert forall|k: int| 0 <= k < ins.len() && #[trigger] first_use(v2, tx, k) implies script_ok(v2, tx, k) by {
        assert(spent_coin(v2, tx, k) == spent_coin(v1, tx, k));
        assert forall|j: int| 0 <= j < k implies spent_coin(v1, tx, j).covhash != #[trigger] spent_coin(v1, tx, k).covhash by {
            assert(spent_coin(v2, tx, j) == spent_coin(v1, tx, j));
            assert(spent_coin(v2, tx, j).covhash != spent_coin(v2, tx, k).covhash);
        }
        assert(first_use(v1, tx, k));
    }
    assert forall|k: int| 0 <= k < ins.len() implies (v2.coins)(#[trigger] ins[k]).is_some() by {
        assert((v2.coins)(ins[k]) == (v1.coins)(ins[k]));
    }
    assert forall|k: int| 0 <= k < ins.len() implies (v2.stakes)(#[trigger] ins[k].txhash).is_none() by {
        assert((v1.stakes)(ins[k].txhash).is_none());
    }
    assert(spent_pairs(v2, tx, ins.len() as int) =~= spent_pairs(v1, tx, ins.len() as int));
}

/// A batch that passes its checks still passes them with its last
/// transaction split off: the shorter batch passes, and so does a batch of the
/// last transaction alone on what the shorter one leaves. The conditions are
/// those of the law above.
pub proof fn lemma_batch_split_ok(h0: StateHandle, h1: StateHandle, s: Seq<Transaction>, t: Transaction)
    requires
        batch_ok(h0, s.push(t)),
        forall|id: CoinID| #[trigger] h1.coin_spec(id) == batch_coins(h0, s, id),
        forall|x: HashVal| #[trigger] h1.stake_spec(x) == staked(h0, s, s.len() as int, x),
        h1.base().height == h0.base().height,
        h1.base().network == h0.base().network,
        h1.base().fee_multiplier == h0.base().fee_multiplier,
        h1.base().history == h0.base().history,
        forall|id: CoinID| made_by(seq![t], 1, id) ==> !consumed(s, s.len() as int, id),
        t.kind == TxKind::Faucet ==> !made_by(s, s.len() as int, faucet_pseudocoin(tx_hash(t))) && !consumed(
            s,
            s.len() as int,
            faucet_pseudocoin(tx_hash(t)),
        ),
    ensures
        batch_ok(h0, s),
        batch_ok(h1, seq![t]),
{
    let n = s.len() as int;
    let big = s.push(t);
    assert(big[n] == t);
    assert(seq![t][0] == t);
    assert forall|k: int, id: CoinID| 0 <= k <= n implies #[trigger] consumed(big, k, id) == consumed(s, k, id) by {
        if consumed(big, k, id) {
            let j = choose|j: int| 0 <= j < k && (#[trigger] big[j]).inputs@.contains(id);
            assert(big[j] == s[j]);
        }
        if consumed(s, k, id) {
            let j = choose|j: int| 0 <= j < k && (#[trigger] s[j]).inputs@.contains(id);
            assert(big[j] == s[j]);
        }
    }
    // the shorter batch
    assert forall|i: int| 0 <= i < n implies #[trigger] admitted(h0, s, i) by {
        assert(admitted(h0, big, i));
        assert(big[i] == s[i]);
        lemma_marked_prefix(h0, s, t, i, faucet_pseudocoin(tx_hash(s[i])));
    }
    assert forall|i: int| 0 <= i < n implies stake_accepted(#[trigger] s[i], h0.base().network, h0.base().height) by {
        assert(big[i] == s[i]);
        assert(stake_accepted(big[i], h0.base().network, h0.base().height));
    }
    assert forall|i: int| 0 <= i < n implies inputs_ok(#[trigger] view_before_inputs(h0, s, i), s[i]) by {
        assert(big[i] == s[i]);
        let v1 = view_before_inputs(h0, big, i);
        let v2 = view_before_inputs(h0, s, i);
        assert(inputs_ok(v1, big[i]));
        assert forall|k: int| 0 <= k < s[i].inputs@.len() implies (v2.coins)(#[trigger] s[i].inputs@[k]) == (v1.coins)(
            s[i].inputs@[k],
        ) by {
            let id = s[i].inputs@[k];
            assert(s[i].inputs@.contains(id));
            assert(consumed(s, n, id));
            lemma_made_prefix(h0, s, t, n, id);
            if id.txhash == tx_hash(t) && (id.index as int) < t.outputs@.len() && kept(t, id.index as int) {
                assert(made_by(seq![t], 1, id));
            }
            assert(consumed(big, i, id) == consumed(s, i, id));
        }
        assert forall|k: int|
            0 <= k < s[i].inputs@.len() && (v1.stakes)(#[trigger] s[i].inputs@[k].txhash).is_none() implies (v2.stakes)(
            s[i].inputs@[k].txhash,
        ).is_none() by {
            lemma_staked_prefix(h0, s, t, n, s[i].inputs@[k].txhash);
        }
        lemma_inputs_ok_agree(v1, v2, s[i]);
    }
    // the last transaction alone
    let pc = faucet_pseudocoin(tx_hash(t));
    assert(admitted(h0, big, n));
    assert(admitted(h1, seq![t], 0)) by {
        if t.kind == TxKind::Faucet {
            lemma_marked_prefix(h0, s, t, n, pc);
            lemma_made_unmade(h0, s, n, n, pc);
            assert(marked(h1, seq![t], 0, pc) == h1.coin_spec(pc));
        }
    }
    assert(stake_accepted(big[n], h0.base().network, h0.base().height));
    let w1 = view_before_inputs(h0, big, n);
    let w2 = view_before_inputs(h1, seq![t], 0);
    assert(inputs_ok(w1, big[n]));
    assert forall|k: int| 0 <= k < t.inputs@.len() implies (w2.coins)(#[trigger] t.inputs@[k]) == (w1.coins)(t.inputs@[k]) by {
        let id = t.inputs@[k];
        assert((w1.coins)(id).is_some());
        assert(!consumed(seq![t], 0, id));
        lemma_made_prefix(h0, s, t, n, id);
        lemma_marked_prefix(h0, s, t, n, id);
        assert(consumed(big, n, id) == consumed(s, n, id));
        assert(h1.coin_spec(id) == batch_coins(h0, s, id));
        assert(marked(h1, seq![t], 0, id) == h1.coin_spec(id));
        assert(made(h1, seq![t], 1, 0, id) == marked(h1, seq![t], 1, id));
        assert(made(h0, big, n + 1, 0, id) == marked(h0, big, n + 1, id));
    }
    assert forall|k: int|
        0 <= k < t.inputs@.len() && (w1.stakes)(#[trigger] t.inputs@[k].txhash).is_none() implies (w2.stakes)(
        t.inputs@[k].txhash,
    ).is_none() by {
        let x = t.inputs@[k].txhash;
        lemma_staked_prefix(h0, s, t, n, x);
        assert(h1.stake_spec(x) == staked(h0, s, n, x));
        assert(staked(h1, seq![t], 0, x) == h1.stake_spec(x));
    }
    lemma_inputs_ok_agree(w1, w2, t);
    assert(view_before_inputs(h1, seq![t], 0) == w2);
}

} // verus!
