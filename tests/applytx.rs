use themelio_stf::applytx::{MintRules, PowScheme, StateHandle};
use themelio_stf::ledger::{
    covenant_hash, CoinData, CoinDataHeight, CoinID, Denom, HashVal, NetID, Transaction, TxKind,
};
use themelio_stf::state::{Header, State, StateError};
use themelio_stf::u256::U256;
use themelio_stf::vm::{Covenant, OpCode};

struct Rules {
    scheme: PowScheme,
    reward: u128,
}

impl MintRules for Rules {
    fn verify_legacy(&self, _seed: &[u8], _difficulty: u32, _proof: &[u8]) -> bool {
        self.scheme == PowScheme::Legacy
    }

    fn verify_tip910(&self, _seed: &[u8], _difficulty: u32, _proof: &[u8]) -> bool {
        self.scheme == PowScheme::Tip910
    }

    fn reward(&self, _my_speed: u128, _prev_speed: u128, _difficulty: u32, _tip910: bool, _height: u64) -> u128 {
        self.reward
    }
}

fn no_mint() -> Rules {
    Rules { scheme: PowScheme::Invalid, reward: 0 }
}

fn genesis_id() -> CoinID {
    CoinID { txhash: HashVal { hi: 7, lo: 7 }, index: 0 }
}

fn coin(value: u128, denom: Denom, cov: &Covenant, height: u64) -> CoinDataHeight {
    CoinDataHeight { coin_data: output(value, denom, cov), height }
}

fn output(value: u128, denom: Denom, cov: &Covenant) -> CoinData {
    CoinData { value, denom, additional_data: vec![], covhash: covenant_hash(cov) }
}

fn state_with(network: NetID, height: u64, coins: Vec<(CoinID, CoinDataHeight)>) -> State {
    let mut s = State::new(network, height, 0);
    for (id, c) in coins {
        s.insert_coin(id, c);
    }
    s
}

fn tx(kind: TxKind, inputs: Vec<CoinID>, outputs: Vec<CoinData>, covenants: Vec<Covenant>) -> Transaction {
    Transaction { kind, inputs, outputs, fee: 0, covenants, data: vec![], sigs: vec![] }
}

fn spend_genesis(value: u128) -> Transaction {
    let t = Covenant::always_true();
    tx(TxKind::Normal, vec![genesis_id()], vec![output(value, Denom::Mel, &t)], vec![t])
}

fn genesis_state() -> State {
    let t = Covenant::always_true();
    state_with(NetID::Custom02, 1, vec![(genesis_id(), coin(1000, Denom::Mel, &t, 0))])
}

#[test]
fn spend_moves_the_coin() {
    let t1 = spend_genesis(1000);
    let h = StateHandle::new(genesis_state()).apply_tx_batch(&[t1.clone()], &no_mint()).unwrap();
    let s = h.commit();
    assert!(s.get_coin(genesis_id()).is_none());
    let made = s.get_coin(CoinID { txhash: t1.hash_nosigs(), index: 0 }).unwrap();
    assert_eq!(made.coin_data.value, 1000);
    assert_eq!(made.height, 1);
    assert_eq!(s.transactions.len(), 1);
    assert_eq!(s.transactions[0].0, t1.hash_nosigs());
}

#[test]
fn spent_coin_cannot_be_spent_in_a_later_batch() {
    let s = StateHandle::new(genesis_state()).apply_tx_batch(&[spend_genesis(1000)], &no_mint()).unwrap().commit();
    let mut again = spend_genesis(1000);
    again.data = vec![1];
    let r = StateHandle::new(s).apply_tx_batch(&[again], &no_mint());
    assert_eq!(r.err(), Some(StateError::NonexistentCoin(genesis_id())));
}

#[test]
fn same_coin_twice_in_a_batch_is_refused() {
    let a = spend_genesis(1000);
    let mut b = spend_genesis(1000);
    b.data = vec![9];
    let r = StateHandle::new(genesis_state()).apply_tx_batch(&[a, b], &no_mint());
    assert_eq!(r.err(), Some(StateError::NonexistentCoin(genesis_id())));
}

#[test]
fn unbalanced_spend_is_refused() {
    let r = StateHandle::new(genesis_state()).apply_tx_batch(&[spend_genesis(999)], &no_mint());
    assert_eq!(r.err(), Some(StateError::UnbalancedInOut));
}

#[test]
fn fee_counts_as_native_output() {
    let mut t1 = spend_genesis(990);
    t1.fee = 10;
    let s = StateHandle::new(genesis_state()).apply_tx_batch(&[t1], &no_mint()).unwrap().commit();
    assert_eq!(s.fee_pool, 0);
    assert_eq!(s.tips, 10);
}

#[test]
fn missing_script_is_refused() {
    let t = Covenant::always_true();
    let t1 = tx(TxKind::Normal, vec![genesis_id()], vec![output(1000, Denom::Mel, &t)], vec![]);
    let r = StateHandle::new(genesis_state()).apply_tx_batch(&[t1], &no_mint());
    assert_eq!(r.err(), Some(StateError::NonexistentScript(covenant_hash(&t))));
}

fn first_input_only() -> Covenant {
    Covenant::from_ops(&[OpCode::PushI(U256::from(0u128)), OpCode::LoadImm(0), OpCode::Eql]).unwrap()
}

#[test]
fn shared_script_is_evaluated_once() {
    let guard = first_input_only();
    let a = CoinID { txhash: HashVal { hi: 1, lo: 1 }, index: 0 };
    let b = CoinID { txhash: HashVal { hi: 1, lo: 1 }, index: 1 };
    let s = state_with(
        NetID::Custom02,
        1,
        vec![(a, coin(5, Denom::Mel, &guard, 0)), (b, coin(6, Denom::Mel, &guard, 0))],
    );
    let t = Covenant::always_true();
    let t1 = tx(TxKind::Normal, vec![a, b], vec![output(11, Denom::Mel, &t)], vec![guard.clone()]);
    assert!(StateHandle::new(s).apply_tx_batch(&[t1], &no_mint()).is_ok());
}

#[test]
fn script_is_evaluated_for_each_destination() {
    let guard = first_input_only();
    let t = Covenant::always_true();
    let a = CoinID { txhash: HashVal { hi: 1, lo: 1 }, index: 0 };
    let b = CoinID { txhash: HashVal { hi: 1, lo: 1 }, index: 1 };
    let s = state_with(NetID::Custom02, 1, vec![(a, coin(5, Denom::Mel, &t, 0)), (b, coin(6, Denom::Mel, &guard, 0))]);
    let t1 = tx(TxKind::Normal, vec![a, b], vec![output(11, Denom::Mel, &t)], vec![guard.clone(), t.clone()]);
    let r = StateHandle::new(s).apply_tx_batch(&[t1], &no_mint());
    assert_eq!(r.err(), Some(StateError::ViolatesScript(covenant_hash(&guard))));
}

fn faucet() -> Transaction {
    let t = Covenant::always_true();
    tx(TxKind::Faucet, vec![], vec![output(10000, Denom::Mel, &t)], vec![])
}

#[test]
fn faucet_mints_on_test_networks() {
    let f = faucet();
    let s = StateHandle::new(State::new(NetID::Custom02, 1, 0)).apply_tx_batch(&[f.clone()], &no_mint()).unwrap().commit();
    assert_eq!(s.get_coin(CoinID { txhash: f.hash_nosigs(), index: 0 }).unwrap().coin_data.value, 10000);
}

#[test]
fn faucet_replay_is_refused() {
    let mut second = faucet();
    second.sigs = vec![vec![1, 2, 3]];
    let r = StateHandle::new(State::new(NetID::Custom02, 1, 0)).apply_tx_batch(&[faucet(), second], &no_mint());
    assert_eq!(r.err(), Some(StateError::DuplicateTx));
}

#[test]
fn faucet_replay_across_batches_is_refused() {
    let s = StateHandle::new(State::new(NetID::Custom02, 1, 0)).apply_tx_batch(&[faucet()], &no_mint()).unwrap().commit();
    let r = StateHandle::new(s).apply_tx_batch(&[faucet()], &no_mint());
    assert_eq!(r.err(), Some(StateError::DuplicateTx));
}

#[test]
fn faucet_is_refused_on_mainnet() {
    let r = StateHandle::new(State::new(NetID::Mainnet, 1, 0)).apply_tx_batch(&[faucet()], &no_mint());
    assert_eq!(r.err(), Some(StateError::UnbalancedInOut));
}

#[test]
fn too_many_outputs_is_malformed() {
    let t = Covenant::always_true();
    let outs: Vec<CoinData> = (0..256).map(|_| output(1, Denom::Mel, &t)).collect();
    let r = StateHandle::new(State::new(NetID::Custom02, 1, 0)).apply_tx_batch(&[tx(TxKind::Faucet, vec![], outs, vec![])], &no_mint());
    assert_eq!(r.err(), Some(StateError::MalformedTx));
}

#[test]
fn insufficient_fee_is_refused() {
    let mut s = genesis_state();
    s.fee_multiplier = 65536;
    let t1 = spend_genesis(1000);
    let need = t1.base_fee(65536);
    assert_eq!(need, t1.weight());
    assert!(need > 0);
    let r = StateHandle::new(s).apply_tx_batch(&[t1], &no_mint());
    assert_eq!(r.err(), Some(StateError::InsufficientFees(need)));
}

#[test]
fn fee_splits_into_pool_and_tips() {
    let mut s = genesis_state();
    s.fee_multiplier = 65536;
    let mut t1 = spend_genesis(0);
    t1.fee = 1000;
    let need = t1.base_fee(65536);
    let s = StateHandle::new(s).apply_tx_batch(&[t1], &no_mint()).unwrap().commit();
    assert_eq!(s.fee_pool, need);
    assert_eq!(s.tips, 1000 - need);
}

#[test]
fn burned_output_is_not_stored() {
    let t = Covenant::always_true();
    let burn = CoinData { value: 1000, denom: Denom::Mel, additional_data: vec![], covhash: HashVal::zero() };
    let t1 = tx(TxKind::Normal, vec![genesis_id()], vec![burn], vec![t]);
    let s = StateHandle::new(genesis_state()).apply_tx_batch(&[t1.clone()], &no_mint()).unwrap().commit();
    assert!(s.get_coin(CoinID { txhash: t1.hash_nosigs(), index: 0 }).is_none());
}

#[test]
fn new_token_takes_the_transaction_hash() {
    let t = Covenant::always_true();
    let mut t1 = spend_genesis(1000);
    t1.outputs.push(output(55, Denom::NewCoin, &t));
    let s = StateHandle::new(genesis_state()).apply_tx_batch(&[t1.clone()], &no_mint()).unwrap().commit();
    let made = s.get_coin(CoinID { txhash: t1.hash_nosigs(), index: 1 }).unwrap();
    assert_eq!(made.coin_data.denom, Denom::Custom(t1.hash_nosigs()));
}

#[test]
fn transaction_hash_depends_on_content_not_signatures() {
    let a = spend_genesis(1000);
    let mut b = a.clone();
    b.sigs.push(vec![5]);
    assert_eq!(a.hash_nosigs(), b.hash_nosigs());
    let mut c = a.clone();
    c.fee = 1;
    assert_ne!(a.hash_nosigs(), c.hash_nosigs());
    assert_ne!(covenant_hash(&Covenant::always_true()), HashVal::zero());
}

fn stake_tx(denom: Denom, value: u128, e_start: u64, e_post_end: u64, staked: u128) -> Transaction {
    let t = Covenant::always_true();
    let data = stdcode::serialize(&([3u8; 32], e_start, e_post_end, staked)).unwrap();
    let mut st = tx(TxKind::Stake, vec![], vec![output(value, denom, &t)], vec![]);
    st.data = data;
    st
}

fn stake_then_spend(network: NetID, height: u64, mut stake: Transaction) -> Result<StateHandle, StateError> {
    let t = Covenant::always_true();
    let src = CoinID { txhash: HashVal { hi: 9, lo: 9 }, index: 0 };
    let value = stake.outputs[0].value;
    let denom = stake.outputs[0].denom;
    let mut s = State::new(network, height, 0);
    s.insert_coin(src, coin(value, denom, &t, 0));
    stake.inputs = vec![src];
    stake.covenants = vec![t.clone()];
    let shash = stake.hash_nosigs();
    let s = StateHandle::new(s).apply_tx_batch(&[stake], &no_mint())?.commit();
    let spend = tx(TxKind::Normal, vec![CoinID { txhash: shash, index: 0 }], vec![output(value, denom, &t)], vec![t]);
    StateHandle::new(s).apply_tx_batch(&[spend], &no_mint())
}

#[test]
fn admitted_stake_locks_its_coins() {
    let r = stake_then_spend(NetID::Custom02, 1, stake_tx(Denom::Sym, 100, 1, 3, 100));
    assert_eq!(r.err(), Some(StateError::CoinLocked));
}

#[test]
fn inconsistent_stake_is_not_registered() {
    let r = stake_then_spend(NetID::Custom02, 1, stake_tx(Denom::Sym, 100, 1, 3, 99));
    assert!(r.is_ok());
    let r = stake_then_spend(NetID::Custom02, 1, stake_tx(Denom::Sym, 100, 0, 3, 100));
    assert!(r.is_ok());
}

#[test]
fn stake_not_in_staking_unit_is_refused() {
    let r = stake_then_spend(NetID::Custom02, 1, stake_tx(Denom::Mel, 100, 1, 3, 100));
    assert_eq!(r.err(), Some(StateError::MalformedTx));
}

#[test]
fn legacy_stake_is_let_through_unregistered() {
    assert!(stake_then_spend(NetID::Testnet, 1, stake_tx(Denom::Mel, 100, 1, 3, 100)).is_ok());
    assert!(stake_then_spend(NetID::Mainnet, 1, stake_tx(Denom::Sym, 100, 1, 3, 100)).is_ok());
    let r = stake_then_spend(NetID::Testnet, 500000, stake_tx(Denom::Mel, 100, 9, 11, 100));
    assert_eq!(r.err(), Some(StateError::MalformedTx));
}

#[test]
fn malformed_stake_payload_is_refused() {
    let mut st = stake_tx(Denom::Sym, 100, 1, 3, 100);
    st.data = vec![1, 2];
    let r = StateHandle::new(State::new(NetID::Custom02, 1, 0)).apply_tx_batch(&[st], &no_mint());
    assert_eq!(r.err(), Some(StateError::MalformedTx));
}

fn mint_state(height: u64) -> State {
    let t = Covenant::always_true();
    let mut s = state_with(NetID::Custom02, height, vec![(genesis_id(), coin(10, Denom::Mel, &t, 0))]);
    for h in 0..height {
        s.history.push(Header { hash: HashVal { hi: h as u128, lo: 1 }, dosc_speed: 4 });
    }
    s
}

fn mint_tx(minted: u128, difficulty: u32) -> Transaction {
    let t = Covenant::always_true();
    let mut m = tx(
        TxKind::DoscMint,
        vec![genesis_id()],
        vec![output(10, Denom::Mel, &t), output(minted, Denom::Erg, &t)],
        vec![t],
    );
    m.data = stdcode::serialize(&(difficulty, vec![0u8; 40])).unwrap();
    m
}

#[test]
fn mint_within_reward_is_accepted() {
    let rules = Rules { scheme: PowScheme::Legacy, reward: 500 };
    let s = StateHandle::new(mint_state(4)).apply_tx_batch(&[mint_tx(500, 10)], &rules).unwrap().commit();
    assert_eq!(s.dosc_speed, 1024 / 4);
}

#[test]
fn mint_above_reward_is_refused() {
    let rules = Rules { scheme: PowScheme::Tip910, reward: 499 };
    let r = StateHandle::new(mint_state(4)).apply_tx_batch(&[mint_tx(500, 10)], &rules);
    assert_eq!(r.err(), Some(StateError::InvalidMelPoW));
}

#[test]
fn mint_with_bad_proof_is_refused() {
    let r = StateHandle::new(mint_state(4)).apply_tx_batch(&[mint_tx(1, 10)], &no_mint());
    assert_eq!(r.err(), Some(StateError::InvalidMelPoW));
}

#[test]
fn mint_with_malformed_claim_is_refused() {
    let mut m = mint_tx(1, 10);
    m.data = vec![0xff];
    let rules = Rules { scheme: PowScheme::Legacy, reward: 500 };
    let r = StateHandle::new(mint_state(4)).apply_tx_batch(&[m], &rules);
    assert_eq!(r.err(), Some(StateError::MalformedTx));
}

#[test]
fn young_coin_cannot_mint_on_mainnet() {
    let mut s = mint_state(4);
    s.network = NetID::Mainnet;
    let rules = Rules { scheme: PowScheme::Legacy, reward: 500 };
    let r = StateHandle::new(s).apply_tx_batch(&[mint_tx(1, 10)], &rules);
    assert_eq!(r.err(), Some(StateError::InvalidMelPoW));
}

#[test]
fn batching_matches_one_at_a_time() {
    let t = Covenant::always_true();
    let a = spend_genesis(1000);
    let a_out = CoinID { txhash: a.hash_nosigs(), index: 0 };
    let b = tx(TxKind::Normal, vec![a_out], vec![output(600, Denom::Mel, &t), output(400, Denom::Mel, &t)], vec![t.clone()]);
    let together = StateHandle::new(genesis_state()).apply_tx_batch(&[a.clone(), b.clone()], &no_mint()).unwrap().commit();
    let first = StateHandle::new(genesis_state()).apply_tx_batch(&[a.clone()], &no_mint()).unwrap().commit();
    let apart = StateHandle::new(first).apply_tx_batch(&[b.clone()], &no_mint()).unwrap().commit();
    for id in [
        genesis_id(),
        a_out,
        CoinID { txhash: b.hash_nosigs(), index: 0 },
        CoinID { txhash: b.hash_nosigs(), index: 1 },
    ] {
        assert_eq!(together.get_coin(id), apart.get_coin(id));
    }
    assert_eq!(together.get_coin(CoinID { txhash: b.hash_nosigs(), index: 1 }).unwrap().coin_data.value, 400);
    assert_eq!((together.fee_pool, together.tips), (apart.fee_pool, apart.tips));
}

#[test]
fn value_is_conserved_per_denomination() {
    let t = Covenant::always_true();
    let sym = CoinID { txhash: HashVal { hi: 2, lo: 2 }, index: 0 };
    let mut s = genesis_state();
    s.insert_coin(sym, coin(50, Denom::Sym, &t, 0));
    let good = tx(
        TxKind::Normal,
        vec![genesis_id(), sym],
        vec![output(1000, Denom::Mel, &t), output(20, Denom::Sym, &t), output(30, Denom::Sym, &t)],
        vec![t.clone()],
    );
    assert!(StateHandle::new(s).apply_tx_batch(&[good], &no_mint()).is_ok());
    let mut s = genesis_state();
    s.insert_coin(sym, coin(50, Denom::Sym, &t, 0));
    let swapped = tx(
        TxKind::Normal,
        vec![genesis_id(), sym],
        vec![output(1050, Denom::Mel, &t)],
        vec![t.clone()],
    );
    let r = StateHandle::new(s).apply_tx_batch(&[swapped], &no_mint());
    assert_eq!(r.err(), Some(StateError::UnbalancedInOut));
}

#[test]
fn spent_unit_without_output_is_unbalanced() {
    let t = Covenant::always_true();
    let sym = CoinID { txhash: HashVal { hi: 2, lo: 2 }, index: 0 };
    let mut s = genesis_state();
    s.insert_coin(sym, coin(50, Denom::Sym, &t, 0));
    let t1 = tx(TxKind::Normal, vec![genesis_id(), sym], vec![output(1000, Denom::Mel, &t)], vec![t.clone()]);
    let r = StateHandle::new(s).apply_tx_batch(&[t1], &no_mint());
    assert_eq!(r.err(), Some(StateError::UnbalancedInOut));
}

#[test]
fn high_difficulty_mint_is_accepted() {
    let rules = Rules { scheme: PowScheme::Legacy, reward: 500 };
    let s = StateHandle::new(mint_state(4)).apply_tx_batch(&[mint_tx(500, 101)], &rules).unwrap().commit();
    assert_eq!(s.dosc_speed, (1u128 << 101) / 4);
    let r = StateHandle::new(mint_state(4)).apply_tx_batch(&[mint_tx(500, 128)], &rules);
    assert_eq!(r.err(), Some(StateError::InvalidMelPoW));
}

#[test]
fn successor_scheme_mint_is_accepted() {
    let rules = Rules { scheme: PowScheme::Tip910, reward: 500 };
    assert!(StateHandle::new(mint_state(4)).apply_tx_batch(&[mint_tx(500, 10)], &rules).is_ok());
}

#[test]
fn script_sees_the_spent_coin() {
    // input 1 is the coin's value; input 4 is the encoded coin identifier
    let by_value = Covenant::from_ops(&[OpCode::LoadImm(1)]).unwrap();
    let s = state_with(NetID::Custom02, 1, vec![(genesis_id(), coin(1000, Denom::Mel, &by_value, 0))]);
    let t1 = tx(TxKind::Normal, vec![genesis_id()], vec![output(1000, Denom::Mel, &by_value)], vec![by_value.clone()]);
    assert!(StateHandle::new(s).apply_tx_batch(&[t1], &no_mint()).is_ok());
    let by_id = Covenant::from_ops(&[OpCode::LoadImm(4), OpCode::Not]).unwrap();
    let s = state_with(NetID::Custom02, 1, vec![(genesis_id(), coin(1000, Denom::Mel, &by_id, 0))]);
    let t2 = tx(TxKind::Normal, vec![genesis_id()], vec![output(1000, Denom::Mel, &by_id)], vec![by_id.clone()]);
    let r = StateHandle::new(s).apply_tx_batch(&[t2], &no_mint());
    assert_eq!(r.err(), Some(StateError::ViolatesScript(covenant_hash(&by_id))));
}

#[test]
fn failed_batch_restarts_from_a_clone() {
    let s = genesis_state();
    let r = StateHandle::new(s.clone()).apply_tx_batch(&[spend_genesis(999)], &no_mint());
    assert!(r.is_err());
    assert!(StateHandle::new(s).apply_tx_batch(&[spend_genesis(1000)], &no_mint()).is_ok());
}

#[test]
fn admission_errors_come_first() {
    let mut bad = spend_genesis(999);
    bad.fee = 1;
    let f = faucet();
    let r = StateHandle::new(genesis_state()).apply_tx_batch(&[bad, f.clone(), f], &no_mint());
    assert_eq!(r.err(), Some(StateError::DuplicateTx));
}

#[test]
fn committed_batch_records_its_transactions() {
    let t1 = spend_genesis(1000);
    let s = StateHandle::new(genesis_state()).apply_tx_batch(&[t1.clone()], &no_mint()).unwrap().commit();
    assert_eq!(s.transactions.len(), 1);
    assert_eq!(s.transactions[0].1.outputs, t1.outputs);
    let s2 = StateHandle::new(s).apply_tx_batch(&[], &no_mint()).unwrap().commit();
    assert_eq!(s2.transactions.len(), 1);
}
