use vstd::prelude::*;
use crate::vm::{OpCode, Covenant, encode_spec, word_bytes, weight_spec, push_word};

verus! {

/// The largest value a coin or a fee may carry, 2^120.
pub const MAX_COINVAL: u128 = 0x100_0000_0000_0000_0000_0000_0000_0000;

/// Blocks per staking epoch.
pub const STAKE_EPOCH: u64 = 200000;

/// Below this height the production and public test networks let every
/// staking transaction through without registering it.
pub const LEGACY_STAKE_HEIGHT: u64 = 500000;

/// The youngest coin a proof-of-work mint may spend on the production network.
pub const MIN_MINT_AGE: u64 = 100;

/// A 256-bit hash, held as a high and a low 128-bit word (big-endian halves).
#[derive(Clone, Copy, Debug, PartialEq, Eq, Hash, Structural)]
pub struct HashVal {
    pub hi: u128,
    pub lo: u128,
}

impl HashVal {
    /// The all-zero hash, which is also the address that destroys coins.
    pub fn zero() -> (r: HashVal)
        ensures
            r == (HashVal { hi: 0, lo: 0 }),
    {
        HashVal { hi: 0, lo: 0 }
    }
}

/// The big-endian bytes of a hash.
pub open spec fn hash_bytes(h: HashVal) -> Seq<u8> {
    word_bytes(h.hi) + word_bytes(h.lo)
}

/// The BLAKE3 hash of a byte string.
pub uninterp spec fn blake3_of(b: Seq<u8>) -> HashVal;

/// The keyed BLAKE3 hash of `msg`, with the BLAKE3 hash of `key` as the key.
pub uninterp spec fn keyed_blake3_of(key: Seq<u8>, msg: Seq<u8>) -> HashVal;

/// Relies on tmelcrypt::hash_single: the BLAKE3 hash of the bytes.
#[verifier::external_body]
pub(crate) fn hash_single(b: &[u8]) -> (r: HashVal)
    ensures
        r == blake3_of(b@),
{
    let h = tmelcrypt::hash_single(b).0;
    HashVal { hi: u128::from_be_bytes(h[..16].try_into().unwrap()), lo: u128::from_be_bytes(h[16..].try_into().unwrap()) }
}

/// Relies on tmelcrypt::hash_keyed: the keyed BLAKE3 hash of `msg` under `key`.
#[verifier::external_body]
pub(crate) fn hash_keyed(key: &[u8], msg: &[u8]) -> (r: HashVal)
    ensures
        r == keyed_blake3_of(key@, msg@),
{
    let h = tmelcrypt::hash_keyed(key, msg).0;
    HashVal { hi: u128::from_be_bytes(h[..16].try_into().unwrap()), lo: u128::from_be_bytes(h[16..].try_into().unwrap()) }
}

/// Identifies a coin: the transaction that made it and its output index.
#[derive(Clone, Copy, Debug, PartialEq, Eq, Hash, Structural)]
pub struct CoinID {
    pub txhash: HashVal,
    pub index: u8,
}

/// The unit a coin is measured in.
#[derive(Clone, Copy, Debug, PartialEq, Eq, Hash, Structural)]
pub enum Denom {
    Mel,
    Sym,
    Erg,
    NewCoin,
    Custom(HashVal),
}

/// What a coin holds.
#[derive(Clone, Debug, PartialEq, Eq)]
pub struct CoinData {
    pub value: u128,
    pub denom: Denom,
    pub additional_data: Vec<u8>,
    pub covhash: HashVal,
}

/// A coin together with the height at which it was made.
#[derive(Clone, Debug, PartialEq, Eq)]
pub struct CoinDataHeight {
    pub coin_data: CoinData,
    pub height: u64,
}

/// What a stored coin denotes.
pub struct CoinV {
    pub value: u128,
    pub denom: Denom,
    pub additional_data: Seq<u8>,
    pub covhash: HashVal,
    pub height: u64,
}

impl View for CoinDataHeight {
    type V = CoinV;

    open spec fn view(&self) -> CoinV {
        CoinV {
            value: self.coin_data.value,
            denom: self.coin_data.denom,
            additional_data: self.coin_data.additional_data@,
            covhash: self.coin_data.covhash,
            height: self.height,
        }
    }
}

impl CoinDataHeight {
    /// A copy of the coin.
    pub fn copy(&self) -> (r: CoinDataHeight)
        ensures
            r@ == self@,
    {
        CoinDataHeight {
            coin_data: CoinData {
                value: self.coin_data.value,
                denom: self.coin_data.denom,
                additional_data: self.coin_data.additional_data.clone(),
                covhash: self.coin_data.covhash,
            },
            height: self.height,
        }
    }
}

/// The kind of a transaction.
#[derive(Clone, Copy, Debug, PartialEq, Eq, Hash, Structural)]
pub enum TxKind {
    Normal,
    Stake,
    DoscMint,
    Swap,
    LiqDeposit,
    LiqWithdraw,
    Faucet,
}

/// The network a ledger belongs to.
#[derive(Clone, Copy, Debug, PartialEq, Eq, Hash, Structural)]
pub enum NetID {
    Mainnet,
    Testnet,
    Custom02,
}

/// A transaction.
#[derive(Clone, Debug)]
pub struct Transaction {
    pub kind: TxKind,
    pub inputs: Vec<CoinID>,
    pub outputs: Vec<CoinData>,
    pub fee: u128,
    pub covenants: Vec<Covenant>,
    pub data: Vec<u8>,
    pub sigs: Vec<Vec<u8>>,
}

/// What an output denotes.
pub struct OutputV {
    pub value: u128,
    pub denom: Denom,
    pub additional_data: Seq<u8>,
    pub covhash: HashVal,
}

impl View for CoinData {
    type V = OutputV;

    open spec fn view(&self) -> OutputV {
        OutputV { value: self.value, denom: self.denom, additional_data: self.additional_data@, covhash: self.covhash }
    }
}

/// What a transaction denotes.
pub struct TransactionV {
    pub kind: TxKind,
    pub inputs: Seq<CoinID>,
    pub outputs: Seq<OutputV>,
    pub fee: u128,
    pub covenants: Seq<Seq<OpCode>>,
    pub data: Seq<u8>,
    pub sigs: Seq<Seq<u8>>,
}

impl View for Transaction {
    type V = TransactionV;

    open spec fn view(&self) -> TransactionV {
        TransactionV {
            kind: self.kind,
            inputs: self.inputs@,
            outputs: self.outputs@.map_values(|o: CoinData| o@),
            fee: self.fee,
            covenants: self.covenants@.map_values(|c: Covenant| c.ops@),
            data: self.data@,
            sigs: self.sigs@.map_values(|g: Vec<u8>| g@),
        }
    }
}

/// A registered stake: the epoch it starts, the first epoch after it ends, and
/// the amount of the staking unit locked.
#[derive(Clone, Copy, Debug, PartialEq, Eq, Structural)]
pub struct StakeDoc {
    pub pubkey: HashVal,
    pub e_start: u64,
    pub e_post_end: u64,
    pub syms_staked: u128,
}

/// The staking record that a transaction's payload encodes, if it encodes one.
pub uninterp spec fn stake_doc_of(data: Seq<u8>) -> Option<StakeDoc>;

/// The `(difficulty, proof)` pair that a mint's payload encodes, if it encodes one.
pub uninterp spec fn pow_claim_of(data: Seq<u8>) -> Option<(u32, Seq<u8>)>;

/// Relies on stdcode::deserialize of a key, two epochs and an amount: the staking record in the payload.
#[verifier::external_body]
pub(crate) fn decode_stake_doc(data: &[u8]) -> (r: Option<StakeDoc>)
    ensures
        r == stake_doc_of(data@),
{
    match stdcode::deserialize::<([u8; 32], u64, u64, u128)>(data) {
        Ok((k, e_start, e_post_end, syms_staked)) => Some(StakeDoc {
            pubkey: HashVal { hi: u128::from_be_bytes(k[..16].try_into().unwrap()), lo: u128::from_be_bytes(k[16..].try_into().unwrap()) },
            e_start,
            e_post_end,
            syms_staked,
        }),
        Err(_) => None,
    }
}

/// Relies on stdcode::deserialize of a `(u32, Vec<u8>)`: the difficulty and proof in the payload.
#[verifier::external_body]
pub(crate) fn decode_pow_claim(data: &[u8]) -> (r: Option<(u32, Vec<u8>)>)
    ensures
        r.is_some() == pow_claim_of(data@).is_some(),
        r.is_some() ==> r.unwrap().0 == pow_claim_of(data@).unwrap().0 && r.unwrap().1@ == pow_claim_of(data@).unwrap().1,
{
    stdcode::deserialize::<(u32, Vec<u8>)>(data).ok()
}

pub open spec fn denom_bytes(d: Denom) -> Seq<u8> {
    match d {
        Denom::Mel => seq![0x6du8],
        Denom::Sym => seq![0x73u8],
        Denom::Erg => seq![0x64u8],
        Denom::NewCoin => seq![0x00u8],
        Denom::Custom(h) => seq![0x01u8] + hash_bytes(h),
    }
}

pub open spec fn kind_byte(k: TxKind) -> u8 {
    match k {
        TxKind::Normal => 0x00,
        TxKind::Stake => 0x10,
        TxKind::DoscMint => 0x50,
        TxKind::Swap => 0x51,
        TxKind::LiqDeposit => 0x52,
        TxKind::LiqWithdraw => 0x53,
        TxKind::Faucet => 0xff,
    }
}

pub open spec fn coinid_bytes(c: CoinID) -> Seq<u8> {
    hash_bytes(c.txhash) + seq![c.index]
}

/// A byte string preceded by its length.
pub open spec fn framed(b: Seq<u8>) -> Seq<u8> {
    word_bytes(b.len() as u128) + b
}

pub open spec fn coindata_bytes(c: CoinData) -> Seq<u8> {
    word_bytes(c.value) + denom_bytes(c.denom) + framed(c.additional_data@) + hash_bytes(c.covhash)
}

pub open spec fn inputs_bytes(s: Seq<CoinID>) -> Seq<u8>
    decreases s.len(),
{
    if s.len() == 0 { Seq::empty() } else { inputs_bytes(s.drop_last()) + coinid_bytes(s.last()) }
}

pub open spec fn outputs_bytes(s: Seq<CoinData>) -> Seq<u8>
    decreases s.len(),
{
    if s.len() == 0 { Seq::empty() } else { outputs_bytes(s.drop_last()) + coindata_bytes(s.last()) }
}

pub open spec fn covenants_bytes(s: Seq<Covenant>) -> Seq<u8>
    decreases s.len(),
{
    if s.len() == 0 { Seq::empty() } else { covenants_bytes(s.drop_last()) + framed(encode_spec(s.last().ops@)) }
}

/// The encoding of a transaction without its signatures, which its hash is taken of.
pub open spec fn tx_bytes(tx: Transaction) -> Seq<u8> {
    seq![kind_byte(tx.kind)] + word_bytes(tx.inputs@.len() as u128) + inputs_bytes(tx.inputs@)
        + word_bytes(tx.outputs@.len() as u128) + outputs_bytes(tx.outputs@) + word_bytes(tx.fee)
        + word_bytes(tx.covenants@.len() as u128) + covenants_bytes(tx.covenants@) + framed(tx.data@)
}

/// A number, capped at the largest `u128`.
pub open spec fn sat(n: nat) -> u128 {
    if n > u128::MAX { u128::MAX } else { n as u128 }
}

pub open spec fn well_formed(tx: Transaction) -> bool {
    &&& tx.inputs@.len() <= 255
    &&& tx.outputs@.len() <= 255
    &&& tx.fee <= MAX_COINVAL
    &&& forall|k: int| 0 <= k < tx.outputs@.len() ==> (#[trigger] tx.outputs@[k]).value <= MAX_COINVAL
}

pub open spec fn scripts_weight(s: Seq<Covenant>) -> nat
    decreases s.len(),
{
    if s.len() == 0 { 0 } else { scripts_weight(s.drop_last()) + weight_spec(s.last().ops@) }
}

pub open spec fn tx_weight(tx: Transaction) -> nat {
    tx_bytes(tx).len() + scripts_weight(tx.covenants@)
}

/// The least fee of a transaction under a fee multiplier.
pub open spec fn min_fee(tx: Transaction, fee_multiplier: u128) -> u128 {
    (sat(sat(tx_weight(tx)) as nat * fee_multiplier as nat) / 65536) as u128
}

/// The hash of a transaction without its signatures.
pub open spec fn tx_hash(tx: Transaction) -> HashVal {
    blake3_of(tx_bytes(tx))
}

/// The address of the coins that a script guards.
pub open spec fn cov_hash(c: Covenant) -> HashVal {
    blake3_of(encode_spec(c.ops@))
}

/// The address of the coins that `c` guards: the hash of its encoding.
pub fn covenant_hash(c: &Covenant) -> (r: HashVal)
    ensures
        r == cov_hash(*c),
{
    let b = c.encode();
    hash_single(b.as_slice())
}

fn push_bytes(out: &mut Vec<u8>, b: &[u8])
    ensures
        final(out)@ == old(out)@ + b@,
{
    let ghost start = out@;
    let mut i: usize = 0;
    while i < b.len()
        invariant
            i <= b@.len(),
            out@ == start + b@.take(i as int),
        decreases b@.len() - i,
    {
        out.push(b[i]);
        proof {
            assert(out@ =~= start + b@.take(i + 1));
        }
        i = i + 1;
    }
    proof {
        assert(b@.take(b@.len() as int) =~= b@);
    }
}

fn push_hash(out: &mut Vec<u8>, h: HashVal)
    ensures
        final(out)@ == old(out)@ + hash_bytes(h),
{
    let ghost start = out@;
    push_word(out, h.hi);
    push_word(out, h.lo);
    proof {
        assert(out@ =~= start + hash_bytes(h));
    }
}

fn push_framed(out: &mut Vec<u8>, b: &[u8])
    ensures
        final(out)@ == old(out)@ + framed(b@),
{
    let ghost start = out@;
    push_word(out, b.len() as u128);
    push_bytes(out, b);
    proof {
        assert(out@ =~= start + framed(b@));
    }
}

/// The bytes of a hash.
pub fn hash_to_bytes(h: HashVal) -> (r: Vec<u8>)
    ensures
        r@ == hash_bytes(h),
{
    let mut out: Vec<u8> = Vec::new();
    push_hash(&mut out, h);
    proof {
        assert(out@ =~= hash_bytes(h));
    }
    out
}

/// The bytes of a coin identifier.
pub fn coinid_to_bytes(c: CoinID) -> (r: Vec<u8>)
    ensures
        r@ == coinid_bytes(c),
{
    let mut out: Vec<u8> = Vec::new();
    push_hash(&mut out, c.txhash);
    out.push(c.index);
    proof {
        assert(out@ =~= coinid_bytes(c));
    }
    out
}

fn push_denom(out: &mut Vec<u8>, d: Denom)
    ensures
        final(out)@ == old(out)@ + denom_bytes(d),
{
    let ghost start = out@;
    match d {
        Denom::Mel => out.push(0x6d),
        Denom::Sym => out.push(0x73),
        Denom::Erg => out.push(0x64),
        Denom::NewCoin => out.push(0x00),
        Denom::Custom(h) => {
            out.push(0x01);
            push_hash(out, h);
        },
    }
    proof {
        assert(out@ =~= start + denom_bytes(d));
    }
}

/// The bytes of a denomination.
pub fn denom_to_bytes(d: Denom) -> (r: Vec<u8>)
    ensures
        r@ == denom_bytes(d),
{
    let mut out: Vec<u8> = Vec::new();
    push_denom(&mut out, d);
    proof {
        assert(out@ =~= denom_bytes(d));
    }
    out
}

fn kind_tag(k: TxKind) -> (r: u8)
    ensures
        r == kind_byte(k),
{
    match k {
        TxKind::Normal => 0x00,
        TxKind::Stake => 0x10,
        TxKind::DoscMint => 0x50,
        TxKind::Swap => 0x51,
        TxKind::LiqDeposit => 0x52,
        TxKind::LiqWithdraw => 0x53,
        TxKind::Faucet => 0xff,
    }
}

impl Transaction {
    /// A copy of the transaction.
    pub fn copy(&self) -> (r: Transaction)
        ensures
            r@ == self@,
    {
        let mut inputs: Vec<CoinID> = Vec::new();
        let mut i: usize = 0;
        while i < self.inputs.len()
            invariant
                i <= self.inputs@.len(),
                inputs@ == self.inputs@.take(i as int),
            decreases self.inputs@.len() - i,
        {
            inputs.push(self.inputs[i]);
            proof {
                assert(inputs@ =~= self.inputs@.take(i + 1));
            }
            i = i + 1;
        }
        let mut outputs: Vec<CoinData> = Vec::new();
        let mut j: usize = 0;
        while j < self.outputs.len()
            invariant
                j <= self.outputs@.len(),
                outputs@.len() == j,
                forall|k: int| 0 <= k < j ==> (#[trigger] outputs@[k])@ == self.outputs@[k]@,
            decreases self.outputs@.len() - j,
        {
            let o = &self.outputs[j];
            outputs.push(CoinData {
                value: o.value,
                denom: o.denom,
                additional_data: o.additional_data.clone(),
                covhash: o.covhash,
            });
            j = j + 1;
        }
        let mut covenants: Vec<Covenant> = Vec::new();
        let mut k: usize = 0;
        while k < self.covenants.len()
            invariant
                k <= self.covenants@.len(),
                covenants@.len() == k,
                forall|m: int| 0 <= m < k ==> (#[trigger] covenants@[m]).ops@ == self.covenants@[m].ops@,
            decreases self.covenants@.len() - k,
        {
            covenants.push(self.covenants[k].copy());
            k = k + 1;
        }
        let mut sigs: Vec<Vec<u8>> = Vec::new();
        let mut g: usize = 0;
        while g < self.sigs.len()
            invariant
                g <= self.sigs@.len(),
                sigs@.len() == g,
                forall|m: int| 0 <= m < g ==> (#[trigger] sigs@[m])@ == self.sigs@[m]@,
            decreases self.sigs@.len() - g,
        {
            sigs.push(self.sigs[g].clone());
            g = g + 1;
        }
        let r = Transaction { kind: self.kind, inputs, outputs, fee: self.fee, covenants, data: self.data.clone(), sigs };
        proof {
            assert(self.inputs@.take(self.inputs@.len() as int) =~= self.inputs@);
            assert(r@.outputs =~= self@.outputs);
            assert(r@.covenants =~= self@.covenants);
            assert(r@.sigs =~= self@.sigs);
        }
        r
    }

    /// The encoding of the transaction without its signatures.
    pub fn to_bytes(&self) -> (r: Vec<u8>)
        ensures
            r@ == tx_bytes(*self),
    {
        let mut out: Vec<u8> = Vec::new();
        out.push(kind_tag(self.kind));
        push_word(&mut out, self.inputs.len() as u128);
        let ghost head = out@;
        let mut i: usize = 0;
        while i < self.inputs.len()
            invariant
                i <= self.inputs@.len(),
                out@ == head + inputs_bytes(self.inputs@.take(i as int)),
            decreases self.inputs@.len() - i,
        {
            let c = self.inputs[i];
            push_hash(&mut out, c.txhash);
            out.push(c.index);
            proof {
                assert(self.inputs@.take(i + 1).drop_last() =~= self.inputs@.take(i as int));
                assert(out@ =~= head + inputs_bytes(self.inputs@.take(i + 1)));
            }
            i = i + 1;
        }
        proof {
            assert(self.inputs@.take(self.inputs@.len() as int) =~= self.inputs@);
        }
        push_word(&mut out, self.outputs.len() as u128);
        let ghost head2 = out@;
        let mut j: usize = 0;
        while j < self.outputs.len()
            invariant
                j <= self.outputs@.len(),
                out@ == head2 + outputs_bytes(self.outputs@.take(j as int)),
            decreases self.outputs@.len() - j,
        {
            let c = &self.outputs[j];
            push_word(&mut out, c.value);
            push_denom(&mut out, c.denom);
            push_framed(&mut out, c.additional_data.as_slice());
            push_hash(&mut out, c.covhash);
            proof {
                assert(self.outputs@.take(j + 1).drop_last() =~= self.outputs@.take(j as int));
                assert(out@ =~= head2 + outputs_bytes(self.outputs@.take(j + 1)));
            }
            j = j + 1;
        }
        proof {
            assert(self.outputs@.take(self.outputs@.len() as int) =~= self.outputs@);
        }
        push_word(&mut out, self.fee);
        push_word(&mut out, self.covenants.len() as u128);
        let ghost head3 = out@;
        let mut k: usize = 0;
        while k < self.covenants.len()
            invariant
                k <= self.covenants@.len(),
                out@ == head3 + covenants_bytes(self.covenants@.take(k as int)),
            decreases self.covenants@.len() - k,
        {
            let enc = self.covenants[k].encode();
            push_framed(&mut out, enc.as_slice());
            proof {
                assert(self.covenants@.take(k + 1).drop_last() =~= self.covenants@.take(k as int));
                assert(out@ =~= head3 + covenants_bytes(self.covenants@.take(k + 1)));
            }
            k = k + 1;
        }
        proof {
            assert(self.covenants@.take(self.covenants@.len() as int) =~= self.covenants@);
        }
        push_framed(&mut out, self.data.as_slice());
        proof {
            assert(out@ =~= tx_bytes(*self));
        }
        out
    }

    /// Whether the transaction respects the size bounds: at most 255 inputs and
    /// 255 outputs, and no output value or fee above `MAX_COINVAL`.
    pub fn is_well_formed(&self) -> (r: bool)
        ensures
            r == well_formed(*self),
    {
        if self.inputs.len() > 255 || self.outputs.len() > 255 || self.fee > MAX_COINVAL {
            return false;
        }
        let mut i: usize = 0;
        while i < self.outputs.len()
            invariant
                i <= self.outputs@.len(),
                forall|k: int| 0 <= k < i ==> (#[trigger] self.outputs@[k]).value <= MAX_COINVAL,
            decreases self.outputs@.len() - i,
        {
            if self.outputs[i].value > MAX_COINVAL {
                return false;
            }
            i = i + 1;
        }
        true
    }

    /// The weight of the transaction: its encoded size plus the weight of each script.
    pub fn weight(&self) -> (r: u128)
        ensures
            r == sat(tx_weight(*self)),
    {
        let len = self.to_bytes().len() as u128;
        let mut w: u128 = len;
        let mut k: usize = 0;
        while k < self.covenants.len()
            invariant
                k <= self.covenants@.len(),
                w == sat(tx_bytes(*self).len() + scripts_weight(self.covenants@.take(k as int))),
            decreases self.covenants@.len() - k,
        {
            let cw = self.covenants[k].weight();
            proof {
                assert(self.covenants@.take(k + 1).drop_last() =~= self.covenants@.take(k as int));
            }
            w = w.saturating_add(cw);
            k = k + 1;
        }
        proof {
            assert(self.covenants@.take(self.covenants@.len() as int) =~= self.covenants@);
        }
        w
    }

    /// The least fee the transaction must pay: its weight times the fee
    /// multiplier, in units of 1/65536, saturating.
    pub fn base_fee(&self, fee_multiplier: u128) -> (r: u128)
        ensures
            r == min_fee(*self, fee_multiplier),
    {
        let w = self.weight();
        let p = match w.checked_mul(fee_multiplier) {
            Some(p) => p,
            None => u128::MAX,
        };
        p / 65536
    }

    /// The hash of the transaction without its signatures.
    pub fn hash_nosigs(&self) -> (r: HashVal)
        ensures
            r == tx_hash(*self),
    {
        let b = self.to_bytes();
        hash_single(b.as_slice())
    }
}

} // verus!
