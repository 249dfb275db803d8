use vstd::prelude::*;

verus! {

/// 2^128, the weight of the high word.
pub open spec fn word_base() -> nat {
    0x1_0000_0000_0000_0000_0000_0000_0000_0000nat
}

/// 2^256, the modulus of every wrapping operation.
pub open spec fn modulus() -> nat {
    word_base() * word_base()
}

/// An unsigned 256-bit integer, held as a high and a low 128-bit word.
#[derive(Clone, Copy, Debug, PartialEq, Eq, Structural)]
pub struct U256 {
    pub hi: u128,
    pub lo: u128,
}

impl View for U256 {
    type V = nat;

    open spec fn view(&self) -> nat {
        self.hi as nat * word_base() + self.lo as nat
    }
}

proof fn lemma_words_bound(hi: u128, lo: u128)
    ensures
        hi as nat * word_base() + (lo as nat) < modulus(),
{
    assert(hi as nat * word_base() + (lo as nat) < modulus()) by (nonlinear_arith)
        requires
            hi < word_base(),
            lo < word_base(),
            modulus() == word_base() * word_base(),
    ;
}

/// Lexicographic order on the two words is the order on the numbers.
proof fn lemma_words_order(a: U256, b: U256)
    ensures
        (a@ < b@) == (a.hi < b.hi || (a.hi == b.hi && a.lo < b.lo)),
        (a@ == b@) == (a == b),
{
    let m = word_base();
    if a.hi < b.hi {
        assert((a.hi as nat) * m + (a.lo as nat) < (b.hi as nat) * m) by (nonlinear_arith)
            requires
                a.hi < b.hi,
                a.lo < m,
        ;
    } else if b.hi < a.hi {
        assert((b.hi as nat) * m + (b.lo as nat) < (a.hi as nat) * m) by (nonlinear_arith)
            requires
                b.hi < a.hi,
                b.lo < m,
        ;
    }
}

impl From<u128> for U256 {
    fn from(v: u128) -> (r: U256) {
        U256 { hi: 0, lo: v }
    }
}

impl vstd::std_specs::convert::FromSpecImpl<u128> for U256 {
    open spec fn obeys_from_spec() -> bool {
        true
    }

    open spec fn from_spec(v: u128) -> U256 {
        U256 { hi: 0, lo: v }
    }
}

impl U256 {
    /// The largest value, 2^256 - 1.
    pub fn max_value() -> (r: U256)
        ensures
            r@ == modulus() - 1,
            r == (U256 { hi: u128::MAX, lo: u128::MAX }),
    {
        let r = U256 { hi: u128::MAX, lo: u128::MAX };
        proof {
            let m = word_base();
            assert((m - 1) * m + (m - 1) == m * m - 1) by (nonlinear_arith)
                requires
                    m >= 1,
            ;
        }
        r
    }

    /// Zero.
    pub fn zero() -> (r: U256)
        ensures
            r@ == 0,
    {
        U256 { hi: 0, lo: 0 }
    }

    /// The number `v`.
    pub fn from_u128(v: u128) -> (r: U256)
        ensures
            r@ == v as nat,
            r == (U256 { hi: 0, lo: v }),
    {
        U256 { hi: 0, lo: v }
    }

    pub proof fn lemma_bounded(a: U256)
        ensures
            a@ < modulus(),
    {
        lemma_words_bound(a.hi, a.lo);
    }

    /// `self < o` on the numbers.
    pub fn lt(&self, o: &U256) -> (r: bool)
        ensures
            r == (self@ < o@),
    {
        proof {
            lemma_words_order(*self, *o);
        }
        self.hi < o.hi || (self.hi == o.hi && self.lo < o.lo)
    }

    /// `self == o` on the numbers.
    pub fn eq_num(&self, o: &U256) -> (r: bool)
        ensures
            r == (self@ == o@),
    {
        proof {
            lemma_words_order(*self, *o);
        }
        self.hi == o.hi && self.lo == o.lo
    }

    /// Whether the number is zero.
    pub fn is_zero(&self) -> (r: bool)
        ensures
            r == (self@ == 0),
    {
        proof {
            lemma_words_order(*self, U256 { hi: 0, lo: 0 });
        }
        self.hi == 0 && self.lo == 0
    }

    /// Bitwise and over all 256 bits.
    pub fn bit_and(&self, o: &U256) -> (r: U256)
        ensures
            r == (U256 { hi: self.hi & o.hi, lo: self.lo & o.lo }),
    {
        U256 { hi: self.hi & o.hi, lo: self.lo & o.lo }
    }

    /// Bitwise or over all 256 bits.
    pub fn bit_or(&self, o: &U256) -> (r: U256)
        ensures
            r == (U256 { hi: self.hi | o.hi, lo: self.lo | o.lo }),
    {
        U256 { hi: self.hi | o.hi, lo: self.lo | o.lo }
    }

    /// Bitwise exclusive or over all 256 bits.
    pub fn bit_xor(&self, o: &U256) -> (r: U256)
        ensures
            r == (U256 { hi: self.hi ^ o.hi, lo: self.lo ^ o.lo }),
    {
        U256 { hi: self.hi ^ o.hi, lo: self.lo ^ o.lo }
    }

    /// Bitwise complement over all 256 bits.
    pub fn bit_not(&self) -> (r: U256)
        ensures
            r == (U256 { hi: !self.hi, lo: !self.lo }),
    {
        U256 { hi: !self.hi, lo: !self.lo }
    }
}

/// Relies on ethnum's `U256::wrapping_add`: the sum modulo 2^256.
#[verifier::external_body]
pub(crate) fn wrapping_add(a: U256, b: U256) -> (r: U256)
    ensures
        r@ == (a@ + b@) % modulus(),
{
    let (hi, lo) = ethnum::U256::from_words(a.hi, a.lo).wrapping_add(ethnum::U256::from_words(b.hi, b.lo)).into_words();
    U256 { hi, lo }
}

/// Relies on ethnum's `U256::wrapping_sub`: the difference modulo 2^256.
#[verifier::external_body]
pub(crate) fn wrapping_sub(a: U256, b: U256) -> (r: U256)
    ensures
        r@ == (a@ + modulus() - b@) as int % (modulus() as int),
{
    let (hi, lo) = ethnum::U256::from_words(a.hi, a.lo).wrapping_sub(ethnum::U256::from_words(b.hi, b.lo)).into_words();
    U256 { hi, lo }
}

/// Relies on ethnum's `U256::wrapping_mul`: the product modulo 2^256.
#[verifier::external_body]
pub(crate) fn wrapping_mul(a: U256, b: U256) -> (r: U256)
    ensures
        r@ == (a@ * b@) % modulus(),
{
    let (hi, lo) = ethnum::U256::from_words(a.hi, a.lo).wrapping_mul(ethnum::U256::from_words(b.hi, b.lo)).into_words();
    U256 { hi, lo }
}

/// Relies on ethnum's `U256::checked_div`: `None` for a zero divisor, else the quotient.
#[verifier::external_body]
pub(crate) fn checked_div(a: U256, b: U256) -> (r: Option<U256>)
    ensures
        b@ == 0 ==> r.is_none(),
        b@ != 0 ==> r.is_some() && r.unwrap()@ == a@ / b@,
{
    match ethnum::U256::from_words(a.hi, a.lo).checked_div(ethnum::U256::from_words(b.hi, b.lo)) {
        Some(q) => Some(U256 { hi: q.into_words().0, lo: q.into_words().1 }),
        None => None,
    }
}

/// Relies on ethnum's `U256::checked_rem`: `None` for a zero divisor, else the remainder.
#[verifier::external_body]
pub(crate) fn checked_rem(a: U256, b: U256) -> (r: Option<U256>)
    ensures
        b@ == 0 ==> r.is_none(),
        b@ != 0 ==> r.is_some() && r.unwrap()@ == a@ % b@,
{
    match ethnum::U256::from_words(a.hi, a.lo).checked_rem(ethnum::U256::from_words(b.hi, b.lo)) {
        Some(q) => Some(U256 { hi: q.into_words().0, lo: q.into_words().1 }),
        None => None,
    }
}

} // verus!
