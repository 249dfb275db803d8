use vstd::prelude::*;
use crate::u256::{U256, modulus, word_base, wrapping_add, wrapping_sub, wrapping_mul, checked_div, checked_rem};

verus! {

/// A value on the operand stack: a 256-bit integer or a byte string.
#[derive(Clone, Debug, PartialEq, Eq)]
pub enum Value {
    Int(U256),
    Bytes(Vec<u8>),
}

/// What a value denotes.
pub enum ValueV {
    Int(U256),
    Bytes(Seq<u8>),
}

impl View for Value {
    type V = ValueV;

    open spec fn view(&self) -> ValueV {
        match self {
            Value::Int(x) => ValueV::Int(*x),
            Value::Bytes(b) => ValueV::Bytes(b@),
        }
    }
}

impl From<u128> for Value {
    fn from(v: u128) -> (r: Value) {
        Value::Int(U256::from_u128(v))
    }
}

impl vstd::std_specs::convert::FromSpecImpl<u128> for Value {
    open spec fn obeys_from_spec() -> bool {
        true
    }

    open spec fn from_spec(v: u128) -> Value {
        Value::Int(U256 { hi: 0, lo: v })
    }
}

impl Value {
    /// A copy of the value.
    pub fn copy(&self) -> (r: Value)
        ensures
            r@ == self@,
    {
        match self {
            Value::Int(x) => Value::Int(*x),
            Value::Bytes(b) => Value::Bytes(b.clone()),
        }
    }

    /// Whether the value is the truth that authorises a spend: a nonzero integer.
    pub open spec fn truthy(v: ValueV) -> bool {
        match v {
            ValueV::Int(x) => x@ != 0,
            ValueV::Bytes(_) => false,
        }
    }
}

/// One instruction of the covenant machine.
#[derive(Clone, Copy, Debug, PartialEq, Eq, Structural)]
pub enum OpCode {
    Noop,
    Add,
    Sub,
    Mul,
    Div,
    Rem,
    And,
    Or,
    Xor,
    Not,
    Eql,
    Lt,
    Gt,
    PushI(U256),
    LoadImm(u16),
}

/// The integer whose number is `n`, for `n < 2^256`.
pub open spec fn from_nat(n: nat) -> U256 {
    U256 { hi: (n / word_base()) as u128, lo: (n % word_base()) as u128 }
}

pub proof fn lemma_from_nat(v: U256)
    ensures
        from_nat(v@) == v,
{
    let b = word_base() as int;
    let n = v@ as int;
    vstd::arithmetic::div_mod::lemma_fundamental_div_mod_converse(n, b, v.hi as int, v.lo as int);
}

pub open spec fn bool_int(b: bool) -> U256 {
    if b { U256 { hi: 0, lo: 1 } } else { U256 { hi: 0, lo: 0 } }
}

/// The result of a two-operand instruction on `x`, the top of the stack, and `y`, the
/// value below it; `None` where the instruction faults.
pub open spec fn binop_spec(op: OpCode, x: U256, y: U256) -> Option<U256> {
    match op {
        OpCode::Add => Some(from_nat((x@ + y@) % modulus())),
        OpCode::Sub => Some(from_nat(((x@ + modulus() - y@) as int % (modulus() as int)) as nat)),
        OpCode::Mul => Some(from_nat((x@ * y@) % modulus())),
        OpCode::Div => if y@ == 0 { None } else { Some(from_nat(x@ / y@)) },
        OpCode::Rem => if y@ == 0 { None } else { Some(from_nat(x@ % y@)) },
        OpCode::And => Some(U256 { hi: x.hi & y.hi, lo: x.lo & y.lo }),
        OpCode::Or => Some(U256 { hi: x.hi | y.hi, lo: x.lo | y.lo }),
        OpCode::Xor => Some(U256 { hi: x.hi ^ y.hi, lo: x.lo ^ y.lo }),
        OpCode::Eql => Some(bool_int(x@ == y@)),
        OpCode::Lt => Some(bool_int(x@ < y@)),
        OpCode::Gt => Some(bool_int(x@ > y@)),
        _ => None,
    }
}

pub open spec fn is_binop(op: OpCode) -> bool {
    match op {
        OpCode::Add | OpCode::Sub | OpCode::Mul | OpCode::Div | OpCode::Rem | OpCode::And
        | OpCode::Or | OpCode::Xor | OpCode::Eql | OpCode::Lt | OpCode::Gt => true,
        _ => false,
    }
}

/// The stack after one instruction, or `None` on underflow, a type mismatch, a bad
/// input index or a faulting operation.
pub open spec fn step_spec(op: OpCode, st: Seq<ValueV>, heap: Seq<ValueV>) -> Option<Seq<ValueV>> {
    match op {
        OpCode::Noop => Some(st),
        OpCode::PushI(x) => Some(st.push(ValueV::Int(x))),
        OpCode::LoadImm(i) => if (i as int) < heap.len() { Some(st.push(heap[i as int])) } else { None },
        OpCode::Not => if st.len() >= 1 {
            match st.last() {
                ValueV::Int(x) => Some(st.drop_last().push(ValueV::Int(U256 { hi: !x.hi, lo: !x.lo }))),
                ValueV::Bytes(_) => None,
            }
        } else {
            None
        },
        _ => if st.len() >= 2 {
            match (st.last(), st[st.len() - 2]) {
                (ValueV::Int(x), ValueV::Int(y)) => match binop_spec(op, x, y) {
                    Some(z) => Some(st.take(st.len() - 2).push(ValueV::Int(z))),
                    None => None,
                },
                _ => None,
            }
        } else {
            None
        },
    }
}

/// Runs `ops` from `pc` to the end; the final stack, or `None` on a fault.
pub open spec fn run_spec(ops: Seq<OpCode>, pc: nat, st: Seq<ValueV>, heap: Seq<ValueV>) -> Option<Seq<ValueV>>
    decreases ops.len() - pc,
{
    if pc >= ops.len() {
        Some(st)
    } else {
        match step_spec(ops[pc as int], st, heap) {
            Some(s) => run_spec(ops, pc + 1, s, heap),
            None => None,
        }
    }
}

/// Whether a program authorises a spend: it runs without fault on the inputs
/// and leaves a truthy value on top of the stack.
pub open spec fn authorizes(ops: Seq<OpCode>, heap: Seq<ValueV>) -> bool {
    match run_spec(ops, 0, Seq::empty(), heap) {
        Some(st) => st.len() > 0 && Value::truthy(st.last()),
        None => false,
    }
}

pub open spec fn views(s: Seq<Value>) -> Seq<ValueV> {
    s.map_values(|v: Value| v@)
}

/// The machine: instruction pointer, operand stack, program and bound inputs.
pub struct Executor {
    pc: usize,
    pub stack: Vec<Value>,
    ops: Vec<OpCode>,
    heap: Vec<Value>,
}

impl Executor {
    pub closed spec fn pc_spec(&self) -> nat {
        self.pc as nat
    }

    pub closed spec fn ops_spec(&self) -> Seq<OpCode> {
        self.ops@
    }

    pub closed spec fn heap_spec(&self) -> Seq<ValueV> {
        views(self.heap@)
    }

    pub closed spec fn stack_spec(&self) -> Seq<ValueV> {
        views(self.stack@)
    }

    /// A machine at the start of `ops`, with `heap` as its inputs.
    pub fn new(ops: Vec<OpCode>, heap: Vec<Value>) -> (r: Executor)
        ensures
            r.pc_spec() == 0,
            r.stack_spec().len() == 0,
            r.ops_spec() == ops@,
            r.heap_spec() == views(heap@),
    {
        Executor { pc: 0, stack: Vec::new(), ops, heap }
    }

    /// The instruction pointer.
    pub fn pc(&self) -> (r: usize)
        ensures
            r == self.pc_spec(),
    {
        self.pc
    }

    /// The length of the program.
    pub fn len(&self) -> (r: usize)
        ensures
            r == self.ops_spec().len(),
    {
        self.ops.len()
    }

    /// Executes the instruction at the pointer and advances it; `None` on a fault
    /// or where the pointer is past the end.
    pub fn step(&mut self) -> (r: Option<()>)
        ensures
            final(self).ops_spec() == old(self).ops_spec(),
            final(self).heap_spec() == old(self).heap_spec(),
            old(self).pc_spec() >= old(self).ops_spec().len() ==> r.is_none(),
            old(self).pc_spec() < old(self).ops_spec().len() ==> match step_spec(
                old(self).ops_spec()[old(self).pc_spec() as int],
                old(self).stack_spec(),
                old(self).heap_spec(),
            ) {
                Some(s) => r.is_some() && final(self).stack_spec() == s && final(self).pc_spec()
                    == old(self).pc_spec() + 1,
                None => r.is_none(),
            },
    {
        if self.pc >= self.ops.len() {
            return None;
        }
        let op = self.ops[self.pc];
        let ghost st0 = self.stack_spec();
        let ghost hp = self.heap_spec();
        match op {
            OpCode::Noop => {},
            OpCode::PushI(x) => {
                self.stack.push(Value::Int(x));
                proof {
                    assert(self.stack_spec() =~= st0.push(ValueV::Int(x)));
                }
            },
            OpCode::LoadImm(i) => {
                if (i as usize) < self.heap.len() {
                    let v = self.heap[i as usize].copy();
                    self.stack.push(v);
                    proof {
                        assert(self.stack_spec() =~= st0.push(hp[i as int]));
                    }
                } else {
                    return None;
                }
            },
            OpCode::Not => {
                if self.stack.len() < 1 {
                    return None;
                }
                let top = self.stack.pop().unwrap();
                proof {
                    assert(self.stack_spec() =~= st0.drop_last());
                }
                match top {
                    Value::Int(x) => {
                        self.stack.push(Value::Int(x.bit_not()));
                        proof {
                            assert(self.stack_spec() =~= st0.drop_last().push(ValueV::Int(U256 { hi: !x.hi, lo: !x.lo })));
                        }
                    },
                    Value::Bytes(_) => {
                        return None;
                    },
                }
            },
            _ => {
                if self.stack.len() < 2 {
                    return None;
                }
                let a = self.stack.pop().unwrap();
                let b = self.stack.pop().unwrap();
                proof {
                    assert(self.stack_spec() =~= st0.take(st0.len() - 2));
                }
                match (a, b) {
                    (Value::Int(x), Value::Int(y)) => {
                        let z = binop(op, x, y);
                        match z {
                            Some(z) => {
                                self.stack.push(Value::Int(z));
                                proof {
                                    assert(self.stack_spec() =~= st0.take(st0.len() - 2).push(ValueV::Int(z)));
                                }
                            },
                            None => {
                                return None;
                            },
                        }
                    },
                    _ => {
                        return None;
                    },
                }
            },
        }
        self.pc = self.pc + 1;
        Some(())
    }

    /// Removes and returns the top of the stack.
    pub fn pop_top(&mut self) -> (r: Option<Value>)
        ensures
            old(self).stack_spec().len() == 0 ==> r.is_none(),
            old(self).stack_spec().len() > 0 ==> r.is_some() && r.unwrap()@ == old(self).stack_spec().last()
                && final(self).stack_spec() == old(self).stack_spec().drop_last(),
            final(self).ops_spec() == old(self).ops_spec(),
            final(self).heap_spec() == old(self).heap_spec(),
            final(self).pc_spec() == old(self).pc_spec(),
    {
        let r = self.stack.pop();
        proof {
            if old(self).stack_spec().len() > 0 {
                assert(self.stack_spec() =~= old(self).stack_spec().drop_last());
            }
        }
        r
    }

    /// Steps until the pointer reaches the end of the program; `false` on a fault.
    pub fn run_to_end(&mut self) -> (r: bool)
        ensures
            r == run_spec(old(self).ops_spec(), old(self).pc_spec(), old(self).stack_spec(), old(self).heap_spec()).is_some(),
            r ==> final(self).stack_spec() == run_spec(
                old(self).ops_spec(),
                old(self).pc_spec(),
                old(self).stack_spec(),
                old(self).heap_spec(),
            ).unwrap(),
    {
        let ghost ops = self.ops_spec();
        let ghost heap = self.heap_spec();
        let ghost goal = run_spec(ops, self.pc_spec(), self.stack_spec(), heap);
        while self.pc < self.ops.len()
            invariant
                self.ops_spec() == ops,
                self.heap_spec() == heap,
                run_spec(ops, self.pc_spec(), self.stack_spec(), heap) == goal,
                goal == run_spec(old(self).ops_spec(), old(self).pc_spec(), old(self).stack_spec(), old(self).heap_spec()),
            decreases ops.len() - self.pc_spec(),
        {
            let ghost pc0 = self.pc_spec();
            let ghost st0 = self.stack_spec();
            if self.step().is_none() {
                assert(step_spec(ops[pc0 as int], st0, heap).is_none());
                assert(run_spec(ops, pc0, st0, heap).is_none());
                return false;
            }
        }
        true
    }
}

/// A machine at the start of `ops` whose inputs are `args`, numbered from zero.
pub fn exec_from_args(ops: &[OpCode], args: &[Value]) -> (r: Executor)
    ensures
        r.pc_spec() == 0,
        r.stack_spec().len() == 0,
        r.ops_spec() == ops@,
        r.heap_spec() == views(args@),
{
    let mut heap: Vec<Value> = Vec::new();
    let mut i: usize = 0;
    while i < args.len()
        invariant
            i <= args@.len(),
            heap@.len() == i,
            forall|k: int| 0 <= k < i ==> (#[trigger] heap@[k])@ == args@[k]@,
        decreases args@.len() - i,
    {
        heap.push(args[i].copy());
        i = i + 1;
    }
    proof {
        assert(views(heap@) =~= views(args@));
    }
    let mut prog: Vec<OpCode> = Vec::new();
    let mut j: usize = 0;
    while j < ops.len()
        invariant
            j <= ops@.len(),
            prog@ == ops@.take(j as int),
        decreases ops@.len() - j,
    {
        prog.push(ops[j]);
        proof {
            assert(prog@ =~= ops@.take(j + 1));
        }
        j = j + 1;
    }
    proof {
        assert(ops@.take(ops@.len() as int) =~= ops@);
    }
    Executor::new(prog, heap)
}

/// Runs `ops` with no inputs; the value left on top of the stack, or `None` where
/// the run faults or leaves the stack empty.
pub fn run_ops(ops: &[OpCode]) -> (r: Option<Value>)
    ensures
        match run_spec(ops@, 0, Seq::empty(), Seq::empty()) {
            Some(st) => if st.len() > 0 { r.is_some() && r.unwrap()@ == st.last() } else { r.is_none() },
            None => r.is_none(),
        },
{
    let none: Vec<Value> = Vec::new();
    let mut ex = exec_from_args(ops, none.as_slice());
    proof {
        assert(views(none@) =~= Seq::<ValueV>::empty());
        assert(ex.stack_spec() =~= Seq::<ValueV>::empty());
    }
    if !ex.run_to_end() {
        return None;
    }
    ex.pop_top()
}

/// Pushes each of `args` in order, then applies `op`; the value on top afterwards.
pub fn do_op_with_args(op: OpCode, args: &[U256]) -> (r: Option<Value>)
    ensures
        match run_spec(pushes(args@).push(op), 0, Seq::empty(), Seq::empty()) {
            Some(st) => if st.len() > 0 { r.is_some() && r.unwrap()@ == st.last() } else { r.is_none() },
            None => r.is_none(),
        },
{
    let mut prog: Vec<OpCode> = Vec::new();
    let mut i: usize = 0;
    while i < args.len()
        invariant
            i <= args@.len(),
            prog@ == pushes(args@.take(i as int)),
        decreases args@.len() - i,
    {
        prog.push(OpCode::PushI(args[i]));
        proof {
            assert(pushes(args@.take(i + 1)) =~= pushes(args@.take(i as int)).push(OpCode::PushI(args@[i as int])));
        }
        i = i + 1;
    }
    proof {
        assert(args@.take(args@.len() as int) =~= args@);
    }
    prog.push(op);
    run_ops(prog.as_slice())
}

/// The instructions that push each of `args` in order.
pub open spec fn pushes(args: Seq<U256>) -> Seq<OpCode> {
    args.map_values(|x: U256| OpCode::PushI(x))
}

/// `do_op_with_args` on integers given as `u128`.
pub fn do_op_with_args_int(op: OpCode, args: &[u128]) -> (r: Option<Value>)
    ensures
        match run_spec(pushes(widen(args@)).push(op), 0, Seq::empty(), Seq::empty()) {
            Some(st) => if st.len() > 0 { r.is_some() && r.unwrap()@ == st.last() } else { r.is_none() },
            None => r.is_none(),
        },
{
    let mut wide: Vec<U256> = Vec::new();
    let mut i: usize = 0;
    while i < args.len()
        invariant
            i <= args@.len(),
            wide@ == widen(args@.take(i as int)),
        decreases args@.len() - i,
    {
        wide.push(U256::from_u128(args[i]));
        proof {
            assert(widen(args@.take(i + 1)) =~= widen(args@.take(i as int)).push(U256 { hi: 0, lo: args@[i as int] }));
        }
        i = i + 1;
    }
    proof {
        assert(args@.take(args@.len() as int) =~= args@);
    }
    do_op_with_args(op, wide.as_slice())
}

/// Each `u128` as a 256-bit integer.
pub open spec fn widen(args: Seq<u128>) -> Seq<U256> {
    args.map_values(|x: u128| U256 { hi: 0, lo: x })
}

/// Whether `op` on all of `args` but the last leaves the integer given by the
/// last of `args` on top of the stack.
pub fn test_ops_int(op: OpCode, args: &[u128]) -> (r: bool)
    requires
        args@.len() >= 1,
    ensures
        r == match run_spec(pushes(widen(args@.drop_last())).push(op), 0, Seq::empty(), Seq::empty()) {
            Some(st) => st.len() > 0 && st.last() == ValueV::Int(U256 { hi: 0, lo: args@.last() }),
            None => false,
        },
{
    let n = args.len();
    let head = slice_prefix(args, n - 1);
    let val = do_op_with_args_int(op, head.as_slice());
    proof {
        assert(head@ =~= args@.drop_last());
    }
    match val {
        Some(Value::Int(x)) => x.hi == 0 && x.lo == args[n - 1],
        _ => false,
    }
}

fn slice_prefix(s: &[u128], n: usize) -> (r: Vec<u128>)
    requires
        n <= s@.len(),
    ensures
        r@ == s@.take(n as int),
{
    let mut v: Vec<u128> = Vec::new();
    let mut i: usize = 0;
    while i < n
        invariant
            i <= n,
            n <= s@.len(),
            v@ == s@.take(i as int),
        decreases n - i,
    {
        v.push(s[i]);
        proof {
            assert(v@ =~= s@.take(i + 1));
        }
        i = i + 1;
    }
    v
}

/// Wrapping arithmetic on the machine: `1 - 2` wraps to the largest value,
/// `1 + 2` is `3`, a zero divisor faults division and remainder, and the
/// complement of zero is all ones.
pub proof fn lemma_wrapping_arith(x: U256)
    ensures
        binop_spec(OpCode::Sub, U256 { hi: 0, lo: 1 }, U256 { hi: 0, lo: 2 }) == Some(U256 { hi: u128::MAX, lo: u128::MAX }),
        binop_spec(OpCode::Add, U256 { hi: 0, lo: 1 }, U256 { hi: 0, lo: 2 }) == Some(U256 { hi: 0, lo: 3 }),
        binop_spec(OpCode::Div, x, U256 { hi: 0, lo: 0 }).is_none(),
        binop_spec(OpCode::Rem, x, U256 { hi: 0, lo: 0 }).is_none(),
        step_spec(OpCode::Not, seq![ValueV::Int(U256 { hi: 0, lo: 0 })], Seq::empty())
            == Some(seq![ValueV::Int(U256 { hi: u128::MAX, lo: u128::MAX })]),
{
    let m = modulus();
    let one = U256 { hi: 0, lo: 1 };
    let two = U256 { hi: 0, lo: 2 };
    let top = U256 { hi: u128::MAX, lo: u128::MAX };
    assert(((one@ + m - two@) as int % (m as int)) as nat == m - 1) by {
        vstd::arithmetic::div_mod::lemma_small_mod((m - 1) as nat, m);
    }
    let b = word_base();
    assert((b - 1) * b + (b - 1) == b * b - 1) by (nonlinear_arith)
        requires
            b >= 1,
    ;
    assert(top@ == m - 1);
    lemma_from_nat(top);
    assert(from_nat((1 + 2) % m) == U256 { hi: 0, lo: 3 }) by {
        vstd::arithmetic::div_mod::lemma_small_mod(3, m);
        lemma_from_nat(U256 { hi: 0, lo: 3 });
    }
    assert(!0u128 == u128::MAX) by (bit_vector);
    assert(seq![ValueV::Int(U256 { hi: 0, lo: 0 })].drop_last().push(ValueV::Int(top)) =~= seq![ValueV::Int(top)]);
}

/// A covenant script: a program that decides whether a coin may be spent.
#[derive(Clone, Debug)]
pub struct Covenant {
    pub ops: Vec<OpCode>,
}

/// The encoded size of one instruction, in bytes.
pub open spec fn op_size(op: OpCode) -> nat {
    match op {
        OpCode::PushI(_) => 33,
        OpCode::LoadImm(_) => 3,
        _ => 1,
    }
}

/// The cost of a script: one unit per instruction plus one per encoded byte.
pub open spec fn weight_spec(ops: Seq<OpCode>) -> nat
    decreases ops.len(),
{
    if ops.len() == 0 {
        0
    } else {
        weight_spec(ops.drop_last()) + 1 + op_size(ops.last())
    }
}

/// The code of an instruction, its first encoded byte.
pub open spec fn op_tag(op: OpCode) -> u8 {
    match op {
        OpCode::Noop => 0x09,
        OpCode::Add => 0x10,
        OpCode::Sub => 0x11,
        OpCode::Mul => 0x12,
        OpCode::Div => 0x13,
        OpCode::Rem => 0x14,
        OpCode::And => 0x20,
        OpCode::Or => 0x21,
        OpCode::Xor => 0x22,
        OpCode::Not => 0x23,
        OpCode::Eql => 0x30,
        OpCode::Lt => 0x31,
        OpCode::Gt => 0x32,
        OpCode::LoadImm(_) => 0x40,
        OpCode::PushI(_) => 0xf1,
    }
}

/// The big-endian bytes of a word.
pub open spec fn word_bytes(x: u128) -> Seq<u8> {
    Seq::new(16, |i: int| ((x >> ((120 - 8 * i) as u128)) & 0xff) as u8)
}

/// The bytes of one instruction: its code, then its immediate, big-endian.
pub open spec fn op_bytes(op: OpCode) -> Seq<u8> {
    match op {
        OpCode::PushI(x) => seq![op_tag(op)] + word_bytes(x.hi) + word_bytes(x.lo),
        OpCode::LoadImm(i) => seq![op_tag(op), (i >> 8u16) as u8, (i & 0xffu16) as u8],
        _ => seq![op_tag(op)],
    }
}

/// The encoding of a program, instruction after instruction.
pub open spec fn encode_spec(ops: Seq<OpCode>) -> Seq<u8>
    decreases ops.len(),
{
    if ops.len() == 0 {
        Seq::empty()
    } else {
        encode_spec(ops.drop_last()) + op_bytes(ops.last())
    }
}

pub(crate) fn push_word(out: &mut Vec<u8>, x: u128)
    ensures
        final(out)@ == old(out)@ + word_bytes(x),
{
    let ghost start = out@;
    let mut i: u32 = 0;
    while i < 16
        invariant
            i <= 16,
            out@ == start + word_bytes(x).take(i as int),
        decreases 16 - i,
    {
        let b = ((x >> (120 - 8 * i)) & 0xff) as u8;
        out.push(b);
        proof {
            assert(word_bytes(x).take(i + 1) =~= word_bytes(x).take(i as int).push(b));
            assert(out@ =~= start + word_bytes(x).take(i + 1));
        }
        i = i + 1;
    }
    proof {
        assert(word_bytes(x).take(16) =~= word_bytes(x));
    }
}

fn tag(op: OpCode) -> (r: u8)
    ensures
        r == op_tag(op),
{
    match op {
        OpCode::Noop => 0x09,
        OpCode::Add => 0x10,
        OpCode::Sub => 0x11,
        OpCode::Mul => 0x12,
        OpCode::Div => 0x13,
        OpCode::Rem => 0x14,
        OpCode::And => 0x20,
        OpCode::Or => 0x21,
        OpCode::Xor => 0x22,
        OpCode::Not => 0x23,
        OpCode::Eql => 0x30,
        OpCode::Lt => 0x31,
        OpCode::Gt => 0x32,
        OpCode::LoadImm(_) => 0x40,
        OpCode::PushI(_) => 0xf1,
    }
}

impl Covenant {
    /// A copy of the script.
    pub fn copy(&self) -> (r: Covenant)
        ensures
            r.ops@ == self.ops@,
    {
        let mut ops: Vec<OpCode> = Vec::new();
        let mut j: usize = 0;
        while j < self.ops.len()
            invariant
                j <= self.ops@.len(),
                ops@ == self.ops@.take(j as int),
            decreases self.ops@.len() - j,
        {
            ops.push(self.ops[j]);
            proof {
                assert(ops@ =~= self.ops@.take(j + 1));
            }
            j = j + 1;
        }
        proof {
            assert(self.ops@.take(self.ops@.len() as int) =~= self.ops@);
        }
        Covenant { ops }
    }

    /// The script made of `ops`; it never fails.
    pub fn from_ops(ops: &[OpCode]) -> (r: Option<Covenant>)
        ensures
            r.is_some() && r.unwrap().ops@ == ops@,
    {
        let mut prog: Vec<OpCode> = Vec::new();
        let mut j: usize = 0;
        while j < ops.len()
            invariant
                j <= ops@.len(),
                prog@ == ops@.take(j as int),
            decreases ops@.len() - j,
        {
            prog.push(ops[j]);
            proof {
                assert(prog@ =~= ops@.take(j + 1));
            }
            j = j + 1;
        }
        proof {
            assert(ops@.take(ops@.len() as int) =~= ops@);
        }
        Some(Covenant { ops: prog })
    }

    /// The script that accepts every spend.
    pub fn always_true() -> (r: Covenant)
        ensures
            r.ops@ == seq![OpCode::PushI(U256 { hi: 0, lo: 1 })],
    {
        let mut ops: Vec<OpCode> = Vec::new();
        ops.push(OpCode::PushI(U256::from_u128(1)));
        proof {
            assert(ops@ =~= seq![OpCode::PushI(U256 { hi: 0, lo: 1 })]);
        }
        Covenant { ops }
    }

    /// Whether the script authorises a spend, with `args` as its inputs.
    pub fn check_raw(&self, args: &[Value]) -> (r: bool)
        ensures
            r == authorizes(self.ops@, views(args@)),
    {
        let mut ex = exec_from_args(self.ops.as_slice(), args);
        proof {
            assert(ex.stack_spec() =~= Seq::<ValueV>::empty());
        }
        if !ex.run_to_end() {
            return false;
        }
        match ex.pop_top() {
            Some(Value::Int(x)) => !x.is_zero(),
            _ => false,
        }
    }

    /// The cost of the script, which the fee model charges for.
    pub fn weight(&self) -> (r: u128)
        ensures
            r == weight_spec(self.ops@),
    {
        let mut w: u128 = 0;
        let mut i: usize = 0;
        while i < self.ops.len()
            invariant
                i <= self.ops@.len(),
                w == weight_spec(self.ops@.take(i as int)),
                w <= 34 * i,
            decreases self.ops@.len() - i,
        {
            let op = self.ops[i];
            let size: u128 = match op {
                OpCode::PushI(_) => 33,
                OpCode::LoadImm(_) => 3,
                _ => 1,
            };
            proof {
                assert(self.ops@.take(i + 1).drop_last() =~= self.ops@.take(i as int));
            }
            w = w + 1 + size;
            i = i + 1;
        }
        proof {
            assert(self.ops@.take(self.ops@.len() as int) =~= self.ops@);
        }
        w
    }

    /// The bytes of the script, whose hash is the address of the coins it guards.
    pub fn encode(&self) -> (r: Vec<u8>)
        ensures
            r@ == encode_spec(self.ops@),
    {
        let mut out: Vec<u8> = Vec::new();
        let mut i: usize = 0;
        while i < self.ops.len()
            invariant
                i <= self.ops@.len(),
                out@ == encode_spec(self.ops@.take(i as int)),
            decreases self.ops@.len() - i,
        {
            let op = self.ops[i];
            let ghost before = out@;
            out.push(tag(op));
            match op {
                OpCode::PushI(x) => {
                    push_word(&mut out, x.hi);
                    push_word(&mut out, x.lo);
                },
                OpCode::LoadImm(k) => {
                    out.push((k >> 8u16) as u8);
                    out.push((k & 0xffu16) as u8);
                },
                _ => {},
            }
            proof {
                assert(self.ops@.take(i + 1).drop_last() =~= self.ops@.take(i as int));
                assert(out@ =~= before + op_bytes(op));
            }
            i = i + 1;
        }
        proof {
            assert(self.ops@.take(self.ops@.len() as int) =~= self.ops@);
        }
        out
    }
}

/// The two-operand instructions on integers.
fn binop(op: OpCode, x: U256, y: U256) -> (r: Option<U256>)
    requires
        is_binop(op),
    ensures
        r == binop_spec(op, x, y),
{
    proof {
        U256::lemma_bounded(x);
        U256::lemma_bounded(y);
    }
    match op {
        OpCode::Add => {
            let z = wrapping_add(x, y);
            proof { lemma_from_nat(z); }
            Some(z)
        },
        OpCode::Sub => {
            let z = wrapping_sub(x, y);
            proof { lemma_from_nat(z); }
            Some(z)
        },
        OpCode::Mul => {
            let z = wrapping_mul(x, y);
            proof { lemma_from_nat(z); }
            Some(z)
        },
        OpCode::Div => match checked_div(x, y) {
            Some(z) => {
                proof { lemma_from_nat(z); }
                Some(z)
            },
            None => None,
        },
        OpCode::Rem => match checked_rem(x, y) {
            Some(z) => {
                proof { lemma_from_nat(z); }
                Some(z)
            },
            None => None,
        },
        OpCode::And => Some(x.bit_and(&y)),
        OpCode::Or => Some(x.bit_or(&y)),
        OpCode::Xor => Some(x.bit_xor(&y)),
        OpCode::Eql => Some(if x.eq_num(&y) { U256::from_u128(1) } else { U256::from_u128(0) }),
        OpCode::Lt => Some(if x.lt(&y) { U256::from_u128(1) } else { U256::from_u128(0) }),
        _ => Some(if y.lt(&x) { U256::from_u128(1) } else { U256::from_u128(0) }),
    }
}

} // verus!
