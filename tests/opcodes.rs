use themelio_stf::u256::U256;
use themelio_stf::vm::{
    do_op_with_args, do_op_with_args_int, exec_from_args, run_ops, test_ops_int, Covenant, OpCode, Value,
};

fn binop(op: OpCode, a: u128, b: u128) -> Option<Value> {
    do_op_with_args(op, &[U256::from(a), U256::from(b)])
}

fn binop_is(op: OpCode, a: u128, b: u128, expected: Value) -> bool {
    match binop(op, a, b) {
        Some(p) => p == expected,
        None => false,
    }
}

#[test]
fn test_noop() {
    let cov = Covenant::from_ops(&[OpCode::Noop]).expect("Noop did something!!");
    assert_eq!(cov.check_raw(&[]), false)
}

#[test]
fn test_add() {
    assert!(binop_is(OpCode::Add, 1, 2, Value::from(3u128)) == true);
    assert!(binop_is(OpCode::Add, 3, 2, Value::from(2u128)) == false);
}

#[test]
fn test_sub() {
    assert!(binop_is(OpCode::Sub, 1, 2, Value::from(1u128)));
    assert!(binop_is(OpCode::Sub, 1, 0, Value::Int(U256::max_value())));
}

#[test]
fn test_mul() {
    assert!(binop_is(OpCode::Mul, 1, 2, Value::from(4u128)) == false);
    assert!(binop_is(OpCode::Mul, 4, 2, Value::from(8u128)));
    assert!(binop_is(OpCode::Mul, 1, 1, Value::from(1u128)));
}

#[test]
fn test_div() {
    assert!(binop_is(OpCode::Div, 2, 2, Value::from(1u128)));
    assert!(binop_is(OpCode::Div, 2, 4, Value::from(2u128)) == true);
    assert!(binop_is(OpCode::Div, 2, 4, Value::from(3u128)) == false);
    assert!(binop(OpCode::Div, 0, 0).is_some() == false);
}

#[test]
fn test_rem() {
    assert!(binop_is(OpCode::Rem, 1, 1, Value::from(0u128)));
    assert!(binop_is(OpCode::Rem, 2, 4, Value::from(0u128)));
    assert!(binop_is(OpCode::Rem, 2, 1, Value::from(2u128)) == false);
    assert!(binop(OpCode::Rem, 0, 0).is_some() == false);
}

#[test]
fn test_and() {
    assert!(test_ops_int(OpCode::And, &[1018, 5, 0]));
    assert!(!test_ops_int(OpCode::And, &[2, 2, 2 & 1]));
}

#[test]
fn test_or() {
    assert!(test_ops_int(OpCode::Or, &[1, 2, 3 | 0]));
    assert!(test_ops_int(OpCode::Or, &[2234, 23642, 2234 | 23642]));
    assert!(test_ops_int(OpCode::Or, &[1018, 5, 1023]));
}

#[test]
fn test_xor() {
    assert!(test_ops_int(OpCode::Xor, &[2, 2, 0]));
    assert!(!test_ops_int(OpCode::Xor, &[2, 2, 1]));
}

#[test]
fn test_eql() {
    assert!(test_ops_int(OpCode::Eql, &[2, 2, 1]));
    assert!(!test_ops_int(OpCode::Eql, &[2, 2, 0]));
}

#[test]
fn test_not() {
    {
        let res = do_op_with_args_int(OpCode::Not, &[0]).expect("Can't caclulate the bitwise inverse of 0!");
        assert!(res == Value::Int(U256::max_value()));
    }
    assert!(!test_ops_int(OpCode::Not, &[1, 0]));
}

#[test]
fn test_lt() {
    assert!(test_ops_int(OpCode::Lt, &[1, 0, 1]));
    assert!(test_ops_int(OpCode::Lt, &[0, 1, 0]));
    assert!(!test_ops_int(OpCode::Lt, &[1, 125, 1]));
    assert!(!test_ops_int(OpCode::Lt, &[654654, 2121, 0]));
}

#[test]
fn test_gt() {
    assert!(test_ops_int(OpCode::Gt, &[1, 0, 0]));
    assert!(test_ops_int(OpCode::Gt, &[0, 1, 1]));
    assert!(!test_ops_int(OpCode::Gt, &[1, 125, 0]));
    assert!(!test_ops_int(OpCode::Gt, &[654654, 2121, 1]));
}

#[test]
fn wrapping_sub_gives_all_ones() {
    assert_eq!(binop(OpCode::Sub, 2, 1), Some(Value::Int(U256::max_value())));
    assert_eq!(U256::max_value(), U256 { hi: u128::MAX, lo: u128::MAX });
}

#[test]
fn add_wraps_at_the_top() {
    let r = do_op_with_args(OpCode::Add, &[U256::from(1u128), U256::max_value()]);
    assert_eq!(r, Some(Value::from(0u128)));
}

#[test]
fn add_carries_into_high_word() {
    let r = do_op_with_args(OpCode::Add, &[U256::from(1u128), U256::from(u128::MAX)]);
    assert_eq!(r, Some(Value::Int(U256 { hi: 1, lo: 0 })));
}

#[test]
fn mul_carries_into_high_word() {
    let r = do_op_with_args(OpCode::Mul, &[U256::from(1u128 << 127), U256::from(4u128)]);
    assert_eq!(r, Some(Value::Int(U256 { hi: 2, lo: 0 })));
}

#[test]
fn div_and_rem_of_wide_values() {
    let big = U256 { hi: 1, lo: 0 };
    assert_eq!(do_op_with_args(OpCode::Div, &[U256::from(2u128), big]), Some(Value::Int(U256 { hi: 0, lo: 1u128 << 127 })));
    assert_eq!(do_op_with_args(OpCode::Rem, &[U256::from(3u128), big]), Some(Value::from(1u128)));
}

#[test]
fn underflow_faults() {
    assert_eq!(run_ops(&[OpCode::Add]), None);
    assert_eq!(run_ops(&[OpCode::PushI(U256::from(1u128)), OpCode::Not, OpCode::Sub]), None);
    assert_eq!(run_ops(&[]), None);
}

#[test]
fn bytes_operand_is_a_type_mismatch() {
    let ex_ops = [OpCode::LoadImm(0), OpCode::Not];
    let cov = Covenant::from_ops(&ex_ops).unwrap();
    assert!(!cov.check_raw(&[Value::Bytes(vec![1, 2])]));
}

#[test]
fn load_imm_reads_inputs() {
    let cov = Covenant::from_ops(&[OpCode::LoadImm(1)]).unwrap();
    assert!(cov.check_raw(&[Value::from(0u128), Value::from(7u128)]));
    assert!(!cov.check_raw(&[Value::from(7u128), Value::from(0u128)]));
    assert!(!cov.check_raw(&[Value::from(7u128)]));
}

#[test]
fn always_true_authorizes() {
    assert!(Covenant::always_true().check_raw(&[]));
}

#[test]
fn executor_steps_one_at_a_time() {
    let ops = [OpCode::PushI(U256::from(5u128)), OpCode::Not];
    let mut ex = exec_from_args(&ops, &[]);
    assert_eq!(ex.pc(), 0);
    assert_eq!(ex.step(), Some(()));
    assert_eq!(ex.pc(), 1);
    assert_eq!(ex.stack, vec![Value::from(5u128)]);
    assert_eq!(ex.step(), Some(()));
    assert_eq!(ex.stack, vec![Value::Int(U256 { hi: u128::MAX, lo: !5u128 })]);
    assert_eq!(ex.step(), None);
}

#[test]
fn weight_counts_instructions_and_bytes() {
    let cov = Covenant::from_ops(&[OpCode::Noop, OpCode::PushI(U256::from(1u128)), OpCode::LoadImm(3)]).unwrap();
    assert_eq!(cov.weight(), 2 + 34 + 4);
    assert_eq!(cov.encode().len(), 1 + 33 + 3);
    assert_eq!(cov.encode()[0..2], [0x09, 0xf1]);
    assert_eq!(cov.encode()[34..], [0x40, 0x00, 0x03]);
}
