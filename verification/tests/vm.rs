use revlang::interpreter::{execute, Instruction, VmError};
use revlang::values::{Value, value_eq, value_add};
use num_rational::BigRational;
use num_bigint::BigInt;

fn frac(n: i64) -> BigRational {
    BigRational::from_integer(BigInt::from(n))
}

#[test]
fn load_store_add_scenario() {
    let code = vec![
        Instruction::LoadConst(0),
        Instruction::StoreLocal(0),
        Instruction::LoadConst(0),
        Instruction::LoadConst(0),
        Instruction::Add,
        Instruction::StoreLocal(1),
    ];
    let consts = vec![Value::Fraction(frac(5))];
    let mut locals = vec![Value::Fraction(frac(0)), Value::Fraction(frac(0))];
    let mut stack: Vec<Value> = vec![];
    let r = execute(&code, &consts, &mut stack, &mut locals);
    assert!(r.is_ok());
    assert!(stack.is_empty());
    match (&locals[0], &locals[1]) {
        (Value::Fraction(a), Value::Fraction(b)) => {
            assert_eq!(*a, frac(5));
            assert_eq!(*b, frac(10));
        }
        _ => panic!("locals must hold numbers"),
    }
}

#[test]
fn add_underflow_leaves_stack_untouched() {
    let code = vec![Instruction::Add];
    let consts: Vec<Value> = vec![];
    let mut locals: Vec<Value> = vec![];
    let mut stack = vec![Value::Fraction(frac(3))];
    let r = execute(&code, &consts, &mut stack, &mut locals);
    assert_eq!(r, Err(VmError::StackUnderflow { ip: 0 }));
    assert_eq!(stack.len(), 1);
    match &stack[0] {
        Value::Fraction(a) => assert_eq!(*a, frac(3)),
        _ => panic!("stack must hold the untouched operand"),
    }
}

#[test]
fn store_on_empty_stack_underflows() {
    let code = vec![Instruction::StoreLocal(0)];
    let consts: Vec<Value> = vec![];
    let mut locals = vec![Value::Fraction(frac(0))];
    let mut stack: Vec<Value> = vec![];
    let r = execute(&code, &consts, &mut stack, &mut locals);
    assert_eq!(r, Err(VmError::StackUnderflow { ip: 0 }));
}

#[test]
fn adding_number_to_array_is_incompatible() {
    let code = vec![
        Instruction::LoadConst(0),
        Instruction::LoadConst(1),
        Instruction::Add,
    ];
    let consts = vec![
        Value::Fraction(frac(1)),
        Value::Array(vec![frac(1), frac(2)]),
    ];
    let mut locals: Vec<Value> = vec![];
    let mut stack: Vec<Value> = vec![];
    let r = execute(&code, &consts, &mut stack, &mut locals);
    assert_eq!(r, Err(VmError::IncompatibleOperands { ip: 2 }));
    // both operands are still on the stack at the failing instruction
    assert_eq!(stack.len(), 2);
}

#[test]
fn arrays_add_element_wise() {
    let a = Value::Array(vec![frac(1), frac(2)]);
    let b = Value::Array(vec![frac(10), frac(20)]);
    let sum = value_add(&a, &b).expect("equal lengths add");
    let expect = Value::Array(vec![frac(11), frac(22)]);
    assert!(value_eq(&sum, &expect));
    let short = Value::Array(vec![frac(1)]);
    assert!(value_add(&a, &short).is_none());
}

#[test]
fn load_local_pushes_a_copy() {
    let code = vec![Instruction::LoadLocal(0), Instruction::StoreLocal(1)];
    let consts: Vec<Value> = vec![];
    let mut locals = vec![Value::Fraction(frac(9)), Value::Fraction(frac(0))];
    let mut stack: Vec<Value> = vec![];
    execute(&code, &consts, &mut stack, &mut locals).unwrap();
    match (&locals[0], &locals[1]) {
        (Value::Fraction(a), Value::Fraction(b)) => {
            assert_eq!(*a, frac(9));
            assert_eq!(*b, frac(9));
        }
        _ => panic!("locals must hold numbers"),
    }
}
