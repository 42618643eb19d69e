use revlang::syntaxchecker::{SyntaxContext, SyntaxError};
use revlang::values::Value;
use revlang::parsetree::{LookupNode, ExpressionNode, FractionNode};
use num_rational::BigRational;
use num_bigint::BigInt;

fn frac(n: i64) -> BigRational {
    BigRational::from_integer(BigInt::from(n))
}

fn plain_lookup(name: &str) -> LookupNode {
    LookupNode { name: name.to_string(), indices: vec![] }
}

fn indexed_lookup(name: &str) -> LookupNode {
    LookupNode {
        name: name.to_string(),
        indices: vec![ExpressionNode::Fraction(Box::new(FractionNode { value: frac(0) }))],
    }
}

#[test]
fn registers_are_distinct_and_reused() {
    let names: Vec<String> = vec![];
    let mut ctx = SyntaxContext::new(&names);
    let ra = ctx.create_variable("a").unwrap();
    let rb = ctx.create_variable("b").unwrap();
    assert_ne!(ra, rb);
    assert_eq!(ctx.num_registers, 2);
    let freed = ctx.remove_variable("a").unwrap();
    assert_eq!(freed, ra);
    // the freed register is reused before a new one is minted
    let rc = ctx.create_variable("c").unwrap();
    assert_eq!(rc, ra);
    // the high-water mark never decreases
    assert_eq!(ctx.num_registers, 2);
}

#[test]
fn remove_variable_fails_while_aliased() {
    let names: Vec<String> = vec![];
    let mut ctx = SyntaxContext::new(&names);
    ctx.create_variable("x").unwrap();
    ctx.create_ref("y", &plain_lookup("x")).unwrap();
    match ctx.remove_variable("x") {
        Err(SyntaxError::AliasedDestroy { name, .. }) => assert_eq!(name, "x"),
        other => panic!("expected AliasedDestroy, got {:?}", other.is_ok()),
    }
    // retiring the alias makes the destroy legal again
    ctx.remove_ref("y", &plain_lookup("x")).unwrap();
    ctx.remove_variable("x").unwrap();
}

#[test]
fn remove_variable_fails_with_interior_alias() {
    let names: Vec<String> = vec![];
    let mut ctx = SyntaxContext::new(&names);
    ctx.create_variable("x").unwrap();
    ctx.create_ref("y", &indexed_lookup("x")).unwrap();
    assert!(matches!(
        ctx.remove_variable("x"),
        Err(SyntaxError::AliasedDestroy { .. })
    ));
}

#[test]
fn exterior_ref_round_trip_restores_pool() {
    let names: Vec<String> = vec![];
    let mut ctx = SyntaxContext::new(&names);
    let rx = ctx.create_variable("x").unwrap();
    let free_before = ctx.free_registers.clone();
    let num_before = ctx.num_registers;
    let locals_before = ctx.local_variables.len();
    let ry = ctx.create_ref("y", &plain_lookup("x")).unwrap();
    assert_eq!(ry, rx); // an exterior alias shares the register
    let back = ctx.remove_ref("y", &plain_lookup("x")).unwrap();
    assert_eq!(back, rx);
    assert_eq!(ctx.free_registers, free_before);
    assert_eq!(ctx.num_registers, num_before);
    assert_eq!(ctx.local_variables.len(), locals_before);
    assert_eq!(ctx.local_variables[0].0, "x");
}

#[test]
fn interior_status_is_monotonic() {
    let names: Vec<String> = vec![];
    let mut ctx = SyntaxContext::new(&names);
    let rx = ctx.create_variable("x").unwrap();
    let ry = ctx.create_ref("y", &indexed_lookup("x")).unwrap();
    assert_ne!(ry, rx); // an interior alias gets its own register
    // an alias of an interior alias is interior, even with no index path
    let rz = ctx.create_ref("z", &plain_lookup("y")).unwrap();
    assert_ne!(rz, rx);
    assert_ne!(rz, ry);
    let z_ref = ctx
        .local_variables
        .iter()
        .find(|e| e.0 == "z")
        .expect("z is bound")
        .1;
    assert!(z_ref.is_interior);
}

#[test]
fn add_const_is_idempotent() {
    let names: Vec<String> = vec![];
    let mut ctx = SyntaxContext::new(&names);
    let i1 = ctx.add_const(Value::Fraction(frac(7)));
    let i2 = ctx.add_const(Value::Fraction(frac(7)));
    assert_eq!(i1, i2);
    assert_eq!(ctx.consts.len(), 1);
    let i3 = ctx.add_const(Value::Fraction(frac(8)));
    assert_ne!(i3, i1);
    assert_eq!(ctx.consts.len(), 2);
}

#[test]
fn lookup_and_declaration_errors() {
    let names: Vec<String> = vec![];
    let mut ctx = SyntaxContext::new(&names);
    assert!(matches!(
        ctx.lookup_local("ghost_name"),
        Err(SyntaxError::UndefinedVariable { .. })
    ));
    ctx.create_variable("x").unwrap();
    assert!(matches!(
        ctx.create_variable("x"),
        Err(SyntaxError::DuplicateDeclaration { .. })
    ));
    assert!(matches!(
        ctx.create_ref("y", &plain_lookup("missing")),
        Err(SyntaxError::UndefinedVariable { .. })
    ));
}

#[test]
fn unref_through_wrong_variable_is_invalid() {
    let names: Vec<String> = vec![];
    let mut ctx = SyntaxContext::new(&names);
    ctx.create_variable("x").unwrap();
    ctx.create_variable("w").unwrap();
    ctx.create_ref("y", &plain_lookup("x")).unwrap();
    assert!(matches!(
        ctx.remove_ref("y", &plain_lookup("w")),
        Err(SyntaxError::InvalidUnref { .. })
    ));
}

#[test]
fn exterior_cannot_be_retired_through_interior() {
    let names: Vec<String> = vec![];
    let mut ctx = SyntaxContext::new(&names);
    ctx.create_variable("x").unwrap();
    ctx.create_ref("y", &plain_lookup("x")).unwrap();
    ctx.create_ref("z", &indexed_lookup("x")).unwrap();
    // y is exterior; z is interior-only: retiring y through z is invalid
    assert!(matches!(
        ctx.remove_ref("y", &plain_lookup("z")),
        Err(SyntaxError::InvalidUnref { .. })
    ));
}
