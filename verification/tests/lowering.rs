use revlang::parsetree as pt;
use revlang::syntaxchecker::{check_syntax, SyntaxError};
use revlang::syntaxtree as st;
use num_rational::BigRational;
use num_bigint::BigInt;

fn frac(n: i64) -> BigRational {
    BigRational::from_integer(BigInt::from(n))
}

fn frac_expr(n: i64) -> pt::ExpressionNode {
    pt::ExpressionNode::Fraction(Box::new(pt::FractionNode { value: frac(n) }))
}

fn let_stmt(name: &str, n: i64) -> pt::StatementNode {
    pt::StatementNode::LetUnlet(Box::new(pt::LetUnletNode {
        name: name.to_string(),
        is_unlet: false,
        rhs: frac_expr(n),
    }))
}

fn unlet_stmt(name: &str, n: i64) -> pt::StatementNode {
    pt::StatementNode::LetUnlet(Box::new(pt::LetUnletNode {
        name: name.to_string(),
        is_unlet: true,
        rhs: frac_expr(n),
    }))
}

fn ref_stmt(name: &str, target: &str) -> pt::StatementNode {
    pt::StatementNode::RefUnref(Box::new(pt::RefUnrefNode {
        name: name.to_string(),
        is_unref: false,
        rhs: pt::LookupNode { name: target.to_string(), indices: vec![] },
    }))
}

fn func(name: &str, stmts: Vec<pt::StatementNode>) -> pt::FunctionNode {
    pt::FunctionNode {
        name: name.to_string(),
        borrow_params: vec![],
        steal_params: vec![],
        return_params: vec![],
        stmts,
    }
}

#[test]
fn destroying_an_aliased_variable_fails() {
    let module = pt::Module {
        functions: vec![func(
            "main",
            vec![let_stmt("x", 3), ref_stmt("y", "x"), unlet_stmt("x", 3)],
        )],
    };
    match check_syntax(module) {
        Err(SyntaxError::AliasedDestroy { name, .. }) => assert_eq!(name, "x"),
        _ => panic!("destroying x while y aliases it must fail"),
    }
}

#[test]
fn straight_line_function_lowers() {
    let module = pt::Module {
        functions: vec![func(
            "main",
            vec![let_stmt("x", 3), let_stmt("y", 3), unlet_stmt("y", 3), unlet_stmt("x", 3)],
        )],
    };
    let lowered = check_syntax(module).expect("well-formed module");
    assert_eq!(lowered.functions.len(), 1);
    assert_eq!(lowered.main_idx, Some(0));
    let f = &lowered.functions[0];
    // two simultaneously live variables, and the literal 3 deduplicated
    assert_eq!(f.num_registers, 2);
    assert_eq!(f.consts.len(), 1);
    assert_eq!(f.stmts.len(), 4);
    match &f.stmts[0] {
        st::StatementNode::LetUnlet(n) => {
            assert!(!n.is_unlet);
            assert_eq!(n.register, 0);
        }
        _ => panic!("first statement is the let"),
    }
}

#[test]
fn params_take_the_first_registers() {
    let module = pt::Module {
        functions: vec![pt::FunctionNode {
            name: "f".to_string(),
            borrow_params: vec!["a".to_string(), "b".to_string()],
            steal_params: vec!["c".to_string()],
            return_params: vec!["a".to_string()],
            stmts: vec![],
        }],
    };
    let lowered = check_syntax(module).expect("well-formed module");
    let f = &lowered.functions[0];
    assert_eq!(f.borrow_registers, vec![0, 1]);
    assert_eq!(f.steal_registers, vec![2]);
    assert_eq!(f.return_registers, vec![0]);
    assert_eq!(lowered.main_idx, None);
}

#[test]
fn lookup_of_unbound_name_fails() {
    let module = pt::Module {
        functions: vec![func(
            "main",
            vec![pt::StatementNode::Modop(Box::new(pt::ModopNode {
                lookup: pt::LookupNode { name: "nope".to_string(), indices: vec![] },
                op: revlang::interpreter::Instruction::Add,
                rhs: frac_expr(1),
            }))],
        )],
    };
    assert!(matches!(
        check_syntax(module),
        Err(SyntaxError::UndefinedVariable { .. })
    ));
}

#[test]
fn interior_unref_releases_its_register() {
    // ref z = x[0] takes a fresh register; unref z hands it back
    let idx_lookup = |name: &str| pt::LookupNode {
        name: name.to_string(),
        indices: vec![frac_expr(0)],
    };
    let module = pt::Module {
        functions: vec![func(
            "main",
            vec![
                let_stmt("x", 3),
                pt::StatementNode::RefUnref(Box::new(pt::RefUnrefNode {
                    name: "z".to_string(),
                    is_unref: false,
                    rhs: idx_lookup("x"),
                })),
                pt::StatementNode::RefUnref(Box::new(pt::RefUnrefNode {
                    name: "z".to_string(),
                    is_unref: true,
                    rhs: idx_lookup("x"),
                })),
                let_stmt("y", 4),
                unlet_stmt("y", 4),
                unlet_stmt("x", 3),
            ],
        )],
    };
    let lowered = check_syntax(module).expect("well-formed module");
    // y reuses the register that z released
    assert_eq!(lowered.functions[0].num_registers, 2);
}
