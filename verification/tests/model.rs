use sabbahc::structure::{AstNode, AstNodeType, AstNodeValue, Expression, Scope, Statement};
use sabbahc::typing::{Type, TypeRegistry};

#[test]
fn registry_knows_uint8() {
    let reg = TypeRegistry::new();
    let ty = reg.lookup(&"uint8".to_string());
    assert_eq!(ty, Some(Type { size: Some(1) }));
}

#[test]
fn registry_rejects_unknown_names() {
    let reg = TypeRegistry::new();
    assert_eq!(reg.lookup(&"int8".to_string()), None);
    assert_eq!(reg.lookup(&"".to_string()), None);
    assert_eq!(reg.lookup(&"uint".to_string()), None);
}

#[test]
fn uint8_occupies_one_byte() {
    assert_eq!(Type::uint8().size, Some(1));
}

#[test]
fn node_builders_fix_kind_and_payload() {
    let fk = AstNodeType::fk(2, 5);
    assert_eq!(fk.node_type, AstNodeType::FunctionKeyword);
    assert!(fk.value.is_none());
    assert_eq!((fk.line, fk.column), (2, 5));

    let fi = AstNode::fi("main".to_string(), 1, 3);
    assert_eq!(fi.node_type, AstNodeType::FunctionIdent);
    assert_eq!(fi.value, Some(AstNodeValue::FunctionIdent("main".to_string())));

    let tup = AstNode::tup(1, 7);
    assert_eq!(tup.node_type, AstNodeType::ParamTypeTuple);
    assert!(tup.value.is_some());

    let ti = AstNode::ti(Type::uint8(), 1, 12);
    assert_eq!(ti.node_type, AstNodeType::TypeIdent);
    assert_eq!(ti.value, Some(AstNodeValue::TypeIdent(Type { size: Some(1) })));

    let ret = AstNode::ret(42, 3, 1);
    assert_eq!(ret.node_type, AstNodeType::ReturnKeyword);
    match ret.value {
        Some(AstNodeValue::Expression(e)) => {
            assert_eq!(e.content, 42);
            assert_eq!(e.eval_type, Type { size: Some(1) });
        },
        other => panic!("expected an expression payload, got {:?}", other),
    }

    let sc = AstNode::scope(Scope { children: Vec::new(), is_outer: false }, 1, 10);
    assert_eq!(sc.node_type, AstNodeType::Scope);
}

#[test]
fn expressions_evaluate_to_uint8() {
    let e = Expression::new(9);
    assert_eq!(e.content, 9);
    assert_eq!(e.eval_type.size, Some(1));
}

#[test]
fn statements_collect_nodes_in_order() {
    let mut st = Statement::new();
    assert!(st.children.is_empty());
    st.push(AstNodeType::fk(1, 1));
    st.push(AstNode::tup(1, 2));
    assert_eq!(st.children.len(), 2);
    assert_eq!(st.children[0].node_type, AstNodeType::FunctionKeyword);
    assert_eq!(st.children[1].node_type, AstNodeType::ParamTypeTuple);
}
