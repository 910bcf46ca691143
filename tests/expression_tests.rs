use nyx_parser::{
    parse_expression, parse_type, parser_for, tokenize, BinaryOperator, Expression,
    GenericParameter, Path, Type, UnaryOperator,
};

#[test]
fn lib_test_lexer_integration() {
    let input = "fn main() {}";
    let tokens = tokenize(input).unwrap().0;
    assert!(!tokens.is_empty());
}

#[test]
fn lib_test_simple_integer() {
    let input = "42";
    let result = parse_expression(input);
    assert!(result.is_ok());
    let expr = result.unwrap();
    assert!(matches!(expr, Expression::IntegerLiteral(_)));
}

#[test]
fn lib_test_simple_boolean() {
    let input = "true";
    let result = parse_expression(input);
    assert!(result.is_ok());
    assert_eq!(result.unwrap(), Expression::BooleanLiteral(true));
}

#[test]
fn lib_test_binary_add() {
    let input = "1 + 2";
    let result = parse_expression(input);
    assert!(result.is_ok());
    let expr = result.unwrap();
    if let Expression::BinaryOp(op) = expr {
        assert_eq!(op.op, BinaryOperator::Add);
    } else {
        panic!("Expected binary operation");
    }
}

#[test]
fn lib_test_precedence_mul_add() {
    let input = "2 + 3 * 4";
    let result = parse_expression(input);
    assert!(result.is_ok());
    // Should parse as 2 + (3 * 4), not (2 + 3) * 4
    let expr = result.unwrap();
    if let Expression::BinaryOp(add_op) = expr {
        assert_eq!(add_op.op, BinaryOperator::Add);
        // RHS should be a multiplication
        if let Expression::BinaryOp(mul_op) = add_op.rhs.as_ref() {
            assert_eq!(mul_op.op, BinaryOperator::Multiply);
        } else {
            panic!("Expected multiplication on RHS");
        }
    } else {
        panic!("Expected addition at root");
    }
}

#[test]
fn lib_test_unary_negation() {
    let input = "-5";
    let result = parse_expression(input);
    assert!(result.is_ok());
    let expr = result.unwrap();
    if let Expression::UnaryOp(op) = expr {
        assert_eq!(op.op, UnaryOperator::Negate);
    } else {
        panic!("Expected unary operation");
    }
}

#[test]
fn lib_test_logical_or() {
    let input = "true || false";
    let result = parse_expression(input);
    assert!(result.is_ok());
}

#[test]
fn lib_test_comparison() {
    let input = "5 < 10";
    let result = parse_expression(input);
    assert!(result.is_ok());
    let expr = result.unwrap();
    if let Expression::BinaryOp(op) = expr {
        assert_eq!(op.op, BinaryOperator::LessThan);
    } else {
        panic!("Expected comparison operation");
    }
}

#[test]
fn lib_test_parenthesized() {
    let input = "(2 + 3) * 4";
    let result = parse_expression(input);
    assert!(result.is_ok());
    // Should parse as (2 + 3) * 4
    let expr = result.unwrap();
    if let Expression::BinaryOp(mul_op) = expr {
        assert_eq!(mul_op.op, BinaryOperator::Multiply);
        // LHS should be parenthesized addition
        assert!(matches!(
            mul_op.lhs.as_ref(),
            Expression::Parenthesized(_)
        ));
    } else {
        panic!("Expected multiplication at root");
    }
}

#[test]
fn lib_test_array_literal_empty() {
    let input = "[]";
    let result = parse_expression(input);
    assert!(result.is_ok());
    let expr = result.unwrap();
    if let Expression::ArrayLiteral(arr) = expr {
        assert_eq!(arr.elements.len(), 0);
    } else {
        panic!("Expected array literal");
    }
}

#[test]
fn lib_test_array_literal_with_elements() {
    let input = "[1, 2, 3]";
    let result = parse_expression(input);
    assert!(result.is_ok());
    let expr = result.unwrap();
    if let Expression::ArrayLiteral(arr) = expr {
        assert_eq!(arr.elements.len(), 3);
    } else {
        panic!("Expected array literal");
    }
}

#[test]
fn lib_test_bitwise_operations() {
    let input = "5 & 3 | 1";
    let result = parse_expression(input);
    assert!(result.is_ok());
}

#[test]
fn lib_test_address_of_expression() {
    let input = "&x";
    let result = parse_expression(input);
    assert!(result.is_ok());
    let expr = result.unwrap();
    if let Expression::UnaryOp(op) = expr {
        assert_eq!(op.op, UnaryOperator::AddressOf);
        assert!(matches!(&*op.operand, Expression::Path(_)));
    } else {
        panic!("Expected AddressOf unary operation");
    }
}

#[test]
fn lib_test_dereference_expression() {
    let input = "*y";
    let result = parse_expression(input);
    assert!(result.is_ok());
    let expr = result.unwrap();
    if let Expression::UnaryOp(op) = expr {
        assert_eq!(op.op, UnaryOperator::Dereference);
        assert!(matches!(&*op.operand, Expression::Path(_)));
    } else {
        panic!("Expected Dereference unary operation");
    }
}

#[test]
fn lib_test_nested_address_of_dereference() {
    let input = "&*z";
    let result = parse_expression(input);
    assert!(result.is_ok());
    let expr = result.unwrap();
    if let Expression::UnaryOp(outer_op) = expr {
        assert_eq!(outer_op.op, UnaryOperator::AddressOf);
        if let Expression::UnaryOp(inner_op) = &*outer_op.operand {
            assert_eq!(inner_op.op, UnaryOperator::Dereference);
            assert!(matches!(&*inner_op.operand, Expression::Path(_)));
        } else {
            panic!("Expected nested Dereference operation");
        }
    } else {
        panic!("Expected outer AddressOf operation");
    }
}

#[test]
fn lib_test_dereference_address_of_expression() {
    let input = "*&z";
    let result = parse_expression(input);
    assert!(result.is_ok());
    let expr = result.unwrap();
    if let Expression::UnaryOp(outer_op) = expr {
        assert_eq!(outer_op.op, UnaryOperator::Dereference);
        if let Expression::UnaryOp(inner_op) = &*outer_op.operand {
            assert_eq!(inner_op.op, UnaryOperator::AddressOf);
            assert!(matches!(&*inner_op.operand, Expression::Path(_)));
        } else {
            panic!("Expected nested AddressOf operation");
        }
    } else {
        panic!("Expected outer Dereference operation");
    }
}

#[test]
fn lib_test_unary_with_binary_precedence() {
    let input = "&x + 5";
    let result = parse_expression(input);
    assert!(result.is_ok());
    let expr = result.unwrap();
    if let Expression::BinaryOp(binary_op) = expr {
        assert_eq!(binary_op.op, BinaryOperator::Add);
        if let Expression::UnaryOp(unary_op) = &*binary_op.lhs {
            assert_eq!(unary_op.op, UnaryOperator::AddressOf);
            assert!(matches!(&*unary_op.operand, Expression::Path(_)));
        } else {
            panic!("Expected AddressOf on LHS of binary op");
        }
        assert!(matches!(&*binary_op.rhs, Expression::IntegerLiteral(_)));
    } else {
        panic!("Expected binary operation");
    }
}

#[test]
fn lib_test_unary_with_parenthesized() {
    let input = "&(x + 5)";
    let result = parse_expression(input);
    assert!(result.is_ok());
    let expr = result.unwrap();
    if let Expression::UnaryOp(unary_op) = expr {
        assert_eq!(unary_op.op, UnaryOperator::AddressOf);
        if let Expression::Parenthesized(inner_expr) = &*unary_op.operand {
            assert!(matches!(&**inner_expr, Expression::BinaryOp(_)));
        } else {
            panic!("Expected parenthesized expression after AddressOf");
        }
    } else {
        panic!("Expected Unary operation");
    }
}

// Type parsing tests

#[test]
fn lib_test_parse_primitive_type_u8() {
    let input = "u8";
    let result = parse_type(input);
    assert!(result.is_ok());
    assert_eq!(result.unwrap(), Type::U8);
}

#[test]
fn lib_test_parse_primitive_type_i32() {
    let input = "i32";
    let result = parse_type(input);
    assert!(result.is_ok());
    assert_eq!(result.unwrap(), Type::I32);
}

#[test]
fn lib_test_parse_primitive_type_f64() {
    let input = "f64";
    let result = parse_type(input);
    assert!(result.is_ok());
    assert_eq!(result.unwrap(), Type::F64);
}

#[test]
fn lib_test_parse_primitive_type_bool() {
    let input = "bool";
    let result = parse_type(input);
    assert!(result.is_ok());
    assert_eq!(result.unwrap(), Type::Bool);
}

#[test]
fn lib_test_parse_primitive_type_ok() {
    let input = "ok";
    let result = parse_type(input);
    assert!(result.is_ok());
    assert_eq!(result.unwrap(), Type::OkType);
}

// Pointer type tests

#[test]
fn lib_test_parse_typed_pointer_u32() {
    let input = "*u32";
    let result = parse_type(input);
    assert!(result.is_ok());
    if let Type::Pointer { element_type: inner, .. } = result.unwrap() {
        assert_eq!(*inner, Type::U32);
    } else {
        panic!("Expected typed pointer to U32");
    }
}

#[test]
fn test_parse_typed_pointer_bool() {
    let input = "*bool";
    let result = parse_type(input);
    assert!(result.is_ok());
    if let Type::Pointer { element_type: inner, .. } = result.unwrap() {
        assert_eq!(*inner, Type::Bool);
    } else {
        panic!("Expected typed pointer to Bool");
    }
}

#[test]
fn lib_test_parse_nested_pointer_i64() {
    let input = "**i64";
    let result = parse_type(input);
    assert!(result.is_ok());
    if let Type::Pointer { element_type: outer, .. } = result.unwrap() {
        if let Type::Pointer { element_type: inner, .. } = *outer {
            assert_eq!(*inner, Type::I64);
        } else {
            panic!("Expected nested typed pointer to I64");
        }
    } else {
        panic!("Expected outer typed pointer");
    }
}

#[test]
fn test_parse_triple_nested_pointer_u8() {
    let input = "***u8";
    let result = parse_type(input);
    assert!(result.is_ok());
    if let Type::Pointer { element_type: outer, .. } = result.unwrap() {
        if let Type::Pointer { element_type: middle, .. } = *outer {
            if let Type::Pointer { element_type: inner, .. } = *middle {
                assert_eq!(*inner, Type::U8);
            } else {
                panic!("Expected innermost typed pointer to U8");
            }
        } else {
            panic!("Expected middle typed pointer");
        }
    } else {
        panic!("Expected outer typed pointer");
    }
}

#[test]
fn lib_test_parse_generics_list() {
    // Test a generic parameter list with type parameters and bounds
    let input = "[T: Mappable[i32, i32], U: Copy + Clone, const N: usize]";
    let result = parser_for(input).unwrap().parse_generic_params(0).map(|(ps, _)| ps);
    assert!(result.is_ok());
    let params = result.unwrap();
    assert_eq!(params.len(), 3);

    // First parameter: T with no bounds
    if let GenericParameter::Type { name, bounds, .. } = &params[0] {
        assert_eq!(name, "T");
        assert_eq!(bounds.len(), 1);
        assert_eq!(bounds[0], Type::Path(Path::with_generics(vec!["Mappable".to_string()], vec![Type::I32, Type::I32])));
    } else {
        panic!("Expected type parameter T");
    }

    // Second parameter: U with two bounds (Copy + Clone)
    if let GenericParameter::Type { name, bounds, .. } = &params[1] {
        assert_eq!(name, "U");
        assert_eq!(bounds.len(), 2);
        assert_eq!(bounds[0], Type::Path(Path::with_generics(vec!["Copy".to_string()], vec![])));
        assert_eq!(bounds[1], Type::Path(Path::with_generics(vec!["Clone".to_string()], vec![])));
    } else {
        panic!("Expected type parameter U with bounds");
    }

    // Third parameter: const N: usize
    if let GenericParameter::Const { name, ty } = &params[2] {
        assert_eq!(name, "N");
        assert_eq!(ty, &Type::USize);
    } else {
        panic!("Expected const parameter N");
    }
}
