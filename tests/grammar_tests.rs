use nyx_parser::{
    parse_enum, parse_expression, parse_function, parse_interface, parse_namespace, parse_struct,
    parse_type, parse_type_alias, parse_union, parser_for, tokenize, BinaryOperator, Expression,
    GenericParameter, NamespaceItem, Path, Statement, Token, Type, UnaryOperator,
};

#[test]
fn mod_test_lexer_integration() {
    let input = "let x = 1\n";
    let tokens = tokenize(input).unwrap().0;
    assert!(!tokens.is_empty());
}

#[test]
fn mod_test_simple_integer() {
    let input = "42";
    let result = parse_expression(input);
    assert!(result.is_ok());
    assert!(matches!(result.unwrap(), Expression::IntegerLiteral(_)));
}

#[test]
fn mod_test_simple_boolean() {
    let input = "true";
    let result = parse_expression(input);
    assert!(result.is_ok());
    assert_eq!(result.unwrap(), Expression::BooleanLiteral(true));
}

#[test]
fn mod_test_binary_add() {
    let input = "1 + 2";
    let result = parse_expression(input);
    assert!(result.is_ok());
    if let Expression::BinaryOp(op) = result.unwrap() {
        assert_eq!(op.op, BinaryOperator::Add);
    } else {
        panic!("Expected binary operation");
    }
}

#[test]
fn mod_test_unary_negation() {
    let input = "-5";
    let result = parse_expression(input);
    assert!(result.is_ok());
    if let Expression::UnaryOp(op) = result.unwrap() {
        assert_eq!(op.op, UnaryOperator::Negate);
    } else {
        panic!("Expected unary operation");
    }
}

#[test]
fn mod_test_logical_or() {
    let input = "true || false";
    let result = parse_expression(input);
    assert!(result.is_ok());
}

#[test]
fn mod_test_comparison() {
    let input = "5 < 10";
    let result = parse_expression(input);
    assert!(result.is_ok());
    if let Expression::BinaryOp(op) = result.unwrap() {
        assert_eq!(op.op, BinaryOperator::LessThan);
    } else {
        panic!("Expected comparison operation");
    }
}

#[test]
fn mod_test_parenthesized() {
    // (2 + 3) * 4 — mul is at root, lhs is parenthesized
    let input = "(2 + 3) * 4";
    let result = parse_expression(input);
    assert!(result.is_ok());
    if let Expression::BinaryOp(mul_op) = result.unwrap() {
        assert_eq!(mul_op.op, BinaryOperator::Multiply);
        assert!(matches!(mul_op.lhs.as_ref(), Expression::Parenthesized(_)));
    } else {
        panic!("Expected multiplication at root");
    }
}

#[test]
fn mod_test_array_literal_empty() {
    let input = "[]";
    let result = parse_expression(input);
    assert!(result.is_ok());
    if let Expression::ArrayLiteral(arr) = result.unwrap() {
        assert_eq!(arr.elements.len(), 0);
    } else {
        panic!("Expected array literal");
    }
}

#[test]
fn mod_test_array_literal_with_elements() {
    let input = "[1, 2, 3]";
    let result = parse_expression(input);
    assert!(result.is_ok());
    if let Expression::ArrayLiteral(arr) = result.unwrap() {
        assert_eq!(arr.elements.len(), 3);
    } else {
        panic!("Expected array literal");
    }
}

#[test]
fn mod_test_bitwise_operations() {
    let input = "5 & 3 | 1";
    let result = parse_expression(input);
    assert!(result.is_ok());
}

#[test]
fn mod_test_address_of_expression() {
    let input = "&x";
    let result = parse_expression(input);
    assert!(result.is_ok());
    if let Expression::UnaryOp(op) = result.unwrap() {
        assert_eq!(op.op, UnaryOperator::AddressOf);
        assert!(matches!(&*op.operand, Expression::Path(_)));
    } else {
        panic!("Expected AddressOf unary operation");
    }
}

#[test]
fn mod_test_dereference_expression() {
    let input = "*y";
    let result = parse_expression(input);
    assert!(result.is_ok());
    if let Expression::UnaryOp(op) = result.unwrap() {
        assert_eq!(op.op, UnaryOperator::Dereference);
        assert!(matches!(&*op.operand, Expression::Path(_)));
    } else {
        panic!("Expected Dereference unary operation");
    }
}

#[test]
fn mod_test_nested_address_of_dereference() {
    let input = "&*z";
    let result = parse_expression(input);
    assert!(result.is_ok());
    if let Expression::UnaryOp(outer_op) = result.unwrap() {
        assert_eq!(outer_op.op, UnaryOperator::AddressOf);
        if let Expression::UnaryOp(inner_op) = &*outer_op.operand {
            assert_eq!(inner_op.op, UnaryOperator::Dereference);
            assert!(matches!(&*inner_op.operand, Expression::Path(_)));
        } else {
            panic!("Expected nested Dereference operation");
        }
    } else {
        panic!("Expected outer AddressOf operation");
    }
}

#[test]
fn mod_test_dereference_address_of_expression() {
    let input = "*&z";
    let result = parse_expression(input);
    assert!(result.is_ok());
    if let Expression::UnaryOp(outer_op) = result.unwrap() {
        assert_eq!(outer_op.op, UnaryOperator::Dereference);
        if let Expression::UnaryOp(inner_op) = &*outer_op.operand {
            assert_eq!(inner_op.op, UnaryOperator::AddressOf);
            assert!(matches!(&*inner_op.operand, Expression::Path(_)));
        } else {
            panic!("Expected nested AddressOf operation");
        }
    } else {
        panic!("Expected outer Dereference operation");
    }
}

#[test]
fn mod_test_unary_with_binary_precedence() {
    let input = "&x + 5";
    let result = parse_expression(input);
    assert!(result.is_ok());
    if let Expression::BinaryOp(binary_op) = result.unwrap() {
        assert_eq!(binary_op.op, BinaryOperator::Add);
        if let Expression::UnaryOp(unary_op) = binary_op.lhs.as_ref() {
            assert_eq!(unary_op.op, UnaryOperator::AddressOf);
            assert!(matches!(&*unary_op.operand, Expression::Path(_)));
        } else {
            panic!("Expected AddressOf on LHS of binary op");
        }
        assert!(matches!(binary_op.rhs.as_ref(), Expression::IntegerLiteral(_)));
    } else {
        panic!("Expected binary operation");
    }
}

#[test]
fn mod_test_unary_with_parenthesized() {
    let input = "&(x + 5)";
    let result = parse_expression(input);
    assert!(result.is_ok());
    if let Expression::UnaryOp(unary_op) = result.unwrap() {
        assert_eq!(unary_op.op, UnaryOperator::AddressOf);
        if let Expression::Parenthesized(inner_expr) = &*unary_op.operand {
            assert!(matches!(inner_expr.as_ref(), Expression::BinaryOp(_)));
        } else {
            panic!("Expected parenthesized expression after AddressOf");
        }
    } else {
        panic!("Expected Unary operation");
    }
}

#[test]
fn mod_test_parse_primitive_type_u8() {
    let result = parse_type("u8");
    assert!(result.is_ok());
    assert_eq!(result.unwrap(), Type::U8);
}

#[test]
fn mod_test_parse_primitive_type_i32() {
    let result = parse_type("i32");
    assert!(result.is_ok());
    assert_eq!(result.unwrap(), Type::I32);
}

#[test]
fn mod_test_parse_primitive_type_f64() {
    let result = parse_type("f64");
    assert!(result.is_ok());
    assert_eq!(result.unwrap(), Type::F64);
}

#[test]
fn mod_test_parse_primitive_type_bool() {
    let result = parse_type("bool");
    assert!(result.is_ok());
    assert_eq!(result.unwrap(), Type::Bool);
}

#[test]
fn mod_test_parse_primitive_type_ok() {
    let result = parse_type("ok");
    assert!(result.is_ok());
    assert_eq!(result.unwrap(), Type::OkType);
}

#[test]
fn mod_test_parse_raw_pointer() {
    let result = parse_type("*u8");
    assert!(result.is_ok());
    assert_eq!(
        result.unwrap(),
        Type::Pointer { nullable: false, mutable: false, element_type: Box::new(Type::U8) }
    );
}

#[test]
fn mod_test_parse_typed_pointer_u32() {
    let result = parse_type("*u32");
    assert!(result.is_ok());
    if let Type::Pointer { element_type, nullable, mutable } = result.unwrap() {
        assert!(!nullable);
        assert!(!mutable);
        assert_eq!(*element_type, Type::U32);
    } else {
        panic!("Expected pointer");
    }
}

#[test]
fn test_parse_mutable_pointer() {
    let result = parse_type("*mut bool");
    assert!(result.is_ok());
    if let Type::Pointer { element_type, nullable, mutable } = result.unwrap() {
        assert!(!nullable);
        assert!(mutable);
        assert_eq!(*element_type, Type::Bool);
    } else {
        panic!("Expected mutable pointer");
    }
}

#[test]
fn test_parse_nullable_pointer() {
    let result = parse_type("?*i32");
    assert!(result.is_ok());
    if let Type::Pointer { element_type, nullable, mutable } = result.unwrap() {
        assert!(nullable);
        assert!(!mutable);
        assert_eq!(*element_type, Type::I32);
    } else {
        panic!("Expected nullable pointer");
    }
}

#[test]
fn mod_test_parse_nested_pointer_i64() {
    let result = parse_type("**i64");
    assert!(result.is_ok());
    if let Type::Pointer { element_type: outer, .. } = result.unwrap() {
        if let Type::Pointer { element_type: inner, .. } = *outer {
            assert_eq!(*inner, Type::I64);
        } else {
            panic!("Expected nested pointer");
        }
    } else {
        panic!("Expected outer pointer");
    }
}

#[test]
fn test_parse_slice_type() {
    let result = parse_type("[u8]");
    assert!(result.is_ok());
    if let Type::Array { element_type, size } = result.unwrap() {
        assert!(size.is_none());
        assert_eq!(*element_type, Type::U8);
    } else {
        panic!("Expected slice type");
    }
}

#[test]
fn test_parse_fixed_array_type() {
    // [u8; 4] is a fixed-size array
    let result = parse_type("[u8; 4]");
    assert!(result.is_ok());
    if let Type::Array { element_type, size } = result.unwrap() {
        assert!(size.is_some());
        assert_eq!(*element_type, Type::U8);
    } else {
        panic!("Expected fixed array type");
    }
}

#[test]
fn test_parse_error_union_type() {
    // T ! E  is the "ok-or-error" type union
    let result = parse_type("i32 ! IoError");
    assert!(result.is_ok());
    if let Type::ErrorUnion { ok_type, err_type } = result.unwrap() {
        assert_eq!(*ok_type, Type::I32);
        assert_eq!(err_type.segments, vec!["IoError".to_string()]);
    } else {
        panic!("Expected ErrorUnion type");
    }
}

#[test]
fn test_parse_pointer_error_union() {
    // *T ! E  should be  (*T) ! E
    let result = parse_type("*i32 ! IoError");
    assert!(result.is_ok());
    if let Type::ErrorUnion { ok_type, err_type } = result.unwrap() {
        assert!(matches!(*ok_type, Type::Pointer { .. }));
        assert_eq!(err_type.segments[0], "IoError");
    } else {
        panic!("Expected ErrorUnion wrapping pointer");
    }
}

#[test]
fn test_parse_nullable_pointer_error_union() {
    // ?*T ! E  should be  (?*T) ! E
    let result = parse_type("?*u8 ! IoError");
    assert!(result.is_ok());
    if let Type::ErrorUnion { ok_type, .. } = result.unwrap() {
        if let Type::Pointer { nullable, .. } = *ok_type {
            assert!(nullable);
        } else {
            panic!("Expected nullable pointer inside error union");
        }
    } else {
        panic!("Expected ErrorUnion");
    }
}

#[test]
fn test_parse_as_expression_with_error_union() {
    // x as i32 ! E  should be  x as (i32 ! E)
    let input = "x as i32 ! IoError";
    let result = parse_expression(input);
    assert!(result.is_ok(), "Failed: {:?}", result);
    if let Expression::Cast(cast) = result.unwrap() {
        assert!(matches!(*cast.target_type, Type::ErrorUnion { .. }));
    } else {
        panic!("Expected Cast expression");
    }
}

#[test]
fn mod_test_parse_generics_list() {
    let input = "[T: Mappable, U: Copy, const N: usize]";
    let result = parser_for(input).unwrap().parse_generic_params(0).map(|(ps, _)| ps);
    assert!(result.is_ok());
    let params = result.unwrap();
    assert_eq!(params.len(), 3);

    if let GenericParameter::Type { name, bounds, .. } = &params[0] {
        assert_eq!(name, "T");
        assert_eq!(bounds.len(), 1);
    } else {
        panic!("Expected type parameter T");
    }

    if let GenericParameter::Type { name, bounds, .. } = &params[1] {
        assert_eq!(name, "U");
        assert_eq!(bounds.len(), 1);
    } else {
        panic!("Expected type parameter U");
    }

    if let GenericParameter::Const { name, ty } = &params[2] {
        assert_eq!(name, "N");
        assert_eq!(ty, &Type::USize);
    } else {
        panic!("Expected const parameter N");
    }
}

#[test]
fn test_indentation_tokens() {
    let input = "let x = 1\n    let y = 2\nlet z = 3";
    let tokens = tokenize(input).unwrap().0;

    let has_newline = tokens.iter().any(|t| matches!(t, Token::Newline));
    let has_indent  = tokens.iter().any(|t| matches!(t, Token::Indent));
    let has_dedent  = tokens.iter().any(|t| matches!(t, Token::Dedent));

    assert!(has_newline, "Expected NEWLINE tokens");
    assert!(has_indent,  "Expected INDENT token");
    assert!(has_dedent,  "Expected DEDENT token");
}

#[test]
fn test_simple_struct() {
        let input = "struct Point
    x: i32
    y: i32
";
        let result = parse_struct(input);
        assert!(result.is_ok(), "Failed to parse: {:?}", result);
        let s = result.unwrap();
        assert_eq!(s.name(), "Point");
        assert_eq!(s.fields().len(), 2);
        assert_eq!(s.generic_params().len(), 0);
        assert_eq!(s.generic_params().len(), 0);
        assert_eq!(s.requires_clause().len(), 0);

        assert_eq!(s.fields()[0].name(), "x");
        assert_eq!(s.fields()[0].ty(), &Type::I32);
        assert_eq!(s.fields()[1].name(), "y");
        assert_eq!(s.fields()[1].ty(), &Type::I32);
    }

#[test]
fn test_struct_with_generic_params() {
        let input = "struct Container[T]
    value: T
";
        let result = parse_struct(input);
        assert!(result.is_ok(), "Failed to parse: {:?}", result);
        let s = result.unwrap();
        assert_eq!(s.name(), "Container");
        assert_eq!(s.generic_params().len(), 1);
        assert_eq!(s.fields().len(), 1);

        if let GenericParameter::Type { name, bounds, .. } = &s.generic_params()[0] {
            assert_eq!(name, "T");
            assert_eq!(bounds.len(), 0);
        } else {
            panic!("Expected type parameter");
        }
    }

#[test]
fn test_struct_with_bounded_generic() {
        let input = "struct Container[T: Clone]
    value: T
";
        let result = parse_struct(input);
        assert!(result.is_ok(), "Failed to parse: {:?}", result);
        let s = result.unwrap();

        if let GenericParameter::Type { name, bounds, .. } = &s.generic_params()[0] {
            assert_eq!(name, "T");
            assert_eq!(bounds.len(), 1);
        } else {
            panic!("Expected bounded type parameter");
        }
    }

#[test]
fn test_struct_with_multiple_bounded_generics() {
        let input = "struct Pair[T: Clone + Copy, U: Send]
    first: T
    second: U
";
        let result = parse_struct(input);
        assert!(result.is_ok(), "Failed to parse: {:?}", result);
        let s = result.unwrap();
        assert_eq!(s.generic_params().len(), 2);
        assert_eq!(s.fields().len(), 2);

        // Check T: Clone + Copy
        if let GenericParameter::Type { name, bounds, .. } = &s.generic_params()[0] {
            assert_eq!(name, "T");
            assert_eq!(bounds.len(), 2);
        }

        // Check U: Send
        if let GenericParameter::Type { name, bounds, .. } = &s.generic_params()[1] {
            assert_eq!(name, "U");
            assert_eq!(bounds.len(), 1);
        }
    }

#[test]
fn test_struct_with_const_param() {
        let input = "struct Array[const N: usize]
    data: i32
";
        let result = parse_struct(input);
        assert!(result.is_ok(), "Failed to parse: {:?}", result);
        let s = result.unwrap();
        assert_eq!(s.generic_params().len(), 1);

        if let GenericParameter::Const { name, ty } = &s.generic_params()[0] {
            assert_eq!(name, "N");
            assert_eq!(ty, &Type::USize);
        } else {
            panic!("Expected const parameter");
        }
    }

#[test]
fn test_struct_with_where_clause() {
        let input = "struct Container[T, U]
    where
        T: Clone
        U: Copy
    first: T
    second: U
";
        let result = parse_struct(input);
        assert!(result.is_ok(), "Failed to parse: {:?}", result);
        let s = result.unwrap();
        assert_eq!(s.generic_params().len(), 2);

        // Check T: Clone
        if let GenericParameter::Type { name, bounds, .. } = &s.generic_params()[0] {
            assert_eq!(name, "T");
            assert_eq!(bounds.len(), 1);
            if let Type::Path(Path { segments, .. }) = &bounds[0] {
            let bound_name = &segments[0];
                assert_eq!(bound_name, "Clone");
            }
        }

        // Check U: Copy
        if let GenericParameter::Type { name, bounds, .. } = &s.generic_params()[1] {
            assert_eq!(name, "U");
            assert_eq!(bounds.len(), 1);
        }
    }

#[test]
fn test_struct_with_requires_clause() {
        let input = "struct Container[T]
    requires
        Clone
        Send
    value: T
";
        let result = parse_struct(input);
        assert!(result.is_ok(), "Failed to parse: {:?}", result);
        let s = result.unwrap();
        assert_eq!(s.requires_clause().len(), 2);

        if let Type::Path(Path { segments, .. }) = &s.requires_clause()[0] {
            let name = &segments[0];
            assert_eq!(name, "Clone");
        }
        if let Type::Path(Path { segments, .. }) = &s.requires_clause()[1] {
            let name = &segments[0];
            assert_eq!(name, "Send");
        }
    }

#[test]
fn test_struct_with_requires_and_where() {
        let input = "struct Complex[T, U] 
    requires
        Debug
    where
        T: Clone
        U: Copy
    first: T
    second: U
";
        let result = parse_struct(input);
        assert!(result.is_ok(), "Failed to parse: {:?}", result);
        let s = result.unwrap();
        assert_eq!(s.requires_clause().len(), 1);
        assert_eq!(s.generic_params().len(), 2);
    }

#[test]
fn test_struct_with_complex_types() {
        let input = "struct ComplexStruct
    pointer: ?*i32
    array: [u8]
    reference: *mut bool
";
        let result = parse_struct(input);
        assert!(result.is_ok(), "Failed to parse: {:?}", result);
        let s = result.unwrap();
        assert_eq!(s.fields().len(), 3);

        // Check pointer field
        assert_eq!(s.fields()[0].name(), "pointer");
        if let Type::Pointer { element_type, nullable, mutable } = s.fields()[0].ty() {
            assert_eq!(nullable, &true);
            assert_eq!(mutable, &false);
            assert_eq!(**element_type, Type::I32);
        } else {
            panic!("Expected pointer type");
        }

        // Check array field
        assert_eq!(s.fields()[1].name(), "array");
        if let Type::Array { element_type, size } = s.fields()[1].ty() {
            assert_eq!(size, &None);
            assert_eq!(**element_type, Type::U8);
        } else {
            panic!("Expected array type");
        }

        // Check reference field
        assert_eq!(s.fields()[2].name(), "reference");
        if let Type::Pointer { element_type, nullable, mutable } = s.fields()[2].ty() {
            assert_eq!(nullable, &false);
            assert_eq!(mutable, &true);
            assert_eq!(**element_type, Type::Bool);
        } else {
            panic!("Expected reference type");
        }
    }

#[test]
fn test_struct_with_single_field() {
        let input = "struct Wrapper
    value: i32
";
        let result = parse_struct(input);
        assert!(result.is_ok(), "Failed to parse: {:?}", result);
        let s = result.unwrap();
        assert_eq!(s.fields().len(), 1);
    }

#[test]
fn test_simple_enum() {
        let input = "enum Color
    Red
    Green
    Blue
";
        let result = parse_enum(input);
        assert!(result.is_ok(), "Failed to parse: {:?}", result);
        let e = result.unwrap();
        assert_eq!(e.name(), "Color");
        assert_eq!(e.variants().len(), 3);
        assert_eq!(e.generic_params().len(), 0);
        assert_eq!(e.generic_params().len(), 0);
        assert_eq!(e.requires_clause().len(), 0);

        assert_eq!(e.variants()[0].name(), "Red");
        assert_eq!(e.variants()[0].value(), &None);
        assert_eq!(e.variants()[1].name(), "Green");
        assert_eq!(e.variants()[2].name(), "Blue");
        assert_eq!(e.representation(), &None);
    }

#[test]
fn test_enum_with_representation() {
        let input = "enum[u8] Color
    Red
    Green
    Blue
";
        let result = parse_enum(input);
        assert!(result.is_ok(), "Failed to parse: {:?}", result);
        let e = result.unwrap();
        assert_eq!(e.name(), "Color");
        assert_eq!(e.variants().len(), 3);
        
        // Check representation
        assert_eq!(e.representation(), &Some(Type::U8));
    }

#[test]
fn test_enum_with_i32_representation() {
        let input = "enum[i32] Status
    Ok = 0
    Error = -1
    Pending = 1
";
        let result = parse_enum(input);
        assert!(result.is_ok(), "Failed to parse: {:?}", result);
        let e = result.unwrap();
        assert_eq!(e.name(), "Status");
        assert_eq!(e.representation(), &Some(Type::I32));
        assert_eq!(e.variants().len(), 3);
    }

#[test]
fn test_enum_with_usize_representation() {
        let input = "enum[usize] Flags
    None = 0
    Read = 1
    Write = 2
    Execute = 4
";
        let result = parse_enum(input);
        assert!(result.is_ok(), "Failed to parse: {:?}", result);
        let e = result.unwrap();
        assert_eq!(e.representation(), &Some(Type::USize));
    }

#[test]
fn test_enum_with_representation_and_generics() {
        let input = "enum[u16] Option[T]
    Some
    None
";
        let result = parse_enum(input);
        assert!(result.is_ok(), "Failed to parse: {:?}", result);
        let e = result.unwrap();
        assert_eq!(e.representation(), &Some(Type::U16));
        assert_eq!(e.generic_params().len(), 1);
    }

#[test]
fn test_enum_with_discriminants() {
        let input = "enum Status
    Ok = 0
    Error = 1
    Pending = 2
";
        let result = parse_enum(input);
        assert!(result.is_ok(), "Failed to parse: {:?}", result);
        let e = result.unwrap();
        assert_eq!(e.variants().len(), 3);

        // Check that variants have values
        assert!(e.variants()[0].value().is_some());
        assert!(e.variants()[1].value().is_some());
        assert!(e.variants()[2].value().is_some());
    }

#[test]
fn test_enum_mixed_discriminants() {
        let input = "enum Mixed
    A
    B = 10
    C
";
        let result = parse_enum(input);
        assert!(result.is_ok(), "Failed to parse: {:?}", result);
        let e = result.unwrap();
        assert_eq!(e.variants().len(), 3);

        assert!(e.variants()[0].value().is_none());
        assert!(e.variants()[1].value().is_some());
        assert!(e.variants()[2].value().is_none());
    }

#[test]
fn test_enum_with_generic_params() {
        let input = "enum Option[T]
    Some
    None
";
        let result = parse_enum(input);
        assert!(result.is_ok(), "Failed to parse: {:?}", result);
        let e = result.unwrap();
        assert_eq!(e.name(), "Option");
        assert_eq!(e.generic_params().len(), 1);

        if let GenericParameter::Type { name, bounds, .. } = &e.generic_params()[0] {
            assert_eq!(name, "T");
            assert_eq!(bounds.len(), 0);
        } else {
            panic!("Expected type parameter");
        }
    }

#[test]
fn test_enum_with_bounded_generic() {
        let input = "enum Result[T: Clone, E: Copy]
    Ok
    Err
";
        let result = parse_enum(input);
        assert!(result.is_ok(), "Failed to parse: {:?}", result);
        let e = result.unwrap();
        assert_eq!(e.generic_params().len(), 2);

        // Check T: Clone
        if let GenericParameter::Type { name, bounds, .. } = &e.generic_params()[0] {
            assert_eq!(name, "T");
            assert_eq!(bounds.len(), 1);
        }

        // Check E: Copy
        if let GenericParameter::Type { name, bounds, .. } = &e.generic_params()[1] {
            assert_eq!(name, "E");
            assert_eq!(bounds.len(), 1);
        }
    }

#[test]
fn test_enum_with_where_clause() {
        let input = "enum Container[T, E]
    where
        T: Clone
        E: Send
    Some
    None
";
        let result = parse_enum(input);
        assert!(result.is_ok(), "Failed to parse: {:?}", result);
        let e = result.unwrap();
        assert_eq!(e.generic_params().len(), 2);

        // Check T: Clone
        if let GenericParameter::Type { name, bounds, .. } = &e.generic_params()[0] {
            assert_eq!(name, "T");
            assert_eq!(bounds.len(), 1);
        }

        // Check E: Send
        if let GenericParameter::Type { name, bounds, .. } = &e.generic_params()[1] {
            assert_eq!(name, "E");
            assert_eq!(bounds.len(), 1);
        }
    }

#[test]
fn test_enum_with_requires_clause() {
        let input = "enum MyEnum[T]
    requires
        Clone
        Copy
    Variant1
    Variant2
";
        let result = parse_enum(input);
        assert!(result.is_ok(), "Failed to parse: {:?}", result);
        let e = result.unwrap();
        assert_eq!(e.requires_clause().len(), 2);

        if let Type::Path(Path { segments, .. }) = &e.requires_clause()[0] {
            let name = &segments[0];
            assert_eq!(name, "Clone");
        }
        if let Type::Path(Path { segments, .. }) = &e.requires_clause()[1] {
            let name = &segments[0];
            assert_eq!(name, "Copy");
        }
    }

#[test]
fn test_enum_with_requires_and_where() {
        let input = "enum Complex[T, E] 
    requires
        Debug
    where
        T: Clone
        E: Copy
    VariantA
    VariantB
";
        let result = parse_enum(input);
        assert!(result.is_ok(), "Failed to parse: {:?}", result);
        let e = result.unwrap();
        assert_eq!(e.requires_clause().len(), 1);
        assert_eq!(e.generic_params().len(), 2);
    }

#[test]
fn test_enum_single_variant() {
        let input = "enum Unit
    Value
";
        let result = parse_enum(input);
        assert!(result.is_ok(), "Failed to parse: {:?}", result);
        let e = result.unwrap();
        assert_eq!(e.variants().len(), 1);
        assert_eq!(e.variants()[0].name(), "Value");
    }

#[test]
fn test_enum_with_const_param() {
        let input = "enum Array[const N: usize]
    Empty
    Full
";
        let result = parse_enum(input);
        assert!(result.is_ok(), "Failed to parse: {:?}", result);
        let e = result.unwrap();
        assert_eq!(e.generic_params().len(), 1);

        if let GenericParameter::Const { name, ty } = &e.generic_params()[0] {
            assert_eq!(name, "N");
            assert_eq!(ty, &Type::USize);
        } else {
            panic!("Expected const parameter");
        }
    }

#[test]
fn test_simple_union() {
        let input = "union Value
    int_val: i32
    float_val: f32
";
        let result = parse_union(input);
        assert!(result.is_ok(), "Failed to parse: {:?}", result);
        let u = result.unwrap();
        assert_eq!(u.name(), "Value");
        assert_eq!(u.variants().len(), 2);
        assert_eq!(u.generic_params().len(), 0);
        assert_eq!(u.generic_params().len(), 0);
        assert_eq!(u.requires_clause().len(), 0);

        assert_eq!(u.variants()[0].name(), "int_val");
        assert_eq!(u.variants()[0].ty(), &Type::I32);
        assert_eq!(u.variants()[1].name(), "float_val");
        assert_eq!(u.variants()[1].ty(), &Type::F32);
    }

#[test]
fn test_union_with_generic_params() {
        let input = "union Container[T]
    value: T
    pointer: *T
";
        let result = parse_union(input);
        assert!(result.is_ok(), "Failed to parse: {:?}", result);
        let u = result.unwrap();
        assert_eq!(u.name(), "Container");
        assert_eq!(u.generic_params().len(), 1);

        if let GenericParameter::Type { name, bounds, .. } = &u.generic_params()[0] {
            assert_eq!(name, "T");
            assert_eq!(bounds.len(), 0);
        } else {
            panic!("Expected type parameter");
        }
    }

#[test]
fn test_union_with_bounded_generic() {
        let input = "union Data[T: Clone, U: Copy]
    first: T
    second: U
";
        let result = parse_union(input);
        assert!(result.is_ok(), "Failed to parse: {:?}", result);
        let u = result.unwrap();
        assert_eq!(u.generic_params().len(), 2);

        // Check T: Clone
        if let GenericParameter::Type { name, bounds, .. } = &u.generic_params()[0] {
            assert_eq!(name, "T");
            assert_eq!(bounds.len(), 1);
        }

        // Check U: Copy
        if let GenericParameter::Type { name, bounds, .. } = &u.generic_params()[1] {
            assert_eq!(name, "U");
            assert_eq!(bounds.len(), 1);
        }
    }

#[test]
fn test_union_with_where_clause() {
        let input = "union Container[T, U]
    where
        T: Clone
        U: Copy
    first: T
    second: U
";
        let result = parse_union(input);
        assert!(result.is_ok(), "Failed to parse: {:?}", result);
        let u = result.unwrap();
        assert_eq!(u.generic_params().len(), 2);

        // Check T: Clone
        if let GenericParameter::Type { name, bounds, .. } = &u.generic_params()[0] {
            assert_eq!(name, "T");
            assert_eq!(bounds.len(), 1);
        }

        // Check U: Copy
        if let GenericParameter::Type { name, bounds, .. } = &u.generic_params()[1] {
            assert_eq!(name, "U");
            assert_eq!(bounds.len(), 1);
        }
    }

#[test]
fn test_union_with_requires_clause() {
        let input = "union MyUnion[T]
    requires
        Clone
        Send
    variant1: T
    variant2: i32
";
        let result = parse_union(input);
        assert!(result.is_ok(), "Failed to parse: {:?}", result);
        let u = result.unwrap();
        assert_eq!(u.requires_clause().len(), 2);

        if let Type::Path(Path { segments, .. }) = &u.requires_clause()[0] {
            let name = &segments[0];
            assert_eq!(name, "Clone");
        }
        if let Type::Path(Path { segments, .. }) = &u.requires_clause()[1] {
            let name = &segments[0];
            assert_eq!(name, "Send");
        }
    }

#[test]
fn test_union_with_requires_and_where() {
        let input = "union Complex[T, U]
    requires
        Debug
    where
        T: Clone
        U: Copy
    first: T
    second: U
";
        let result = parse_union(input);
        assert!(result.is_ok(), "Failed to parse: {:?}", result);
        let u = result.unwrap();
        assert_eq!(u.requires_clause().len(), 1);
        assert_eq!(u.generic_params().len(), 2);
    }

#[test]
fn test_union_with_complex_types() {
        let input = "union ComplexUnion
    pointer: *i32
    array: [u8]
    reference: ?*mut bool
";
        let result = parse_union(input);
        assert!(result.is_ok(), "Failed to parse: {:?}", result);
        let u = result.unwrap();
        assert_eq!(u.variants().len(), 3);

        // Check pointer variant
        assert_eq!(u.variants()[0].name(), "pointer");
        if let Type::Pointer { element_type: inner, nullable, mutable } = u.variants()[0].ty() {
            assert_eq!(**inner, Type::I32);
            assert_eq!(nullable, &false);
            assert_eq!(mutable, &false);
        } else {
            panic!("Expected pointer type");
        }

        // Check array variant
        assert_eq!(u.variants()[1].name(), "array");
        if let Type::Array { element_type, size } = u.variants()[1].ty() {
            assert_eq!(size, &None);
            assert_eq!(element_type.as_ref(), &Type::U8);
        } else {
            panic!("Expected array type");
        }

        // Check reference variant
        assert_eq!(u.variants()[2].name(), "reference");
        if let Type::Pointer { element_type, nullable, mutable } = u.variants()[2].ty() {
            assert_eq!(**element_type, Type::Bool);
            assert_eq!(nullable, &true);
            assert_eq!(mutable, &true);
        } else {
            panic!("Expected reference type");
        }
    }

#[test]
fn test_union_single_variant() {
        let input = "union Single
    value: i32
";
        let result = parse_union(input);
        assert!(result.is_ok(), "Failed to parse: {:?}", result);
        let u = result.unwrap();
        assert_eq!(u.variants().len(), 1);
    }

#[test]
fn test_union_with_const_param() {
        let input = "union Array[const N: usize]
    data: i32
    size: usize
";
        let result = parse_union(input);
        assert!(result.is_ok(), "Failed to parse: {:?}", result);
        let u = result.unwrap();
        assert_eq!(u.generic_params().len(), 1);

        if let GenericParameter::Const { name, ty } = &u.generic_params()[0] {
            assert_eq!(name, "N");
            assert_eq!(ty, &Type::USize);
        } else {
            panic!("Expected const parameter");
        }
    }

#[test]
fn test_simple_type_alias() {
    let input = "type MyInt = i32";
    let result = parse_type_alias(input);
    assert!(result.is_ok(), "Failed to parse: {:?}", result);
    let type_alias = result.unwrap();
    assert_eq!(type_alias.name(), "MyInt");
    assert_eq!(type_alias.generic_params().len(), 0);
    assert_eq!(type_alias.aliased_type(), &Type::I32);
    assert_eq!(type_alias.generic_params().len(), 0);
}

#[test]
fn test_type_alias_with_generic_params() {
    let input = "type MyVec[T] = [T]";
    let result = parse_type_alias(input);
    assert!(result.is_ok(), "Failed to parse: {:?}", result);
    let type_alias = result.unwrap();
    assert_eq!(type_alias.name(), "MyVec");
    assert_eq!(type_alias.generic_params().len(), 1);

    if let GenericParameter::Type { name, bounds, .. } = &type_alias.generic_params()[0] {
        assert_eq!(name, "T");
        assert_eq!(bounds.len(), 0);
    } else {
        panic!("Expected type parameter");
    }

    // Check aliased type is [T] (dynamic array of T)
    if let Type::Array { element_type, size } = type_alias.aliased_type() {
        assert_eq!(size, &None);
        if let Type::Path(Path { segments, generic_args }) = element_type.as_ref() {
            let name = &segments[0];
            assert_eq!(name, "T");
            assert_eq!(generic_args.len(), 0);
        } else {
            panic!("Expected named type T");
        }
    } else {
        panic!("Expected array type");
    }
}

#[test]
fn test_type_alias_with_multiple_bounds() {
    let input = "type MyType[T: Clone + Copy] = *T";
    let result = parse_type_alias(input);
    assert!(result.is_ok(), "Failed to parse: {:?}", result);
    let type_alias = result.unwrap();

    if let GenericParameter::Type { name, bounds, .. } = &type_alias.generic_params()[0] {
        assert_eq!(name, "T");
        assert_eq!(bounds.len(), 2);

        if let Type::Path(Path { segments, .. }) = &bounds[0] {
            let bound_name = &segments[0];
            assert_eq!(bound_name, "Clone");
        }
        if let Type::Path(Path { segments, .. }) = &bounds[1] {
            let bound_name = &segments[0];
            assert_eq!(bound_name, "Copy");
        }
    } else {
        panic!("Expected type parameter");
    }
}

#[test]
fn test_type_alias_with_const_param() {
    let input = "type MyArray[const N: usize] = i32";
    let result = parse_type_alias(input);
    assert!(result.is_ok(), "Failed to parse: {:?}", result);
    let type_alias = result.unwrap();
    assert_eq!(type_alias.generic_params().len(), 1);

    if let GenericParameter::Const { name, ty } = &type_alias.generic_params()[0] {
        assert_eq!(name, "N");
        assert_eq!(ty, &Type::USize);
    } else {
        panic!("Expected const parameter");
    }
}

#[test]
fn test_type_alias_with_where_clause() {
    let input = "type MyResult[T, E]
    where
        T: Clone
        E: Copy
    = i32";
    let result = parse_type_alias(input);
    assert!(result.is_ok(), "Failed to parse: {:?}", result);
    let type_alias = result.unwrap();

    assert_eq!(type_alias.name(), "MyResult");
    assert_eq!(type_alias.generic_params().len(), 2);
    assert_eq!(type_alias.generic_params().len(), 2);

    // Check where clause bounds
    if let GenericParameter::Type { name, bounds, .. } = &type_alias.generic_params()[0] {
        assert_eq!(name, "T");
        assert_eq!(bounds.len(), 1);
        if let Type::Path(Path { segments, .. }) = &bounds[0] {
            let bound_name = &segments[0];
            assert_eq!(bound_name, "Clone");
        }
    } else {
        panic!("Expected T: Clone in where clause");
    }

    if let GenericParameter::Type { name, bounds, .. } = &type_alias.generic_params()[1] {
        assert_eq!(name, "E");
        assert_eq!(bounds.len(), 1);
        if let Type::Path(Path { segments, .. }) = &bounds[0] {
            let bound_name = &segments[0];
            assert_eq!(bound_name, "Copy");
        }
    } else {
        panic!("Expected E: Copy in where clause");
    }
}

#[test]
fn test_type_alias_with_complex_where_clause() {
    let input = "type ComplexType[T, U, V] 
    where
        T: Clone + Send
        U: Copy
        V: Debug + Display
    = *T";
    let result = parse_type_alias(input);
    assert!(result.is_ok(), "Failed to parse: {:?}", result);
    let type_alias = result.unwrap();

    assert_eq!(type_alias.generic_params().len(), 3);

    // Check T: Clone + Send
    if let GenericParameter::Type { name, bounds, .. } = &type_alias.generic_params()[0] {
        assert_eq!(name, "T");
        assert_eq!(bounds.len(), 2);
    } else {
        panic!("Expected T with multiple bounds");
    }

    // Check U: Copy
    if let GenericParameter::Type { name, bounds, .. } = &type_alias.generic_params()[1] {
        assert_eq!(name, "U");
        assert_eq!(bounds.len(), 1);
    } else {
        panic!("Expected U: Copy");
    }

    // Check V: Debug + Display
    if let GenericParameter::Type { name, bounds, .. } = &type_alias.generic_params()[2] {
        assert_eq!(name, "V");
        assert_eq!(bounds.len(), 2);
    } else {
        panic!("Expected V with multiple bounds");
    }
}

#[test]
fn test_type_alias_pointer_types() {
    let input = "type RawPtr = *Something";
    let result = parse_type_alias(input);
    assert!(result.is_ok());
    let type_alias = result.unwrap();
    assert_eq!(
        type_alias.aliased_type(),
        &Type::Pointer {
            nullable: false,
            mutable: false,
            element_type: Box::new(Type::Path(Path::with_generics(vec!["Something".to_string()], vec![])))
        }
    );
}

#[test]
fn test_simple_function() {
    let input = "fn add(x: i32, y: i32) -> i32
    pass";
    let result = parse_function(input);
    assert!(result.is_ok(), "Failed to parse: {:?}", result);
    let f = result.unwrap();
    assert_eq!(f.signature().name(), "add");
    assert_eq!(f.signature().params().len(), 2);
    assert_eq!(f.signature().return_type(), &Some(Type::I32));
    assert_eq!(f.signature().generic_params().len(), 0);
    assert_eq!(f.signature().generic_params().len(), 0);

    assert_eq!(f.signature().params()[0].name(), "x");
    assert_eq!(f.signature().params()[0].ty(), &Type::I32);
    assert_eq!(f.signature().params()[1].name(), "y");
    assert_eq!(f.signature().params()[1].ty(), &Type::I32);
}

#[test]
fn test_function_no_params() {
    let input = "fn main() -> i32
    pass";
    let result = parse_function(input);
    assert!(result.is_ok(), "Failed to parse: {:?}", result);
    let f = result.unwrap();
    assert_eq!(f.signature().name(), "main");
    assert_eq!(f.signature().params().len(), 0);
    assert_eq!(f.signature().return_type(), &Some(Type::I32));
}

#[test]
fn test_function_no_return_type() {
    let input = "fn print(x: i32)
    pass";
    let result = parse_function(input);
    assert!(result.is_ok(), "Failed to parse: {:?}", result);
    let f = result.unwrap();
    assert_eq!(f.signature().name(), "print");
    assert_eq!(f.signature().params().len(), 1);
    assert_eq!(f.signature().return_type(), &None);
}

#[test]
fn test_function_with_generic_params() {
    let input = "fn identity[T](x: T) -> T
    pass";
    let result = parse_function(input);
    assert!(result.is_ok(), "Failed to parse: {:?}", result);
    let f = result.unwrap();
    assert_eq!(f.signature().name(), "identity");
    assert_eq!(f.signature().generic_params().len(), 1);
    assert_eq!(f.signature().params().len(), 1);

    if let GenericParameter::Type { name, bounds, .. } = &f.signature().generic_params()[0] {
        assert_eq!(name, "T");
        assert_eq!(bounds.len(), 0);
    } else {
        panic!("Expected type parameter");
    }
}

#[test]
fn test_function_with_bounded_generic() {
    let input = "fn clone[T: Clone](x: T) -> T
    pass";
    let result = parse_function(input);
    assert!(result.is_ok(), "Failed to parse: {:?}", result);
    let f = result.unwrap();
    assert_eq!(f.signature().generic_params().len(), 1);

    if let GenericParameter::Type { name, bounds, .. } = &f.signature().generic_params()[0] {
        assert_eq!(name, "T");
        assert_eq!(bounds.len(), 1);
        if let Type::Path(Path { segments, .. }) = &bounds[0] {
            let bound_name = &segments[0];
            assert_eq!(bound_name, "Clone");
        }
    } else {
        panic!("Expected bounded type parameter");
    }
}

#[test]
fn test_function_with_multiple_generics() {
    let input = "fn pair[T, U](x: T, y: U) -> T
    pass";
    let result = parse_function(input);
    assert!(result.is_ok(), "Failed to parse: {:?}", result);
    let f = result.unwrap();
    assert_eq!(f.signature().generic_params().len(), 2);
    assert_eq!(f.signature().params().len(), 2);
}

#[test]
fn test_function_with_array_return() {
    let input = "fn get_array() -> [i32]
    pass";
    let result = parse_function(input);
    assert!(result.is_ok(), "Failed to parse: {:?}", result);
    let f = result.unwrap();

    if let Some(Type::Array { element_type, size }) = f.signature().return_type() {
        assert_eq!(size, &None);
        assert_eq!(element_type.as_ref(), &Type::I32);
    } else {
        panic!("Expected array return type");
    }
}

#[test]
fn test_function_with_const_param() {
    let input = "fn array_func[const N: usize](x: i32) -> i32
    pass";
    let result = parse_function(input);
    assert!(result.is_ok(), "Failed to parse: {:?}", result);
    let f = result.unwrap();
    assert_eq!(f.signature().generic_params().len(), 1);

    if let GenericParameter::Const { name, ty } = &f.signature().generic_params()[0] {
        assert_eq!(name, "N");
        assert_eq!(ty, &Type::USize);
    } else {
        panic!("Expected const parameter");
    }
}

#[test]
fn test_function_with_mixed_generics() {
    let input = "fn complex[T: Clone, const N: usize, U](x: T, y: U) -> T
    pass";
    let result = parse_function(input);
    assert!(result.is_ok(), "Failed to parse: {:?}", result);
    let f = result.unwrap();
    assert_eq!(f.signature().generic_params().len(), 3);

    // Check T: Clone
    if let GenericParameter::Type { name, bounds, .. } = &f.signature().generic_params()[0] {
        assert_eq!(name, "T");
        assert_eq!(bounds.len(), 1);
    }

    // Check const N: usize
    if let GenericParameter::Const { name, ty } = &f.signature().generic_params()[1] {
        assert_eq!(name, "N");
        assert_eq!(ty, &Type::USize);
    }

    // Check U
    if let GenericParameter::Type { name, bounds, .. } = &f.signature().generic_params()[2] {
        assert_eq!(name, "U");
        assert_eq!(bounds.len(), 0);
    }
}

#[test]
fn test_function_with_multiple_bounds() {
    let input = "fn multi_bound[T: Clone + Copy + Send](x: T) -> T
    pass";
    let result = parse_function(input);
    assert!(result.is_ok(), "Failed to parse: {:?}", result);
    let f = result.unwrap();

    if let GenericParameter::Type { name, bounds, .. } = &f.signature().generic_params()[0] {
        assert_eq!(name, "T");
        assert_eq!(bounds.len(), 3);

        if let Type::Path(Path { segments, .. }) = &bounds[0] {
            let bound_name = &segments[0];
            assert_eq!(bound_name, "Clone");
        }
        if let Type::Path(Path { segments, .. }) = &bounds[1] {
            let bound_name = &segments[0];
            assert_eq!(bound_name, "Copy");
        }
        if let Type::Path(Path { segments, .. }) = &bounds[2] {
            let bound_name = &segments[0];
            assert_eq!(bound_name, "Send");
        }
    } else {
        panic!("Expected bounded type parameter");
    }
}

#[test]
fn test_function_with_single_param() {
    let input = "fn square(x: i32) -> i32
    pass";
    let result = parse_function(input);
    assert!(result.is_ok(), "Failed to parse: {:?}", result);
    let f = result.unwrap();
    assert_eq!(f.signature().params().len(), 1);
}

#[test]
fn test_function_with_trailing_comma() {
    let input = "fn add(x: i32, y: i32,) -> i32
    pass";
    let result = parse_function(input);
    assert!(result.is_ok(), "Failed to parse: {:?}", result);
    let f = result.unwrap();
    assert_eq!(f.signature().params().len(), 2);
}

#[test]
fn test_simple_interface() {
    let input = "interface Drawable
    fn get_width() -> i32
    fn get_height() -> i32
";
    let result = parse_interface(input);
    assert!(result.is_ok(), "Failed to parse: {:?}", result);
    let interface = result.unwrap();
    
    assert_eq!(interface.name(), "Drawable");
    assert_eq!(interface.generic_params().len(), 0);
    assert_eq!(interface.extends_clause().len(), 0);
    assert_eq!(interface.generic_params().len(), 0);
    assert_eq!(interface.methods().len(), 2);
    
    // Check first method
    assert_eq!(interface.methods()[0].name(), "get_width");
    assert_eq!(interface.methods()[0].params().len(), 0);
    assert_eq!(interface.methods()[0].return_type(), &Some(Type::I32));
    
    // Check second method
    assert_eq!(interface.methods()[1].name(), "get_height");
    assert_eq!(interface.methods()[1].params().len(), 0);
    assert_eq!(interface.methods()[1].return_type(), &Some(Type::I32));
}

#[test]
fn test_interface_with_generic_params() {
    let input = "interface Container[T]
    fn add(item: T)
    fn get(index: usize) -> T
";
    let result = parse_interface(input);
    assert!(result.is_ok(), "Failed to parse: {:?}", result);
    let interface = result.unwrap();
    
    assert_eq!(interface.name(), "Container");
    assert_eq!(interface.generic_params().len(), 1);
    
    // Check generic parameter
    if let GenericParameter::Type { name, bounds, .. } = &interface.generic_params()[0] {
        assert_eq!(name, "T");
        assert_eq!(bounds.len(), 0);
    } else {
        panic!("Expected type parameter T");
    }
    
    // Check methods
    assert_eq!(interface.methods().len(), 2);
    assert_eq!(interface.methods()[0].name(), "add");
    assert_eq!(interface.methods()[0].params().len(), 1);
    assert_eq!(interface.methods()[1].name(), "get");
}

#[test]
fn test_interface_with_extends_clause() {
    let input = "interface Shape
    extends
        Drawable
        Movable
    fn get_area() -> f64
";
    let result = parse_interface(input);
    assert!(result.is_ok(), "Failed to parse: {:?}", result);
    let interface = result.unwrap();
    
    assert_eq!(interface.name(), "Shape");
    assert_eq!(interface.extends_clause().len(), 2);
    
    // Check extends clause
    if let Type::Path(Path { segments, .. }) = &interface.extends_clause()[0] {
        let name = &segments[0];
        assert_eq!(name, "Drawable");
    } else {
        panic!("Expected Drawable interface");
    }
    
    if let Type::Path(Path { segments, .. }) = &interface.extends_clause()[1] {
        let name = &segments[0];
        assert_eq!(name, "Movable");
    } else {
        panic!("Expected Movable interface");
    }
    
    assert_eq!(interface.methods().len(), 1);
}

#[test]
fn test_interface_with_where_clause() {
    let input = "interface Comparable[T]
    where
        T: Clone
    fn compare(other: T) -> i32
";
    let result = parse_interface(input);
    assert!(result.is_ok(), "Failed to parse: {:?}", result);
    let interface = result.unwrap();
    
    assert_eq!(interface.name(), "Comparable");
    assert_eq!(interface.generic_params().len(), 1);
    
    // Check where clause
    if let GenericParameter::Type { name, bounds, .. } = &interface.generic_params()[0] {
        assert_eq!(name, "T");
        assert_eq!(bounds.len(), 1);
        if let Type::Path(Path { segments, .. }) = &bounds[0] {
            let bound_name = &segments[0];
            assert_eq!(bound_name, "Clone");
        }
    }
}

#[test]
fn test_interface_with_extends_and_where() {
    let input = "interface AdvancedContainer[T, E]
    extends
        Container[T]
    where
        T: Clone
        E: Copy
    fn get_or_error(index: usize) -> T
    fn set(index: usize, item: T)
";
    let result = parse_interface(input);
    assert!(result.is_ok(), "Failed to parse: {:?}", result);
    let interface = result.unwrap();
    
    assert_eq!(interface.name(), "AdvancedContainer");
    assert_eq!(interface.generic_params().len(), 2);
    assert_eq!(interface.extends_clause().len(), 1);
    assert_eq!(interface.generic_params().len(), 2);
    assert_eq!(interface.methods().len(), 2);
}

#[test]
fn test_interface_with_method_parameters() {
    let input = "interface Calculator
    fn add(a: i32, b: i32) -> i32
    fn multiply(a: i32, b: i32) -> i32
";
    let result = parse_interface(input);
    assert!(result.is_ok(), "Failed to parse: {:?}", result);
    let interface = result.unwrap();
    
    assert_eq!(interface.methods()[0].params().len(), 2);
    assert_eq!(interface.methods()[0].params()[0].name(), "a");
    assert_eq!(interface.methods()[0].params()[0].ty(), &Type::I32);
    assert_eq!(interface.methods()[0].params()[1].name(), "b");
    assert_eq!(interface.methods()[0].params()[1].ty(), &Type::I32);
}

#[test]
fn test_interface_with_complex_types() {
    let input = "interface Processor[T]
    fn process(input: ?*mut T) -> *T
    fn batch_process(inputs: [T]) -> [T]
";
    let result = parse_interface(input);
    assert!(result.is_ok(), "Failed to parse: {:?}", result);
    let interface = result.unwrap();
    
    assert_eq!(interface.methods().len(), 2);
    
    // Check first method has reference parameter
    if let Type::Pointer { element_type, nullable, mutable } = interface.methods()[0].params()[0].ty() {
        assert_eq!(nullable, &true);
        assert_eq!(mutable, &true);
        assert_eq!(**element_type, Type::Path(Path::with_generics(vec!["T".to_string()], vec![])));
    } else {
        panic!("Expected reference type for first parameter");
    }
    
    // Check second method has array parameters
    if let Type::Array { element_type, size } = interface.methods()[1].params()[0].ty() {
        assert_eq!(size, &None);
        assert_eq!(**element_type, Type::Path(Path::with_generics(vec!["T".to_string()], vec![])));
    } else {
        panic!("Expected array type for parameter");
    }
}

#[test]
fn test_interface_empty_methods() {
    let input = "interface Marker
    pass
";
    let result = parse_interface(input);
    // This might fail depending on grammar - marker interfaces might not be supported
    // or might need special handling
    if result.is_ok() {
        let interface = result.unwrap();
        assert_eq!(interface.name(), "Marker");
        // Methods list might be empty or contain a pass statement
    }
}

#[test]
fn namespace_tests_test_simple_namespace() {
    let input = "namespace MyModule
    type Alias = i32
";
    let result = parse_namespace(input);
    assert!(result.is_ok(), "Failed to parse: {:?}", result);
    let namespace = result.unwrap();
    
    assert_eq!(namespace.name(), "MyModule");
    assert_eq!(namespace.items().len(), 1);
    
    // Check the type alias item
    match &namespace.items()[0] {
        NamespaceItem::TypeAlias(type_alias) => {
            assert_eq!(type_alias.name(), "Alias");
            assert_eq!(type_alias.aliased_type(), &Type::I32);
        }
        _ => panic!("Expected type alias item"),
    }
}

#[test]
fn namespace_tests_test_namespace_with_struct() {
    let input = "namespace Geometry
    struct Point
        x: f64
        y: f64
";
    let result = parse_namespace(input);
    assert!(result.is_ok(), "Failed to parse: {:?}", result);
    let namespace = result.unwrap();
    
    assert_eq!(namespace.name(), "Geometry");
    assert_eq!(namespace.items().len(), 1);
    
    match &namespace.items()[0] {
        NamespaceItem::Struct(struct_decl) => {
            assert_eq!(struct_decl.name(), "Point");
            assert_eq!(struct_decl.fields().len(), 2);
        }
        _ => panic!("Expected struct item"),
    }
}

#[test]
fn namespace_tests_test_namespace_with_enum() {
    let input = "namespace Colors
    enum Color
        Red
        Green
        Blue
";
    let result = parse_namespace(input);
    assert!(result.is_ok(), "Failed to parse: {:?}", result);
    let namespace = result.unwrap();
    
    assert_eq!(namespace.name(), "Colors");
    assert_eq!(namespace.items().len(), 1);
    
    match &namespace.items()[0] {
        NamespaceItem::Enum(enum_decl) => {
            assert_eq!(enum_decl.name(), "Color");
            assert_eq!(enum_decl.variants().len(), 3);
        }
        _ => panic!("Expected enum item"),
    }
}

#[test]
fn namespace_tests_test_namespace_with_union() {
    let input = "namespace Data
    union Value
        int_val: i32
        float_val: f64
";
    let result = parse_namespace(input);
    assert!(result.is_ok(), "Failed to parse: {:?}", result);
    let namespace = result.unwrap();
    
    assert_eq!(namespace.name(), "Data");
    assert_eq!(namespace.items().len(), 1);
    
    match &namespace.items()[0] {
        NamespaceItem::Union(union_decl) => {
            assert_eq!(union_decl.name(), "Value");
            assert_eq!(union_decl.variants().len(), 2);
        }
        _ => panic!("Expected union item"),
    }
}

#[test]
fn namespace_tests_test_namespace_with_interface() {
    let input = "namespace Interfaces
    interface Printable
        fn print()
";
    let result = parse_namespace(input);
    assert!(result.is_ok(), "Failed to parse: {:?}", result);
    let namespace = result.unwrap();
    
    assert_eq!(namespace.name(), "Interfaces");
    assert_eq!(namespace.items().len(), 1);
    
    match &namespace.items()[0] {
        NamespaceItem::Interface(interface_decl) => {
            assert_eq!(interface_decl.name(), "Printable");
            assert_eq!(interface_decl.methods().len(), 1);
        }
        _ => panic!("Expected interface item"),
    }
}

#[test]
fn namespace_tests_test_namespace_with_function() {
    let input = "namespace Utils
    fn add(a: i32, b: i32) -> i32
        pass
";
    let result = parse_namespace(input);
    assert!(result.is_ok(), "Failed to parse: {:?}", result);
    let namespace = result.unwrap();
    
    assert_eq!(namespace.name(), "Utils");
    assert_eq!(namespace.items().len(), 1);
    
    match &namespace.items()[0] {
        NamespaceItem::Function(func) => {
            assert_eq!(func.signature().name(), "add");
            assert_eq!(func.signature().params().len(), 2);
        }
        _ => panic!("Expected function item"),
    }
}

#[test]
fn namespace_tests_test_namespace_with_multiple_items() {
    let input = "namespace MyLib
    type Int = i32
    struct Point
        x: i32
        y: i32
    enum Direction
        North
        South
        East
        West
";
    let result = parse_namespace(input);
    assert!(result.is_ok(), "Failed to parse: {:?}", result);
    let namespace = result.unwrap();
    
    assert_eq!(namespace.name(), "MyLib");
    assert_eq!(namespace.items().len(), 3);
    
    // Check type alias
    match &namespace.items()[0] {
        NamespaceItem::TypeAlias(_) => {}
        _ => panic!("Expected type alias as first item"),
    }
    
    // Check struct
    match &namespace.items()[1] {
        NamespaceItem::Struct(_) => {}
        _ => panic!("Expected struct as second item"),
    }
    
    // Check enum
    match &namespace.items()[2] {
        NamespaceItem::Enum(_) => {}
        _ => panic!("Expected enum as third item"),
    }
}

#[test]
fn namespace_tests_test_nested_namespace() {
    let input = "namespace Outer
    namespace Inner
        type Alias = i32
";
    let result = parse_namespace(input);
    assert!(result.is_ok(), "Failed to parse: {:?}", result);
    let namespace = result.unwrap();
    
    assert_eq!(namespace.name(), "Outer");
    assert_eq!(namespace.items().len(), 1);
    
    match &namespace.items()[0] {
        NamespaceItem::Namespace(inner) => {
            assert_eq!(inner.name(), "Inner");
            assert_eq!(inner.items().len(), 1);
        }
        _ => panic!("Expected nested namespace"),
    }
}

#[test]
fn namespace_tests_test_namespace_with_complex_items() {
    let input = "namespace Collections
    struct List[T]
        where
            T: Clone
        items: [T]
        size: usize
    
    interface Iterable[T]
        fn next() -> T
";
    let result = parse_namespace(input);
    assert!(result.is_ok(), "Failed to parse: {:?}", result);
    let namespace = result.unwrap();
    
    assert_eq!(namespace.name(), "Collections");
    assert_eq!(namespace.items().len(), 2);
    
    // Check struct with generics and where clause
    match &namespace.items()[0] {
        NamespaceItem::Struct(struct_decl) => {
            assert_eq!(struct_decl.generic_params().len(), 1);
            assert_eq!(struct_decl.generic_params().len(), 1);
        }
        _ => panic!("Expected struct item"),
    }
    
    // Check interface with generics
    match &namespace.items()[1] {
        NamespaceItem::Interface(interface_decl) => {
            assert_eq!(interface_decl.generic_params().len(), 1);
        }
        _ => panic!("Expected interface item"),
    }
}

#[test]
fn namespace_tests_test_empty_namespace() {
    let input = "namespace Empty
    pass
";
    let result = parse_namespace(input);
    // Empty namespaces might not be supported or might need special handling
    if result.is_ok() {
        let namespace = result.unwrap();
        assert_eq!(namespace.name(), "Empty");
        // Items might be empty
    }
}

#[test]
fn test_simple_namespace() {
    let input = "namespace MyModule
    type Alias = i32
";
    let namespace = parse_namespace(input).unwrap();

    assert_eq!(namespace.name.segments[0], "MyModule");
    assert_eq!(namespace.items.len(), 1);

    if let NamespaceItem::TypeAlias(ta) = &namespace.items[0] {
        assert_eq!(ta.name, "Alias");
        assert_eq!(ta.aliased_type, Type::I32);
    } else {
        panic!("Expected type alias item");
    }
}

#[test]
fn test_namespace_with_struct() {
    let input = "namespace Geometry
    struct Point
        x: f64
        y: f64
";
    let namespace = parse_namespace(input).unwrap();

    assert_eq!(namespace.name.segments[0], "Geometry");
    assert_eq!(namespace.items.len(), 1);

    if let NamespaceItem::Struct(s) = &namespace.items[0] {
        assert_eq!(s.name, "Point");
        assert_eq!(s.fields.len(), 2);
    } else {
        panic!("Expected struct item");
    }
}

#[test]
fn test_namespace_with_enum() {
    let input = "namespace Colors
    enum Color
        Red
        Green
        Blue
";
    let namespace = parse_namespace(input).unwrap();

    assert_eq!(namespace.name.segments[0], "Colors");
    assert_eq!(namespace.items.len(), 1);

    if let NamespaceItem::Enum(e) = &namespace.items[0] {
        assert_eq!(e.name, "Color");
        assert_eq!(e.variants.len(), 3);
    } else {
        panic!("Expected enum item");
    }
}

#[test]
fn test_namespace_with_union() {
    let input = "namespace Data
    union Value
        int_val: i32
        float_val: f64
";
    let namespace = parse_namespace(input).unwrap();

    assert_eq!(namespace.name.segments[0], "Data");
    assert_eq!(namespace.items.len(), 1);

    if let NamespaceItem::Union(u) = &namespace.items[0] {
        assert_eq!(u.name, "Value");
        assert_eq!(u.variants.len(), 2);
    } else {
        panic!("Expected union item");
    }
}

#[test]
fn test_namespace_with_interface() {
    let input = "namespace Interfaces
    interface Printable
        func print()
";
    let namespace = parse_namespace(input).unwrap();

    assert_eq!(namespace.name.segments[0], "Interfaces");
    assert_eq!(namespace.items.len(), 1);

    if let NamespaceItem::Interface(iface) = &namespace.items[0] {
        assert_eq!(iface.name, "Printable");
        assert_eq!(iface.methods.len(), 1);
    } else {
        panic!("Expected interface item");
    }
}

#[test]
fn test_namespace_with_function() {
    let input = "namespace Utils
    func add(a: i32, b: i32) -> i32
        pass
";
    let namespace = parse_namespace(input).unwrap();

    assert_eq!(namespace.name.segments[0], "Utils");
    assert_eq!(namespace.items.len(), 1);

    if let NamespaceItem::Function(f) = &namespace.items[0] {
        assert_eq!(f.signature.name, "add");
        assert_eq!(f.signature.params.len(), 2);
    } else {
        panic!("Expected function item");
    }
}

#[test]
fn test_namespace_with_multiple_items() {
    let input = "namespace MyLib
    type Int = i32
    struct Point
        x: i32
        y: i32
    enum Direction
        North
        South
        East
        West
";
    let namespace = parse_namespace(input).unwrap();

    assert_eq!(namespace.name.segments[0], "MyLib");
    assert_eq!(namespace.items.len(), 3);

    assert!(matches!(&namespace.items[0], NamespaceItem::TypeAlias(_)));
    assert!(matches!(&namespace.items[1], NamespaceItem::Struct(_)));
    assert!(matches!(&namespace.items[2], NamespaceItem::Enum(_)));
}

#[test]
fn test_nested_namespace() {
    let input = "namespace Outer
    namespace Inner
        type Alias = i32
";
    let namespace = parse_namespace(input).unwrap();

    assert_eq!(namespace.name.segments[0], "Outer");
    assert_eq!(namespace.items.len(), 1);

    if let NamespaceItem::Namespace(inner) = &namespace.items[0] {
        assert_eq!(inner.name.segments[0], "Inner");
        assert_eq!(inner.items.len(), 1);
    } else {
        panic!("Expected nested namespace");
    }
}

#[test]
fn test_namespace_with_complex_items() {
    let input = "namespace Collections
    struct List[T]
        where
            T: Clone
        items: [T]
        size: usize
    interface Iterable[T]
        func next() -> T
";
    let namespace = parse_namespace(input).unwrap();

    assert_eq!(namespace.name.segments[0], "Collections");
    assert_eq!(namespace.items.len(), 2);

    // Check struct with generics and where clause merged into generic_params
    if let NamespaceItem::Struct(s) = &namespace.items[0] {
        assert_eq!(s.generic_params.len(), 1);
        // T should have 1 bound (Clone) after merging where clause
        if let GenericParameter::Type { name, bounds, .. } = &s.generic_params[0] {
            assert_eq!(name, "T");
            assert_eq!(bounds.len(), 1);
        }
    } else {
        panic!("Expected struct as first item");
    }

    // Check interface with generics
    if let NamespaceItem::Interface(iface) = &namespace.items[1] {
        assert_eq!(iface.generic_params.len(), 1);
    } else {
        panic!("Expected interface as second item");
    }
}

#[test]
fn test_empty_namespace() {
    let input = "namespace Empty
    pass
";
    let result = parse_namespace(input);
    if let Ok(ns) = result {
        assert_eq!(ns.name.segments[0], "Empty");
        // pass is semantically empty
        assert!(ns.items.is_empty());
    }
}
