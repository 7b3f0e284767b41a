use gss::{parse_str, parse_str_with_options, FloatLit, Object, Value};

/// The number a kept literal stands for, as an `f32` (a percentage is the
/// literal's value divided by one hundred).
fn literal_f32(f: &FloatLit) -> f32 {
    match f {
        FloatLit::Real(s) => s.parse::<f32>().unwrap(),
        FloatLit::RealPercent(s) => s.parse::<f32>().unwrap() / 100.,
        FloatLit::IntPercent(n) => *n as f32 / 100.,
    }
}

#[test]
fn test_parse_success() {
    let source = r#"
            name = "GSS",
            version = 1,
            active = true,
            settings = {
                theme = "dark",
                debug = false,
            },
        "#;
    let gss = parse_str(source).expect("Should parse successfully");

    // Test basic values
    assert_eq!(gss.get::<String>(&["name"]), Some(&"GSS".to_string()));
    assert_eq!(gss.get::<u32>(&["version"]), Some(&1));
    assert_eq!(gss.get::<bool>(&["active"]), Some(&true));

    // Test nested values
    assert_eq!(
        gss.get::<String>(&["settings", "theme"]),
        Some(&"dark".to_string())
    );
    assert_eq!(gss.get::<bool>(&["settings", "debug"]), Some(&false));

    // Test non-existent keys / incorrect types
    assert_eq!(gss.get::<String>(&["non_existent"]), None);
    assert_eq!(gss.get::<String>(&["settings", "non_existent"]), None);
    assert_eq!(gss.get::<u32>(&["active"]), None); // Type mismatch
}

#[test]
fn test_parse_list() {
    let source = r#"
            numbers = [1, 2, 3],
            mixed = ["hello", 42, true],
            empty = [],
            nested = [[1, 2], [3, 4]],
        "#;
    let gss = parse_str(source).expect("Should parse lists successfully");

    assert_eq!(gss.get_as::<Vec<u32>>(&["numbers"]), Some(vec![1, 2, 3]));
    assert!(gss.get::<Vec<Value>>(&["mixed"]).is_some());
    assert_eq!(gss.get_as::<Vec<u32>>(&["empty"]), Some(vec![]));
    assert_eq!(
        gss.get_as::<Vec<Vec<u32>>>(&["nested"]),
        Some(vec![vec![1, 2], vec![3, 4]])
    );
}

#[test]
fn test_parse_redefinition() {
    let source = r#"
            key = 1,
            key = 2,
        "#;
    let result = parse_str(source);
    assert!(result.is_err());
    let err_msg = result.unwrap_err().message();
    assert!(err_msg.contains("Redefinition of key key"));
}

#[test]
fn test_parse_missing_comma() {
    let source = r#"
            test = {
                key = 1
                other = 2,
            }
        "#;
    let result = parse_str(source);
    assert!(result.is_ok());
}

#[test]
fn test_parse_missing_eq() {
    let source = r#"
            key 1,
        "#;
    let result = parse_str(source);
    assert!(result.is_err());
}

#[test]
fn test_empty_path() {
    let gss = parse_str("a = 1,").expect("Should parse");
    assert_eq!(gss.get::<u32>(&[]), None);
}

#[test]
fn test_dump() {
    let source = r#"
            name = "GSS",
            version = 1,
            active = true,
            settings = {
                theme = "dark",
            },
        "#;
    let gss = parse_str(source).expect("Should parse");
    // Ensure dump runs without panicking
    assert!(gss.dump_pieces(0).is_some());
}

#[test]
fn test_references() {
    let source = r#"
            root_val = 42,
            ref_symbol = root_val,
            nested = {
                value = 100,
                ref_symbol_nested = root_val,
            },
            ref_access = nested.value,
            other = {
                ref_access_nested = nested.value,
            },
            chained1 = root_val,
            chained2 = chained1,
            non_existent_ref = does_not_exist,
            nested_non_existent_ref = nested.does_not_exist,
        "#;
    let gss = parse_str(source).expect("Should parse references successfully");

    // Test Expr::Symbol at root level
    assert_eq!(gss.get::<u32>(&["ref_symbol"]), Some(&42));

    // Test Expr::Symbol inside nested object
    assert_eq!(gss.get::<u32>(&["nested", "ref_symbol_nested"]), Some(&42));

    // Test Expr::Access at root level
    assert_eq!(gss.get::<u32>(&["ref_access"]), Some(&100));

    // Test Expr::Access inside nested object
    assert_eq!(gss.get::<u32>(&["other", "ref_access_nested"]), Some(&100));

    // Test chained references
    assert_eq!(gss.get::<u32>(&["chained2"]), Some(&42));

    // Test invalid reference (non-existent key)
    assert_eq!(gss.get::<u32>(&["non_existent_ref"]), None);
    assert_eq!(gss.get::<u32>(&["nested_non_existent_ref"]), None);

    // Test type mismatch
    assert_eq!(gss.get::<String>(&["ref_symbol"]), None);

    // Test dump with references
    assert!(gss.dump_pieces(0).is_some());
}

#[test]
fn test_cycle_detection() {
    // Direct cycle: a = a,
    let source_direct = r#"
            a = a,
        "#;
    let gss = parse_str(source_direct).expect("Should parse");
    assert_eq!(gss.get::<u32>(&["a"]), None);

    // Indirect cycle: a = b, b = a,
    let source_indirect = r#"
            a = b,
            b = a,
        "#;
    let gss = parse_str(source_indirect).expect("Should parse");
    assert_eq!(gss.get::<u32>(&["a"]), None);
    assert_eq!(gss.get::<u32>(&["b"]), None);

    // Path cycle: a = b.x, b = { x = a },
    let source_path = r#"
            a = b.x,
            b = {
                x = a,
            },
        "#;
    let gss = parse_str(source_path).expect("Should parse");
    assert_eq!(gss.get::<u32>(&["a"]), None);
}

#[test]
fn test_percent() {
    let source_path = r#"
            a = 89%,
        "#;
    let gss = parse_str(source_path).expect("Should parse");
    let a = gss.get::<FloatLit>(&["a"]);
    assert_eq!(a, Some(&FloatLit::IntPercent(89)));
    assert_eq!(a.map(literal_f32), Some(0.89));
}

#[test]
fn test_float() {
    let source_path = r#"
            a = 0.123,
        "#;
    let gss = parse_str(source_path).expect("Should parse");
    let a = gss.get::<FloatLit>(&["a"]);
    assert_eq!(a, Some(&FloatLit::Real("0.123".to_string())));
    assert_eq!(a.map(literal_f32), Some(0.123));
}

#[test]
fn test_get_fields() {
    let source_path = r#"
            a = 0.123,
            b = true,
            c = "test",
        "#;
    let gss = parse_str(source_path).expect("Should parse");
    for field in gss.get_fields() {
        assert!(["a", "b", "c"].contains(&field.as_str()))
    }
}

#[test]
fn test_get_or_default() {
    let source_path = r#"

        "#;
    let gss = parse_str(source_path).expect("Should parse");
    let get_f32 = |path: &[&str]| {
        gss.get_value(path).and_then(|v| match v {
            Value::Float(f) => Some(literal_f32(f)),
            Value::Number(n) => Some(*n as f32),
            _ => None,
        })
    };
    assert_eq!(get_f32(&["a"]).unwrap_or_default(), 0.0);
    assert_eq!(get_f32(&["b"]).unwrap_or(23.0), 23.0);
    assert_eq!(gss.get_or_default::<u32>(&["a"]), 0);
    assert_eq!(gss.get_or::<u32>(&["b"], 23), 23);
}

#[test]
fn test_get_inner_obj() {
    let source_path = r#"
            h = {
                inner = "Hi"
            }
            f = {
                g = h
            }
        "#;
    let gss = parse_str(source_path).expect("Should parse");
    assert_eq!(
        gss.get_or_default::<String>(&["f", "g", "inner"]),
        "Hi".to_string()
    );
}

#[test]
fn test_dot_separated_lookup() {
    let source = r#"
            a = {
                b = {
                    c = "found_it"
                }
                d = {
                    e = a.b.c
                }
            }
        "#;
    let gss = parse_str(source).expect("Should parse");
    assert_eq!(
        gss.get::<String>(&["a", "b", "c"]),
        Some(&"found_it".to_string())
    );
    assert_eq!(
        gss.get::<String>(&["a", "b", "c"]),
        Some(&"found_it".to_string())
    );
    assert_eq!(
        gss.get::<String>(&["a", "d", "e"]),
        Some(&"found_it".to_string())
    );
}

#[test]
fn test_get_as_common_types() {
    let source = r#"
            num = 42,
            float_val = 3.14,
            text = "antigravity",
            flag = true,
            big_num = 300,
        "#;
    let gss = parse_str(source).expect("Should parse");

    // Signed integer conversions
    assert_eq!(gss.get_as::<i8>(&["num"]), Some(42i8));
    assert_eq!(gss.get_as::<i16>(&["num"]), Some(42i16));
    assert_eq!(gss.get_as::<i32>(&["num"]), Some(42i32));
    assert_eq!(gss.get_as::<i64>(&["num"]), Some(42i64));
    assert_eq!(gss.get_as::<i128>(&["num"]), Some(42i128));
    assert_eq!(gss.get_as::<isize>(&["num"]), Some(42isize));

    // Unsigned integer conversions
    assert_eq!(gss.get_as::<u8>(&["num"]), Some(42u8));
    assert_eq!(gss.get_as::<u16>(&["num"]), Some(42u16));
    assert_eq!(gss.get_as::<u32>(&["num"]), Some(42u32));
    assert_eq!(gss.get_as::<u64>(&["num"]), Some(42u64));
    assert_eq!(gss.get_as::<u128>(&["num"]), Some(42u128));
    assert_eq!(gss.get_as::<usize>(&["num"]), Some(42usize));

    // Float values are kept as written; their number is the caller's
    let float_val = gss.get::<FloatLit>(&["float_val"]);
    assert_eq!(float_val, Some(&FloatLit::Real("3.14".to_string())));
    assert_eq!(float_val.map(literal_f32), Some(3.14f32));
    assert_eq!(float_val.map(|f| literal_f32(f) as f64), Some(3.14f32 as f64));
    assert_eq!(gss.get_as::<u32>(&["num"]).map(|n| n as f32), Some(42.0f32));
    assert_eq!(gss.get_as::<u32>(&["num"]).map(|n| n as f64), Some(42.0f64));

    // Booleans & Strings
    assert_eq!(gss.get_as::<bool>(&["flag"]), Some(true));
    assert_eq!(gss.get_as::<String>(&["text"]), Some("antigravity".to_string()));

    // Bounds checking
    assert_eq!(gss.get_as::<u8>(&["big_num"]), None); // 300 > u8::MAX
    assert_eq!(gss.get_as::<i8>(&["big_num"]), None); // 300 > i8::MAX
    assert_eq!(gss.get_as::<u16>(&["big_num"]), Some(300u16));

    // Fallbacks with get_or and get_or_default
    assert_eq!(gss.get_or::<i32>(&["num"], 0), 42);
    assert_eq!(gss.get_or::<i32>(&["missing"], 99), 99);
    assert_eq!(gss.get_or_default::<i64>(&["num"]), 42i64);
    assert_eq!(gss.get_or_default::<i64>(&["missing"]), 0i64);
}

#[test]
fn test_allow_redefinition() {
    let source_root = r#"
            key = 1,
            key = 2,
        "#;
    // Default (false) should fail
    assert!(parse_str(source_root).is_err());

    // With allow_redefinition = true
    let gss = parse_str_with_options(source_root, true).expect("Should allow redefinition");
    assert_eq!(gss.get_as::<u32>(&["key"]), Some(2));
    assert!(gss.allow_redefinition());

    // Nested redefinition
    let source_nested = r#"
            obj = {
                a = 10,
                a = 20,
            }
        "#;
    assert!(parse_str(source_nested).is_err());
    let gss_nested =
        parse_str_with_options(source_nested, true).expect("Should allow nested redefinition");
    assert_eq!(gss_nested.get_as::<u32>(&["obj", "a"]), Some(20));

    // Builder & Setter
    let mut obj = Object::new().with_allow_redefinition(true);
    assert!(obj.allow_redefinition());
    obj.set_allow_redefinition(false);
    assert!(!obj.allow_redefinition());
}

#[test]
fn test_value_enum_specifics() {
    let source = "a = 42, b = { x = 1 }, c = \"hello\"";
    let gss = parse_str(source).unwrap();

    let a_val = gss.get_value(&["a"]).unwrap();
    let b_val = gss.get_value(&["b"]).unwrap();
    let c_val = gss.get_value(&["c"]).unwrap();

    // Assert equality works directly on Value
    assert_eq!(a_val, &Value::Number(42));
    assert_eq!(c_val, &Value::String("hello".to_string()));

    // Assert cloning works directly on Value
    let a_clone = a_val.clone();
    assert_eq!(a_clone, Value::Number(42));

    let b_clone = b_val.clone();
    if let Value::Object(ref obj) = b_clone {
        assert_eq!(obj.get::<u32>(&["x"]), Some(&1));
    } else {
        panic!("Expected Value::Object");
    }
}
