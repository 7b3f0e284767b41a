use gss::dump::DumpPiece;
use gss::number::{check_real_literal, parse_u32, IntError};
use gss::parser::Expected;
use gss::token::{tokenize, TokKind};
use gss::{
    internal_parse, internal_parse_gss, internal_parse_object, internal_parse_value, internal_parse_object_from_str, parse_str, parse_str_with_options, parse_with_path, ErrorKind, Expr,
    FloatLit, Object, Value,
};

fn render(pieces: &[DumpPiece]) -> String {
    let mut out = String::new();
    for p in pieces {
        match p {
            DumpPiece::Text(s) => out.push_str(s),
            DumpPiece::Float(FloatLit::Real(s)) => out.push_str(&format!("{}", s.parse::<f32>().unwrap())),
            DumpPiece::Float(FloatLit::RealPercent(s)) => {
                out.push_str(&format!("{}", s.parse::<f32>().unwrap() / 100.))
            }
            DumpPiece::Float(FloatLit::IntPercent(n)) => out.push_str(&format!("{}", *n as f32 / 100.)),
        }
    }
    out
}

fn error_kind(source: &str) -> ErrorKind {
    parse_str(source).unwrap_err().kind
}

#[test]
fn tokenize_gives_lexer_tokens() {
    let ts = tokenize("a = 0x1f, b");
    let kinds: Vec<TokKind> = ts.iter().map(|t| t.kind).collect();
    assert_eq!(
        kinds,
        vec![TokKind::Identifier, TokKind::Assign, TokKind::Number(16), TokKind::Comma, TokKind::Identifier, TokKind::Eof]
    );
    assert_eq!(ts[2].text, "1f");
    assert_eq!(ts[0].text, "a");
    assert_eq!(ts[5].kind_name, "EOF");
}

#[test]
fn tokenize_empty_source() {
    let ts = tokenize("");
    assert_eq!(ts.len(), 1);
    assert_eq!(ts[0].kind, TokKind::Eof);
}

#[test]
fn integer_literals_in_each_radix() {
    let gss = parse_str("d = 50, x = 0x32, o = 0o17, b = 0b101").unwrap();
    assert_eq!(gss.get::<u32>(&["d"]), Some(&50));
    assert_eq!(gss.get::<u32>(&["x"]), Some(&0x32));
    assert_eq!(gss.get::<u32>(&["o"]), Some(&0o17));
    assert_eq!(gss.get::<u32>(&["b"]), Some(&0b101));
}

#[test]
fn string_escapes_are_unescaped() {
    let gss = parse_str(r#"s = "a\nb\t\"q\"""#).unwrap();
    assert_eq!(gss.get::<String>(&["s"]), Some(&"a\nb\t\"q\"".to_string()));
}

#[test]
fn percent_and_real_literals() {
    let gss = parse_str("p = 50%, r = 2.5%, f = 42.12").unwrap();
    assert_eq!(gss.get::<FloatLit>(&["p"]), Some(&FloatLit::IntPercent(50)));
    assert_eq!(gss.get::<FloatLit>(&["r"]), Some(&FloatLit::RealPercent("2.5".to_string())));
    assert_eq!(gss.get::<FloatLit>(&["f"]), Some(&FloatLit::Real("42.12".to_string())));
    assert_eq!(gss.get_as::<u32>(&["p"]), None);
}

#[test]
fn parse_u32_follows_from_str_radix() {
    assert_eq!(parse_u32("ff", 16), Ok(255));
    assert_eq!(parse_u32("+7", 10), Ok(7));
    assert_eq!(parse_u32("4294967295", 10), Ok(u32::MAX));
    assert_eq!(parse_u32("4294967296", 10), Err(IntError::PosOverflow));
    assert_eq!(parse_u32("", 10), Err(IntError::Empty));
    assert_eq!(parse_u32("12a", 10), Err(IntError::InvalidDigit));
    assert_eq!(parse_u32("+", 10), Err(IntError::InvalidDigit));
    assert_eq!(parse_u32("102", 2), Err(IntError::InvalidDigit));
}

#[test]
fn real_literal_shape() {
    assert!(check_real_literal("1.5"));
    assert!(check_real_literal("12."));
    assert!(!check_real_literal(".5"));
    assert!(!check_real_literal("1.2.3"));
    assert!(!check_real_literal("15"));
}

#[test]
fn error_integer_overflow() {
    let err = parse_str("a = 99999999999").unwrap_err();
    assert_eq!(err.kind, ErrorKind::Integer(IntError::PosOverflow));
    assert!(err.message().ends_with(": number too large to fit in target type"));
    assert!(err.message().starts_with("<input>:1:"));
}

#[test]
fn error_missing_eq() {
    let err = parse_str("key 1,").unwrap_err();
    assert_eq!(
        err.kind,
        ErrorKind::Expected { expected: Expected::Eq, found: "Number(D)".to_string() }
    );
    assert_eq!(err.line, 1);
    assert_eq!(err.col, 5);
    assert_eq!(err.message(), "<input>:1:5: Expect = got Number(D)");
}

#[test]
fn error_file_name_in_message() {
    let err = parse_with_path("conf.gss", "a = 1\nb 2", false).unwrap_err();
    assert_eq!(err.file, "conf.gss");
    assert_eq!(err.line, 2);
    assert_eq!(err.col, 3);
    assert_eq!(err.message(), "conf.gss:2:3: Expect = got Number(D)");
}

#[test]
fn error_unexpected_token() {
    assert_eq!(
        error_kind("a = ,"),
        ErrorKind::UnexpectedToken { kind_name: "Comma".to_string(), shown: ",".to_string() }
    );
    let err = parse_str("a = ").unwrap_err();
    assert_eq!(err.kind.message(), "Unexpect token `EOF`");
    assert_eq!(
        error_kind("a = .1"),
        ErrorKind::UnexpectedToken { kind_name: "Dot".to_string(), shown: ".".to_string() }
    );
    assert_eq!(
        error_kind("a = 123abc"),
        ErrorKind::UnexpectedToken { kind_name: "InvalidNumber".to_string(), shown: "123abc".to_string() }
    );
    // The lexer's own display of a token it could not read.
    let kind = error_kind("a = ~");
    assert!(matches!(kind, ErrorKind::UnexpectedToken { .. }));
    assert_eq!(kind.message(), "Unexpect token `Unexpected Character `~``");
}

#[test]
fn error_expected_identifier() {
    assert_eq!(
        error_kind("= 1"),
        ErrorKind::Expected { expected: Expected::Identifier, found: "Assign".to_string() }
    );
}

#[test]
fn error_expected_close_curly() {
    assert_eq!(
        error_kind("a = { b = 1 ; }"),
        ErrorKind::Expected { expected: Expected::CloseCurly, found: "SemiColon".to_string() }
    );
    assert_eq!(
        error_kind("a = { b = 1"),
        ErrorKind::Expected { expected: Expected::CloseCurly, found: "EOF".to_string() }
    );
}

#[test]
fn error_in_list_item() {
    // An item that fails after reading a token fails the whole list.
    assert_eq!(
        error_kind("a = [1 ;]"),
        ErrorKind::UnexpectedToken { kind_name: "SemiColon".to_string(), shown: ";".to_string() }
    );
    assert_eq!(
        error_kind("a = [1, =]"),
        ErrorKind::UnexpectedToken { kind_name: "Assign".to_string(), shown: "=".to_string() }
    );
    assert_eq!(error_kind("a = [1 2").message(), "Unexpect token `EOF`");
}

#[test]
fn error_expected_eof() {
    let kind = error_kind("a = 1 }");
    assert_eq!(kind, ErrorKind::Expected { expected: Expected::Eof, found: "CloseCurly".to_string() });
    assert_eq!(kind.message(), "Expect EOF got CloseCurly");
}

#[test]
fn error_redefinition_names_first_repeated_key() {
    let kind = error_kind("a = 1, b = 2, b = 3, a = 4");
    assert_eq!(kind, ErrorKind::Redefinition { key: "b".to_string() });
    assert_eq!(kind.message(), "Redefinition of key b");
}

#[test]
fn empty_document_is_empty_object() {
    let gss = parse_str("   ").unwrap();
    assert_eq!(gss.len(), 0);
    assert!(!gss.allow_redefinition());
    assert_eq!(gss.max_depth(), 20);
}

#[test]
fn trailing_commas_in_lists_and_objects() {
    let gss = parse_str("l = [1, 2,], o = { a = 1, },").unwrap();
    assert_eq!(gss.get_as::<Vec<u32>>(&["l"]), Some(vec![1, 2]));
    assert_eq!(gss.get::<u32>(&["o", "a"]), Some(&1));
}

#[test]
fn relative_reference_reads_sibling() {
    let gss = parse_str("style = { image3 = { left = 50, top = .left } }").unwrap();
    assert_eq!(gss.get::<u32>(&["style", "image3", "top"]), Some(&50));
}

#[test]
fn depth_limit_cuts_off_long_chains() {
    let source = "a = 1, b = a, c = b, d = c";
    let mut gss = parse_str(source).unwrap();
    assert_eq!(gss.get::<u32>(&["d"]), Some(&1));
    gss.set_max_depth(3);
    assert_eq!(gss.get::<u32>(&["d"]), None);
    assert_eq!(gss.get::<u32>(&["c"]), Some(&1));
    gss.set_max_depth(50);
    assert_eq!(gss.get::<u32>(&["d"]), Some(&1));
    gss.set_max_depth(0);
    assert_eq!(gss.get::<u32>(&["a"]), None);
}

#[test]
fn cycle_unresolved_at_any_limit() {
    let mut gss = parse_str("a = b, b = c, c = a").unwrap();
    for limit in [1usize, 5, 100] {
        gss.set_max_depth(limit);
        assert_eq!(gss.get_value(&["a"]), None);
    }
}

#[test]
fn redefinition_last_wins_and_keeps_first_position() {
    let gss = parse_str_with_options("a = 1, b = 2, a = 3", true).unwrap();
    assert_eq!(gss.get::<u32>(&["a"]), Some(&3));
    let keys: Vec<&str> = gss.get_fields().into_iter().map(|k| k.as_str()).collect();
    assert_eq!(keys, vec!["a", "b"]);
}

#[test]
fn get_fields_in_definition_order() {
    let gss = parse_str("c = 1, a = 2, b = 3").unwrap();
    let keys: Vec<&str> = gss.get_fields().into_iter().map(|k| k.as_str()).collect();
    assert_eq!(keys, vec!["c", "a", "b"]);
}

#[test]
fn object_insert_then_lookup() {
    let mut o = Object::new();
    assert!(!o.insert("k".to_string(), Value::Number(1)));
    assert!(o.insert("k".to_string(), Value::Bool(true)));
    assert_eq!(o.lookup(&"k".to_string()), Some(&Value::Bool(true)));
    assert_eq!(o.lookup(&"x".to_string()), None);
    assert_eq!(o.len(), 1);
    assert_eq!(o.field_at(0), (&"k".to_string(), &Value::Bool(true)));
}

#[test]
fn get_on_object_and_expr_values() {
    let gss = parse_str("o = { a = 1 }, r = .x, s = o.a").unwrap();
    assert!(gss.get::<Object>(&["o"]).is_some());
    assert_eq!(gss.get::<Expr>(&["r"]), None);
    let raw = gss.get_fields();
    assert_eq!(raw.len(), 3);
    let (_, r) = gss.field_at(1);
    assert_eq!(r, &Value::Expr(Expr::RelAccess(vec!["x".to_string()])));
    let (_, s) = gss.field_at(2);
    assert_eq!(s.downcast_ref::<Expr>(), Some(&Expr::Access(vec!["o".to_string(), "a".to_string()])));
    assert_eq!(gss.get::<u32>(&["s"]), Some(&1));
}

#[test]
fn get_as_lists_fail_on_one_bad_item() {
    let gss = parse_str("l = [1, true], n = 5").unwrap();
    assert_eq!(gss.get_as::<Vec<u32>>(&["l"]), None);
    assert_eq!(gss.get_as::<Vec<u32>>(&["n"]), None);
    assert_eq!(gss.get_or::<Vec<u32>>(&["l"], vec![9]), vec![9]);
}

#[test]
fn dump_renders_each_field_on_a_line() {
    let gss = parse_str("a = 1, b = { c = \"x\" }, d = [1, e.f, .g], h = 50%, t = true").unwrap();
    let pieces = gss.dump_pieces(0).unwrap();
    let expected = "{\n    a => 1\n    b => {\n        c => \"x\"\n    }\n\n    d => [1, e.f, .g]\n    h => 0.5\n    t => true\n}\n";
    assert_eq!(render(&pieces), expected);
    assert_eq!(pieces[0], DumpPiece::Text("{\n".to_string()));
}

#[test]
fn dump_at_deeper_level() {
    let gss = parse_str("a = 7").unwrap();
    let pieces = gss.dump_pieces(1).unwrap();
    assert_eq!(render(&pieces), "{\n        a => 7\n    }\n");
    let nested = parse_str("a = { b = 1 }").unwrap();
    assert!(nested.dump_pieces(usize::MAX).is_none());
}

#[test]
fn object_from_str() {
    let o = internal_parse_object_from_str("{ a = 1, b = 2 }").unwrap();
    assert_eq!(o.get::<u32>(&["b"]), Some(&2));
    let o = internal_parse_object_from_str("a = 1 }").unwrap();
    assert_eq!(o.get::<u32>(&["a"]), Some(&1));
    let o = internal_parse_object_from_str("{}").unwrap();
    assert_eq!(o.len(), 0);
    assert_eq!(
        internal_parse_object_from_str("{ a = 1").unwrap_err(),
        ErrorKind::Expected { expected: Expected::CloseCurly, found: "EOF".to_string() }
    );
    assert_eq!(
        internal_parse_object_from_str("{ a = 1, a = 2 }").unwrap_err(),
        ErrorKind::Redefinition { key: "a".to_string() }
    );
}

#[test]
fn cloned_values_are_equal() {
    let gss = parse_str("o = { a = [1, \"s\", x.y], p = 2.5% }").unwrap();
    let v = gss.get_value(&["o"]).unwrap();
    assert_eq!(&v.clone(), v);
    let o = gss.clone();
    assert_eq!(o, gss);
}

#[test]
fn builder_keeps_fields() {
    let mut o = Object::new();
    o.insert("x".to_string(), Value::Number(3));
    let o = o.with_allow_redefinition(true);
    assert!(o.allow_redefinition());
    assert_eq!(o.get::<u32>(&["x"]), Some(&3));
}

#[test]
fn internal_readers_on_tokens() {
    let ts = tokenize("a = [1, { b = 2 }], c = x.y");
    let (end, r) = internal_parse_gss(&ts);
    let gss = r.unwrap();
    assert_eq!(end, ts.len());
    assert_eq!(gss.get::<u32>(&["a"]), None);
    assert_eq!(gss.len(), 2);

    let ts = tokenize("[1, 2] rest");
    let (end, v) = internal_parse_value(&ts);
    assert_eq!(v.unwrap(), Value::Vec(vec![Value::Number(1), Value::Number(2)]));
    assert_eq!(ts[end].text, "rest");

    let ts = tokenize("{ k = true } tail");
    let (end, o) = internal_parse_object(&ts);
    assert_eq!(o.unwrap().get::<bool>(&["k"]), Some(&true));
    assert_eq!(ts[end].text, "tail");

    let ts = tokenize("k = 1, k = 2");
    let err = internal_parse("f.gss", &ts).unwrap_err();
    assert_eq!(err.message(), "f.gss:1:13: Redefinition of key k");
}

#[test]
fn redefinition_refused_in_every_scope() {
    let refused = ErrorKind::Redefinition { key: "x".to_string() };
    assert_eq!(error_kind("a = 1, obj = { x = 1, x = 2 }"), refused);
    assert_eq!(error_kind("o = { i = { x = 1, x = 2 } }"), refused);
    assert_eq!(error_kind("l = [ { x = 1, x = 2 } ]"), refused);
    let permissive = parse_str_with_options("o = { i = { x = 1, x = 2 } }", true).unwrap();
    assert_eq!(permissive.get::<u32>(&["o", "i", "x"]), Some(&2));
    let list = parse_str_with_options("l = [ { x = 1, x = 2 } ]", true).unwrap();
    assert_eq!(list.get_value(&["l"]).and_then(|v| v.downcast_ref::<Vec<Value>>()).map(|v| v.len()), Some(1));
}

#[test]
fn error_in_later_field_fails_document() {
    assert_eq!(
        error_kind("a = 1, b = ="),
        ErrorKind::UnexpectedToken { kind_name: "Assign".to_string(), shown: "=".to_string() }
    );
    assert_eq!(
        error_kind("o = { a = 1, b }"),
        ErrorKind::Expected { expected: Expected::Eq, found: "CloseCurly".to_string() }
    );
}

#[test]
fn redefinition_setting_moot_without_repeats() {
    let source = "a = 1, b = { c = 2 }, d = [3]";
    let strict = parse_str(source).unwrap();
    let permissive = parse_str_with_options(source, true).unwrap();
    assert_eq!(strict.get_fields(), permissive.get_fields());
    assert_eq!(strict.get::<u32>(&["b", "c"]), permissive.get::<u32>(&["b", "c"]));
    assert_eq!(strict.get_value(&["d"]), permissive.get_value(&["d"]));
    assert!(!strict.allow_redefinition());
    assert!(permissive.allow_redefinition());
}

#[test]
fn exact_and_converted_getters_agree() {
    let gss = parse_str("n = 7, b = false, s = \"t\", f = 1.5").unwrap();
    for key in ["n", "b", "s", "f"] {
        assert_eq!(gss.get::<u32>(&[key]).copied(), gss.get_as::<u32>(&[key]));
        assert_eq!(gss.get::<bool>(&[key]).copied(), gss.get_as::<bool>(&[key]));
        assert_eq!(gss.get::<String>(&[key]).cloned(), gss.get_as::<String>(&[key]));
    }
}

#[test]
fn relative_dotted_path() {
    let gss = parse_str("o = { p = { q = 3 }, x = .p.q }, y = o.x").unwrap();
    let (_, x) = gss.get_value(&["o"]).and_then(|v| v.downcast_ref::<Object>()).unwrap().field_at(1);
    assert_eq!(x, &Value::Expr(Expr::RelAccess(vec!["p".to_string(), "q".to_string()])));
    assert_eq!(gss.get::<u32>(&["o", "x"]), Some(&3));
    assert_eq!(gss.get::<u32>(&["y"]), Some(&3));
}

#[test]
fn root_references_after_relative_hop() {
    let gss = parse_str("root_val = 42, a = { x = .y, y = root_val },").unwrap();
    assert_eq!(gss.get::<u32>(&["a", "y"]), Some(&42));
    assert_eq!(gss.get::<u32>(&["a", "x"]), Some(&42));
    let gss = parse_str("base = { v = 7 }, a = { x = .y, y = base.v },").unwrap();
    assert_eq!(gss.get::<u32>(&["a", "x"]), Some(&7));
}

#[test]
fn chain_against_default_limit() {
    let mut source = String::from("x0 = 1");
    for i in 1..=20 {
        source.push_str(&format!(", x{} = x{}", i, i - 1));
    }
    let gss = parse_str(&source).unwrap();
    assert_eq!(gss.get::<u32>(&["x19"]), Some(&1));
    assert_eq!(gss.get::<u32>(&["x20"]), None);
}

#[test]
fn lookups_never_give_references() {
    let gss = parse_str("a = b, b = c.d, c = { d = .e, e = 5 }, f = a").unwrap();
    for key in ["a", "b", "f"] {
        assert_eq!(gss.get::<Expr>(&[key]), None);
        assert_eq!(gss.get::<u32>(&[key]), Some(&5));
    }
}
