use symbolic_expressions::formatter::Rules;
use symbolic_expressions::parser;
use symbolic_expressions::ser;
use symbolic_expressions::{Sexp, SexpError};

fn check_parse_res(s: &str, o: &str) {
    let e = parser::parse_str(s).unwrap();
    let t = ser::to_string(&e).unwrap();
    assert_eq!(o, t)
}

fn check_parse(s: &str) {
    let e = parser::parse_str(s).unwrap();
    let t = ser::to_string(&e).unwrap();
    assert_eq!(s, t)
}

fn kicad_test_rules() -> Rules {
    let mut rf = Rules::new();
    rf.insert("layer", 1);
    rf.insert("desc", 1);
    rf.insert("fp_text", 1);
    rf.insert("fp_poly", 1);
    rf.insert("fp_line", 1);
    rf.insert("pad", 1);
    rf.insert("general", 1);
    rf
}

fn check_parse_kicad(s: &str) {
    let e = parser::parse_str(s).unwrap();
    let t = ser::to_string_with_rules(&e, kicad_test_rules()).unwrap();
    assert_eq!(s, t)
}

fn check_parse_rules(s: &str, rules: Rules) {
    let e = parser::parse_str(s).unwrap();
    let t = ser::to_string_with_rules(&e, rules).unwrap();
    assert_eq!(s, t)
}

fn parse_fail(s: &str) {
    parser::parse_str(s).unwrap();
}

#[test]
fn test_qstring1() {
    match parser::parse_str("\"hello world\"").unwrap() {
        Sexp::String(f) => assert_eq!(String::from("hello world"), f),
        _ => panic!("not string"),
    }
}

#[test]
fn test_test_empty() {
    check_parse("")
}

#[test]
fn test_test_empty_qstring() {
    check_parse("(hello \"\")")
}

#[test]
fn test_test_minimal() {
    check_parse("()")
}

#[test]
fn test_test_string() {
    check_parse("hello")
}

#[test]
fn test_test_qstring_a() {
    check_parse_res("\"hello\"", "hello")
}

#[test]
fn test_test_qstring_a2() {
    check_parse("\"hello world\"")
}

#[test]
fn test_test_qstring_a3() {
    check_parse("\"hello(world)\"")
}

#[test]
fn test_test_number() {
    check_parse("1.3")
}

#[test]
fn test_test_float_vs_int() {
    check_parse("2.0")
}

#[test]
fn test_test_double() {
    check_parse("(())")
}

#[test]
fn test_test_br_string() {
    check_parse("(world)")
}

#[test]
fn test_test_br_qstring() {
    check_parse_res("(\"world\")", "(world)")
}

#[test]
fn test_test_br_int() {
    check_parse("(42)")
}

#[test]
fn test_test_br_float() {
    check_parse("(12.7)")
}

#[test]
fn test_test_br_qbrstring() {
    check_parse("(\"(()\")")
}

#[test]
fn test_test_number_string() {
    check_parse("567A_WZ")
}

#[test]
#[should_panic(expected = "End of file reached")]
fn test_test_invalid1() {
    parse_fail("(")
}

#[test]
#[should_panic(expected = "Unexpected )")]
fn test_test_invalid2() {
    parse_fail(")")
}

#[test]
#[should_panic(expected = "End of file reached")]
fn test_test_invalid3() {
    parse_fail("\"hello")
}

#[test]
#[should_panic(expected = "line: 4, col: 5")]
fn test_invalid_check_position() {
    parse_fail("\"hello


    ")
}

#[test]
fn test_test_complex() {
    check_parse("(module SWITCH_3W_SIDE_MMP221-R (layer F.Cu) (descr \"\") (pad 1 thru_hole rect \
                 (size 1.2 1.2) (at -2.5 -1.6 0) (layers *.Cu *.Mask) (drill 0.8)) (pad 2 \
                 thru_hole rect (size 1.2 1.2) (at 0.0 -1.6 0) (layers *.Cu *.Mask) (drill 0.8)) \
                 (pad 3 thru_hole rect (size 1.2 1.2) (at 2.5 -1.6 0) (layers *.Cu *.Mask) (drill \
                 0.8)) (pad 5 thru_hole rect (size 1.2 1.2) (at 0.0 1.6 0) (layers *.Cu *.Mask) \
                 (drill 0.8)) (pad 6 thru_hole rect (size 1.2 1.2) (at -2.5 1.6 0) (layers *.Cu \
                 *.Mask) (drill 0.8)) (pad 4 thru_hole rect (size 1.2 1.2) (at 2.5 1.6 0) (layers \
                 *.Cu *.Mask) (drill 0.8)) (fp_line (start -4.5 -1.75) (end 4.5 -1.75) (layer \
                 F.SilkS) (width 0.127)) (fp_line (start 4.5 -1.75) (end 4.5 1.75) (layer \
                 F.SilkS) (width 0.127)) (fp_line (start 4.5 1.75) (end -4.5 1.75) (layer \
                 F.SilkS) (width 0.127)) (fp_line (start -4.5 1.75) (end -4.5 -1.75) (layer \
                 F.SilkS) (width 0.127)))")
}

#[test]
fn test_kicad_1() {
    check_parse_kicad("(module SILABS_EFM32_QFM24
  (layer F.Cu))")
}

#[test]
fn test_test_multiline() {
    let mut rules = Rules::new();
    rules.insert("foo", 1);
    rules.insert("mars", 1);
    check_parse_rules("\
(hello \"test it\"
  (foo bar)
  (mars venus))",
                      rules)
}

#[test]
fn test_test_multiline_two_empty() {
    check_parse_res("\
(hello

world)",
                    "(hello world)")
}

#[test]
fn test_test_fail_pcb() {
    check_parse_kicad("\
(kicad_pcb (version 4) (host pcbnew \"(2015-05-31 BZR 5692)-product\")
  \
                       (general))")
}

#[test]
fn lib_test_empty() {
    check_parse("")
}

#[test]
fn lib_test_empty_qstring() {
    check_parse("(hello \"\")")
}

#[test]
fn lib_test_minimal() {
    check_parse("()")
}

#[test]
fn lib_test_string() {
    check_parse("hello")
}

#[test]
fn lib_test_qstring_a() {
    check_parse_res("\"hello\"", "hello")
}

#[test]
fn lib_test_qstring_a2() {
    check_parse("\"hello world\"")
}

#[test]
fn lib_test_qstring_a3() {
    check_parse("\"hello(world)\"")
}

#[test]
fn lib_test_number() {
    check_parse("1.3")
}

#[test]
fn lib_test_float_vs_int() {
    check_parse("2.0")
}

#[test]
fn lib_test_double() {
    check_parse("(())")
}

#[test]
fn lib_test_br_string() {
    check_parse("(world)")
}

#[test]
fn lib_test_br_qstring() {
    check_parse_res("(\"world\")", "(world)")
}

#[test]
fn lib_test_br_int() {
    check_parse("(42)")
}

#[test]
fn lib_test_br_float() {
    check_parse("(12.7)")
}

#[test]
fn lib_test_br_qbrstring() {
    check_parse("(\"(()\")")
}

#[test]
fn lib_test_number_string() {
    check_parse("567A_WZ")
}

#[test]
fn lib_test_complex() {
    check_parse("(module SWITCH_3W_SIDE_MMP221-R (layer F.Cu) (descr \"\") (pad 1 thru_hole rect (size 1.2 1.2) (at -2.5 -1.6 0) (layers *.Cu *.Mask) (drill 0.8)) (pad 2 thru_hole rect (size 1.2 1.2) (at 0.0 -1.6 0) (layers *.Cu *.Mask) (drill 0.8)) (pad 3 thru_hole rect (size 1.2 1.2) (at 2.5 -1.6 0) (layers *.Cu *.Mask) (drill 0.8)) (pad 5 thru_hole rect (size 1.2 1.2) (at 0.0 1.6 0) (layers *.Cu *.Mask) (drill 0.8)) (pad 6 thru_hole rect (size 1.2 1.2) (at -2.5 1.6 0) (layers *.Cu *.Mask) (drill 0.8)) (pad 4 thru_hole rect (size 1.2 1.2) (at 2.5 1.6 0) (layers *.Cu *.Mask) (drill 0.8)) (fp_line (start -4.5 -1.75) (end 4.5 -1.75) (layer F.SilkS) (width 0.127)) (fp_line (start 4.5 -1.75) (end 4.5 1.75) (layer F.SilkS) (width 0.127)) (fp_line (start 4.5 1.75) (end -4.5 1.75) (layer F.SilkS) (width 0.127)) (fp_line (start -4.5 1.75) (end -4.5 -1.75) (layer F.SilkS) (width 0.127)))")
}

#[test]
fn parse_error_position_on_third_line() {
    match parser::parse_str("(a\n  (b\n   \"cd") {
        Err(SexpError::Parse(pe)) => {
            assert_eq!(pe.msg, "End of file reached");
            assert_eq!(pe.line, 3);
            assert_eq!(pe.col, 7);
        }
        _ => panic!("expected a parse error"),
    }
}

#[test]
fn parse_error_unexpected_close_position() {
    match parser::parse_str("  )") {
        Err(SexpError::Parse(pe)) => {
            assert_eq!(pe.msg, "Unexpected )");
            assert_eq!(pe.line, 1);
            assert_eq!(pe.col, 3);
        }
        _ => panic!("expected a parse error"),
    }
}

#[test]
fn empty_text_is_empty_value() {
    assert!(matches!(parser::parse_str("").unwrap(), Sexp::Empty));
    assert_eq!(ser::to_string(&Sexp::Empty).unwrap(), "");
}

#[test]
fn rendered_tree_parses_back() {
    let t = Sexp::List(vec![
        Sexp::String("a".to_string()),
        Sexp::String("b c".to_string()),
        Sexp::String("".to_string()),
        Sexp::List(vec![Sexp::String("d".to_string()), Sexp::String("x)".to_string())]),
    ]);
    let text = ser::to_string(&t).unwrap();
    assert_eq!(text, "(a \"b c\" \"\" (d \"x)\"))");
    let back = parser::parse_str(&text).unwrap();
    assert_eq!(ser::to_string(&back).unwrap(), text);
    let again = ser::to_string(&parser::parse_str(&ser::to_string(&back).unwrap()).unwrap()).unwrap();
    assert_eq!(again, text);
}

#[test]
fn rules_keep_arity_inline() {
    let mut rules = Rules::new();
    rules.insert("pad", 1);
    let text = "(footprint\n  (pad 1\n    (at 0 0)\n    (size 2 2)))";
    check_parse_rules(text, rules);
}

#[test]
fn rules_replace_earlier_entry() {
    let mut rules = Rules::new();
    rules.insert("pad", 1);
    rules.insert("pad", 3);
    rules.insert("at", 0);
    assert_eq!(rules.get("pad"), Some(3));
    assert_eq!(rules.get("at"), Some(0));
    assert_eq!(rules.get("size"), None);
}

#[test]
fn quoting_of_atoms() {
    assert_eq!(symbolic_expressions::display_string("abc"), "abc");
    assert_eq!(symbolic_expressions::display_string("a b"), "\"a b\"");
    assert_eq!(symbolic_expressions::display_string("a)"), "\"a)\"");
    assert_eq!(symbolic_expressions::display_string("(a"), "\"(a\"");
    assert_eq!(symbolic_expressions::display_string(""), "\"\"");
}

#[test]
fn quoted_atom_loses_quotes_on_parse() {
    check_parse_res("\"plain\"", "plain");
    check_parse("\"two words\"");
}

#[test]
fn trailing_space_before_close() {
    check_parse_res("(a b   \n )", "(a b)");
}
