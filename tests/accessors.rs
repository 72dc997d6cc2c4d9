use symbolic_expressions::parser::parse_str;
use symbolic_expressions::{Sexp, SexpError};

#[test]
fn tag_mismatch_names_both_tags() {
    let e = parse_str("(bar 1 2)").unwrap();
    match e.slice_atom("foo") {
        Err(SexpError::TagMismatch { expected, found }) => {
            assert_eq!(expected, "foo");
            assert_eq!(found, "bar");
        }
        _ => panic!("expected a tag mismatch"),
    }
}

#[test]
fn slice_after_tag() {
    let e = parse_str("(foo 1 (x))").unwrap();
    let rest = e.slice_atom("foo").unwrap();
    assert_eq!(rest.len(), 2);
    assert_eq!(rest[0].string().unwrap(), "1");
    assert!(e.slice_atom_num("foo", 2).is_ok());
    match e.slice_atom_num("foo", 3) {
        Err(SexpError::ArityMismatch { tag, expected, found }) => {
            assert_eq!(tag, "foo");
            assert_eq!(expected, 3);
            assert_eq!(found, 2);
        }
        _ => panic!("expected an arity mismatch"),
    }
    assert!(matches!(e.slice_atom_num("bar", 2), Err(SexpError::TagMismatch { .. })));
}

#[test]
fn scalar_accessors() {
    let e = parse_str("(size 42)").unwrap();
    assert_eq!(e.named_value_i("size").unwrap(), 42);
    assert_eq!(e.named_value_string("size").unwrap(), "42");
    assert_eq!(e.list_name().unwrap(), "size");
    assert_eq!(parse_str("-17").unwrap().i().unwrap(), -17);
    assert_eq!(parse_str("+8").unwrap().i().unwrap(), 8);
    assert!(matches!(parse_str("4x").unwrap().i(), Err(SexpError::Int(_))));
    assert!(matches!(parse_str("99999999999999999999").unwrap().i(), Err(SexpError::Int(_))));
    assert!(matches!(parse_str("(1)").unwrap().i(), Err(SexpError::Other(_))));
}

#[test]
fn shape_errors() {
    let atom = parse_str("x").unwrap();
    assert!(matches!(atom.list(), Err(SexpError::Other(_))));
    let list = parse_str("(x)").unwrap();
    assert!(matches!(list.string(), Err(SexpError::Other(_))));
    assert!(matches!(parse_str("()").unwrap().list_name(), Err(SexpError::Other(_))));
    assert!(matches!(parse_str("(size 1 2)").unwrap().named_value("size"), Err(SexpError::Other(_))));
    assert!(matches!(Sexp::new_empty(), Sexp::Empty));
}

#[test]
fn named_value_with_other_tag() {
    let e = parse_str("(size 42)").unwrap();
    assert!(matches!(e.named_value_i("width"), Err(SexpError::TagMismatch { .. })));
}

#[test]
fn clone_keeps_the_tree() {
    let e = parse_str("(a (b \"c d\") e)").unwrap();
    let c = e.clone();
    assert_eq!(
        symbolic_expressions::ser::to_string(&c).unwrap(),
        symbolic_expressions::ser::to_string(&e).unwrap()
    );
}

struct Pair(i64);

impl symbolic_expressions::IntoSexp for Pair {
    fn into_sexp(&self) -> Sexp {
        Sexp::List(vec![Sexp::String("n".to_string()), Sexp::String(self.0.to_string())])
    }
}

#[test]
fn from_uses_into_sexp() {
    let s = Sexp::from(&Pair(5));
    assert_eq!(s.named_value_i("n").unwrap(), 5);
}
