use sush::elements::substitution::subscript::{Subscript, SubscriptType};
use sush::elements::word::expand_variables;
use sush::error::arith::ArithError;
use sush::error::exec::ExecError;
use sush::error::parse::ParseError;
use sush::feeder::Feeder;
use sush::shell::database::DataBase;
use sush::shell::ShellCore;
use sush::utils::number::IntError;

fn shell() -> ShellCore {
    let mut c = ShellCore::new(DataBase::bare());
    assert_eq!(c.db.set_array("arr", Some(vec!["x".to_string(), "y".to_string()]), None), Ok(()));
    assert_eq!(c.db.set_assoc("hash", None, true), Ok(()));
    assert_eq!(c.db.set_param("i", "1", None), Ok(()));
    assert_eq!(c.db.set_param("k", "key", None), Ok(()));
    c
}

fn parse(text: &str) -> Option<Subscript> {
    let mut f = Feeder::new(text);
    Subscript::parse(&mut f).unwrap()
}

#[test]
fn a_subscript_is_read_with_its_brackets() {
    let mut f = Feeder::new("[1+2]=v");
    let s = Subscript::parse(&mut f).unwrap().unwrap();
    assert_eq!(s.text, "[1+2]");
    assert!(matches!(&s.data, SubscriptType::Arith(a) if a.text == "1+2" && a.elements.len() == 3));
    assert!(f.starts_with("=v"));
    let s = parse("[@]").unwrap();
    assert_eq!(s.text, "[@]");
    assert_eq!(s.data, SubscriptType::Array("@".to_string()));
    assert_eq!(parse("[*]x").unwrap().data, SubscriptType::Array("*".to_string()));
    let s = parse("[ a [x")  ;
    assert_eq!(s, None);
}

#[test]
fn what_is_no_subscript_is_left_alone() {
    for bad in ["", "x[1]", "[1", "[@x]", "[*", "[1 }", "[1:2]", "[", "[(1)"] {
        let mut f = Feeder::new(bad);
        assert_eq!(Subscript::parse(&mut f), Ok(None), "{}", bad);
        assert_eq!(f.len(), bad.chars().count(), "{}", bad);
        assert!(f.starts_with(bad), "{}", bad);
    }
}

#[test]
fn an_expression_that_cannot_be_read_fails() {
    for (bad, rest) in [("[1+(2]", "1+(2]"), ("[(", "("), ("[a?b]", "a?b]"), ("[9999999999999999999999999999999999999999]", "9999999999999999999999999999999999999999]")] {
        let mut f = Feeder::new(bad);
        assert_eq!(
            Subscript::parse(&mut f),
            Err(ParseError::UnexpectedSymbol(rest.to_string())),
            "{}",
            bad
        );
        assert_eq!(f.len(), bad.chars().count(), "{}", bad);
    }
}

#[test]
fn a_wildcard_evaluates_to_itself() {
    let mut c = shell();
    assert_eq!(parse("[@]").unwrap().eval(&mut c, "arr"), Ok("@".to_string()));
    assert_eq!(parse("[*]").unwrap().eval(&mut c, "hash"), Ok("*".to_string()));
    assert_eq!(parse("[*]").unwrap().eval(&mut c, "none"), Ok("*".to_string()));
}

#[test]
fn an_index_of_an_array_is_computed() {
    let mut c = shell();
    assert_eq!(parse("[1+2]").unwrap().eval(&mut c, "arr"), Ok("3".to_string()));
    assert_eq!(parse("[i]").unwrap().eval(&mut c, "arr"), Ok("1".to_string()));
    assert_eq!(parse("[$i * 2]").unwrap().eval(&mut c, "arr"), Ok("2".to_string()));
    assert_eq!(parse("[-1]").unwrap().eval(&mut c, "arr"), Ok("-1".to_string()));
    assert_eq!(parse("[ 7 ]").unwrap().eval(&mut c, "none"), Ok("7".to_string()));
    assert_eq!(parse("[i = i + 1]").unwrap().eval(&mut c, "arr"), Ok("2".to_string()));
    assert_eq!(c.db.get_param("i"), Ok("2".to_string()));
    assert_eq!(
        parse("[1 /0]").unwrap().eval(&mut c, "arr"),
        Err(ExecError::ArithError(String::new(), ArithError::DivZero))
    );
}

#[test]
fn an_empty_subscript_addresses_nothing() {
    let mut c = shell();
    let s = parse("[]").unwrap();
    assert_eq!(s.text, "[]");
    assert_eq!(s.eval(&mut c, "arr"), Err(ExecError::ArrayIndexInvalid(String::new())));
    assert_eq!(s.eval(&mut c, "hash"), Err(ExecError::ArrayIndexInvalid(String::new())));
    let unset = Subscript { text: "[".to_string(), data: SubscriptType::Unset };
    assert_eq!(unset.eval(&mut c, "arr"), Err(ExecError::ArrayIndexInvalid(String::new())));
}

#[test]
fn a_key_of_an_associative_array_is_a_word() {
    let mut c = shell();
    assert_eq!(parse("[k]").unwrap().eval(&mut c, "hash"), Ok("k".to_string()));
    assert_eq!(parse("[$k]").unwrap().eval(&mut c, "hash"), Ok("key".to_string()));
    assert_eq!(parse("[$k $i]").unwrap().eval(&mut c, "hash"), Ok("key 1".to_string()));
    assert_eq!(parse("[1+2]").unwrap().eval(&mut c, "hash"), Ok("1+2".to_string()));
    assert_eq!(parse("[i = 5]").unwrap().eval(&mut c, "hash"), Ok("i = 5".to_string()));
    assert_eq!(c.db.get_param("i"), Ok("1".to_string()));
    assert_eq!(expand_variables("a$k-$none.$", &c.db), "akey-.$");
    assert_eq!(expand_variables("$1 $k$k", &c.db), "$1 keykey");
}

#[test]
fn expanding_once_gives_the_text_as_it_stands() {
    let mut c = shell();
    c.valid_assoc_expand_once = true;
    c.shopts.set("assoc_expand_once", true);
    assert!(c.expand_once());
    let s = parse("[$k]").unwrap();
    assert_eq!(s.eval(&mut c, "hash"), Ok("$k".to_string()));
    assert_eq!(s.eval(&mut c, "hash"), Ok("$k".to_string()));
    assert_eq!(
        s.eval(&mut c, "arr"),
        Err(ExecError::ArithError(
            String::new(),
            ArithError::InvalidNumber("key".to_string(), IntError::InvalidDigit)
        ))
    );
    c.valid_assoc_expand_once = false;
    assert_eq!(s.eval(&mut c, "hash"), Ok("key".to_string()));
    c.valid_assoc_expand_once = true;
    c.shopts.set("assoc_expand_once", false);
    assert_eq!(s.eval(&mut c, "hash"), Ok("key".to_string()));
    assert!(!c.shopts.query("never set"));
}

#[test]
fn reparsing_puts_the_value_in_place_of_the_expression() {
    let mut c = shell();
    let mut s = parse("[1+1]").unwrap();
    assert_eq!(s.reparse(&mut c, "arr"), Ok(()));
    assert_eq!(s.text, "[2]");
    assert_eq!(s.eval(&mut c, "arr"), Ok("2".to_string()));
    let mut w = parse("[@]").unwrap();
    assert_eq!(w.reparse(&mut c, "arr"), Ok(()));
    assert_eq!(w.text, "[@]");
    let mut h = parse("[$k]").unwrap();
    assert_eq!(h.reparse(&mut c, "hash"), Ok(()));
    assert_eq!(h.text, "[key]");
    assert_eq!(c.db.set_param("k", "(", None), Ok(()));
    let mut bad = parse("[$k]").unwrap();
    assert_eq!(bad.reparse(&mut c, "hash"), Err(ExecError::InvalidName("[(]".to_string())));
    assert_eq!(bad.text, "[$k]");
    let mut fails = parse("[1/0]").unwrap();
    assert_eq!(
        fails.reparse(&mut c, "arr"),
        Err(ExecError::ArithError(String::new(), ArithError::DivZero))
    );
    assert_eq!(fails.text, "[1/0]");
}
