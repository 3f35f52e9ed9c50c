use sush::elements::substitution::variable::Variable;
use sush::elements::subword::substr::Substr;
use sush::error::arith::ArithError;
use sush::error::exec::ExecError;
use sush::feeder::Feeder;
use sush::shell::database::DataBase;
use sush::shell::ShellCore;

fn strings(v: &[&str]) -> Vec<String> {
    v.iter().map(|s| s.to_string()).collect()
}

fn shell() -> ShellCore {
    let mut c = ShellCore::new(DataBase::bare());
    c.db.position_parameters[0] = strings(&["sh", "a", "b", "c", "d"]);
    assert_eq!(c.db.set_array("arr", Some(strings(&["p", "q", "r"])), None), Ok(()));
    assert_eq!(c.db.set_array_elem("arr", "t", 5, None), Ok(()));
    c
}

fn op(text: &str) -> Substr {
    let mut f = Feeder::new(text);
    let s = Substr::parse(&mut f).unwrap();
    assert!(f.is_empty(), "{}", text);
    s
}

fn named(name: &str) -> Variable {
    Variable { text: name.to_string(), name: name.to_string(), index: None, lineno: 1 }
}

fn cut(text: &str, name: &str, c: &mut ShellCore) -> (Result<(), ExecError>, Vec<String>, String) {
    let mut array = strings(&["before"]);
    let mut out = "before".to_string();
    let r = op(text).set_array(&named(name), &mut array, &mut out, c);
    (r, array, out)
}

#[test]
fn the_operation_is_read_with_its_colons() {
    let mut f = Feeder::new(":1:2}");
    let s = Substr::parse(&mut f).unwrap();
    assert_eq!(s.text, ":1:2");
    assert_eq!(s.get_text(), ":1:2");
    assert_eq!(s.offset.as_ref().unwrap().text, "1");
    assert_eq!(s.length.as_ref().unwrap().text, "2");
    assert!(f.starts_with("}"));
    let s = op(": -2");
    assert_eq!(s.offset.as_ref().unwrap().text, " -2");
    assert_eq!(s.length, None);
    let s = op(":");
    assert_eq!(s.offset.as_ref().unwrap().text, "");
    let s = op(":1:");
    assert_eq!(s.text, ":1:");
    assert_eq!(s.length.as_ref().unwrap().text, "");
    let s = op(":a?1:2:3");
    assert_eq!(s.offset.as_ref().unwrap().text, "a?1:2");
    assert_eq!(s.length.as_ref().unwrap().text, "3");
    assert!(s.has_array_replace());
    let mut f = Feeder::new("x:1");
    assert_eq!(Substr::parse(&mut f), None);
    assert_eq!(f.len(), 3);
    let mut f = Feeder::new(":(1");
    let s = Substr::parse(&mut f).unwrap();
    assert_eq!(s.text, ":");
    assert_eq!(s.offset, None);
    assert!(f.starts_with("(1"));
    let mut f = Feeder::new(":1:(2");
    let s = Substr::parse(&mut f).unwrap();
    assert_eq!(s.text, ":1:");
    assert_eq!(s.length, None);
    assert!(f.starts_with("(2"));
}

#[test]
fn a_range_of_a_text() {
    let mut c = shell();
    assert_eq!(op(":1:2").get("abcdef", &mut c), Ok("bc".to_string()));
    assert_eq!(op(":2").get("abcdef", &mut c), Ok("cdef".to_string()));
    assert_eq!(op(":0").get("abcdef", &mut c), Ok("abcdef".to_string()));
    assert_eq!(op(":6").get("abcdef", &mut c), Ok("".to_string()));
    assert_eq!(op(":10").get("abcdef", &mut c), Ok("".to_string()));
    assert_eq!(op(": -2").get("abcdef", &mut c), Ok("ef".to_string()));
    assert_eq!(op(": -6").get("abcdef", &mut c), Ok("abcdef".to_string()));
    assert_eq!(op(": -7").get("abcdef", &mut c), Ok("".to_string()));
    assert_eq!(op(": -3:2").get("abcdef", &mut c), Ok("de".to_string()));
    assert_eq!(op(":1:100").get("abcdef", &mut c), Ok("bcdef".to_string()));
    assert_eq!(op(":1:0").get("abcdef", &mut c), Ok("".to_string()));
    assert_eq!(op(":1:-1").get("abcdef", &mut c), Ok("".to_string()));
    assert_eq!(op(":1+1:1+1").get("abcdef", &mut c), Ok("cd".to_string()));
    assert_eq!(op(":1:2").get("héllo", &mut c), Ok("él".to_string()));
    assert_eq!(op(":0").get("", &mut c), Ok("".to_string()));
    assert_eq!(op(":n=2:n").get("abcdef", &mut c), Ok("cd".to_string()));
    assert_eq!(c.db.get_param("n"), Ok("2".to_string()));
}

#[test]
fn a_range_of_a_text_needs_its_offset() {
    let mut c = shell();
    let missing = Err(ExecError::ArithError(String::new(), ArithError::OperandExpected(String::new())));
    assert_eq!(op(":").get("abc", &mut c), missing);
    assert_eq!(op("::2").get("abc", &mut c), missing);
    assert_eq!(op(":1:").get("abc", &mut c), missing);
    assert_eq!(
        op(":1/0").get("abc", &mut c),
        Err(ExecError::ArithError(String::new(), ArithError::DivZero))
    );
    assert_eq!(
        op(":1:1/0").get("abc", &mut c),
        Err(ExecError::ArithError(String::new(), ArithError::DivZero))
    );
}

#[test]
fn a_range_of_the_arguments() {
    let mut c = shell();
    assert_eq!(cut(":1:2", "@", &mut c), (Ok(()), strings(&["b", "c"]), "b c".to_string()));
    assert_eq!(cut(": -2", "@", &mut c), (Ok(()), strings(&["c", "d"]), "c d".to_string()));
    assert_eq!(cut(":0", "@", &mut c), (Ok(()), strings(&["a", "b", "c", "d"]), "a b c d".to_string()));
    assert_eq!(cut(":4", "@", &mut c), (Ok(()), strings(&[]), "".to_string()));
    assert_eq!(cut(":9", "@", &mut c), (Ok(()), strings(&[]), "".to_string()));
    assert_eq!(cut(": -5", "@", &mut c), (Ok(()), strings(&[]), "".to_string()));
    assert_eq!(cut(": -4:1", "@", &mut c), (Ok(()), strings(&["a"]), "a".to_string()));
    assert_eq!(cut(":1:0", "@", &mut c), (Ok(()), strings(&[]), "".to_string()));
    assert_eq!(cut(":1:9", "@", &mut c), (Ok(()), strings(&["b", "c", "d"]), "b c d".to_string()));
    assert_eq!(c.db.set_param("IFS", "-", None), Ok(()));
    assert_eq!(cut(":1", "*", &mut c), (Ok(()), strings(&["b", "c", "d"]), "b-c-d".to_string()));
    assert_eq!(cut(":1", "@", &mut c), (Ok(()), strings(&["b", "c", "d"]), "b c d".to_string()));
    assert_eq!(cut(":1:2", "*", &mut c), (Ok(()), strings(&["b", "c"]), "b c".to_string()));
}

#[test]
fn a_range_of_the_arguments_can_fail() {
    let mut c = shell();
    assert_eq!(
        cut(":", "@", &mut c),
        (Err(ExecError::BadSubstitution(String::new())), strings(&["before"]), "before".to_string())
    );
    assert_eq!(
        cut(":1:", "@", &mut c),
        (Err(ExecError::BadSubstitution(String::new())), strings(&["b", "c", "d"]), "before".to_string())
    );
    assert_eq!(
        cut(":1:-1", "@", &mut c),
        (Err(ExecError::SubstringMinus(-1)), strings(&["b", "c", "d"]), "before".to_string())
    );
    assert_eq!(
        cut(":1/0", "@", &mut c),
        (
            Err(ExecError::ArithError(String::new(), ArithError::DivZero)),
            strings(&["a", "b", "c", "d"]),
            "before".to_string()
        )
    );
}

#[test]
fn a_range_of_an_array() {
    let mut c = shell();
    assert_eq!(cut(":0", "arr", &mut c), (Ok(()), strings(&["p", "q", "r", "t"]), "p q r t".to_string()));
    assert_eq!(cut(":1", "arr", &mut c), (Ok(()), strings(&["q", "r", "t"]), "q r t".to_string()));
    assert_eq!(cut(":1:2", "arr", &mut c), (Ok(()), strings(&["q", "r"]), "q r".to_string()));
    assert_eq!(cut(":3", "arr", &mut c), (Ok(()), strings(&["t"]), "t".to_string()));
    assert_eq!(cut(":6", "arr", &mut c), (Ok(()), strings(&[]), "".to_string()));
    assert_eq!(cut(": -1", "arr", &mut c), (Ok(()), strings(&["t"]), "t".to_string()));
    assert_eq!(cut(": -4", "arr", &mut c), (Ok(()), strings(&["r", "t"]), "r t".to_string()));
    assert_eq!(cut(": -7", "arr", &mut c), (Ok(()), strings(&[]), "".to_string()));
    assert_eq!(cut(":0:0", "arr", &mut c), (Ok(()), strings(&[]), "".to_string()));
    assert_eq!(
        cut(":0:-2", "arr", &mut c),
        (Err(ExecError::SubstringMinus(-2)), strings(&["p", "q", "r", "t"]), "before".to_string())
    );
    assert_eq!(
        cut(":", "arr", &mut c),
        (Err(ExecError::BadSubstitution(String::new())), strings(&["before"]), "before".to_string())
    );
    assert_eq!(cut(":0", "none", &mut c), (Ok(()), strings(&[]), "".to_string()));
    assert_eq!(
        cut(":170141183460469231731687303715884105727", "arr", &mut c),
        (Ok(()), strings(&[]), "".to_string())
    );
}
