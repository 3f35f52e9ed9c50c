use sush::elements::substitution::array::Array;
use sush::elements::substitution::subscript::Subscript;
use sush::elements::subword::process_sub::{ProcessSubstitution, WordMode};
use sush::elements::word::Word;
use sush::error::arith::ArithError;
use sush::error::exec::ExecError;
use sush::error::parse::ParseError;
use sush::feeder::Feeder;
use sush::shell::database::data::Data;
use sush::shell::database::DataBase;
use sush::shell::ShellCore;

fn strings(v: &[&str]) -> Vec<String> {
    v.iter().map(|s| s.to_string()).collect()
}

fn shell() -> ShellCore {
    let mut c = ShellCore::new(DataBase::bare());
    assert_eq!(c.db.set_param("x", "4", None), Ok(()));
    assert_eq!(c.db.set_param("two", "a  b", None), Ok(()));
    c
}

fn literal(text: &str) -> Array {
    let mut f = Feeder::new(text);
    let a = Array::parse(&mut f).unwrap().unwrap();
    assert!(f.is_empty(), "{}", text);
    a
}

fn values(r: Result<Vec<(Option<Subscript>, String)>, ExecError>) -> Vec<(Option<String>, String)> {
    r.unwrap().into_iter().map(|(s, v)| (s.map(|s| s.text), v)).collect()
}

fn plain(v: &[&str]) -> Vec<(Option<String>, String)> {
    v.iter().map(|s| (None, s.to_string())).collect()
}

#[test]
fn the_feeder_hands_out_the_text_in_order() {
    let mut f = Feeder::new("ab cd");
    assert_eq!(f.len(), 5);
    assert!(f.starts_with("ab") && f.starts_with("") && !f.starts_with("b") && !f.starts_with("ab cd "));
    assert!(f.starts_withs(&["x", "ab"]) && !f.starts_withs(&["x", "y"]) && !f.starts_withs(&[]));
    assert_eq!(f.head(), Some('a'));
    assert_eq!(f.scanner_name(), 2);
    assert_eq!(f.consume(2), "ab");
    assert_eq!(f.scanner_name(), 0);
    assert_eq!(f.scanner_blank(), 1);
    assert_eq!(f.consume(1), " ");
    assert_eq!(f.rest(), vec!['c', 'd']);
    assert_eq!(f.consume(0), "");
    assert_eq!(f.consume(2), "cd");
    assert!(f.is_empty());
    assert_eq!(f.head(), None);
    f.rewind(3);
    assert_eq!(f.len(), 2);
    assert_eq!(Feeder::new("_a1-b").scanner_name(), 3);
    assert_eq!(Feeder::new("1a").scanner_name(), 0);
    assert_eq!(Feeder::new(" \t\n x").scanner_blank(), 4);
}

#[test]
fn a_word_ends_at_a_blank_or_a_parenthesis() {
    let mut f = Feeder::new("ab$c d");
    assert_eq!(Word::parse(&mut f), Some(Word { text: "ab$c".to_string() }));
    assert!(f.starts_with(" d"));
    assert_eq!(Word::parse(&mut f), None);
    assert_eq!(f.len(), 2);
    let mut f = Feeder::new("a)b");
    assert_eq!(Word::parse(&mut f).unwrap().text, "a");
    let mut f = Feeder::new("");
    assert_eq!(Word::parse(&mut f), None);
}

#[test]
fn a_word_is_expanded_and_split() {
    let mut c = shell();
    let w = Word { text: "$two-$x".to_string() };
    assert_eq!(w.eval_as_value(&c), "a  b-4");
    assert_eq!(w.eval(&c), strings(&["a", "b-4"]));
    assert_eq!(Word { text: "$none".to_string() }.eval(&c), strings(&[]));
    assert_eq!(Word { text: "plain".to_string() }.eval(&c), strings(&["plain"]));
    assert_eq!(Word { text: "x*2+1".to_string() }.eval_as_integer(&mut c), Ok("9".to_string()));
    assert_eq!(Word { text: "x=7".to_string() }.eval_as_integer(&mut c), Ok("7".to_string()));
    assert_eq!(c.db.get_param("x"), Ok("7".to_string()));
    assert_eq!(
        Word { text: "1]".to_string() }.eval_as_integer(&mut c),
        Err(ExecError::SyntaxError("1]".to_string()))
    );
    assert_eq!(
        Word { text: "(1".to_string() }.eval_as_integer(&mut c),
        Err(ExecError::SyntaxError("(1".to_string()))
    );
    assert_eq!(
        Word { text: "1/0".to_string() }.eval_as_integer(&mut c),
        Err(ExecError::ArithError(String::new(), ArithError::DivZero))
    );
}

#[test]
fn a_literal_is_read_with_its_parentheses() {
    let mut f = Feeder::new("(a  b\n[2]=c [k]=$x) rest");
    let a = Array::parse(&mut f).unwrap().unwrap();
    assert_eq!(a.text, "(a  b\n[2]=c [k]=$x)");
    assert!(f.starts_with(" rest"));
    assert_eq!(a.words.len(), 4);
    assert_eq!(a.words[0], (None, Word { text: "a".to_string() }));
    assert_eq!(a.words[2].0.as_ref().unwrap().text, "[2]");
    assert_eq!(a.words[2].1.text, "c");
    assert_eq!(a.words[3].0.as_ref().unwrap().text, "[k]");
    assert!(a.error_strings.is_empty());
    let empty = literal("()");
    assert!(empty.words.is_empty() && empty.error_strings.is_empty());
    assert_eq!(literal("( )").text, "( )");
    let odd = literal("([1]x [2]= y)");
    assert_eq!(odd.words.len(), 2);
    assert_eq!(odd.words[0], (None, Word { text: "[1]x".to_string() }));
    assert_eq!(odd.words[1], (None, Word { text: "y".to_string() }));
    assert_eq!(odd.error_strings, strings(&[" "]));
}

#[test]
fn what_is_no_literal_is_left_alone() {
    for bad in ["", "a", " (a)", ")"] {
        let mut f = Feeder::new(bad);
        assert_eq!(Array::parse(&mut f), Ok(None), "{}", bad);
        assert_eq!(f.len(), bad.chars().count(), "{}", bad);
    }
    for bad in ["(a b", "(", "(a (b)", "([1]=", "( "] {
        let mut f = Feeder::new(bad);
        assert_eq!(Array::parse(&mut f), Err(ParseError::UnexpectedEof), "{}", bad);
        assert_eq!(f.len(), bad.chars().count(), "{}", bad);
    }
    let mut f = Feeder::new("(a [(1]=b)");
    assert_eq!(Array::parse(&mut f), Err(ParseError::UnexpectedSymbol("(1]=b)".to_string())));
    assert_eq!(f.len(), 10);
}

#[test]
fn stray_characters_make_a_syntax_error() {
    let mut c = shell();
    let a = literal("(a (b) c)");
    assert_eq!(a.error_strings, strings(&["(", ")"]));
    assert_eq!(a.words.len(), 3);
    assert_eq!(a.eval(&mut c, false, false), Err(ExecError::SyntaxError(")".to_string())));
    assert_eq!(a.eval(&mut c, true, false), Err(ExecError::SyntaxError(")".to_string())));
}

#[test]
fn the_values_of_a_literal() {
    let mut c = shell();
    assert_eq!(values(literal("(a $two c)").eval(&mut c, false, false)), plain(&["a", "a", "b", "c"]));
    assert_eq!(values(literal("(a $two c)").eval(&mut c, false, true)), plain(&["a", "a  b", "c"]));
    assert_eq!(values(literal("(1+1 x*2 x+=1)").eval(&mut c, true, false)), plain(&["2", "8", "5"]));
    assert_eq!(c.db.get_param("x"), Ok("5".to_string()));
    assert_eq!(
        values(literal("([3]=c [k]=$x z)").eval(&mut c, false, false)),
        vec![
            (Some("[3]".to_string()), "c".to_string()),
            (Some("[k]".to_string()), "5".to_string()),
            (None, "z".to_string()),
        ]
    );
    assert_eq!(values(literal("()").eval(&mut c, false, false)), plain(&[]));
    assert_eq!(
        literal("(1 2/0 x=9)").eval(&mut c, true, false),
        Err(ExecError::ArithError(String::new(), ArithError::DivZero))
    );
    assert_eq!(c.db.get_param("x"), Ok("5".to_string()));
}

#[test]
fn a_process_substitution_is_read_to_its_closing_parenthesis() {
    let mut f = Feeder::new("<(ls (a) | wc) rest");
    let p = ProcessSubstitution::parse(&mut f, &None).unwrap().unwrap();
    assert_eq!(p.text, "<(ls (a) | wc)");
    assert_eq!(p.get_text(), "<(ls (a) | wc)");
    assert_eq!(p.command, "(ls (a) | wc)");
    assert_eq!(p.direction, '<');
    assert!(f.starts_with(" rest"));
    let mut f = Feeder::new(">(cat)");
    let p = ProcessSubstitution::parse(&mut f, &Some(WordMode::Plain)).unwrap().unwrap();
    assert_eq!(p.direction, '>');
    assert!(f.is_empty());
    for bad in ["<ls)", "(ls)", "<", "", "< (ls)", "=(ls)"] {
        let mut f = Feeder::new(bad);
        assert_eq!(ProcessSubstitution::parse(&mut f, &None), Ok(None), "{}", bad);
        assert_eq!(f.len(), bad.chars().count());
    }
    for bad in ["<(ls", "<(", ">(a (b)"] {
        let mut f = Feeder::new(bad);
        assert_eq!(ProcessSubstitution::parse(&mut f, &None), Err(ParseError::UnexpectedEof), "{}", bad);
        assert_eq!(f.len(), bad.chars().count());
    }
    let mut f = Feeder::new("<(ls)");
    assert_eq!(ProcessSubstitution::parse(&mut f, &Some(WordMode::Arithmetic)), Ok(None));
    assert_eq!(f.len(), 5);
}

#[test]
fn a_process_substitution_becomes_the_path_of_its_pipe() {
    let mut f = Feeder::new("<(ls)");
    let mut p = ProcessSubstitution::parse(&mut f, &None).unwrap().unwrap();
    assert_eq!(p.check(), Ok(()));
    assert_eq!(p.substitute(63), Ok(()));
    assert_eq!(p.text, "/dev/fd/63");
    assert_eq!(p.command, "(ls)");
    let mut f = Feeder::new(">(cat)");
    let mut q = ProcessSubstitution::parse(&mut f, &None).unwrap().unwrap();
    let unsupported = Err(ExecError::Other(">() is not supported yet".to_string()));
    assert_eq!(q.check(), unsupported);
    assert_eq!(q.substitute(5), unsupported);
    assert_eq!(q.text, ">(cat)");
}

#[test]
fn lengths_count_characters_or_elements() {
    let mut db = DataBase::bare();
    assert_eq!(db.set_array("a", Some(strings(&["héllo", "x"])), None), Ok(()));
    assert_eq!(db.init_as_num("n", "-12", None), Ok(()));
    assert_eq!(db.set_assoc("h", None, true), Ok(()));
    assert_eq!(db.set_assoc_elem("h", "k", "val", None), Ok(()));
    assert_eq!(db.set_int_assoc("ih", None), Ok(()));
    assert_eq!(db.set_assoc_elem("ih", "k", "100", None), Ok(()));
    let a = db.get_ref("a").unwrap();
    assert_eq!(a.len(), 2);
    assert_eq!(a.elem_len("0"), Ok(5));
    assert_eq!(a.elem_len("@"), Ok(2));
    assert_eq!(a.elem_len("7"), Ok(0));
    assert_eq!(a.elem_len("x"), Err(ExecError::ArrayIndexInvalid("x".to_string())));
    let n = db.get_ref("n").unwrap();
    assert_eq!(n.len(), 3);
    assert_eq!(n.elem_len("0"), Ok(3));
    assert_eq!(n.elem_len("*"), Ok(3));
    assert_eq!(n.elem_len("1"), Ok(0));
    let h = db.get_ref("h").unwrap();
    assert_eq!(h.len(), 1);
    assert_eq!(h.elem_len("k"), Ok(3));
    assert_eq!(h.elem_len("zz"), Ok(0));
    let ih = db.get_ref("ih").unwrap();
    assert_eq!(ih.elem_len("k"), Ok(3));
    assert_eq!(ih.elem_len("zz"), Ok(1));
    assert_eq!(ih.elem_len("@"), Ok(1));
    assert_eq!(Data::UninitArray.len(), 0);
    assert_eq!(Data::UninitArray.elem_len("@"), Ok(0));
    assert_eq!(Data::Single("abc".to_string()).elem_len("@"), Ok(3));
}

#[test]
fn a_further_line_completes_a_literal() {
    let mut f = Feeder::new("x(a b\n");
    assert_eq!(f.consume(1), "x");
    assert_eq!(Array::parse(&mut f), Err(ParseError::UnexpectedEof));
    f.add_line("c\n");
    assert_eq!(f.len(), 7);
    assert_eq!(Array::parse(&mut f), Err(ParseError::UnexpectedEof));
    f.add_line("[3]=d) rest");
    let a = Array::parse(&mut f).unwrap().unwrap();
    assert_eq!(a.text, "(a b\nc\n[3]=d)");
    assert_eq!(a.words.len(), 4);
    assert_eq!(a.words[2], (None, Word { text: "c".to_string() }));
    assert_eq!(a.words[3].0.as_ref().unwrap().text, "[3]");
    assert!(f.starts_with(" rest"));
    assert_eq!(f.lineno, 1);
    f.add_line("");
    assert!(f.starts_with(" rest"));
    assert_eq!(f.len(), 5);
}
