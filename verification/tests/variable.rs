use sush::elements::substitution::variable::Variable;
use sush::error::exec::ExecError;
use sush::error::parse::ParseError;
use sush::feeder::Feeder;
use sush::shell::database::DataBase;
use sush::shell::ShellCore;
use sush::utils::arg::{consume_option, has_option};
use sush::utils::number::IntError;

fn strings(v: &[&str]) -> Vec<String> {
    v.iter().map(|s| s.to_string()).collect()
}

fn shell() -> ShellCore {
    let mut c = ShellCore::new(DataBase::bare());
    assert_eq!(c.db.set_array("arr", Some(strings(&["x", "y"])), None), Ok(()));
    assert_eq!(c.db.set_assoc("hash", None, true), Ok(()));
    assert_eq!(c.db.set_assoc_elem("hash", "k", "v", None), Ok(()));
    assert_eq!(c.db.set_param("s", "scalar", None), Ok(()));
    c
}

fn var(text: &str) -> Variable {
    let mut f = Feeder::new(text);
    let v = Variable::parse(&mut f).unwrap().unwrap();
    assert!(f.is_empty(), "{}", text);
    v
}

#[test]
fn a_reference_is_a_name_with_or_without_a_subscript() {
    let mut f = Feeder::new("arr[1+1]=val");
    f.lineno = 7;
    let v = Variable::parse(&mut f).unwrap().unwrap();
    assert_eq!(v.name, "arr");
    assert_eq!(v.text, "arr[1+1]");
    assert_eq!(v.index.as_ref().unwrap().text, "[1+1]");
    assert_eq!(v.lineno, 7);
    assert!(f.starts_with("=val"));
    let mut f = Feeder::new("_x9+=1");
    let v = Variable::parse(&mut f).unwrap().unwrap();
    assert_eq!(v.name, "_x9");
    assert_eq!(v.text, "_x9");
    assert_eq!(v.index, None);
    assert!(f.starts_with("+=1"));
    let mut f = Feeder::new("a[1");
    let v = Variable::parse(&mut f).unwrap().unwrap();
    assert_eq!(v.text, "a");
    assert_eq!(v.index, None);
    assert!(f.starts_with("[1"));
    assert_eq!(f.scanner_name(), 0);
}

#[test]
fn what_starts_with_no_name_is_no_reference() {
    for bad in ["", "1x", "[1]", "=", "-a", "$x", "@"] {
        let mut f = Feeder::new(bad);
        assert_eq!(Variable::parse(&mut f), Ok(None), "{}", bad);
        assert_eq!(f.len(), bad.chars().count());
    }
}

#[test]
fn references_to_all_elements_are_arrays() {
    assert!(var("a[@]").is_array());
    assert!(var("a[*]").is_var_array());
    assert!(!var("a[1]").is_array());
    assert!(!var("a").is_array());
    let at = Variable { text: "@".to_string(), name: "@".to_string(), index: None, lineno: 1 };
    assert!(at.is_pos_param_array() && at.is_array() && !at.is_var_array());
    let star = Variable { text: "*".to_string(), name: "*".to_string(), index: None, lineno: 1 };
    assert!(star.is_array());
}

#[test]
fn the_index_of_a_write_depends_on_the_target() {
    let mut c = shell();
    assert_eq!(var("arr[1+1]").get_index(&mut c, false, false), Ok(Some("2".to_string())));
    assert_eq!(var("arr[@]").get_index(&mut c, false, false), Ok(Some("@".to_string())));
    assert_eq!(var("hash[a b]").get_index(&mut c, false, false), Ok(Some("a b".to_string())));
    assert_eq!(
        var("arr[]").get_index(&mut c, false, false),
        Err(ExecError::ArrayIndexInvalid(String::new()))
    );
    assert_eq!(var("arr[ ]").get_index(&mut c, false, false), Ok(Some("0".to_string())));
    assert_eq!(var("arr[ \t]").get_index(&mut c, false, false), Ok(Some("0".to_string())));
    assert_eq!(var("hash[ ]").get_index(&mut c, false, false), Ok(Some(" ".to_string())));
    assert_eq!(var("hash[  ]").get_index(&mut c, false, false), Ok(Some("  ".to_string())));
    assert_eq!(var("arr").get_index(&mut c, false, false), Ok(Some("0".to_string())));
    assert_eq!(var("arr").get_index(&mut c, true, false), Ok(None));
    assert_eq!(var("arr").get_index(&mut c, false, true), Ok(None));
    assert_eq!(var("hash").get_index(&mut c, false, false), Ok(None));
    assert_eq!(var("s").get_index(&mut c, false, false), Ok(None));
    assert_eq!(var("none").get_index(&mut c, false, false), Ok(None));
}

#[test]
fn a_value_is_written_through_a_reference() {
    let mut c = shell();
    assert_eq!(var("s").set_value("new", &mut c), Ok(()));
    assert_eq!(c.db.get_param("s"), Ok("new".to_string()));
    assert_eq!(var("arr[1+2]").set_value("z", &mut c), Ok(()));
    assert_eq!(c.db.get_vec("arr", false), Ok(strings(&["x", "y", "", "z"])));
    assert_eq!(var("arr[-1]").set_value("Z", &mut c), Ok(()));
    assert_eq!(c.db.get_elem("arr", "3"), Ok("Z".to_string()));
    assert_eq!(var("hash[new key]").set_value("nv", &mut c), Ok(()));
    assert_eq!(c.db.get_elem("hash", "new key"), Ok("nv".to_string()));
    assert_eq!(var("fresh[2]").set_value("f", &mut c), Ok(()));
    assert!(c.db.is_array("fresh"));
    assert_eq!(
        var("arr[]").set_value("v", &mut c),
        Err(ExecError::ArrayIndexInvalid(String::new()))
    );
    assert_eq!(var("arr[@]").set_value("v", &mut c), Ok(()));
    assert_eq!(c.db.get_vec("arr", true), Ok(strings(&["x", "y", "Z"])));
}

#[test]
fn a_text_is_read_and_written_in_one_step() {
    let mut c = shell();
    assert_eq!(Variable::parse_and_set("n", "1", &mut c), Ok(()));
    assert_eq!(Variable::parse_and_set("arr[5]", "five", &mut c), Ok(()));
    assert_eq!(c.db.get_param("n"), Ok("1".to_string()));
    assert_eq!(c.db.get_elem("arr", "5"), Ok("five".to_string()));
    for bad in ["", "1n", "a b", "a[", "a[1]x", "a=1", "a[1"] {
        assert_eq!(
            Variable::parse_and_set(bad, "v", &mut c),
            Err(ExecError::InvalidName(bad.to_string())),
            "{}",
            bad
        );
    }
    assert!(!c.db.exist("a"));
    assert_eq!(
        Variable::parse_and_set("a[(1]", "v", &mut c),
        Err(ExecError::ParseError(ParseError::UnexpectedSymbol("(1]".to_string())))
    );
    let mut f = Feeder::new("a[1?2]=v");
    assert_eq!(Variable::parse(&mut f), Err(ParseError::UnexpectedSymbol("1?2]=v".to_string())));
    assert_eq!(f.len(), 8);
}

#[test]
fn options_are_taken_out_of_the_arguments() {
    let mut args = strings(&["declare", "-i", "x", "-i", "-a"]);
    assert!(has_option("-i", &args));
    assert!(consume_option("-i", &mut args));
    assert_eq!(args, strings(&["declare", "x", "-a"]));
    assert!(!consume_option("-i", &mut args));
    assert!(!has_option("-A", &args));
    assert!(consume_option("-a", &mut args));
    assert_eq!(args, strings(&["declare", "x"]));
    let mut none: Vec<String> = vec![];
    assert!(!consume_option("-a", &mut none));
}

#[test]
fn a_declaration_makes_the_kind_that_its_options_ask_for() {
    let mut c = shell();
    let mut args = strings(&["declare", "-a"]);
    assert_eq!(var("na").init_variable(&mut c, None, &mut args), Ok(()));
    assert_eq!(args, strings(&["declare"]));
    assert!(c.db.is_array("na"));
    assert_eq!(c.db.get_vec("na", false), Ok(strings(&[])));

    let mut args = strings(&["-A"]);
    assert_eq!(var("nh").init_variable(&mut c, None, &mut args), Ok(()));
    assert!(args.is_empty());
    assert!(c.db.is_assoc("nh"));

    let mut args = strings(&["-i", "-a"]);
    assert_eq!(var("ni").init_variable(&mut c, None, &mut args), Ok(()));
    assert!(c.db.is_array("ni") && c.db.has_flag("ni", 'i'));

    let mut args = strings(&["-A", "-i"]);
    assert_eq!(var("nj").init_variable(&mut c, None, &mut args), Ok(()));
    assert!(c.db.is_assoc("nj") && c.db.has_flag("nj", 'i'));

    let mut args = strings(&["-i"]);
    assert_eq!(var("num").init_variable(&mut c, None, &mut args), Ok(()));
    assert!(c.db.is_single_num("num"));
    assert_eq!(c.db.get_param("num"), Ok("0".to_string()));

    let mut args = strings(&[]);
    assert_eq!(var("plain").init_variable(&mut c, None, &mut args), Ok(()));
    assert!(c.db.is_single("plain"));
    assert_eq!(c.db.get_param("plain"), Ok("".to_string()));

    let mut args = strings(&[]);
    assert_eq!(var("sub[1]").init_variable(&mut c, None, &mut args), Ok(()));
    assert!(c.db.is_array("sub"));
    let mut args = strings(&["-A"]);
    assert_eq!(var("subh[k]").init_variable(&mut c, None, &mut args), Ok(()));
    assert!(c.db.is_assoc("subh"));
}

#[test]
fn a_declaration_keeps_the_scalar_at_zero() {
    let mut c = shell();
    let mut args = strings(&["-a"]);
    assert_eq!(var("s").init_variable(&mut c, None, &mut args), Ok(()));
    assert!(c.db.is_array("s"));
    assert_eq!(c.db.get_vec("s", false), Ok(strings(&["scalar"])));

    assert_eq!(c.db.set_param("t", "kept", None), Ok(()));
    let mut args = strings(&["-A"]);
    assert_eq!(var("t").init_variable(&mut c, None, &mut args), Ok(()));
    assert!(c.db.is_assoc("t"));
    assert_eq!(c.db.get_elem("t", "0"), Ok("kept".to_string()));

    assert_eq!(c.db.set_param("n", "12", None), Ok(()));
    let mut args = strings(&["-i"]);
    assert_eq!(var("n").init_variable(&mut c, None, &mut args), Ok(()));
    assert!(c.db.is_single_num("n"));
    assert_eq!(c.db.get_param("n"), Ok("12".to_string()));

    assert_eq!(c.db.set_param("w", "word", None), Ok(()));
    let mut args = strings(&["-i"]);
    assert_eq!(
        var("w").init_variable(&mut c, None, &mut args),
        Err(ExecError::ParseInt("word".to_string(), IntError::InvalidDigit))
    );
    let mut args = strings(&["-i", "-a"]);
    assert_eq!(c.db.set_param("m", "5", None), Ok(()));
    assert_eq!(var("m").init_variable(&mut c, None, &mut args), Ok(()));
    assert_eq!(c.db.get_vec("m", false), Ok(strings(&["5"])));
}

#[test]
fn a_declaration_in_a_layer_looks_at_that_layer() {
    let mut c = shell();
    c.db.push_local();
    let mut args = strings(&[]);
    assert_eq!(var("s").init_variable(&mut c, Some(1), &mut args), Ok(()));
    assert!(c.db.params[1].contains_key("s"));
    assert_eq!(c.db.get_param("s"), Ok("".to_string()));
    let mut args = strings(&["-a"]);
    assert_eq!(var("s").init_variable(&mut c, Some(1), &mut args), Ok(()));
    assert_eq!(c.db.get_vec("s", false), Ok(strings(&[""])));
    c.db.pop_local();
    assert_eq!(c.db.get_param("s"), Ok("scalar".to_string()));
    c.db.set_flag("s", 'r', None);
    let mut args = strings(&["-a", "-x"]);
    assert_eq!(
        var("s").init_variable(&mut c, None, &mut args),
        Err(ExecError::ReadOnly("s".to_string()))
    );
    assert_eq!(args, strings(&["-x"]));
}

#[test]
fn a_reference_exists_where_its_target_does() {
    let mut c = shell();
    assert_eq!(var("s").exist(&mut c), Ok(true));
    assert_eq!(var("none").exist(&mut c), Ok(false));
    assert_eq!(var("arr").exist(&mut c), Ok(true));
    assert_eq!(var("arr[1]").exist(&mut c), Ok(true));
    assert_eq!(var("arr[2]").exist(&mut c), Ok(false));
    assert_eq!(var("arr[-1]").exist(&mut c), Ok(true));
    assert_eq!(var("arr[@]").exist(&mut c), Ok(true));
    assert_eq!(var("hash[k]").exist(&mut c), Ok(true));
    assert_eq!(var("hash[z]").exist(&mut c), Ok(false));
    assert_eq!(var("hash").exist(&mut c), Ok(false));
    assert_eq!(var("s[0]").exist(&mut c), Ok(true));
    assert_eq!(var("s[1]").exist(&mut c), Ok(false));
    assert_eq!(c.db.set_array("empty", Some(vec![]), None), Ok(()));
    assert_eq!(var("empty").exist(&mut c), Ok(false));
    assert_eq!(var("empty[@]").exist(&mut c), Ok(false));
    assert_eq!(c.db.unset_array_elem("arr", "0"), Ok(()));
    assert_eq!(var("arr").exist(&mut c), Ok(false));
    assert_eq!(var("arr[-9]").exist(&mut c), Err(ExecError::ArrayIndexInvalid("-9".to_string())));
}
