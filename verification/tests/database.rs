use sush::error::exec::ExecError;
use sush::shell::database::database_dynamic::real_time_text;
use sush::shell::database::database_setter::{initialize, initialize_with};
use sush::shell::database::DataBase;
use sush::utils::number::IntError;

fn strings(v: &[&str]) -> Vec<String> {
    v.iter().map(|s| s.to_string()).collect()
}

fn text(s: &str) -> Result<String, ExecError> {
    Ok(s.to_string())
}

fn flags_of(db: &DataBase, layer: usize, name: &str) -> Option<String> {
    db.param_options[layer].get(name).cloned()
}

#[test]
fn a_bare_store_holds_nothing() {
    let db = DataBase::bare();
    assert_eq!(db.get_layer_num(), 1);
    assert_eq!(db.get_param("x"), text(""));
    assert!(!db.exist("x"));
    assert!(!db.is_array("x") && !db.is_assoc("x") && !db.is_single("x"));
    assert_eq!(db.get_param("-"), text("B"));
    assert_eq!(db.get_param("?"), text("0"));
    assert_eq!(db.get_param("#"), text("0"));
}

#[test]
fn a_scalar_reads_as_it_was_written() {
    let mut db = DataBase::bare();
    assert_eq!(db.set_param("x", "hello world", None), Ok(()));
    assert_eq!(db.get_param("x"), text("hello world"));
    assert!(db.exist("x") && db.is_single("x"));
    assert_eq!(db.set_param("x", "", None), Ok(()));
    assert_eq!(db.get_param("x"), text(""));
    assert_eq!(db.set_param("_y9", "é", None), Ok(()));
    assert_eq!(db.get_param("_y9"), text("é"));
}

#[test]
fn the_lowercase_flag_lowers_what_is_written() {
    let mut db = DataBase::bare();
    db.set_flag("x", 'l', None);
    assert!(db.has_flag("x", 'l'));
    assert_eq!(db.set_param("x", "HeLLo ÀB", None), Ok(()));
    assert_eq!(db.get_param("x"), text("hello àb"));
    assert_eq!(db.append_param("x", "XyZ", None), Ok(()));
    assert_eq!(db.get_param("x"), text("hello àbxyz"));
    assert_eq!(db.set_array("a", Some(strings(&["AB", "cD"])), None), Ok(()));
    assert_eq!(db.get_elem("a", "1"), text("cD"));
    db.set_flag("a", 'l', Some(0));
    assert_eq!(db.set_array("a", Some(strings(&["AB", "cD"])), None), Ok(()));
    assert_eq!(db.get_elem("a", "1"), text("cd"));
    assert_eq!(db.set_array_elem("a", "EF", 2, None), Ok(()));
    assert_eq!(db.get_elem("a", "2"), text("ef"));
}

#[test]
fn a_readonly_parameter_refuses_every_write() {
    let mut db = DataBase::bare();
    assert_eq!(db.set_param("x", "1", None), Ok(()));
    db.set_flag("x", 'r', None);
    assert!(db.is_readonly("x"));
    let refused = Err(ExecError::ReadOnly("x".to_string()));
    assert_eq!(db.exit_status, 0);
    assert_eq!(db.set_param("x", "2", None), refused);
    assert_eq!(db.exit_status, 1);
    assert_eq!(db.append_param("x", "2", None), refused);
    assert_eq!(db.set_array_elem("x", "2", 0, None), refused);
    assert_eq!(db.append_to_array_elem("x", "2", 0, None), refused);
    assert_eq!(db.set_assoc_elem("x", "k", "2", None), refused);
    assert_eq!(db.append_to_assoc_elem("x", "k", "2", None), refused);
    assert_eq!(db.set_array("x", None, None), refused);
    assert_eq!(db.set_int_array("x", None, None), refused);
    assert_eq!(db.set_int_assoc("x", None), refused);
    assert_eq!(db.set_assoc("x", None, true), refused);
    assert_eq!(db.init_as_num("x", "3", None), refused);
    assert_eq!(db.set_param2("x", "1", "2", None), refused);
    assert_eq!(db.append_param2("x", "", "2", None), refused);
    assert_eq!(db.get_param("x"), text("1"));
    assert!(db.is_single("x"));
    assert_eq!(flags_of(&db, 0, "x"), Some("r".to_string()));
    db.exit_status = 0;
    db.init("x", 0);
    assert_eq!(db.exit_status, 1);
    assert_eq!(db.get_param("x"), text("1"));
}

#[test]
fn unset_refuses_a_readonly_parameter() {
    let mut db = DataBase::bare();
    db.set_flag("x", 'x', None);
    assert_eq!(db.set_param("x", "1", None), Ok(()));
    assert_eq!(db.set_array("a", Some(strings(&["p", "q"])), None), Ok(()));
    db.functions.insert("x", "body".to_string());
    db.set_flag("x", 'r', None);
    db.set_flag("a", 'r', None);
    let refused = Err(ExecError::ReadOnly("x".to_string()));
    assert_eq!(db.exit_status, 0);
    assert_eq!(db.unset_var("x"), refused);
    assert_eq!(db.exit_status, 1);
    assert_eq!(db.unset("x"), refused);
    assert_eq!(db.unset_array_elem("x", "0"), refused);
    assert_eq!(db.unset_array_elem("a", "1"), Err(ExecError::ReadOnly("a".to_string())));
    assert_eq!(db.unset_array_elem("a", "@"), Err(ExecError::ReadOnly("a".to_string())));
    assert!(db.exist("x"));
    assert!(db.is_readonly("x"));
    assert_eq!(db.get_param("x"), text("1"));
    assert_eq!(db.env_get("x"), Some("1".to_string()));
    assert_eq!(flags_of(&db, 0, "x"), Some("xr".to_string()));
    assert!(db.functions.contains_key("x"));
    assert_eq!(db.get_vec("a", false), Ok(strings(&["p", "q"])));
    assert_eq!(db.set_param("y", "2", None), Ok(()));
    assert_eq!(db.unset_var("y"), Ok(()));
    assert!(!db.exist("y"));
}

#[test]
fn a_text_that_is_no_name_is_refused() {
    let mut db = DataBase::bare();
    for bad in ["", "1x", "a-b", "a b", "a[1]", "$$"] {
        let refused = Err(ExecError::InvalidName(bad.to_string()));
        assert_eq!(db.set_param(bad, "v", None), refused);
        assert_eq!(db.set_array(bad, None, None), refused);
        assert_eq!(db.init_as_num(bad, "1", None), refused);
        assert_eq!(db.get_param(bad), Err(ExecError::InvalidName(bad.to_string())));
    }
    assert_eq!(db.exit_status, 0);
    assert_eq!(DataBase::name_check("ok"), Ok(()));
}

#[test]
fn a_local_write_lives_in_its_layer() {
    let mut db = DataBase::bare();
    assert_eq!(db.set_param("g", "global", None), Ok(()));
    db.push_local();
    assert_eq!(db.get_layer_num(), 2);
    assert_eq!(db.set_param("x", "1", Some(1)), Ok(()));
    assert_eq!(db.set_param("g", "local", Some(1)), Ok(()));
    assert!(db.params[1].contains_key("x"));
    assert!(!db.params[0].contains_key("x"));
    assert_eq!(db.get_layer_pos("x"), Some(1));
    assert_eq!(db.get_layer_pos("g"), Some(1));
    assert_eq!(db.get_param("x"), text("1"));
    assert_eq!(db.get_param("g"), text("local"));
    db.pop_local();
    assert_eq!(db.get_layer_num(), 1);
    assert!(!db.exist("x"));
    assert_eq!(db.get_param("x"), text(""));
    assert_eq!(db.get_param("g"), text("global"));
}

#[test]
fn an_unqualified_write_finds_its_layer() {
    let mut db = DataBase::bare();
    db.push_local();
    assert_eq!(db.solve_layer("new"), 0);
    assert_eq!(db.get_target_layer("new", None), 0);
    assert_eq!(db.get_target_layer("new", Some(1)), 1);
    assert_eq!(db.get_layer_pos("new"), None);
    assert_eq!(db.set_param("new", "v", None), Ok(()));
    assert!(db.params[0].contains_key("new"));
    assert_eq!(db.set_param("loc", "a", Some(1)), Ok(()));
    assert_eq!(db.solve_layer("loc"), 1);
    assert_eq!(db.set_param("loc", "b", None), Ok(()));
    assert!(!db.params[0].contains_key("loc"));
    assert_eq!(db.get_param("loc"), text("b"));
    db.pop_local();
    assert_eq!(db.get_param("new"), text("v"));
    assert_eq!(db.get_param("loc"), text(""));
}

#[test]
fn a_new_layer_copies_the_flags() {
    let mut db = DataBase::bare();
    db.set_flag("x", 'r', None);
    db.push_local();
    assert_eq!(flags_of(&db, 1, "x"), Some("r".to_string()));
    db.set_flag("y", 'x', Some(1));
    assert!(db.has_flag("y", 'x'));
    assert_eq!(flags_of(&db, 0, "y"), None);
    db.pop_local();
    assert!(!db.has_flag("y", 'x'));
    assert!(db.has_flag("x", 'r'));
}

#[test]
fn an_array_reads_by_position_and_as_a_whole() {
    let mut db = DataBase::bare();
    assert_eq!(db.set_array("a", Some(strings(&["x", "y", "z"])), None), Ok(()));
    assert!(db.is_array("a") && !db.is_single("a"));
    assert_eq!(db.get_param("a"), text("x"));
    assert_eq!(db.get_elem("a", "0"), text("x"));
    assert_eq!(db.get_elem("a", "2"), text("z"));
    assert_eq!(db.get_elem("a", "-1"), text("z"));
    assert_eq!(db.get_elem("a", "5"), text(""));
    assert_eq!(db.get_elem("a", "@"), text("x y z"));
    assert_eq!(db.get_elem("a", "*"), text("xyz"));
    assert_eq!(db.set_param("IFS", ":,", None), Ok(()));
    assert_eq!(db.get_ifs_head(), ":");
    assert_eq!(db.get_elem("a", "*"), text("x:y:z"));
    assert_eq!(db.get_elem("a", "-4"), Err(ExecError::ArrayIndexInvalid("-4".to_string())));
    assert_eq!(db.get_elem("a", "k"), Err(ExecError::ArrayIndexInvalid("k".to_string())));
    assert_eq!(db.get_elem("none", "0"), text(""));
    assert_eq!(db.get_vec("a", false), Ok(strings(&["x", "y", "z"])));
    assert_eq!(db.get_vec_from("a", 1, true), Ok(strings(&["y", "z"])));
    assert_eq!(db.index_based_len("a"), 3);
    assert_eq!(db.get_indexes_all("a"), strings(&["0", "1", "2"]));
    assert_eq!(db.has_key("a", "1"), Ok(true));
    assert_eq!(db.has_key("a", "3"), Ok(false));
    assert_eq!(db.has_key("none", "0"), Ok(false));
}

#[test]
fn a_scalar_write_to_an_array_lands_at_zero() {
    let mut db = DataBase::bare();
    assert_eq!(db.set_array("a", Some(strings(&["x", "y"])), None), Ok(()));
    assert_eq!(db.set_param("a", "new", None), Ok(()));
    assert!(db.is_array("a"));
    assert_eq!(db.get_vec("a", false), Ok(strings(&["new", "y"])));
    assert_eq!(db.append_param("a", "er", None), Ok(()));
    assert_eq!(db.get_vec("a", false), Ok(strings(&["newer", "y"])));
    assert_eq!(db.get_param("a"), text("newer"));
}

#[test]
fn indexed_writes_change_one_position() {
    let mut db = DataBase::bare();
    assert_eq!(db.set_array("a", Some(strings(&["x", "y", "z"])), None), Ok(()));
    assert_eq!(db.set_array_elem("a", "Y", 1, None), Ok(()));
    assert_eq!(db.get_vec("a", false), Ok(strings(&["x", "Y", "z"])));
    assert_eq!(db.set_array_elem("a", "Z", -1, None), Ok(()));
    assert_eq!(db.get_vec("a", false), Ok(strings(&["x", "Y", "Z"])));
    assert_eq!(db.set_array_elem("a", "far", 7, None), Ok(()));
    assert_eq!(db.get_vec("a", true), Ok(strings(&["x", "Y", "Z", "far"])));
    assert_eq!(db.get_vec("a", false), Ok(strings(&["x", "Y", "Z", "", "", "", "", "far"])));
    assert_eq!(db.index_based_len("a"), 8);
    assert_eq!(db.set_array_elem("a", "w", -8, None), Ok(()));
    assert_eq!(db.get_elem("a", "0"), text("w"));
    assert_eq!(
        db.set_array_elem("a", "w", -9, None),
        Err(ExecError::ArrayIndexInvalid("-9".to_string()))
    );
    assert_eq!(db.get_vec("a", true), Ok(strings(&["w", "Y", "Z", "far"])));
    assert_eq!(db.append_to_array_elem("a", "!", 1, None), Ok(()));
    assert_eq!(db.append_to_array_elem("a", "n", 2, None), Ok(()));
    assert_eq!(db.get_vec("a", true), Ok(strings(&["w", "Y!", "Zn", "far"])));
}

#[test]
fn an_indexed_write_promotes_what_is_no_array() {
    let mut db = DataBase::bare();
    assert_eq!(db.set_array_elem("fresh", "v", 2, None), Ok(()));
    assert!(db.is_array("fresh"));
    assert_eq!(db.get_indexes_all("fresh"), strings(&["2"]));

    assert_eq!(db.set_param("s", "old", None), Ok(()));
    assert_eq!(db.set_array_elem("s", "new", 1, None), Ok(()));
    assert!(db.is_array("s"));
    assert_eq!(db.get_vec("s", false), Ok(strings(&["old", "new"])));

    assert_eq!(db.set_param("e", "", None), Ok(()));
    assert_eq!(db.set_array_elem("e", "new", 1, None), Ok(()));
    assert_eq!(db.get_indexes_all("e"), strings(&["1"]));

    assert_eq!(db.set_param("t", "old", None), Ok(()));
    assert_eq!(db.append_to_array_elem("t", "new", 0, None), Ok(()));
    assert_eq!(db.get_vec("t", false), Ok(strings(&["oldnew"])));
    assert_eq!(db.append_to_array_elem("fresh2", "v", 1, None), Ok(()));
    assert_eq!(db.get_indexes_all("fresh2"), strings(&["1"]));

    assert_eq!(db.set_param("neg", "old", None), Ok(()));
    assert_eq!(
        db.set_array_elem("neg", "new", -3, None),
        Err(ExecError::ArrayIndexInvalid("-3".to_string()))
    );
    assert!(db.is_array("neg"));
    assert_eq!(db.get_vec("neg", false), Ok(strings(&["old"])));
}

#[test]
fn a_declared_array_behaves_like_an_empty_one_once_written() {
    let mut declared = DataBase::bare();
    assert_eq!(declared.set_array("a", None, None), Ok(()));
    assert!(declared.is_array("a"));
    assert_eq!(declared.get_vec("a", false), Ok(strings(&[])));
    assert_eq!(declared.get_param("a"), text(""));
    let mut created = DataBase::bare();
    assert_eq!(created.set_array("a", Some(strings(&[])), None), Ok(()));
    for (db, label) in [(&mut declared, "declared"), (&mut created, "created")] {
        assert_eq!(db.set_array_elem("a", "one", 3, None), Ok(()), "{}", label);
        assert_eq!(db.set_array_elem("a", "two", -1, None), Ok(()), "{}", label);
        assert_eq!(db.set_array_elem("a", "three", 0, None), Ok(()), "{}", label);
    }
    assert_eq!(declared.get_vec("a", false), created.get_vec("a", false));
    assert_eq!(declared.get_indexes_all("a"), strings(&["0", "3"]));
    assert_eq!(declared.get_vec("a", true), Ok(strings(&["three", "two"])));

    let mut db = DataBase::bare();
    assert_eq!(db.set_array("u", None, None), Ok(()));
    assert_eq!(db.set_param("u", "v", None), Ok(()));
    assert_eq!(db.get_vec("u", false), Ok(strings(&["v"])));
    let mut db = DataBase::bare();
    assert_eq!(db.set_array("u", None, None), Ok(()));
    assert_eq!(db.append_param("u", "v", None), Err(ExecError::Other("not an array".to_string())));
}

#[test]
fn an_associative_array_reads_by_key() {
    let mut db = DataBase::bare();
    assert_eq!(db.set_assoc("h", None, true), Ok(()));
    assert!(db.is_assoc("h") && !db.is_array("h"));
    assert_eq!(db.set_assoc_elem("h", "k 1", "v1", None), Ok(()));
    assert_eq!(db.set_assoc_elem("h", "-1", "v2", None), Ok(()));
    assert_eq!(db.get_elem("h", "k 1"), text("v1"));
    assert_eq!(db.get_elem("h", "-1"), text("v2"));
    assert_eq!(db.get_elem("h", "nope"), text(""));
    assert_eq!(db.get_elem("h", "@"), text("v1 v2"));
    assert_eq!(db.get_indexes_all("h"), strings(&["k 1", "-1"]));
    assert_eq!(db.append_to_assoc_elem("h", "k 1", "+", None), Ok(()));
    assert_eq!(db.append_to_assoc_elem("h", "new", "n", None), Ok(()));
    assert_eq!(db.get_vec("h", false), Ok(strings(&["v1+", "v2", "n"])));
    assert_eq!(db.set_param("h", "zero", None), Ok(()));
    assert!(db.is_assoc("h"));
    assert_eq!(db.get_elem("h", "0"), text("zero"));
    assert_eq!(db.get_param("h"), text("zero"));
    assert_eq!(db.has_key("h", "new"), Ok(true));
    assert_eq!(db.has_key("h", "gone"), Ok(false));
    assert_eq!(db.set_array_elem("h", "as key", 5, None), Ok(()));
    assert_eq!(db.get_elem("h", "5"), text("as key"));
}

#[test]
fn an_associative_write_makes_the_array_it_needs() {
    let mut db = DataBase::bare();
    assert!(!db.exist("h"));
    assert_eq!(db.set_assoc_elem("h", "k", "v", None), Ok(()));
    assert!(db.is_assoc("h"));
    assert_eq!(db.get_indexes_all("h"), strings(&["k"]));
    assert_eq!(db.get_vec("h", false), Ok(strings(&["v"])));
    assert_eq!(db.get_elem("h", "k"), text("v"));
    assert_eq!(db.append_to_assoc_elem("g", "k", "v", None), Ok(()));
    assert!(db.is_assoc("g"));
    assert_eq!(db.get_indexes_all("g"), strings(&["k"]));
    assert_eq!(db.append_to_assoc_elem("g", "k", "w", None), Ok(()));
    assert_eq!(db.get_vec("g", false), Ok(strings(&["vw"])));
    assert_eq!(db.set_assoc("d", None, false), Ok(()));
    assert!(db.is_assoc("d"));
    assert_eq!(db.get_vec("d", false), Ok(strings(&[])));
    assert_eq!(db.append_to_assoc_elem("d", "k", "v", None), Ok(()));
    assert_eq!(db.get_elem("d", "k"), text("v"));
    assert_eq!(db.set_assoc("e", None, false), Ok(()));
    assert_eq!(db.set_assoc_elem("e", "k", "v", None), Ok(()));
    assert_eq!(db.get_vec("e", false), Ok(strings(&["v"])));
}

#[test]
fn an_associative_write_keeps_a_scalar_under_zero() {
    let mut db = DataBase::bare();
    assert_eq!(db.set_param("s", "scalar", None), Ok(()));
    assert_eq!(db.set_assoc_elem("s", "k", "v", None), Ok(()));
    assert!(db.is_assoc("s"));
    assert_eq!(db.get_indexes_all("s"), strings(&["0", "k"]));
    assert_eq!(db.get_vec("s", false), Ok(strings(&["scalar", "v"])));
    assert_eq!(db.get_param("s"), text("scalar"));
    assert_eq!(db.set_param("t", "ab", None), Ok(()));
    assert_eq!(db.append_to_assoc_elem("t", "0", "cd", None), Ok(()));
    assert_eq!(db.get_indexes_all("t"), strings(&["0"]));
    assert_eq!(db.get_param("t"), text("abcd"));
    assert_eq!(db.set_param("u", "", None), Ok(()));
    assert_eq!(db.set_assoc_elem("u", "k", "v", None), Ok(()));
    assert_eq!(db.get_vec("u", false), Ok(strings(&["", "v"])));
}

#[test]
fn an_associative_write_to_an_integer_name_makes_integers() {
    let mut db = DataBase::bare();
    db.set_flag("n", 'i', None);
    assert_eq!(db.set_assoc_elem("n", "k", "12", None), Ok(()));
    assert!(db.is_assoc("n"));
    assert_eq!(db.append_to_assoc_elem("n", "k", "30", None), Ok(()));
    assert_eq!(db.get_elem("n", "k"), text("42"));
    assert_eq!(
        db.set_assoc_elem("n", "j", "word", None),
        Err(ExecError::ParseInt("word".to_string(), IntError::InvalidDigit))
    );
    assert_eq!(db.get_indexes_all("n"), strings(&["k"]));
    assert_eq!(db.init_as_num("m", "7", None), Ok(()));
    assert_eq!(db.set_assoc_elem("m", "k", "8", None), Ok(()));
    assert_eq!(db.get_indexes_all("m"), strings(&["0", "k"]));
    assert_eq!(db.get_vec("m", false), Ok(strings(&["7", "8"])));
    assert_eq!(db.set_param("w", "word", None), Ok(()));
    db.set_flag("w", 'i', None);
    assert_eq!(
        db.set_assoc_elem("w", "k", "8", None),
        Err(ExecError::ParseInt("word".to_string(), IntError::InvalidDigit))
    );
    assert!(db.is_single("w"));
    assert_eq!(db.get_param("w"), text("word"));
    assert_eq!(db.set_array("a", Some(strings(&["x"])), None), Ok(()));
    assert_eq!(
        db.set_assoc_elem("a", "k", "v", None),
        Err(ExecError::Other("not an associative table".to_string()))
    );
    assert_eq!(db.get_vec("a", false), Ok(strings(&["x"])));
}

#[test]
fn an_integer_parameter_stores_numbers() {
    let mut db = DataBase::bare();
    assert_eq!(db.init_as_num("n", "5", None), Ok(()));
    assert!(db.has_flag("n", 'i') && db.is_single_num("n"));
    assert_eq!(db.get_param("n"), text("5"));
    assert_eq!(db.set_param("n", "+007", None), Ok(()));
    assert_eq!(db.get_param("n"), text("7"));
    assert_eq!(db.append_param("n", "-10", None), Ok(()));
    assert_eq!(db.get_param("n"), text("-3"));
    let refused = Err(ExecError::ParseInt("x1".to_string(), IntError::InvalidDigit));
    assert_eq!(db.set_param("n", "x1", None), refused);
    assert_eq!(db.get_param("n"), text("-3"));
    assert_eq!(db.init_as_num("z", "", None), Ok(()));
    assert_eq!(db.get_param("z"), text("0"));
    assert_eq!(
        db.init_as_num("bad", "1e3", None),
        Err(ExecError::ParseInt("1e3".to_string(), IntError::InvalidDigit))
    );
    assert!(db.has_flag("bad", 'i'));
    assert!(!db.exist("bad"));
    assert_eq!(
        db.init_as_num("big", "99999999999999999999999", None),
        Err(ExecError::ParseInt("99999999999999999999999".to_string(), IntError::PosOverflow))
    );
}

#[test]
fn dropping_the_integer_type_keeps_the_numerals() {
    let mut db = DataBase::bare();
    assert_eq!(db.init_as_num("n", "12", None), Ok(()));
    db.set_flag("n", 'x', None);
    assert_eq!(flags_of(&db, 0, "n"), Some("ix".to_string()));
    assert_eq!(db.int_to_str_type("n", 0), Ok(()));
    assert_eq!(flags_of(&db, 0, "n"), Some("x".to_string()));
    assert!(db.is_single("n") && !db.is_single_num("n"));
    assert_eq!(db.get_param("n"), text("12"));
    assert_eq!(db.set_param("n", "words", None), Ok(()));
    assert_eq!(db.get_param("n"), text("words"));

    assert_eq!(db.set_int_array("a", Some(strings(&["1", "2"])), None), Ok(()));
    assert_eq!(db.int_to_str_type("a", 0), Ok(()));
    assert_eq!(db.set_array_elem("a", "x", 1, None), Ok(()));
    assert_eq!(db.get_vec("a", false), Ok(strings(&["1", "x"])));
    assert_eq!(db.int_to_str_type("none", 0), Ok(()));
}

#[test]
fn an_integer_array_takes_numerals() {
    let mut db = DataBase::bare();
    assert_eq!(db.set_int_array("a", Some(strings(&["1", "-2", "+3"])), None), Ok(()));
    assert!(db.is_array("a") && db.has_flag("a", 'i'));
    assert_eq!(db.get_vec("a", false), Ok(strings(&["1", "-2", "3"])));
    assert_eq!(db.get_elem("a", "1"), text("-2"));
    assert_eq!(db.get_elem("a", "9"), text("0"));
    assert_eq!(db.set_array_elem("a", "10", 5, None), Ok(()));
    assert_eq!(db.get_vec("a", true), Ok(strings(&["1", "-2", "3", "10"])));
    assert_eq!(
        db.set_array_elem("a", "ten", 5, None),
        Err(ExecError::ParseInt("ten".to_string(), IntError::InvalidDigit))
    );
    assert_eq!(db.get_elem("a", "5"), text("10"));
    assert_eq!(db.set_int_array("d", None, None), Ok(()));
    assert_eq!(db.get_vec("d", false), Ok(strings(&[])));
    assert_eq!(
        db.set_int_array("b", Some(strings(&["1", "two", "3"])), None),
        Err(ExecError::ParseInt("two".to_string(), IntError::InvalidDigit))
    );
    assert_eq!(db.get_vec("b", false), Ok(strings(&["1"])));
    assert_eq!(db.set_int_assoc("h", None), Ok(()));
    assert!(db.is_assoc("h") && db.has_flag("h", 'i'));
    assert_eq!(db.set_assoc_elem("h", "k", "4", None), Ok(()));
    assert_eq!(db.append_to_assoc_elem("h", "k", "5", None), Ok(()));
    assert_eq!(db.get_elem("h", "k"), text("9"));
}

#[test]
fn an_indexed_write_to_an_integer_name_makes_an_integer_array() {
    let mut db = DataBase::bare();
    assert_eq!(db.init_as_num("n", "4", None), Ok(()));
    assert_eq!(db.set_array_elem("n", "6", 2, None), Ok(()));
    assert!(db.is_array("n"));
    assert_eq!(db.get_vec("n", false), Ok(strings(&["4", "", "6"])));
    assert_eq!(db.append_to_array_elem("n", "1", 2, None), Ok(()));
    assert_eq!(db.get_elem("n", "2"), text("7"));
    db.set_flag("m", 'i', None);
    assert_eq!(db.set_array_elem("m", "8", 0, None), Ok(()));
    assert_eq!(
        db.set_array_elem("m", "x", 1, None),
        Err(ExecError::ParseInt("x".to_string(), IntError::InvalidDigit))
    );
}

#[test]
fn a_write_with_an_index_goes_by_kind_and_shape() {
    let mut db = DataBase::bare();
    assert_eq!(db.set_param2("s", "", "scalar", None), Ok(()));
    assert_eq!(db.get_param("s"), text("scalar"));
    assert_eq!(db.set_array("a", Some(strings(&["x"])), None), Ok(()));
    assert_eq!(db.set_param2("a", "2", "z", None), Ok(()));
    assert_eq!(db.set_param2("a", "key", "ignored", None), Ok(()));
    assert_eq!(db.get_vec("a", false), Ok(strings(&["x", "", "z"])));
    assert_eq!(db.set_assoc("h", None, true), Ok(()));
    assert_eq!(db.set_param2("h", "2", "two", None), Ok(()));
    assert_eq!(db.set_param2("h", "key", "val", None), Ok(()));
    assert_eq!(db.get_indexes_all("h"), strings(&["2", "key"]));
    assert_eq!(db.set_param2("fresh", "3", "v", None), Ok(()));
    assert!(db.is_array("fresh"));
    assert_eq!(db.set_param2("other", "key", "v", None), Ok(()));
    assert!(db.is_assoc("other"));
    assert_eq!(db.get_elem("other", "key"), text("v"));
    assert_eq!(db.append_param2("s", "", "+", None), Ok(()));
    assert_eq!(db.get_param("s"), text("scalar+"));
    assert_eq!(db.append_param2("a", "2", "+", None), Ok(()));
    assert_eq!(db.append_param2("a", "key", "+", None), Ok(()));
    assert_eq!(db.append_param2("h", "key", "+", None), Ok(()));
    assert_eq!(db.get_elem("a", "2"), text("z+"));
    assert_eq!(db.get_elem("h", "key"), text("val+"));
    assert_eq!(db.append_param2("fresh3", "1", "v", None), Ok(()));
    assert_eq!(db.get_indexes_all("fresh3"), strings(&["1"]));
}

#[test]
fn appending_extends_a_scalar() {
    let mut db = DataBase::bare();
    assert_eq!(db.append_param("x", "ab", None), Ok(()));
    assert_eq!(db.append_param("x", "cd", None), Ok(()));
    assert_eq!(db.get_param("x"), text("abcd"));
    assert_eq!(db.set_assoc("h", None, true), Ok(()));
    assert_eq!(db.append_param("h", "v", None), Ok(()));
    assert_eq!(db.append_param("h", "w", None), Ok(()));
    assert_eq!(db.get_elem("h", "0"), text("vw"));
}

#[test]
fn unsetting_removes_from_every_layer() {
    let mut db = DataBase::bare();
    assert_eq!(db.set_param("x", "g", None), Ok(()));
    db.set_flag("x", 'x', None);
    db.push_local();
    assert_eq!(db.set_param("x", "l", Some(1)), Ok(()));
    db.functions.insert("f", "f() { :; }".to_string());
    db.functions.insert("x", "x() { :; }".to_string());
    assert_eq!(db.unset_var("x"), Ok(()));
    assert!(!db.exist("x"));
    assert_eq!(flags_of(&db, 0, "x"), None);
    assert_eq!(flags_of(&db, 1, "x"), None);
    assert!(!db.environ.contains_key("x"));
    assert!(db.functions.contains_key("x"));
    db.unset_function("f");
    assert!(!db.functions.contains_key("f"));
    assert_eq!(db.set_param("x", "again", None), Ok(()));
    assert_eq!(db.unset("x"), Ok(()));
    assert!(!db.exist("x") && !db.functions.contains_key("x"));
}

#[test]
fn unsetting_an_element_removes_it_alone() {
    let mut db = DataBase::bare();
    assert_eq!(db.set_array("a", Some(strings(&["x", "y", "z"])), None), Ok(()));
    assert_eq!(db.unset_array_elem("a", "1"), Ok(()));
    assert_eq!(db.get_indexes_all("a"), strings(&["0", "2"]));
    assert_eq!(db.unset_array_elem("a", "-1"), Ok(()));
    assert_eq!(db.get_indexes_all("a"), strings(&["0"]));
    assert_eq!(db.unset_array_elem("a", "oops"), Err(ExecError::ArrayIndexInvalid("oops".to_string())));
    assert_eq!(db.unset_array_elem("a", "@"), Ok(()));
    assert!(db.is_array("a"));
    assert_eq!(db.get_vec("a", false), Ok(strings(&[])));
    assert_eq!(db.set_param("s", "v", None), Ok(()));
    assert_eq!(db.unset_array_elem("s", "1"), Ok(()));
    assert_eq!(db.get_param("s"), text("v"));
    assert_eq!(db.unset_array_elem("s", "0"), Ok(()));
    assert!(!db.exist("s"));
    assert_eq!(db.set_param("t", "v", None), Ok(()));
    assert_eq!(db.unset_array_elem("t", "*"), Ok(()));
    assert!(!db.exist("t"));
    assert_eq!(db.set_assoc("h", None, true), Ok(()));
    assert_eq!(db.set_assoc_elem("h", "k", "v", None), Ok(()));
    assert_eq!(db.unset_array_elem("h", "k"), Ok(()));
    assert_eq!(db.has_key("h", "k"), Ok(false));
    assert_eq!(db.unset_array_elem("none", "k"), Ok(()));
}

#[test]
fn clearing_empties_and_keeps_the_kind() {
    let mut db = DataBase::bare();
    assert_eq!(db.set_array("a", Some(strings(&["x"])), None), Ok(()));
    assert_eq!(db.set_param("s", "v", None), Ok(()));
    assert_eq!(db.init_as_num("n", "3", None), Ok(()));
    db.init("a", 0);
    db.init("s", 0);
    db.init("n", 0);
    db.init("none", 0);
    assert!(db.is_array("a"));
    assert_eq!(db.get_vec("a", false), Ok(strings(&[])));
    assert_eq!(db.get_param("s"), text(""));
    assert_eq!(db.get_param("n"), text("0"));
    assert!(!db.exist("none"));
}

#[test]
fn exported_writes_reach_the_environment() {
    let mut db = DataBase::bare();
    assert_eq!(db.set_param("plain", "v", None), Ok(()));
    assert!(!db.environ.contains_key("plain"));
    db.set_flag("X", 'x', None);
    assert_eq!(db.set_param("X", "1", None), Ok(()));
    assert_eq!(db.environ.get("X"), Some(&"1".to_string()));
    assert_eq!(db.append_param("X", "2", None), Ok(()));
    assert_eq!(db.environ.get("X"), Some(&"12".to_string()));
    assert_eq!(db.get_param("X"), text("12"));
    db.environ.insert("P", "old".to_string());
    assert_eq!(db.get_param("P"), text("old"));
    assert_eq!(db.set_param("P", "new", None), Ok(()));
    assert_eq!(db.environ.get("P"), Some(&"new".to_string()));
    db.set_flag("L", 'l', None);
    db.set_flag("L", 'x', None);
    assert_eq!(db.set_param("L", "UP", None), Ok(()));
    assert_eq!(db.environ.get("L"), Some(&"up".to_string()));
    assert_eq!(db.unset_var("X"), Ok(()));
    assert!(!db.environ.contains_key("X"));
    db.flags = "Ba".to_string();
    assert_eq!(db.set_param("all", "in", None), Ok(()));
    assert_eq!(db.environ.get("all"), Some(&"in".to_string()));
    assert_eq!(db.append_param("more", "m", None), Ok(()));
    assert_eq!(db.environ.get("more"), Some(&"m".to_string()));
}

#[test]
fn a_restricted_shell_refuses_what_it_fixes() {
    let mut db = DataBase::bare();
    db.flags = "Bra".to_string();
    for name in ["SHELL", "PATH", "ENV", "BASH_ENV"] {
        assert_eq!(db.set_param(name, "v", None), Err(ExecError::ReadOnly(name.to_string())));
        assert!(!db.exist(name));
    }
    assert_eq!(db.exit_status, 0);
    assert_eq!(db.set_param("other", "/a/b", None), Ok(()));
    assert!(!db.environ.contains_key("other"));
    assert_eq!(db.set_assoc("BASH_CMDS", None, true), Ok(()));
    assert_eq!(
        db.set_assoc_elem("BASH_CMDS", "ls", "/bin/ls", None),
        Err(ExecError::Restricted("/bin/ls".to_string()))
    );
    assert_eq!(db.set_assoc_elem("BASH_CMDS", "ls", "ls", None), Ok(()));
    assert_eq!(
        db.set_array("BASH_CMDS", Some(strings(&["a", "b/c", "d/e"])), None),
        Err(ExecError::Restricted("b/c".to_string()))
    );
    db.flags = "B".to_string();
    assert_eq!(db.set_param("PATH", "/bin", None), Ok(()));
    assert_eq!(db.set_assoc_elem("BASH_CMDS", "ls", "/bin/ls", None), Ok(()));
}

#[test]
fn the_name_of_the_shell_follows_its_parameter() {
    let mut db = DataBase::bare();
    db.position_parameters[0] = strings(&["sh", "a", "b"]);
    assert_eq!(db.set_param("BASH_ARGV0", "new", None), Ok(()));
    assert_eq!(db.position_parameters[0], strings(&["new", "a", "b"]));
    assert_eq!(db.get_param("BASH_ARGV0"), text("new"));
    assert_eq!(db.get_param("0"), text("new"));
    assert_eq!(db.append_param("BASH_ARGV0", "er", None), Ok(()));
    assert_eq!(db.position_parameters[0], strings(&["newer", "a", "b"]));
    let mut empty = DataBase::bare();
    assert_eq!(empty.set_param("BASH_ARGV0", "new", None), Ok(()));
    assert_eq!(empty.position_parameters[0], strings(&[]));
    assert_eq!(empty.set_param("BASH_ARGV0", "new", Some(0)), Ok(()));
    assert_eq!(empty.append_param("BASH_ARGV0", "x", None), Ok(()));
    assert_eq!(empty.get_param("BASH_ARGV0"), text("newx"));
}

#[test]
fn some_names_read_the_state_of_the_shell() {
    let mut db = DataBase::bare();
    db.position_parameters[0] = strings(&["sh", "a", "b c", "d"]);
    db.exit_status = 3;
    db.last_arg = "last".to_string();
    assert_eq!(db.get_param("?"), text("3"));
    assert_eq!(db.get_param("_"), text("last"));
    assert_eq!(db.get_param("#"), text("3"));
    assert_eq!(db.get_param("0"), text("sh"));
    assert_eq!(db.get_param("2"), text("b c"));
    assert_eq!(db.get_param("4"), text(""));
    assert_eq!(db.get_param("@"), text("a b c d"));
    assert_eq!(db.get_param("*"), text("ab cd"));
    assert_eq!(db.set_param("IFS", "-", None), Ok(()));
    assert_eq!(db.get_param("*"), text("a-b c-d"));
    assert!(db.exist("3") && !db.exist("4"));
    assert_eq!(db.get_position_params(), strings(&["a", "b c", "d"]));
    assert_eq!(db.get_vec("@", false), Ok(strings(&["a", "b c", "d"])));
    assert_eq!(db.get_vec_from("@", 2, false), Ok(strings(&["d"])));
    assert_eq!(db.get_vec_from("@", 4, false), Ok(strings(&[])));
    assert_eq!(db.set_param("1", "stored", None), Ok(()));
    assert_eq!(db.get_param("1"), text("a"));
}

#[test]
fn a_shell_starts_with_its_parameters() {
    let uid = nix::unistd::getuid().as_raw();
    let mut db = DataBase::new(4242, "/home/u");
    assert_eq!(db.get_param("$"), text("4242"));
    assert_eq!(db.get_param("BASHPID"), text("4242"));
    assert_eq!(db.get_param("BASH_SUBSHELL"), text("0"));
    assert_eq!(db.get_param("HOME"), text("/home/u"));
    assert_eq!(db.get_param("OPTIND"), text("1"));
    assert_eq!(db.get_param("IFS"), text(" \t\n"));
    assert_eq!(db.get_ifs_head(), " ");
    assert_eq!(db.get_param("UID"), text(&uid.to_string()));
    assert!(db.is_single_num("UID"));
    assert_eq!(flags_of(&db, 0, "UID"), Some("ir".to_string()));
    assert_eq!(db.set_param("UID", "0", None), Err(ExecError::ReadOnly("UID".to_string())));
    for name in ["FUNCNAME", "BASH_SOURCE", "BASH_ARGC", "BASH_ARGV", "BASH_LINENO", "DIRSTACK"] {
        assert!(db.is_array(name), "{}", name);
        assert_eq!(db.get_vec(name, false), Ok(strings(&[])), "{}", name);
    }
    assert!(db.is_assoc("BASH_CMDS"));
    assert_eq!(db.get_param("-"), text("B"));
    assert_eq!(db.exit_status, 1);
}

#[test]
fn starting_parameters_stop_at_the_first_refusal() {
    let mut db = DataBase::bare();
    db.exit_status = 9;
    assert_eq!(initialize_with(&mut db, 7, "/root", 1000), Ok(()));
    assert_eq!(db.exit_status, 0);
    assert_eq!(db.get_param("UID"), text("1000"));
    let mut again = DataBase::bare();
    assert_eq!(initialize(&mut again, 7, "/root"), Ok(()));
    assert_eq!(again.get_param("$"), text("7"));
    let mut blocked = DataBase::bare();
    blocked.set_flag("HOME", 'r', None);
    assert_eq!(
        initialize_with(&mut blocked, 7, "/root", 1000),
        Err(ExecError::ReadOnly("HOME".to_string()))
    );
    assert_eq!(blocked.get_param("BASHPID"), text("7"));
    assert!(!blocked.exist("HOME") && !blocked.exist("OPTIND") && !blocked.exist("UID"));
}

#[test]
fn the_same_indexed_write_again_changes_nothing() {
    let mut declared = DataBase::bare();
    assert_eq!(declared.set_array("a", None, None), Ok(()));
    let mut fresh = DataBase::bare();
    let mut created = DataBase::bare();
    assert_eq!(created.set_array("a", Some(vec![]), None), Ok(()));
    assert_eq!(created.set_array_elem("a", "v", 3, None), Ok(()));
    for _ in 0..4 {
        assert_eq!(declared.set_array_elem("a", "v", 3, None), Ok(()));
        assert_eq!(fresh.set_array_elem("a", "v", 3, None), Ok(()));
        for db in [&declared, &fresh] {
            assert_eq!(db.get_indexes_all("a"), created.get_indexes_all("a"));
            assert_eq!(db.get_vec("a", false), created.get_vec("a", false));
            assert_eq!(db.get_indexes_all("a"), strings(&["3"]));
            assert_eq!(db.get_elem("a", "3"), text("v"));
        }
    }
    let mut back = DataBase::bare();
    assert_eq!(back.set_array("a", None, None), Ok(()));
    let mut empty = DataBase::bare();
    assert_eq!(empty.set_array("a", Some(vec![]), None), Ok(()));
    let refused = Err(ExecError::ArrayIndexInvalid("-1".to_string()));
    assert_eq!(empty.set_array_elem("a", "v", -1, None), refused);
    for _ in 0..3 {
        assert_eq!(back.set_array_elem("a", "v", -1, None), refused);
        assert!(back.is_array("a"));
        assert_eq!(back.get_vec("a", false), empty.get_vec("a", false));
    }
}

#[test]
fn a_write_at_one_position_leaves_the_others() {
    let mut db = DataBase::bare();
    assert_eq!(db.set_array("a", Some(strings(&["p", "q", "r"])), None), Ok(()));
    assert_eq!(db.set_array_elem("a", "far", 9, None), Ok(()));
    assert_eq!(db.set_array_elem("a", "Q", 1, None), Ok(()));
    assert_eq!(db.get_indexes_all("a"), strings(&["0", "1", "2", "9"]));
    assert_eq!(db.get_vec("a", true), Ok(strings(&["p", "Q", "r", "far"])));
    assert_eq!(db.set_array_elem("a", "last", -1, None), Ok(()));
    assert_eq!(db.set_array_elem("a", "R", -8, None), Ok(()));
    assert_eq!(db.get_vec("a", true), Ok(strings(&["p", "Q", "R", "last"])));
    assert_eq!(
        db.set_array_elem("a", "none", -11, None),
        Err(ExecError::ArrayIndexInvalid("-11".to_string()))
    );
    assert_eq!(db.get_vec("a", true), Ok(strings(&["p", "Q", "R", "last"])));
    db.set_flag("a", 'l', None);
    assert_eq!(db.set_array_elem("a", "LOW", 0, None), Ok(()));
    assert_eq!(db.get_vec("a", true), Ok(strings(&["low", "Q", "R", "last"])));
    db.flags.push('r');
    assert_eq!(db.set_param("PATH", "/bin", None), Err(ExecError::ReadOnly("PATH".to_string())));
    assert_eq!(db.set_array_elem("a", "ok", 0, None), Ok(()));
}

#[test]
fn the_parameters_that_change_by_themselves_hold_what_they_were_given() {
    let mut db = DataBase::bare();
    db.set_dynamic(32768 + 5, 4000000000, 12, 1700000000000042);
    assert_eq!(db.get_param("RANDOM"), text("5"));
    assert_eq!(db.get_param("SRANDOM"), text("4000000000"));
    assert_eq!(db.get_param("SECONDS"), text("12"));
    assert_eq!(db.get_param("EPOCHSECONDS"), text("1700000000"));
    assert_eq!(db.get_param("EPOCHREALTIME"), text("1700000000.000042"));
    assert_eq!(flags_of(&db, 0, "RANDOM"), None);
    assert_eq!(db.env_get("RANDOM"), None);
    db.set_flag("SECONDS", 'r', None);
    db.set_dynamic(32767, 0, 13, 999999);
    assert_eq!(db.get_param("RANDOM"), text("32767"));
    assert_eq!(db.get_param("SRANDOM"), text("0"));
    assert_eq!(db.get_param("SECONDS"), text("13"));
    assert_eq!(db.get_param("EPOCHSECONDS"), text("0"));
    assert_eq!(db.get_param("EPOCHREALTIME"), text("0.999999"));
    assert_eq!(real_time_text(0), "0.000000");
    assert_eq!(real_time_text(1234567), "1.234567");
    assert_eq!(real_time_text(u64::MAX), "18446744073709.551615");
    assert_eq!(flags_of(&db, 0, "SECONDS"), Some("r".to_string()));
    let mut started = DataBase::bare();
    assert_eq!(initialize_with(&mut started, 7, "/root", 1000), Ok(()));
    assert!(!started.exist("RANDOM") && !started.exist("SECONDS"));
    assert_eq!(flags_of(&started, 0, "RANDOM"), Some("i".to_string()));
    assert_eq!(flags_of(&started, 0, "SRANDOM"), Some("i".to_string()));
    assert_eq!(flags_of(&started, 0, "SECONDS"), None);
    assert_eq!(flags_of(&started, 0, "UID"), Some("ir".to_string()));
    started.set_dynamic(9, 8, 7, 6000000);
    assert_eq!(started.get_param("RANDOM"), text("9"));
    assert_eq!(started.get_param("EPOCHREALTIME"), text("6.000000"));
    assert_eq!(flags_of(&started, 0, "RANDOM"), Some("i".to_string()));
}

#[test]
fn a_write_to_an_integer_array_leaves_the_other_positions() {
    let mut db = DataBase::bare();
    assert_eq!(db.set_int_array("n", Some(strings(&["1", "2", "3"])), None), Ok(()));
    assert_eq!(db.set_array_elem("n", "20", 1, None), Ok(()));
    assert_eq!(db.set_array_elem("n", "-7", -1, None), Ok(()));
    assert_eq!(db.get_vec("n", true), Ok(strings(&["1", "20", "-7"])));
    assert_eq!(
        db.set_array_elem("n", "x", -4, None),
        Err(ExecError::ArrayIndexInvalid("-4".to_string()))
    );
    assert_eq!(
        db.set_array_elem("n", "x", 0, None),
        Err(ExecError::ParseInt("x".to_string(), IntError::InvalidDigit))
    );
    assert_eq!(db.get_vec("n", true), Ok(strings(&["1", "20", "-7"])));
    assert_eq!(db.get_indexes_all("n"), strings(&["0", "1", "2"]));
}

#[test]
fn unset_leaves_the_other_names() {
    let mut db = DataBase::bare();
    db.set_flag("keep", 'x', None);
    db.set_flag("gone", 'x', None);
    assert_eq!(db.set_param("keep", "k", None), Ok(()));
    assert_eq!(db.set_param("gone", "g", None), Ok(()));
    db.push_local();
    assert_eq!(db.set_param("gone", "inner", Some(1)), Ok(()));
    assert_eq!(db.unset_var("gone"), Ok(()));
    assert!(!db.exist("gone"));
    assert_eq!(db.get_param("gone"), text(""));
    assert_eq!(db.env_get("gone"), None);
    assert_eq!(flags_of(&db, 0, "gone"), None);
    assert_eq!(flags_of(&db, 1, "gone"), None);
    assert_eq!(db.get_param("keep"), text("k"));
    assert_eq!(db.env_get("keep"), Some("k".to_string()));
    assert_eq!(flags_of(&db, 1, "keep"), Some("x".to_string()));
    assert_eq!(db.unset_var("never"), Ok(()));
    assert_eq!(db.exit_status, 0);
}
