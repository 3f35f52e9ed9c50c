use sush::error::exec::ExecError;
use sush::shell::database::data::array::ArrayData;
use sush::shell::database::data::array_int::IntArrayData;
use sush::shell::database::data::assoc::AssocData;
use sush::shell::database::data::assoc_int::IntAssocData;
use sush::shell::database::data::Data;
use sush::utils::name_map::NameMap;
use sush::utils::number::IntError;

fn strings(v: &[&str]) -> Vec<String> {
    v.iter().map(|s| s.to_string()).collect()
}

fn sample() -> ArrayData {
    ArrayData::from_values(strings(&["a", "b", "c"]))
}

#[test]
fn array_from_values_counts_from_zero() {
    let a = sample();
    assert_eq!(a.keys(), vec![0, 1, 2]);
    assert_eq!(a.values(), strings(&["a", "b", "c"]));
    assert_eq!(a.len(), 3);
    assert_eq!(a.index_based_len(), 3);
}

#[test]
fn array_is_sparse() {
    let mut a = ArrayData::new();
    assert_eq!(a.set_as_array("1000", "x"), Ok(()));
    assert_eq!(a.set_as_array("3", "y"), Ok(()));
    assert_eq!(a.len(), 2);
    assert_eq!(a.index_based_len(), 1001);
    assert_eq!(a.keys(), vec![3, 1000]);
    assert_eq!(a.values(), strings(&["y", "x"]));
    assert_eq!(a.get_all_indexes_as_array(), strings(&["3", "1000"]));
}

#[test]
fn array_write_leaves_other_positions_alone() {
    let mut a = sample();
    assert_eq!(a.set_as_array("1", "B"), Ok(()));
    assert_eq!(a.get_as_array("0", " "), Ok("a".to_string()));
    assert_eq!(a.get_as_array("1", " "), Ok("B".to_string()));
    assert_eq!(a.get_as_array("2", " "), Ok("c".to_string()));
    assert_eq!(a.len(), 3);
}

#[test]
fn negative_index_counts_back_from_the_end() {
    let mut a = sample();
    assert_eq!(a.to_index("-1"), Ok(2));
    assert_eq!(a.to_index("-3"), Ok(0));
    assert_eq!(a.set_as_array("-1", "z"), Ok(()));
    assert_eq!(a.values(), strings(&["a", "b", "z"]));
    assert_eq!(a.set_at(-2, "y"), Ok(()));
    assert_eq!(a.values(), strings(&["a", "y", "z"]));
    let mut sparse = ArrayData::new();
    assert_eq!(sparse.set_as_array("10", "x"), Ok(()));
    assert_eq!(sparse.to_index("-1"), Ok(10));
    assert_eq!(sparse.to_index("-11"), Ok(0));
}

#[test]
fn index_before_the_start_is_invalid() {
    let mut a = sample();
    assert_eq!(a.to_index("-4"), Err(ExecError::ArrayIndexInvalid("-4".to_string())));
    assert_eq!(a.set_as_array("-4", "z"), Err(ExecError::ArrayIndexInvalid("-4".to_string())));
    assert_eq!(a.set_at(-4, "z"), Err(ExecError::ArrayIndexInvalid("-4".to_string())));
    assert_eq!(a.values(), strings(&["a", "b", "c"]));
    let empty = ArrayData::new();
    assert_eq!(empty.to_index("-1"), Err(ExecError::ArrayIndexInvalid("-1".to_string())));
    assert_eq!(a.to_index("x"), Err(ExecError::ArrayIndexInvalid("x".to_string())));
    assert_eq!(a.to_index(""), Err(ExecError::ArrayIndexInvalid("".to_string())));
}

#[test]
fn array_reads_all_elements_for_wildcards() {
    let a = sample();
    assert_eq!(a.get_as_array("@", ":"), Ok("a b c".to_string()));
    assert_eq!(a.get_as_array("*", ":"), Ok("a:b:c".to_string()));
    assert_eq!(a.get_as_array("7", ":"), Ok("".to_string()));
    assert_eq!(a.get_as_single(), Ok("a".to_string()));
    assert_eq!(ArrayData::new().get_as_single(), Err(ExecError::Other("No entry".to_string())));
}

#[test]
fn array_appends_to_elements() {
    let mut a = sample();
    assert_eq!(a.append_to_array_elem("1", "x"), Ok(()));
    assert_eq!(a.append_to_array_elem("5", "n"), Ok(()));
    assert_eq!(a.append_as_single("0"), Ok(()));
    assert_eq!(a.append_at(-1, "!"), Ok(()));
    assert_eq!(a.keys(), vec![0, 1, 2, 5]);
    assert_eq!(a.values(), strings(&["a0", "bx", "c", "n!"]));
}

#[test]
fn array_lists_elements_from_a_position() {
    let mut a = ArrayData::new();
    assert_eq!(a.set_as_array("1", "b"), Ok(()));
    assert_eq!(a.set_as_array("4", "e"), Ok(()));
    assert_eq!(a.get_vec_from(0, true), strings(&["b", "e"]));
    assert_eq!(a.get_vec_from(0, false), strings(&["", "b", "", "", "e"]));
    assert_eq!(a.get_vec_from(2, true), strings(&["e"]));
    assert_eq!(a.get_vec_from(2, false), strings(&["", "", "e"]));
    assert_eq!(a.get_vec_from(5, false), strings(&[]));
    assert_eq!(a.get_vec_from(99, true), strings(&[]));
}

#[test]
fn array_removes_elements() {
    let mut a = sample();
    assert_eq!(a.remove_elem("1"), Ok(()));
    assert_eq!(a.keys(), vec![0, 2]);
    assert_eq!(a.has_key("1"), Ok(false));
    assert_eq!(a.has_key("2"), Ok(true));
    assert_eq!(a.has_key("@"), Ok(true));
    assert_eq!(a.remove_elem("-1"), Ok(()));
    assert_eq!(a.keys(), vec![0]);
    assert_eq!(a.remove_elem("x"), Err(ExecError::ArrayIndexInvalid("x".to_string())));
    assert_eq!(a.remove_elem("*"), Ok(()));
    assert_eq!(a.len(), 0);
    assert_eq!(a.index_based_len(), 0);
}

#[test]
fn array_lengths_count_elements_or_characters() {
    let mut a = sample();
    assert_eq!(a.set_as_array("1", "héllo"), Ok(()));
    assert_eq!(a.elem_len("@"), Ok(3));
    assert_eq!(a.elem_len("1"), Ok(5));
    assert_eq!(a.elem_len("9"), Ok(0));
}

#[test]
fn array_copy_holds_the_same() {
    let mut a = sample();
    assert_eq!(a.set_as_array("9", "z"), Ok(()));
    let b = a.duplicate();
    assert_eq!(b.keys(), a.keys());
    assert_eq!(b.values(), a.values());
}

#[test]
fn integer_array_stores_numbers() {
    let mut a = IntArrayData::new();
    assert_eq!(a.set_as_array("0", "5"), Ok(()));
    assert_eq!(a.set_as_array("2", "-3"), Ok(()));
    assert_eq!(a.set_as_array("-1", "+07"), Ok(()));
    assert_eq!(a.keys(), vec![0, 2]);
    assert_eq!(a.values(), strings(&["5", "7"]));
    assert_eq!(a.get_as_array("@", " "), Ok("5 7".to_string()));
    assert_eq!(a.get_as_array("2", " "), Ok("7".to_string()));
    assert_eq!(a.get_as_array("1", " "), Ok("0".to_string()));
    assert_eq!(a.get_as_single(), Ok("5".to_string()));
    assert_eq!(a.get_all_as_array(false), strings(&["5", "", "7"]));
    assert_eq!(a.get_all_as_array(true), strings(&["5", "7"]));
}

#[test]
fn integer_array_refuses_what_is_no_numeral() {
    let mut a = IntArrayData::new();
    assert_eq!(
        a.set_as_array("0", "abc"),
        Err(ExecError::ParseInt("abc".to_string(), IntError::InvalidDigit))
    );
    assert_eq!(a.set_as_array("0", ""), Err(ExecError::ParseInt("".to_string(), IntError::Empty)));
    assert_eq!(a.set_as_array("-1", "abc"), Err(ExecError::ArrayIndexInvalid("-1".to_string())));
    assert_eq!(a.len(), 0);
    assert_eq!(a.get_as_array("*", " "), Err(ExecError::ArrayIndexInvalid("*".to_string())));
    assert_eq!(a.get_as_array("-1", " "), Err(ExecError::ArrayIndexInvalid("-1".to_string())));
    assert_eq!(a.remove_elem("x"), Err(ExecError::Other("invalid index".to_string())));
}

#[test]
fn integer_array_append_adds() {
    let mut a = IntArrayData::new();
    assert_eq!(a.append_to_array_elem("1", "5"), Ok(()));
    assert_eq!(a.append_to_array_elem("1", "6"), Ok(()));
    assert_eq!(a.append_as_single("2"), Ok(()));
    assert_eq!(a.append_as_single("-3"), Ok(()));
    assert_eq!(a.values(), strings(&["-1", "11"]));
    assert_eq!(a.set_as_array("2", &isize::MAX.to_string()), Ok(()));
    assert_eq!(a.append_to_array_elem("2", "1"), Ok(()));
    assert_eq!(a.get_as_array("2", " "), Ok(isize::MIN.to_string()));
}

#[test]
fn integer_array_becomes_an_array_of_numerals() {
    let mut a = IntArrayData::new();
    assert_eq!(a.set_as_array("3", "12"), Ok(()));
    assert_eq!(a.set_as_array("1", "-4"), Ok(()));
    let t = a.get_str_type();
    assert_eq!(t.keys(), vec![1, 3]);
    assert_eq!(t.values(), strings(&["-4", "12"]));
}

#[test]
fn assoc_keeps_keys_in_order_of_arrival() {
    let mut a = AssocData::new();
    assert_eq!(a.set_as_assoc("b", "1"), Ok(()));
    assert_eq!(a.set_as_assoc("a", "2"), Ok(()));
    assert_eq!(a.set_as_assoc("b", "3"), Ok(()));
    assert_eq!(a.keys(), strings(&["b", "a"]));
    assert_eq!(a.values(), strings(&["3", "2"]));
    assert_eq!(a.len(), 2);
    assert_eq!(a.get_as_assoc("b"), Ok("3".to_string()));
    assert_eq!(a.get_as_assoc("zz"), Ok("".to_string()));
    assert_eq!(a.get_as_assoc("@"), Ok("3 2".to_string()));
    assert_eq!(a.has_key("a"), Ok(true));
    assert_eq!(a.has_key("c"), Ok(false));
    assert_eq!(a.has_key("*"), Ok(true));
}

#[test]
fn assoc_scalar_write_lands_at_zero() {
    let mut a = AssocData::new();
    assert_eq!(a.get_as_single(), Err(ExecError::Other("No entry".to_string())));
    assert_eq!(a.set_as_single("v"), Ok(()));
    assert_eq!(a.append_as_single("w"), Ok(()));
    assert_eq!(a.keys(), strings(&["0"]));
    assert_eq!(a.get_as_single(), Ok("vw".to_string()));
    assert_eq!(a.append_to_assoc_elem("k", "x"), Ok(()));
    assert_eq!(a.append_to_assoc_elem("k", "y"), Ok(()));
    assert_eq!(a.get_as_assoc("k"), Ok("xy".to_string()));
    assert_eq!(a.elem_len("k"), Ok(2));
    assert_eq!(a.elem_len("@"), Ok(2));
}

#[test]
fn assoc_removes_keys_and_keeps_the_order_of_the_rest() {
    let mut a = AssocData::new();
    for k in ["x", "y", "z"] {
        assert_eq!(a.set_as_assoc(k, k), Ok(()));
    }
    assert_eq!(a.remove_elem("y"), Ok(()));
    assert_eq!(a.keys(), strings(&["x", "z"]));
    assert_eq!(a.remove_elem("nope"), Ok(()));
    assert_eq!(a.keys(), strings(&["x", "z"]));
    assert_eq!(a.remove_elem("@"), Ok(()));
    assert_eq!(a.len(), 0);
}

#[test]
fn integer_assoc_stores_numbers() {
    let mut a = IntAssocData::new();
    assert_eq!(a.set_as_assoc("n", "4"), Ok(()));
    assert_eq!(a.append_to_assoc_elem("n", "5"), Ok(()));
    assert_eq!(a.append_to_assoc_elem("m", "-2"), Ok(()));
    assert_eq!(a.set_as_single("10"), Ok(()));
    assert_eq!(a.keys(), strings(&["n", "m", "0"]));
    assert_eq!(a.values(), strings(&["9", "-2", "10"]));
    assert_eq!(a.get_as_assoc("n"), Ok("9".to_string()));
    assert_eq!(a.get_as_assoc("none"), Ok("0".to_string()));
    assert_eq!(a.get_as_assoc("*"), Ok("9 -2 10".to_string()));
    assert_eq!(a.get_as_single(), Ok("10".to_string()));
    assert_eq!(
        a.set_as_assoc("n", "x"),
        Err(ExecError::ParseInt("x".to_string(), IntError::InvalidDigit))
    );
    let t = a.get_str_type();
    assert_eq!(t.keys(), strings(&["n", "m", "0"]));
    assert_eq!(t.values(), strings(&["9", "-2", "10"]));
}

#[test]
fn values_answer_by_their_variant() {
    let mut s = Data::Single("abc".to_string());
    assert!(s.is_single() && !s.is_array() && !s.is_assoc() && s.is_initialized());
    assert_eq!(s.get_as_single(), Ok("abc".to_string()));
    assert_eq!(s.get_elem("0", " "), Ok("abc".to_string()));
    assert_eq!(s.get_elem("@", " "), Ok("abc".to_string()));
    assert_eq!(s.get_elem("1", " "), Ok("".to_string()));
    assert_eq!(s.has_key("0"), Ok(true));
    assert_eq!(s.has_key("1"), Ok(false));
    assert_eq!(s.values(), strings(&["abc"]));
    assert_eq!(s.get_all_indexes_as_array(), strings(&["0"]));
    assert_eq!(s.set_as_array("0", "x"), Err(ExecError::Other("not an array".to_string())));
    assert_eq!(s.set_as_assoc("k", "x"), Err(ExecError::Other("not an associative table".to_string())));
    assert_eq!(s.append_as_single("d"), Ok(()));
    assert_eq!(s.get_as_single(), Ok("abcd".to_string()));
    s.clear();
    assert_eq!(s.get_as_single(), Ok("".to_string()));

    let mut n = Data::Int(5);
    assert!(n.is_single() && n.is_single_num());
    assert_eq!(n.append_as_single("7"), Ok(()));
    assert_eq!(n.get_as_single(), Ok("12".to_string()));
    assert_eq!(n.set_as_single("x"), Err(ExecError::ParseInt("x".to_string(), IntError::InvalidDigit)));
    assert_eq!(n.get_as_single(), Ok("12".to_string()));
    n.to_str_type();
    assert!(!n.is_single_num());
    assert_eq!(n.get_as_single(), Ok("12".to_string()));

    let mut u = Data::UninitArray;
    assert!(u.is_array() && !u.is_initialized());
    assert_eq!(u.get_as_single(), Err(ExecError::Other("No entry".to_string())));
    assert_eq!(u.set_as_single("x"), Err(ExecError::Other("Undefined call set_as_single".to_string())));
    assert_eq!(u.has_key("0"), Ok(false));
    assert_eq!(u.values(), strings(&[]));
    assert_eq!(u.index_based_len(), 0);
    assert!(Data::UninitAssoc.is_assoc());
}

#[test]
fn values_list_elements_from_a_position() {
    let a = Data::Array(ArrayData::from_values(strings(&["a", "b", "c"])));
    assert_eq!(a.get_vec_from(1, true), strings(&["b", "c"]));
    assert_eq!(a.index_based_len(), 3);
    let mut h = AssocData::new();
    assert_eq!(h.set_as_assoc("k1", "v1"), Ok(()));
    assert_eq!(h.set_as_assoc("k2", "v2"), Ok(()));
    let h = Data::Assoc(h);
    assert_eq!(h.get_vec_from(0, false), strings(&["v1", "v2"]));
    assert_eq!(h.get_vec_from(1, false), strings(&["v2"]));
    assert_eq!(h.get_vec_from(3, false), strings(&[]));
    assert_eq!(h.get_all_indexes_as_array(), strings(&["k1", "k2"]));
    assert_eq!(h.index_based_len(), 0);
    let s = Data::Single("x".to_string());
    assert_eq!(s.get_vec_from(0, false), strings(&["x"]));
    assert_eq!(s.get_vec_from(1, false), strings(&[]));
}

#[test]
fn a_new_entry_declares_or_fills_an_array() {
    let mut layer: NameMap<Data> = NameMap::new();
    assert_eq!(ArrayData::set_new_entry(&mut layer, "d", None), Ok(()));
    assert!(matches!(layer.get("d"), Some(Data::UninitArray)));
    assert_eq!(ArrayData::set_new_entry(&mut layer, "a", Some(strings(&["x", "y"]))), Ok(()));
    assert_eq!(layer.get("a").unwrap().values(), strings(&["x", "y"]));
    assert_eq!(ArrayData::set_new_entry(&mut layer, "a", Some(vec![])), Ok(()));
    assert_eq!(layer.get("a").unwrap().values(), strings(&[]));
    assert!(layer.get("a").unwrap().is_initialized());
    assert_eq!(IntArrayData::set_new_entry(&mut layer, "a"), Ok(()));
    assert!(matches!(layer.get("a"), Some(Data::UninitArray)));
    assert_eq!(layer.len(), 2);
}

#[test]
fn element_writes_on_a_table_promote_what_they_find() {
    let mut layer: NameMap<Data> = NameMap::new();
    assert_eq!(ArrayData::set_elem(&mut layer, "a", 2, "two"), Ok(()));
    assert_eq!(ArrayData::set_elem(&mut layer, "a", -1, "last"), Ok(()));
    assert_eq!(ArrayData::append_elem(&mut layer, "a", 0, "zero"), Ok(()));
    assert_eq!(ArrayData::append_elem(&mut layer, "a", 0, "!"), Ok(()));
    assert_eq!(layer.get("a").unwrap().get_vec_from(0, false), strings(&["zero!", "", "last"]));
    layer.insert("s", Data::Single("one".to_string()));
    assert_eq!(ArrayData::append_elem(&mut layer, "s", 1, "two"), Ok(()));
    assert_eq!(layer.get("s").unwrap().values(), strings(&["one", "two"]));
    layer.insert("n", Data::Int(7));
    assert_eq!(IntArrayData::set_elem(&mut layer, "n", 1, "8"), Ok(()));
    assert_eq!(layer.get("n").unwrap().values(), strings(&["7", "8"]));
    layer.insert("w", Data::Single("word".to_string()));
    assert_eq!(
        IntArrayData::set_elem(&mut layer, "w", 1, "8"),
        Err(ExecError::ParseInt("word".to_string(), IntError::InvalidDigit))
    );
    assert!(layer.get("w").unwrap().is_array());
    assert_eq!(layer.get("w").unwrap().values(), strings(&[]));
    assert_eq!(AssocData::append_elem(&mut layer, "h", "k", "v", false), Ok(()));
    assert!(layer.get("h").unwrap().is_assoc());
    assert_eq!(AssocData::append_elem(&mut layer, "h", "k", "w", false), Ok(()));
    assert_eq!(layer.get("h").unwrap().values(), strings(&["vw"]));
    assert_eq!(AssocData::set_elem(&mut layer, "h", "k", "v", false), Ok(()));
    assert_eq!(layer.get("h").unwrap().values(), strings(&["v"]));
    assert_eq!(AssocData::set_elem(&mut layer, "i", "k", "4", true), Ok(()));
    assert_eq!(AssocData::append_elem(&mut layer, "i", "k", "5", true), Ok(()));
    assert_eq!(layer.get("i").unwrap().values(), strings(&["9"]));
    assert_eq!(
        AssocData::set_elem(&mut layer, "n", "k", "1", true),
        Err(ExecError::Other("not an associative table".to_string()))
    );
    assert_eq!(layer.get("n").unwrap().values(), strings(&["7", "8"]));
    layer.insert("z", Data::Single("one".to_string()));
    assert_eq!(AssocData::set_elem(&mut layer, "z", "k", "two", false), Ok(()));
    assert_eq!(layer.get("z").unwrap().get_all_indexes_as_array(), strings(&["0", "k"]));
    assert_eq!(layer.get("z").unwrap().values(), strings(&["one", "two"]));
    assert_eq!(ArrayData::set_elem(&mut layer, "h", 3, "three"), Ok(()));
    assert_eq!(layer.get("h").unwrap().get_all_indexes_as_array(), strings(&["k", "3"]));
    layer.remove("h");
    assert!(!layer.contains_key("h"));
}
