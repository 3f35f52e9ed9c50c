//! What holds of the store across its operations.

use vstd::prelude::*;
use crate::error::exec::ExecErrorView;
use crate::shell::database::data::array::{index_for, offset_index, set_elem_in};
use crate::shell::database::data::array_int::int_for;
use crate::shell::database::data::assoc::{fresh_assoc, zero_key};
use crate::shell::database::data::{lookup, DataView};
use crate::shell::database::database_checker::name_check_spec;
use crate::shell::database::database_setter::{all_lowercase, array_of};
use crate::shell::database::DbView;
use crate::utils::name_map::Ordered;
use crate::utils::number::{digits_value, lemma_numeral_roundtrip, numeral_of, parse_spec};
use crate::utils::sparse_map::end_of;

verus! {

/// Whether what `name` holds, in the layer that an unqualified write goes
/// to, stores integers.
pub open spec fn holds_integers(db: DbView, name: Seq<char>) -> bool {
    db.params[db.solve_layer(name)].contains_key(name) && (db.params[db.solve_layer(name)][name] is Int
        || db.params[db.solve_layer(name)][name] is IntArray
        || db.params[db.solve_layer(name)][name] is IntAssoc)
}

/// The innermost layer below `top` that holds a name is below `top`, holds
/// the name, and no layer between it and `top` does.
pub proof fn lemma_layer_pos_below(db: DbView, name: Seq<char>, top: int)
    requires
        0 <= top <= db.params.len(),
    ensures
        match db.layer_pos_below(name, top) {
            Some(l) => 0 <= l < top && db.params[l].contains_key(name) && forall|k: int|
                l < k < top ==> !db.params[k].contains_key(name),
            None => forall|k: int| 0 <= k < top ==> !db.params[k].contains_key(name),
        },
    decreases top,
{
    if top > 0 && !db.params[top - 1].contains_key(name) {
        lemma_layer_pos_below(db, name, top - 1);
    }
}

/// A layer that holds the name, with none above it that does, is the
/// innermost that holds it.
pub proof fn lemma_layer_pos_is(db: DbView, name: Seq<char>, l: int, top: int)
    requires
        0 <= l < top <= db.params.len(),
        db.params[l].contains_key(name),
        forall|k: int| l < k < top ==> !db.params[k].contains_key(name),
    ensures
        db.layer_pos_below(name, top) == Some(l),
    decreases top,
{
    if top - 1 > l {
        assert(!db.params[top - 1].contains_key(name));
        lemma_layer_pos_is(db, name, l, top - 1);
    }
}

/// Which layer holds a name depends on the tables of values alone.
pub proof fn lemma_layer_pos_same(a: DbView, b: DbView, name: Seq<char>, top: int)
    requires
        a.params == b.params,
    ensures
        a.layer_pos_below(name, top) == b.layer_pos_below(name, top),
    decreases top,
{
    if top > 0 && !a.params[top - 1].contains_key(name) {
        lemma_layer_pos_same(a, b, name, top - 1);
    }
}

/// The layer that an unqualified write goes to exists.
pub proof fn lemma_solve_layer(db: DbView, name: Seq<char>)
    requires
        db.wf(),
    ensures
        0 <= db.solve_layer(name) < db.params.len(),
        forall|k: int| db.solve_layer(name) < k < db.params.len() ==> !db.params[k].contains_key(name),
{
    lemma_layer_pos_below(db, name, db.layers());
}

/// After a value was put under a name in the layer that an unqualified
/// write goes to, the name reads as that value.
pub proof fn lemma_data_after_write(db: DbView, after: DbView, name: Seq<char>, d: DataView)
    requires
        db.wf(),
        after.params == db.params.update(db.solve_layer(name), db.params[db.solve_layer(name)].insert(name, d)),
    ensures
        after.data(name) == Some(d),
        after.solve_layer(name) == db.solve_layer(name),
{
    let l = db.solve_layer(name);
    lemma_solve_layer(db, name);
    assert forall|k: int| l < k < after.params.len() implies !after.params[k].contains_key(name) by {
        assert(after.params[k] == db.params[k]);
    }
    lemma_layer_pos_is(after, name, l, after.layers());
}

/// The numeral `0` addresses position 0.
pub proof fn lemma_zero_index(end: int)
    ensures
        index_for(end, zero_key()) == Some(0usize),
{
    let s = zero_key();
    assert(s.drop_last() =~= Seq::<char>::empty());
    assert(digits_value(s.drop_last()) == 0);
    assert(digits_value(s) == 0);
    assert(parse_spec(s, isize::MIN as int, isize::MAX as int) == Ok::<
        int,
        crate::utils::number::IntError,
    >(0));
}

/// A scalar write that passes the checks succeeds, and a scalar read of
/// the same name then gives the value that was written, in lowercase where
/// the name has the flag `l`. This is so for a write without a layer, to a
/// name that is read from the tables and does not hold integers.
pub proof fn lemma_set_param_then_get(db: DbView, name: Seq<char>, val: Seq<char>)
    requires
        db.wf(),
        db.checks(name, Some(seq![val])) is Ok,
        !DbView::is_computed(name),
        !holds_integers(db, name),
    ensures
        db.set_param(name, val, None).1 is Ok,
        db.set_param(name, val, None).0.get_param(name) == Ok::<Seq<char>, ExecErrorView>(
            db.cased(name, val),
        ),
{
    let s1 = db.with_argv0(name, val, None);
    let s2 = if s1.exports(name) {
        s1.with_env(name, Seq::empty())
    } else {
        s1
    };
    let v = s2.cased(name, val);
    let l = s2.target_layer(name, None);
    let s3 = if s2.environ.contains_key(name) {
        s2.with_env(name, v)
    } else {
        s2
    };
    let s4 = s3.with_default(l, name);
    assert(s3.params == db.params);
    lemma_layer_pos_same(s2, db, name, db.layers());
    assert(l == db.solve_layer(name));
    lemma_solve_layer(db, name);
    let d = s4.params[l][name];
    let (after, r) = s4.write_scalar(l, name, v);
    assert(db.set_param(name, val, None) == (after, r));
    lemma_zero_index(0);
    // What the name holds after the write, and that it reads as `v`.
    if d.is_array() {
        if d.is_initialized() {
            match d {
                DataView::Array(m) => {
                    lemma_zero_index(end_of(m.dom()));
                },
                _ => {},
            }
        }
    }
    let d1 = after.params[l][name];
    assert(d1.get_as_single() == Ok::<Seq<char>, ExecErrorView>(v));
    assert(after.params[l] =~= db.params[l].insert(name, d1));
    assert(after.params =~~= db.params.update(l, db.params[l].insert(name, d1)));
    lemma_data_after_write(db, after, name, d1);
}

/// A scalar write of the numeral of an integer that passes the checks
/// succeeds, and a scalar read of the same name then gives the numeral
/// back, whatever the name holds. This is so for a write without a layer to
/// a name that is read from the tables.
pub proof fn lemma_set_numeral_then_get(db: DbView, name: Seq<char>, n: isize)
    requires
        db.wf(),
        db.checks(name, Some(seq![numeral_of(n as int)])) is Ok,
        !DbView::is_computed(name),
        !db.has_flag(name, 'l'),
    ensures
        db.set_param(name, numeral_of(n as int), None).1 is Ok,
        db.set_param(name, numeral_of(n as int), None).0.get_param(name) == Ok::<
            Seq<char>,
            ExecErrorView,
        >(numeral_of(n as int)),
{
    let val = numeral_of(n as int);
    lemma_numeral_roundtrip(n as int, isize::MIN as int, isize::MAX as int);
    let s1 = db.with_argv0(name, val, None);
    let s2 = if s1.exports(name) {
        s1.with_env(name, Seq::empty())
    } else {
        s1
    };
    let v = s2.cased(name, val);
    let l = s2.target_layer(name, None);
    let s3 = if s2.environ.contains_key(name) {
        s2.with_env(name, v)
    } else {
        s2
    };
    let s4 = s3.with_default(l, name);
    assert(s3.params == db.params);
    lemma_layer_pos_same(s2, db, name, db.layers());
    lemma_solve_layer(db, name);
    let d = s4.params[l][name];
    let (after, r) = s4.write_scalar(l, name, v);
    assert(db.set_param(name, val, None) == (after, r));
    lemma_zero_index(0);
    match d {
        DataView::Array(m) => {
            lemma_zero_index(end_of(m.dom()));
        },
        DataView::IntArray(m) => {
            lemma_zero_index(end_of(m.dom()));
        },
        _ => {},
    }
    let d1 = after.params[l][name];
    assert(d1.get_as_single() == Ok::<Seq<char>, ExecErrorView>(v));
    assert(after.params[l] =~= db.params[l].insert(name, d1));
    assert(after.params =~~= db.params.update(l, db.params[l].insert(name, d1)));
    lemma_data_after_write(db, after, name, d1);
}

/// A scalar write that passes the checks leaves in the environment, under
/// a name that is exported or that the environment holds already, the text
/// that was stored; the environment of any other name stays as it was.
pub proof fn lemma_exported_write_is_mirrored(
    db: DbView,
    name: Seq<char>,
    val: Seq<char>,
    layer: Option<usize>,
)
    requires
        db.checks(name, Some(seq![val])) is Ok,
    ensures
        db.exports(name) || db.environ.contains_key(name) ==> db.set_param(name, val, layer).0.environ
            == db.environ.insert(name, db.cased(name, val)),
        !(db.exports(name) || db.environ.contains_key(name)) ==> db.set_param(name, val, layer).0.environ
            == db.environ,
{
    let s1 = db.with_argv0(name, val, layer);
    let s2 = if s1.exports(name) {
        s1.with_env(name, Seq::empty())
    } else {
        s1
    };
    let v = s2.cased(name, val);
    assert(v == db.cased(name, val));
    if db.exports(name) {
        assert(db.environ.insert(name, Seq::empty()).insert(name, v) =~= db.environ.insert(name, v));
    }
}

/// A refusal changes the exit status and nothing else: every name holds
/// what it held, in every layer, with its flags, and reads as it did; only a
/// read of `?` shows the new exit status.
pub proof fn lemma_refused_keeps_the_store(db: DbView, name: Seq<char>, other: Seq<char>)
    ensures
        db.refused().params == db.params,
        db.refused().options == db.options,
        db.refused().environ == db.environ,
        db.refused().positional == db.positional,
        db.refused().functions == db.functions,
        db.refused().data(other) == db.data(other),
        db.refused().has_flag(other, 'r') == db.has_flag(other, 'r'),
        other != "?"@ ==> db.refused().get_param(other) == db.get_param(other),
        name_check_spec(name) is Ok && db.has_flag(name, 'r') ==> db.checked(name) == db.refused(),
{
    lemma_layer_pos_same(db.refused(), db, other, db.layers());
    lemma_layer_pos_same(db.refused(), db, "IFS"@, db.layers());
}

/// A write to a readonly name is refused, with the failure that names the
/// readonly variable where the text is a name at all, and leaves everything
/// but the exit status as it was: the values in every layer, the flags, the
/// environment, the positional parameters. The name stays readonly, and
/// holds and reads as before. So it is for the removal of the variable, or
/// of one of its elements, and for the emptying of its value, which has no
/// failure to give and leaves the exit status 1.
pub proof fn lemma_readonly_refuses_writes(
    db: DbView,
    name: Seq<char>,
    key: Seq<char>,
    val: Seq<char>,
    vals: Option<Seq<Seq<char>>>,
    pos: isize,
    layer: Option<usize>,
    as_array: bool,
)
    requires
        db.has_flag(name, 'r'),
    ensures
        db.checked(name).params == db.params,
        db.checked(name).options == db.options,
        db.checked(name).environ == db.environ,
        db.checked(name).positional == db.positional,
        db.checked(name).functions == db.functions,
        db.checked(name).has_flag(name, 'r'),
        db.checked(name).data(name) == db.data(name),
        name != "?"@ ==> db.checked(name).get_param(name) == db.get_param(name),
        db.checks(name, vals) == if name_check_spec(name) is Ok {
            Err::<(), ExecErrorView>(ExecErrorView::ReadOnly(name))
        } else {
            Err::<(), ExecErrorView>(ExecErrorView::InvalidName(name))
        },
        db.set_param(name, val, layer) == (db.checked(name), db.checks(name, vals)),
        db.append_param(name, val, layer) == (db.checked(name), db.checks(name, vals)),
        db.set_array_elem(name, val, pos, layer) == (db.checked(name), db.checks(name, vals)),
        db.append_to_array_elem(name, val, pos, layer) == (db.checked(name), db.checks(name, vals)),
        db.set_assoc_elem(name, key, val, layer) == (db.checked(name), db.checks(name, vals)),
        db.append_to_assoc_elem(name, key, val, layer) == (db.checked(name), db.checks(name, vals)),
        db.set_array(name, vals, layer) == (db.checked(name), db.checks(name, vals)),
        db.set_int_array(name, vals, layer) == (db.checked(name), db.checks(name, vals)),
        db.set_int_assoc(name, layer) == (db.checked(name), db.checks(name, vals)),
        db.set_assoc(name, layer, as_array) == (db.checked(name), db.checks(name, vals)),
        db.init_as_num(name, val, layer) == (db.checked(name), db.checks(name, vals)),
        db.set_param2(name, key, val, layer).0.params == db.params,
        db.append_param2(name, key, val, layer).0.params == db.params,
        forall|l: int| #[trigger] db.init(name, l) == db.refused(),
        db.unset_var(name) == (db.refused(), Err::<(), ExecErrorView>(ExecErrorView::ReadOnly(name))),
        db.unset(name) == (db.refused(), Err::<(), ExecErrorView>(ExecErrorView::ReadOnly(name))),
        db.unset_array_elem(name, key) == (
            db.refused(),
            Err::<(), ExecErrorView>(ExecErrorView::ReadOnly(name)),
        ),
{
    lemma_refused_keeps_the_store(db, name, name);
}

/// A write at an offset of an indexed array of strings goes to the
/// position that the offset addresses: the offset itself, or, for a negative
/// one, that many back from one past the largest position in use. An
/// offset that reaches back before position 0 is refused as an invalid
/// index. No other position changes.
pub proof fn lemma_array_write(m: Map<usize, Seq<char>>, pos: isize, val: Seq<char>, other: usize)
    ensures
        pos >= 0 ==> DataView::Array(m).set_at(pos, val) == Ok::<DataView, ExecErrorView>(
            DataView::Array(m.insert(pos as usize, val)),
        ),
        pos < 0 && pos + end_of(m.dom()) >= 0 ==> DataView::Array(m).set_at(pos, val) == Ok::<
            DataView,
            ExecErrorView,
        >(DataView::Array(m.insert((pos + end_of(m.dom())) as usize, val))),
        pos < 0 && pos + end_of(m.dom()) < 0 ==> DataView::Array(m).set_at(pos, val) == Err::<
            DataView,
            ExecErrorView,
        >(ExecErrorView::ArrayIndexInvalid(crate::utils::number::numeral_of(pos as int))),
        DataView::Array(m).set_at(pos, val) matches Ok(DataView::Array(after)) ==> (offset_index(
            end_of(m.dom()),
            pos as int,
        ) matches Some(k) && (other != k ==> lookup(after, other) == lookup(m, other)) && lookup(
            after,
            k,
        ) == Some(val)),
{
}

/// The same for an indexed array of integers, where the value written is
/// the integer that the text denotes.
pub proof fn lemma_int_array_write(m: Map<usize, isize>, pos: isize, val: Seq<char>, other: usize)
    ensures
        offset_index(end_of(m.dom()), pos as int) is None ==> DataView::IntArray(m).set_at(pos, val)
            == Err::<DataView, ExecErrorView>(
            ExecErrorView::ArrayIndexInvalid(crate::utils::number::numeral_of(pos as int)),
        ),
        DataView::IntArray(m).set_at(pos, val) matches Ok(DataView::IntArray(after)) ==> (
        offset_index(end_of(m.dom()), pos as int) matches Some(k) && (other != k ==> lookup(
            after,
            other,
        ) == lookup(m, other)) && crate::shell::database::data::array_int::int_for(val) == Ok::<
            isize,
            ExecErrorView,
        >(after[k])),
{
}

/// A name that is a parameter's and not readonly passes the checks before
/// a write in a shell that is not restricted.
pub proof fn lemma_checks_pass(db: DbView, name: Seq<char>, vals: Option<Seq<Seq<char>>>)
    requires
        name_check_spec(name) is Ok,
        !db.has_flag(name, 'r'),
        !db.flags.contains('r'),
    ensures
        db.checks(name, vals) is Ok,
{
}

/// An indexed write to a name that holds an array of strings, and passes
/// the checks, succeeds exactly when the offset addresses a position: the
/// offset itself where it is not negative, else that many back from one
/// past the largest position in use. The array then holds the text that
/// was stored at that position, and at every other position what it held
/// before. An offset that addresses no position is refused as an invalid
/// index, and the array stays as it was.
pub proof fn lemma_set_array_elem_frame(
    db: DbView,
    name: Seq<char>,
    val: Seq<char>,
    pos: isize,
    other: usize,
)
    requires
        db.wf(),
        db.data(name) matches Some(DataView::Array(_)),
        !db.has_flag(name, 'i'),
        db.checks(name, Some(seq![val])) is Ok,
    ensures
        ({
            let m = db.data(name)->0->Array_0;
            let (after, r) = db.set_array_elem(name, val, pos, None);
            &&& pos >= 0 ==> offset_index(end_of(m.dom()), pos as int) == Some(pos as usize)
            &&& match offset_index(end_of(m.dom()), pos as int) {
                Some(k) => {
                    &&& r is Ok
                    &&& after.data(name) == Some(DataView::Array(m.insert(k, db.cased(name, val))))
                    &&& lookup(m.insert(k, db.cased(name, val)), k) == Some(db.cased(name, val))
                    &&& other != k ==> lookup(m.insert(k, db.cased(name, val)), other) == lookup(
                        m,
                        other,
                    )
                },
                None => {
                    &&& r == Err::<(), ExecErrorView>(
                        ExecErrorView::ArrayIndexInvalid(numeral_of(pos as int)),
                    )
                    &&& after == db
                },
            }
        }),
{
    let l = db.solve_layer(name);
    lemma_solve_layer(db, name);
    lemma_layer_pos_below(db, name, db.layers());
    let m = db.data(name)->0->Array_0;
    let v = db.cased(name, val);
    let (t, r) = set_elem_in(db.params[l], name, pos, v);
    let after = db.set_array_elem(name, val, pos, None).0;
    assert(after == db.with_layer(l, t));
    match offset_index(end_of(m.dom()), pos as int) {
        Some(k) => {
            let d1 = DataView::Array(m.insert(k, v));
            assert(t =~= db.params[l].insert(name, d1));
            assert(after.params =~~= db.params.update(l, db.params[l].insert(name, d1)));
            lemma_data_after_write(db, after, name, d1);
        },
        None => {
            assert(t == db.params[l]);
            assert(after.params =~= db.params);
        },
    }
}

/// The removal of a variable that is not readonly succeeds, and the name
/// is then held by no layer, has no flags, is not in the environment, and
/// reads as nothing. Every other name keeps, in every layer, what it held,
/// with its flags and its place in the environment.
pub proof fn lemma_unset_removes(db: DbView, name: Seq<char>, other: Seq<char>)
    requires
        !db.has_flag(name, 'r'),
    ensures
        ({
            let (after, r) = db.unset_var(name);
            &&& r is Ok
            &&& after.layers() == db.layers()
            &&& after.options.len() == db.options.len()
            &&& forall|l: int| 0 <= l < after.layers() ==> !(#[trigger] after.params[l]).contains_key(name)
            &&& forall|l: int| 0 <= l < after.options.len() ==> !(#[trigger] after.options[l]).contains_key(name)
            &&& !after.environ.contains_key(name)
            &&& after.data(name) is None
            &&& after.variable(name) == Seq::<char>::empty()
            &&& other != name ==> after.data(other) == db.data(other)
            &&& other != name ==> (after.environ.contains_key(other) <==> db.environ.contains_key(other))
            &&& other != name && db.environ.contains_key(other) ==> after.environ[other] == db.environ[other]
            &&& other != name ==> forall|l: int|
                0 <= l < after.options.len() ==> ((#[trigger] after.options[l]).contains_key(other)
                    <==> db.options[l].contains_key(other)) && (db.options[l].contains_key(other)
                    ==> after.options[l][other] == db.options[l][other])
        }),
{
    let after = db.unset_var(name).0;
    lemma_layer_pos_below(after, name, after.layers());
    if other != name {
        lemma_removed_keeps_others(db, name, other, db.layers());
    }
}

/// Which layer holds another name, and what it holds there, is the same
/// after a variable was removed.
pub proof fn lemma_removed_keeps_others(db: DbView, name: Seq<char>, other: Seq<char>, top: int)
    requires
        other != name,
        0 <= top <= db.layers(),
    ensures
        db.removed(name).layer_pos_below(other, top) == db.layer_pos_below(other, top),
        db.layer_pos_below(other, top) matches Some(l) ==> db.removed(name).params[l][other]
            == db.params[l][other],
    decreases top,
{
    if top > 0 {
        if !db.params[top - 1].contains_key(other) {
            lemma_removed_keeps_others(db, name, other, top - 1);
        }
    }
}

/// The same for a name that holds an array of integers: the write
/// succeeds exactly when the offset addresses a position and the text
/// denotes an integer, the array then holds that integer at the position
/// and at every other position what it held before, and a write that is
/// refused leaves the store as it was.
pub proof fn lemma_set_int_array_elem_frame(
    db: DbView,
    name: Seq<char>,
    val: Seq<char>,
    pos: isize,
    other: usize,
)
    requires
        db.wf(),
        db.data(name) matches Some(DataView::IntArray(_)),
        db.checks(name, Some(seq![val])) is Ok,
    ensures
        ({
            let m = db.data(name)->0->IntArray_0;
            let (after, r) = db.set_array_elem(name, val, pos, None);
            &&& pos >= 0 ==> offset_index(end_of(m.dom()), pos as int) == Some(pos as usize)
            &&& match offset_index(end_of(m.dom()), pos as int) {
                Some(k) => match int_for(db.cased(name, val)) {
                    Ok(n) => {
                        &&& r is Ok
                        &&& after.data(name) == Some(DataView::IntArray(m.insert(k, n)))
                        &&& lookup(m.insert(k, n), k) == Some(n)
                        &&& other != k ==> lookup(m.insert(k, n), other) == lookup(m, other)
                    },
                    Err(e) => r == Err::<(), ExecErrorView>(e) && after == db,
                },
                None => {
                    &&& r == Err::<(), ExecErrorView>(
                        ExecErrorView::ArrayIndexInvalid(numeral_of(pos as int)),
                    )
                    &&& after == db
                },
            }
        }),
{
    let l = db.solve_layer(name);
    lemma_solve_layer(db, name);
    lemma_layer_pos_below(db, name, db.layers());
    let m = db.data(name)->0->IntArray_0;
    let v = db.cased(name, val);
    let after = db.set_array_elem(name, val, pos, None).0;
    let t = after.params[l];
    assert(after.params =~= db.params.update(l, t));
    match offset_index(end_of(m.dom()), pos as int) {
        Some(k) => match int_for(v) {
            Ok(n) => {
                let d1 = DataView::IntArray(m.insert(k, n));
                assert(t =~= db.params[l].insert(name, d1));
                assert(after.params =~~= db.params.update(l, db.params[l].insert(name, d1)));
                lemma_data_after_write(db, after, name, d1);
            },
            Err(_) => {
                assert(t == db.params[l]);
                assert(after.params =~= db.params);
            },
        },
        None => {
            assert(t == db.params[l]);
            assert(after.params =~= db.params);
        },
    }
}

/// What a write under a key leaves under a name that was no associative
/// array with a value, where the write passes the checks. A name that the
/// layer of the write does not hold, or holds only as declared, becomes an
/// associative array with the one element that was written: of texts, or,
/// where the name has the flag `i`, of integers, with the integer that the
/// text denotes. A scalar text becomes an associative array that holds it
/// under the key `0`, and then takes the write. The other names of the
/// layer, and the other layers, stay as they were.
pub proof fn lemma_assoc_write_promotes(
    db: DbView,
    name: Seq<char>,
    key: Seq<char>,
    val: Seq<char>,
    layer: Option<usize>,
)
    requires
        db.wf(),
        layer matches Some(l) ==> l < db.layers(),
        db.checks(name, Some(seq![val])) is Ok,
    ensures
        ({
            let l = db.target_layer(name, layer);
            let t = db.params[l];
            let v = db.cased(name, val);
            let (after, r) = db.set_assoc_elem(name, key, val, layer);
            let fresh = !t.contains_key(name) || !t[name].is_initialized();
            &&& fresh && !db.has_flag(name, 'i') ==> r is Ok && after == db.with_data(
                l,
                name,
                DataView::Assoc(Ordered::empty().put(key, v)),
            )
            &&& fresh && db.has_flag(name, 'i') ==> match int_for(v) {
                Ok(n) => r is Ok && after == db.with_data(
                    l,
                    name,
                    DataView::IntAssoc(Ordered::empty().put(key, n)),
                ),
                Err(e) => r == Err::<(), ExecErrorView>(e) && after == db.with_data(
                    l,
                    name,
                    DataView::IntAssoc(Ordered::empty()),
                ),
            }
            &&& t.contains_key(name) && !db.has_flag(name, 'i') ==> (t[name] matches DataView::Single(
                held,
            ) ==> r is Ok && after == db.with_data(
                l,
                name,
                DataView::Assoc(Ordered::empty().put(zero_key(), held).put(key, v)),
            ))
        }),
{
    lemma_solve_layer(db, name);
    let l = db.target_layer(name, layer);
    let t = db.params[l];
    let v = db.cased(name, val);
    let (after, r) = db.set_assoc_elem(name, key, val, layer);
    let fresh = !t.contains_key(name) || !t[name].is_initialized();
    if fresh {
        let d0 = fresh_assoc(db.has_flag(name, 'i'));
        match d0.set_as_assoc(key, v) {
            Ok(d1) => {
                assert(after.params[l] =~= t.insert(name, d1));
            },
            Err(_) => {
                assert(after.params[l] =~= t.insert(name, d0));
            },
        }
    } else if !db.has_flag(name, 'i') {
        match t[name] {
            DataView::Single(held) => {
                let d1 = DataView::Assoc(Ordered::empty().put(zero_key(), held).put(key, v));
                assert(after.params[l] =~= t.insert(name, d1));
            },
            _ => {},
        }
    }
}

/// In one table, the first indexed write to a name that was only declared
/// as an array, or is new, does what the same write does after an empty
/// array was put under the name; so does a second write after it.
pub proof fn lemma_promotion(
    t: Map<Seq<char>, DataView>,
    name: Seq<char>,
    pos: isize,
    val: Seq<char>,
    pos2: isize,
    val2: Seq<char>,
)
    requires
        !t.contains_key(name) || t[name] is UninitArray,
    ensures
        set_elem_in(t, name, pos, val) == set_elem_in(
            t.insert(name, DataView::Array(Map::empty())),
            name,
            pos,
            val,
        ),
        set_elem_in(set_elem_in(t, name, pos, val).0, name, pos2, val2) == set_elem_in(
            set_elem_in(t.insert(name, DataView::Array(Map::empty())), name, pos, val).0,
            name,
            pos2,
            val2,
        ),
{
    let created = t.insert(name, DataView::Array(Map::empty()));
    assert(created.insert(name, DataView::Array(Map::empty())) =~= created);
}

/// The store and the outcome after the indexed write `name[pos]=val` was
/// made `k` times in a row.
pub open spec fn written_times(db: DbView, name: Seq<char>, val: Seq<char>, pos: isize, k: nat) -> (
    DbView,
    Result<(), ExecErrorView>,
)
    decreases k,
{
    if k == 0 {
        (db, Ok(()))
    } else {
        written_times(db, name, val, pos, (k - 1) as nat).0.set_array_elem(name, val, pos, None)
    }
}

/// The same indexed write, made any number of times to a name that was
/// only declared as an array or is new, leaves what one such write leaves
/// after the name was declared as an empty array, with the same outcome;
/// with an offset that is not negative every one of the writes succeeds.
/// This is so for a name without the flag `i` that passes the checks.
pub proof fn lemma_promotion_repeats(db: DbView, name: Seq<char>, val: Seq<char>, pos: isize, k: nat)
    requires
        db.wf(),
        db.data(name) is None || db.data(name) == Some(DataView::UninitArray),
        !db.has_flag(name, 'i'),
        db.checks(name, Some(seq![val])) is Ok,
        k >= 1,
    ensures
        db.set_array(name, Some(Seq::empty()), None).1 is Ok,
        written_times(db, name, val, pos, k) == db.set_array(
            name,
            Some(Seq::empty()),
            None,
        ).0.set_array_elem(name, val, pos, None),
        pos >= 0 ==> written_times(db, name, val, pos, k).1 is Ok,
    decreases k,
{
    let l = db.solve_layer(name);
    lemma_solve_layer(db, name);
    lemma_layer_pos_below(db, name, db.layers());
    let v = db.cased(name, val);
    let empty = DataView::Array(Map::<usize, Seq<char>>::empty());
    let created = db.set_array(name, Some(Seq::empty()), None).0;
    assert(array_of(Seq::<Seq<char>>::empty()) =~= Map::<usize, Seq<char>>::empty());
    assert(array_of(all_lowercase(Seq::<Seq<char>>::empty())) =~= Map::<usize, Seq<char>>::empty());
    assert(created == db.with_data(l, name, empty));
    assert(created.params =~~= db.params.update(l, db.params[l].insert(name, empty)));
    lemma_data_after_write(db, created, name, empty);
    assert(end_of(Map::<usize, Seq<char>>::empty().dom()) == 0) by {
        assert(Map::<usize, Seq<char>>::empty().dom() =~= Set::<usize>::empty());
    }
    let once = created.set_array_elem(name, val, pos, None);
    let first = db.set_array_elem(name, val, pos, None);
    assert(db.params[l].insert(name, empty).insert(name, empty) =~= db.params[l].insert(name, empty));
    // What the array holds after the first write.
    let m1 = match offset_index(0, pos as int) {
        Some(i) => Map::<usize, Seq<char>>::empty().insert(i, v),
        None => Map::<usize, Seq<char>>::empty(),
    };
    let d1 = DataView::Array(m1);
    assert(first.0.params =~~= db.params.update(l, db.params[l].insert(name, d1)));
    assert(once.0.params =~~= db.params.update(l, db.params[l].insert(name, d1)));
    assert(first == once);
    lemma_data_after_write(db, first.0, name, d1);
    if k == 1 {
        assert(written_times(db, name, val, pos, 0) == (db, Ok::<(), ExecErrorView>(())));
    } else {
        lemma_promotion_repeats(db, name, val, pos, (k - 1) as nat);
        let s = written_times(db, name, val, pos, (k - 1) as nat).0;
        assert(s == first.0);
        let again = s.set_array_elem(name, val, pos, None);
        if pos >= 0 {
            assert(end_of(m1.dom()) == pos + 1) by {
                assert(m1.dom().contains(pos as usize));
                assert(crate::utils::sparse_map::is_max_of(m1.dom(), pos as usize));
                crate::utils::sparse_map::lemma_end_of_max(m1.dom(), pos as usize);
            }
            assert(m1.insert(pos as usize, v) =~= m1);
        }
        assert(again.0.params =~~= db.params.update(l, db.params[l].insert(name, d1)));
        assert(again == first);
    }
}

/// A scalar write that is addressed to a layer that was just opened
/// succeeds where it passes the checks, and lands in that layer alone: the
/// layer then holds the name with the value that was written, and nothing
/// else. Closing the layer brings back the values and the flags of every
/// layer that was there before, so that the name reads as it did.
pub proof fn lemma_local_write_is_undone(db: DbView, name: Seq<char>, val: Seq<char>)
    requires
        db.wf(),
        db.layers() <= usize::MAX,
    ensures
        ({
            let top = db.layers() as usize;
            let (after, r) = db.push_local().set_param(name, val, Some(top));
            &&& after.layers() == db.layers() + 1
            &&& db.push_local().checks(name, Some(seq![val])) == db.checks(name, Some(seq![val]))
            &&& r is Ok <==> db.checks(name, Some(seq![val])) is Ok
            &&& r is Ok ==> after.params[top as int] == Map::<Seq<char>, DataView>::empty().insert(
                name,
                DataView::Single(db.cased(name, val)),
            )
            &&& r is Ok ==> after.data(name) == Some(DataView::Single(db.cased(name, val)))
            &&& forall|l: int| 0 <= l < db.layers() ==> after.params[l] == db.params[l]
            &&& after.pop_local().params == db.params
            &&& after.pop_local().options == db.options
            &&& after.pop_local().data(name) == db.data(name)
        }),
{
    let top = db.layers() as usize;
    let pushed = db.push_local();
    let (after, r) = pushed.set_param(name, val, Some(top));
    lemma_zero_index(0);
    match pushed.checks(name, Some(seq![val])) {
        Err(e) => {
            assert(after == pushed.checked(name));
        },
        Ok(()) => {
            let s1 = pushed.with_argv0(name, val, Some(top));
            let s2 = if s1.exports(name) {
                s1.with_env(name, Seq::empty())
            } else {
                s1
            };
            let v = s2.cased(name, val);
            let s3 = if s2.environ.contains_key(name) {
                s2.with_env(name, v)
            } else {
                s2
            };
            let s4 = s3.with_default(top as int, name);
            assert(s3.params == pushed.params);
            assert(pushed.params[top as int] == Map::<Seq<char>, DataView>::empty());
            assert(!pushed.params[top as int].contains_key(name));
            assert(s4.params[top as int][name] == DataView::Single(Seq::empty()));
            assert(after.options == pushed.options);
            assert(after.params[top as int] =~= Map::<Seq<char>, DataView>::empty().insert(
                name,
                DataView::Single(db.cased(name, val)),
            ));
            lemma_layer_pos_is(after, name, top as int, after.layers());
        },
    }
    assert(after.pop_local().params =~= db.params);
    assert(after.pop_local().options =~= db.options);
    lemma_layer_pos_same(after.pop_local(), db, name, db.layers());
}

} // verus!
