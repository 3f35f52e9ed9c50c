//! The arguments of a builtin.

use vstd::prelude::*;
use crate::utils::text::{chars_of, str_eq, texts};

verus! {

/// `args` without the arguments that are `option`.
pub open spec fn excluding(args: Seq<Seq<char>>, option: Seq<char>) -> Seq<Seq<char>>
    decreases args.len(),
{
    if args.len() == 0 {
        args
    } else if args.last() == option {
        excluding(args.drop_last(), option)
    } else {
        excluding(args.drop_last(), option).push(args.last())
    }
}

/// Takes every argument that is `option` out of `args`, and says whether
/// there was one.
pub fn consume_option(option: &str, args: &mut Vec<String>) -> (found: bool)
    ensures
        found == texts(old(args)@).contains(option@),
        texts(final(args)@) == excluding(texts(old(args)@), option@),
{
    let ghost before = texts(args@);
    let mut kept: Vec<String> = Vec::new();
    let mut found = false;
    let mut i: usize = 0;
    assert(texts(kept@) =~= excluding(before.take(0), option@));
    while i < args.len()
        invariant
            i <= args.len(),
            before == texts(args@),
            texts(kept@) == excluding(before.take(i as int), option@),
            found == before.take(i as int).contains(option@),
        decreases args.len() - i,
    {
        let ghost prev = texts(kept@);
        proof {
            assert(before.take(i + 1).drop_last() =~= before.take(i as int));
            assert(before.take(i + 1).last() == args[i as int]@);
        }
        if str_eq(args[i].as_str(), option) {
            found = true;
            assert(before.take(i + 1)[i as int] == option@);
        } else {
            kept.push(args[i].clone());
            assert(texts(kept@) =~= prev.push(args[i as int]@));
            proof {
                let longer = before.take(i + 1);
                if longer.contains(option@) {
                    let j = choose|j: int| 0 <= j < longer.len() && longer[j] == option@;
                    assert(before.take(i as int)[j] == option@);
                }
            }
        }
        proof {
            let shorter = before.take(i as int);
            if shorter.contains(option@) {
                let j = choose|j: int| 0 <= j < shorter.len() && shorter[j] == option@;
                assert(before.take(i + 1)[j] == option@);
            }
        }
        i += 1;
    }
    assert(before.take(args.len() as int) =~= before);
    *args = kept;
    found
}

/// Whether one of the arguments is `option`.
pub fn has_option(option: &str, args: &Vec<String>) -> (found: bool)
    ensures
        found == texts(args@).contains(option@),
{
    let mut i: usize = 0;
    while i < args.len()
        invariant
            i <= args.len(),
            forall|j: int| 0 <= j < i ==> texts(args@)[j] != option@,
        decreases args.len() - i,
    {
        if str_eq(args[i].as_str(), option) {
            assert(texts(args@)[i as int] == option@);
            return true;
        }
        i += 1;
    }
    false
}

/// Whether the argument bundles single-letter options: a sign and at least
/// one letter, and not the start of a long option.
pub open spec fn is_bundle(opt: Seq<char>) -> bool {
    opt.len() >= 2 && (opt[0] == '-' || opt[0] == '+') && !(opt[0] == '-' && opt[1] == '-')
}

/// One argument with its bundled options apart: `-ab` is `-a` and `-b`.
pub open spec fn dissolved_one(opt: Seq<char>) -> Seq<Seq<char>> {
    if is_bundle(opt) {
        Seq::new((opt.len() - 1) as nat, |i: int| seq![opt[0], opt[i + 1]])
    } else {
        seq![opt]
    }
}

/// Every argument with its bundled options apart.
pub open spec fn dissolved(args: Seq<Seq<char>>) -> Seq<Seq<char>>
    decreases args.len(),
{
    if args.len() == 0 {
        Seq::empty()
    } else {
        dissolved(args.drop_last()) + dissolved_one(args.last())
    }
}

/// Takes the bundled options of every argument apart.
pub fn dissolve_options(args: &Vec<String>) -> (r: Vec<String>)
    ensures
        texts(r@) == dissolved(texts(args@)),
{
    let mut out: Vec<String> = Vec::new();
    let mut i: usize = 0;
    assert(texts(out@) =~= dissolved(texts(args@).take(0)));
    while i < args.len()
        invariant
            i <= args.len(),
            texts(out@) == dissolved(texts(args@).take(i as int)),
        decreases args.len() - i,
    {
        let ghost before = texts(out@);
        let ghost arg = args[i as int]@;
        proof {
            assert(texts(args@).take(i + 1).drop_last() =~= texts(args@).take(i as int));
            assert(texts(args@).take(i + 1).last() == arg);
        }
        let v = chars_of(args[i].as_str());
        if v.len() >= 2 && (v[0] == '-' || v[0] == '+') && !(v[0] == '-' && v[1] == '-') {
            let mut k: usize = 1;
            while k < v.len()
                invariant
                    1 <= k <= v.len(),
                    v@ == arg,
                    is_bundle(arg),
                    texts(out@) == before + dissolved_one(arg).take(k - 1),
                decreases v.len() - k,
            {
                let ghost prev = texts(out@);
                let mut one = String::new();
                one.push(v[0]);
                one.push(v[k]);
                assert(one@ =~= seq![arg[0], arg[k as int]]);
                out.push(one);
                proof {
                    assert(texts(out@) =~= prev.push(one@));
                    assert(dissolved_one(arg).take(k as int) =~= dissolved_one(arg).take(k - 1).push(
                        dissolved_one(arg)[k - 1],
                    ));
                    assert(texts(out@) =~= before + dissolved_one(arg).take(k as int));
                }
                k += 1;
            }
            assert(dissolved_one(arg).take(v.len() - 1) =~= dissolved_one(arg));
        } else {
            out.push(args[i].clone());
            assert(texts(out@) =~= before + seq![arg]);
        }
        i += 1;
    }
    assert(texts(args@).take(args.len() as int) =~= texts(args@));
    out
}

} // verus!
