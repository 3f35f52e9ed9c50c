//! `hash`: the table of remembered commands.

use vstd::prelude::*;
use crate::error::exec::ExecErrorView;
use crate::shell::builtins::{Report, ReportView};
use crate::shell::database::DbView;
use crate::shell::{ShellView, ShellCore};
use crate::utils::arg::{consume_option, dissolve_options, dissolved, excluding};
use crate::utils::number::{int_to_string, numeral_of};
use crate::utils::text::{glue, texts};

verus! {

/// `s` with blanks before it up to the width 4.
pub open spec fn padded(s: Seq<char>) -> Seq<char> {
    if s.len() >= 4 {
        s
    } else {
        Seq::new((4 - s.len()) as nat, |i: int| ' ') + s
    }
}

/// The line for the remembered command `com`: how often it was used, and
/// its path. A command without a count has no line.
pub open spec fn hit_line(db: DbView, com: Seq<char>) -> Option<Seq<char>> {
    match db.get_elem("BASH_CMDS"@, com) {
        Ok(path) => if db.hash_counter.contains_key(com) {
            Some(padded(numeral_of(db.hash_counter[com] as int)) + "\t"@ + path)
        } else {
            None
        },
        Err(_) => None,
    }
}

/// The lines for the remembered commands `keys` from the `i`-th on.
pub open spec fn hit_lines(db: DbView, keys: Seq<Seq<char>>, i: int) -> Seq<Seq<char>>
    decreases keys.len() - i,
{
    if i < 0 || i >= keys.len() {
        Seq::empty()
    } else {
        match hit_line(db, keys[i]) {
            Some(line) => seq![line] + hit_lines(db, keys, i + 1),
            None => hit_lines(db, keys, i + 1),
        }
    }
}

/// The table of remembered commands, one line each, under a heading.
pub open spec fn all_hits(db: DbView) -> ReportView {
    ReportView {
        status: 0,
        out: seq!["hits\tcommand"@] + hit_lines(db, db.indexes("BASH_CMDS"@), 0),
        err: Seq::empty(),
    }
}

/// The shell and the report after `hash` with the arguments `args`: alone
/// it lists the table; `-p path name` remembers `path` for `name`.
pub open spec fn hash_spec(core: ShellView, args: Seq<Seq<char>>) -> (ShellView, ReportView) {
    let a = dissolved(args);
    if a.len() == 1 {
        (core, all_hits(core.db))
    } else if a.contains("-p"@) {
        let b = excluding(a, "-p"@);
        if b.len() <= 1 {
            (core, ReportView::failure(1, "hash"@, "-p: option requires an argument"@))
        } else if b.len() == 2 {
            (core, ReportView::failure(1, "hash"@, "still not implemented"@))
        } else {
            let (db, r) = core.db.set_assoc_elem("BASH_CMDS"@, b[2], b[1], None);
            (
                core.with_db(db),
                match r {
                    Ok(()) => ReportView::quiet(),
                    Err(e) => ReportView::failure(1, "hash"@, e.message()),
                },
            )
        }
    } else {
        (core, ReportView::quiet())
    }
}

/// `s` with blanks before it up to the width 4.
fn pad(s: String) -> (r: String)
    ensures
        r@ == padded(s@),
{
    let n = s.as_str().unicode_len();
    if n >= 4 {
        return s;
    }
    let mut out = String::new();
    let mut i: usize = 0;
    while i < 4 - n
        invariant
            n < 4,
            i <= 4 - n,
            out@ == Seq::new(i as nat, |k: int| ' '),
        decreases 4 - n - i,
    {
        out.push(' ');
        i += 1;
        assert(out@ =~= Seq::new(i as nat, |k: int| ' '));
    }
    out.append(s.as_str());
    out
}

/// Lists the table of remembered commands.
fn print_all(core: &ShellCore) -> (r: Report)
    requires
        core.wf(),
    ensures
        r@ == all_hits(core@.db),
{
    let mut out: Vec<String> = Vec::new();
    out.push("hits\tcommand".to_owned());
    let keys = core.db.get_indexes_all("BASH_CMDS");
    let ghost ks = texts(keys@);
    let ghost head = seq!["hits\tcommand"@];
    assert(texts(out@) =~= head);
    let mut i: usize = 0;
    while i < keys.len()
        invariant
            i <= keys.len(),
            core.wf(),
            ks == texts(keys@),
            head + hit_lines(core@.db, ks, 0) == texts(out@) + hit_lines(core@.db, ks, i as int),
        decreases keys.len() - i,
    {
        let ghost before = texts(out@);
        let com = keys[i].as_str();
        assert(ks[i as int] == com@);
        if let Ok(path) = core.db.get_elem("BASH_CMDS", com) {
            if let Some(n) = core.db.hash_counter.get(com) {
                let count = pad(int_to_string(*n as i128));
                let mut line = glue(count.as_str(), "\t");
                line.append(path.as_str());
                assert(core@.db.hash_counter[com@] == *n);
                assert(hit_line(core@.db, com@) == Some(line@));
                out.push(line);
                assert(texts(out@) =~= before.push(line@));
                assert(before + (seq![line@] + hit_lines(core@.db, ks, i + 1)) =~= texts(out@)
                    + hit_lines(core@.db, ks, i + 1));
            }
        }
        i += 1;
    }
    let r = Report { status: 0, out, err: Vec::new() };
    proof {
        assert(r@.err =~= Seq::<Seq<char>>::empty());
        assert(r@.out + Seq::<Seq<char>>::empty() =~= r@.out);
    }
    r
}

/// `hash`: lists the table of remembered commands, or, with `-p path
/// name`, remembers `path` for `name`.
pub fn hash(core: &mut ShellCore, args: &Vec<String>) -> (r: Report)
    requires
        old(core).wf(),
    ensures
        final(core).wf(),
        final(core)@ == hash_spec(old(core)@, texts(args@)).0,
        r@ == hash_spec(old(core)@, texts(args@)).1,
{
    let mut args = dissolve_options(args);
    if args.len() == 1 {
        return print_all(core);
    }
    if consume_option("-p", &mut args) {
        if args.len() <= 1 {
            return Report::error_exit(1, "hash", "-p: option requires an argument");
        }
        if args.len() == 2 {
            return Report::error_exit(1, "hash", "still not implemented");
        }
        assert(texts(args@)[1] == args[1]@);
        assert(texts(args@)[2] == args[2]@);
        if let Err(e) = core.db.set_assoc_elem("BASH_CMDS", args[2].as_str(), args[1].as_str(), None) {
            let msg = e.message();
            return Report::error_exit(1, "hash", msg.as_str());
        }
    }
    Report::quiet()
}

} // verus!
