//! `command` and `builtin`: what a name stands for, and what is to run.

use vstd::prelude::*;
use crate::shell::builtins::{Report, ReportView};
use crate::shell::{ShellView, ShellCore};
use crate::utils::arg::{consume_option, dissolve_options, dissolved, excluding};
use crate::utils::text::{chars_of, clone_strings, contains_char, glue, str_eq, texts};

verus! {

/// What is to happen after `command` or `builtin` has read its arguments.
#[derive(Debug, PartialEq, Eq)]
pub enum CommandAction {
    /// Nothing more: the report is final.
    Done(Report),
    /// Each word is to be looked up and described, at length or in short.
    Describe { words: Vec<String>, large_v: bool },
    /// The builtin that the first word names is to run with the words.
    RunBuiltin(Vec<String>),
    /// The words are to run as an external command.
    Execute(Vec<String>),
}

/// An action as plain values.
pub enum CommandActionView {
    Done(ReportView),
    Describe { words: Seq<Seq<char>>, large_v: bool },
    RunBuiltin(Seq<Seq<char>>),
    Execute(Seq<Seq<char>>),
}

impl View for CommandAction {
    type V = CommandActionView;

    open spec fn view(&self) -> CommandActionView {
        match self {
            CommandAction::Done(r) => CommandActionView::Done(r@),
            CommandAction::Describe { words, large_v } => CommandActionView::Describe {
                words: texts(words@),
                large_v: *large_v,
            },
            CommandAction::RunBuiltin(w) => CommandActionView::RunBuiltin(texts(w@)),
            CommandAction::Execute(w) => CommandActionView::Execute(texts(w@)),
        }
    }
}

/// Whether the argument is an option: it starts with `-`.
pub open spec fn is_option(arg: Seq<char>) -> bool {
    arg.len() > 0 && arg[0] == '-'
}

/// The index of the first argument from `pos` on that is no option.
pub open spec fn first_word(args: Seq<Seq<char>>, pos: int) -> int
    decreases args.len() - pos,
{
    if 0 <= pos < args.len() && is_option(args[pos]) {
        first_word(args, pos + 1)
    } else {
        pos
    }
}

/// What `builtin` decides: without a name nothing; a name that is no
/// builtin is refused; else the builtin runs with the arguments after
/// `builtin`.
pub open spec fn builtin_spec(core: ShellView, args: Seq<Seq<char>>) -> CommandActionView {
    if args.len() <= 1 {
        CommandActionView::Done(ReportView::quiet())
    } else if !core.builtins.contains(args[1]) {
        CommandActionView::Done(
            ReportView::failure(1, args[0], args[1] + ": not a shell builtin"@),
        )
    } else {
        CommandActionView::RunBuiltin(args.skip(1))
    }
}

/// What `command` decides. A restricted shell refuses `-p`. The options
/// end at the first argument that does not start with `-`; the words after
/// them are described where the last option is `-v` or `-V`, run as a
/// builtin where the first names one, and executed otherwise.
pub open spec fn command_spec(core: ShellView, args: Seq<Seq<char>>) -> CommandActionView {
    let a = dissolved(args);
    let restricted = core.db.flags.contains('r');
    let b = if restricted {
        excluding(a, "-p"@)
    } else {
        a
    };
    if restricted && a.contains("-p"@) {
        CommandActionView::Done(
            ReportView::failure(
                1,
                if b.len() > 0 {
                    b[0]
                } else {
                    "command"@
                },
                "-p: restricted"@,
            ),
        )
    } else if b.len() <= 1 {
        CommandActionView::Done(ReportView::quiet())
    } else {
        let pos = first_word(b, 1);
        let words = b.skip(pos);
        let options = dissolved(b.take(pos));
        if words.len() == 0 {
            CommandActionView::Done(ReportView::quiet())
        } else if options.len() > 0 && (options.last() == "-V"@ || options.last() == "-v"@) {
            CommandActionView::Describe { words, large_v: options.last() == "-V"@ }
        } else if core.builtins.contains(words[0]) {
            CommandActionView::RunBuiltin(words)
        } else {
            CommandActionView::Execute(words)
        }
    }
}

/// What is said of the word `com`, and whether it was found: an alias, a
/// builtin, or the command at `path`.
pub open spec fn described(core: ShellView, com: Seq<char>, path: Option<Seq<char>>, large_v: bool) -> (
    Option<Seq<char>>,
    Option<Seq<char>>,
    bool,
) {
    if core.aliases.contains_key(com) {
        (
            Some(
                if large_v {
                    com + " is aliased to `"@ + core.aliases[com] + "'"@
                } else {
                    "alias "@ + com + "='"@ + core.aliases[com] + "'"@
                },
            ),
            None,
            false,
        )
    } else if core.builtins.contains(com) {
        (
            Some(
                if large_v {
                    com + " is a shell builtin"@
                } else {
                    com
                },
            ),
            None,
            true,
        )
    } else if path is Some {
        (
            Some(
                if large_v {
                    com + " is "@ + path->0
                } else {
                    com
                },
            ),
            None,
            true,
        )
    } else if large_v {
        (None, Some("command: "@ + com + ": not found"@), false)
    } else {
        (None, None, false)
    }
}

/// The report on the words from the `i`-th on, after `sofar`.
pub open spec fn describe_from(
    core: ShellView,
    words: Seq<Seq<char>>,
    paths: Seq<Option<Seq<char>>>,
    large_v: bool,
    i: int,
    sofar: ReportView,
) -> ReportView
    decreases words.len() - i,
{
    if i < 0 || i >= words.len() || i >= paths.len() {
        sofar
    } else {
        let (out, err, found) = described(core, words[i], paths[i], large_v);
        describe_from(
            core,
            words,
            paths,
            large_v,
            i + 1,
            ReportView {
                status: if found {
                    0
                } else {
                    sofar.status
                },
                out: match out {
                    Some(line) => sofar.out.push(line),
                    None => sofar.out,
                },
                err: match err {
                    Some(line) => sofar.err.push(line),
                    None => sofar.err,
                },
            },
        )
    }
}

/// The report of `command -v` and `command -V` on `words`, where
/// `paths[i]` is where the search found the `i`-th word: the status is 0
/// where a word is a builtin or a command that was found.
pub open spec fn command_v_spec(
    core: ShellView,
    words: Seq<Seq<char>>,
    paths: Seq<Option<Seq<char>>>,
    large_v: bool,
) -> ReportView {
    if words.len() == 0 {
        ReportView::quiet()
    } else {
        describe_from(
            core,
            words,
            paths,
            large_v,
            0,
            ReportView { status: 1, out: Seq::empty(), err: Seq::empty() },
        )
    }
}

/// The paths as plain values.
pub open spec fn path_views(paths: Seq<Option<String>>) -> Seq<Option<Seq<char>>> {
    Seq::new(
        paths.len(),
        |i: int|
            match paths[i] {
                Some(p) => Some(p@),
                None => None,
            },
    )
}

/// `builtin`: decides whether the builtin that `args[1]` names runs.
pub fn builtin(core: &ShellCore, args: &Vec<String>) -> (r: CommandAction)
    requires
        core.wf(),
    ensures
        r@ == builtin_spec(core@, texts(args@)),
{
    if args.len() <= 1 {
        return CommandAction::Done(Report::quiet());
    }
    assert(texts(args@)[0] == args[0]@);
    assert(texts(args@)[1] == args[1]@);
    if !core.is_builtin(args[1].as_str()) {
        let msg = glue(args[1].as_str(), ": not a shell builtin");
        return CommandAction::Done(Report::error_exit(1, args[0].as_str(), msg.as_str()));
    }
    let mut rest = clone_strings(args);
    let words = rest.split_off(1);
    assert(texts(words@) =~= texts(args@).skip(1));
    CommandAction::RunBuiltin(words)
}

/// Whether the argument starts with `-`.
fn starts_with_dash(arg: &str) -> (r: bool)
    ensures
        r == is_option(arg@),
{
    arg.unicode_len() > 0 && arg.get_char(0) == '-'
}

/// `command`: decides what is to happen with the words after the options.
pub fn command(core: &ShellCore, args: &Vec<String>) -> (r: CommandAction)
    requires
        core.wf(),
    ensures
        r@ == command_spec(core@, texts(args@)),
{
    let mut args = dissolve_options(args);
    if contains_char(core.db.flags.as_str(), 'r') {
        if consume_option("-p", &mut args) {
            let name = if args.len() > 0 {
                assert(texts(args@)[0] == args[0]@);
                args[0].clone()
            } else {
                "command".to_owned()
            };
            return CommandAction::Done(Report::error_exit(1, name.as_str(), "-p: restricted"));
        }
    }
    if args.len() <= 1 {
        return CommandAction::Done(Report::quiet());
    }
    let ghost b = texts(args@);
    let mut pos: usize = 1;
    while pos < args.len() && starts_with_dash(args[pos].as_str())
        invariant
            1 <= pos <= args.len(),
            b == texts(args@),
            first_word(b, 1) == first_word(b, pos as int),
        decreases args.len() - pos,
    {
        assert(b[pos as int] == args[pos as int]@);
        pos += 1;
    }
    proof {
        if pos < args.len() {
            assert(b[pos as int] == args[pos as int]@);
        }
    }
    let words = args.split_off(pos);
    proof {
        assert(texts(words@) =~= b.skip(pos as int));
        assert(texts(args@) =~= b.take(pos as int));
    }
    if words.len() == 0 {
        return CommandAction::Done(Report::quiet());
    }
    let options = dissolve_options(&args);
    assert(texts(words@)[0] == words[0]@);
    if options.len() > 0 {
        let last = options[options.len() - 1].as_str();
        assert(texts(options@).last() == last@);
        if str_eq(last, "-V") || str_eq(last, "-v") {
            let large_v = str_eq(last, "-V");
            return CommandAction::Describe { words, large_v };
        }
    }
    if core.is_builtin(words[0].as_str()) {
        return CommandAction::RunBuiltin(words);
    }
    CommandAction::Execute(words)
}

/// `command -v` and `command -V`: describes each of `words`, where
/// `paths[i]` is where the search found the `i`-th.
pub fn command_v(words: &Vec<String>, core: &ShellCore, large_v: bool, paths: &Vec<Option<String>>) -> (r:
    Report)
    requires
        core.wf(),
        paths.len() == words.len(),
    ensures
        r@ == command_v_spec(core@, texts(words@), path_views(paths@), large_v),
{
    if words.len() == 0 {
        return Report::quiet();
    }
    let mut report = Report { status: 1, out: Vec::new(), err: Vec::new() };
    proof {
        assert(report@.out =~= Seq::<Seq<char>>::empty());
        assert(report@.err =~= Seq::<Seq<char>>::empty());
    }
    let ghost ws = texts(words@);
    let ghost ps = path_views(paths@);
    let mut i: usize = 0;
    while i < words.len()
        invariant
            i <= words.len(),
            core.wf(),
            paths.len() == words.len(),
            ws == texts(words@),
            ps == path_views(paths@),
            ws.len() > 0,
            command_v_spec(core@, ws, ps, large_v) == describe_from(
                core@,
                ws,
                ps,
                large_v,
                i as int,
                report@,
            ),
        decreases words.len() - i,
    {
        let com = words[i].as_str();
        let ghost before = report@;
        proof {
            assert(ws[i as int] == com@);
            assert(ps[i as int] == match paths[i as int] {
                Some(p) => Some(p@),
                None => None,
            });
        }
        if let Some(alias) = core.alias_of(com) {
            let line = if large_v {
                let mut l = glue(com, " is aliased to `");
                l.append(alias.as_str());
                l.append("'");
                l
            } else {
                let mut l = glue("alias ", com);
                l.append("='");
                l.append(alias.as_str());
                l.append("'");
                l
            };
            report.out.push(line);
            assert(report@.out =~= before.out.push(line@));
        } else if core.is_builtin(com) {
            report.status = 0;
            let line = if large_v {
                glue(com, " is a shell builtin")
            } else {
                com.to_owned()
            };
            report.out.push(line);
            assert(report@.out =~= before.out.push(line@));
        } else if let Some(path) = &paths[i] {
            report.status = 0;
            let line = if large_v {
                let mut l = glue(com, " is ");
                l.append(path.as_str());
                l
            } else {
                com.to_owned()
            };
            report.out.push(line);
            assert(report@.out =~= before.out.push(line@));
        } else if large_v {
            let mut line = glue("command: ", com);
            line.append(": not found");
            report.err.push(line);
            assert(report@.err =~= before.err.push(line@));
        }
        i += 1;
    }
    report
}

} // verus!
