use sush::error::arith::ArithError;
use sush::error::exec::ExecError;
use sush::error::parse::ParseError;
use sush::shell::builtins::command::{builtin, command, command_v, CommandAction};
use sush::shell::builtins::hash::hash;
use sush::shell::builtins::Report;
use sush::shell::database::DataBase;
use sush::shell::ShellCore;
use sush::utils::arg::dissolve_options;
use sush::utils::file::{canonicalize, make_absolute_path, make_canonical_path};
use sush::utils::number::IntError;

fn strings(v: &[&str]) -> Vec<String> {
    v.iter().map(|s| s.to_string()).collect()
}

fn shell() -> ShellCore {
    let mut c = ShellCore::new(DataBase::new(1, "/home/u"));
    c.builtins = strings(&["cd", "echo", "hash"]);
    c.aliases.insert("ll", "ls -l".to_string());
    c
}

fn quiet() -> Report {
    Report { status: 0, out: vec![], err: vec![] }
}

fn failed(line: &str) -> Report {
    Report { status: 1, out: vec![], err: strings(&[line]) }
}

#[test]
fn bundled_options_come_apart() {
    assert_eq!(
        dissolve_options(&strings(&["cmd", "-ab", "+xy", "--long", "-", "word", "-v", "", "+"])),
        strings(&["cmd", "-a", "-b", "+x", "+y", "--long", "-", "word", "-v", "", "+"])
    );
    assert_eq!(dissolve_options(&vec![]), strings(&[]));
}

#[test]
fn builtin_runs_what_is_one() {
    let c = shell();
    assert_eq!(builtin(&c, &strings(&["builtin"])), CommandAction::Done(quiet()));
    assert_eq!(builtin(&c, &strings(&[])), CommandAction::Done(quiet()));
    assert_eq!(
        builtin(&c, &strings(&["builtin", "echo", "a", "b"])),
        CommandAction::RunBuiltin(strings(&["echo", "a", "b"]))
    );
    assert_eq!(
        builtin(&c, &strings(&["builtin", "ls", "a"])),
        CommandAction::Done(failed("builtin: ls: not a shell builtin"))
    );
}

#[test]
fn command_decides_what_runs() {
    let c = shell();
    assert_eq!(command(&c, &strings(&["command"])), CommandAction::Done(quiet()));
    assert_eq!(command(&c, &strings(&["command", "-p"])), CommandAction::Done(quiet()));
    assert_eq!(
        command(&c, &strings(&["command", "ls", "-l"])),
        CommandAction::Execute(strings(&["ls", "-l"]))
    );
    assert_eq!(
        command(&c, &strings(&["command", "-p", "echo", "hi"])),
        CommandAction::RunBuiltin(strings(&["echo", "hi"]))
    );
    assert_eq!(
        command(&c, &strings(&["command", "-v", "ls", "cd"])),
        CommandAction::Describe { words: strings(&["ls", "cd"]), large_v: false }
    );
    assert_eq!(
        command(&c, &strings(&["command", "-pV", "ls"])),
        CommandAction::Describe { words: strings(&["ls"]), large_v: true }
    );
    assert_eq!(
        command(&c, &strings(&["command", "-V", "-p", "ls"])),
        CommandAction::Execute(strings(&["ls"]))
    );
}

#[test]
fn a_restricted_shell_refuses_the_default_path() {
    let mut c = shell();
    c.db.flags = "Br".to_string();
    assert_eq!(
        command(&c, &strings(&["command", "-p", "ls"])),
        CommandAction::Done(failed("command: -p: restricted"))
    );
    assert_eq!(
        command(&c, &strings(&["command", "-vp", "ls"])),
        CommandAction::Done(failed("command: -p: restricted"))
    );
    assert_eq!(command(&c, &strings(&["-p"])), CommandAction::Done(failed("command: -p: restricted")));
    assert_eq!(command(&c, &strings(&["command", "ls"])), CommandAction::Execute(strings(&["ls"])));
}

#[test]
fn words_are_described() {
    let c = shell();
    let words = strings(&["ll", "cd", "ls", "nope"]);
    let paths = vec![None, None, Some("/bin/ls".to_string()), None];
    assert_eq!(
        command_v(&words, &c, false, &paths),
        Report { status: 0, out: strings(&["alias ll='ls -l'", "cd", "ls"]), err: vec![] }
    );
    assert_eq!(
        command_v(&words, &c, true, &paths),
        Report {
            status: 0,
            out: strings(&["ll is aliased to `ls -l'", "cd is a shell builtin", "ls is /bin/ls"]),
            err: strings(&["command: nope: not found"]),
        }
    );
    assert_eq!(
        command_v(&strings(&["ll", "nope"]), &c, false, &vec![None, None]),
        Report { status: 1, out: strings(&["alias ll='ls -l'"]), err: vec![] }
    );
    assert_eq!(command_v(&vec![], &c, true, &vec![]), quiet());
}

#[test]
fn hash_remembers_commands() {
    let mut c = shell();
    assert_eq!(hash(&mut c, &strings(&["hash"])), Report { status: 0, out: strings(&["hits\tcommand"]), err: vec![] });
    assert_eq!(hash(&mut c, &strings(&["hash", "-p", "/bin/ls", "ls"])), quiet());
    assert_eq!(hash(&mut c, &strings(&["hash", "-p", "/usr/bin/awk", "awk"])), quiet());
    assert_eq!(hash(&mut c, &strings(&["hash", "-p", "/bin/cat", "cat"])), quiet());
    assert_eq!(c.db.get_elem("BASH_CMDS", "ls"), Ok("/bin/ls".to_string()));
    c.db.hash_counter.insert("ls", 3);
    c.db.hash_counter.insert("cat", 12345);
    assert_eq!(
        hash(&mut c, &strings(&["hash"])),
        Report { status: 0, out: strings(&["hits\tcommand", "   3\t/bin/ls", "12345\t/bin/cat"]), err: vec![] }
    );
    assert_eq!(hash(&mut c, &strings(&["hash", "-p"])), failed("hash: -p: option requires an argument"));
    assert_eq!(hash(&mut c, &strings(&["hash", "-p", "/bin/x"])), failed("hash: still not implemented"));
    assert_eq!(hash(&mut c, &strings(&["hash", "ls"])), quiet());
    c.db.flags = "Br".to_string();
    assert_eq!(hash(&mut c, &strings(&["hash", "-p", "/bin/x", "x"])), failed("hash: /bin/x: restricted"));
    assert_eq!(c.db.has_key("BASH_CMDS", "x"), Ok(false));
}

#[test]
fn failures_say_what_went_wrong() {
    assert_eq!(ExecError::InvalidName("1x".to_string()).message(), "`1x': invalid name");
    assert_eq!(ExecError::ReadOnly("x".to_string()).message(), "x: readonly variable");
    assert_eq!(ExecError::BadFd(7).message(), "7: bad file descriptor");
    assert_eq!(ExecError::BadFd(-1).message(), "-1: bad file descriptor");
    assert_eq!(ExecError::ArrayIndexInvalid("-9".to_string()).message(), "`-9': not a valid index");
    assert_eq!(ExecError::SubstringMinus(-2).message(), "-2: substring expression < 0");
    assert_eq!(ExecError::BadSubstitution("".to_string()).message(), "`': bad substitution");
    assert_eq!(ExecError::Restricted("/bin/ls".to_string()).message(), "/bin/ls: restricted");
    assert_eq!(ExecError::Other("plain".to_string()).message(), "plain");
    assert_eq!(
        ExecError::SyntaxError("(".to_string()).message(),
        "syntax error near unexpected token `('"
    );
    assert_eq!(
        ExecError::ParseInt("abc".to_string(), IntError::InvalidDigit).message(),
        "abc: invalid digit found in string"
    );
    assert_eq!(
        ExecError::ParseInt("".to_string(), IntError::Empty).message(),
        ": cannot parse integer from empty string"
    );
    assert_eq!(
        ExecError::ArithError("1/0".to_string(), ArithError::DivZero).message(),
        "1/0: division by 0"
    );
    assert_eq!(
        ArithError::SyntaxError("2".to_string()).message(),
        "syntax error in expression (error token is \"2\")"
    );
    assert_eq!(
        ArithError::OperandExpected("".to_string()).message(),
        "operand expected (error token is \"\")"
    );
    assert_eq!(
        ArithError::AssignmentToNonVariable("5".to_string()).message(),
        "attempted assignment to non-variable (error token is \"5\")"
    );
    assert_eq!(
        ArithError::InvalidNumber("x".to_string(), IntError::PosOverflow).message(),
        "number too large to fit in target type (error token is \"x\")"
    );
    assert_eq!(
        ArithError::InvalidNumber("x".to_string(), IntError::NegOverflow).message(),
        "number too small to fit in target type (error token is \"x\")"
    );
    assert_eq!(
        ExecError::ParseError(ParseError::UnexpectedSymbol(")".to_string())).message(),
        "syntax error near unexpected token `)'"
    );
    assert_eq!(ParseError::UnexpectedEof.message(), "syntax error: unexpected end of file");
}

#[test]
fn paths_are_made_absolute() {
    let mut c = shell();
    c.current_dir = Some("/work/dir".to_string());
    assert_eq!(make_absolute_path(&c, "/etc/passwd"), "/etc/passwd");
    assert_eq!(make_absolute_path(&c, "a/b"), "/work/dir/a/b");
    assert_eq!(make_absolute_path(&c, "../x"), "/work/dir/../x");
    assert_eq!(make_absolute_path(&c, ""), "/work/dir/");
    assert_eq!(make_absolute_path(&c, "~"), "/home/u/");
    assert_eq!(make_absolute_path(&c, "~/docs"), "/home/u/docs");
    assert_eq!(make_absolute_path(&c, "~//abs"), "/abs");
    assert_eq!(make_absolute_path(&c, "~user/x"), "/work/dir/~user/x");
    assert_eq!(c.get_current_directory(), Some("/work/dir".to_string()));
    c.current_dir = Some("/".to_string());
    assert_eq!(make_absolute_path(&c, "a"), "/a");
    c.current_dir = None;
    assert_eq!(make_absolute_path(&c, "a"), "");
    assert_eq!(c.db.unset_var("HOME"), Ok(()));
    assert_eq!(make_absolute_path(&c, "~/docs"), "");
}

#[test]
fn paths_are_made_canonical() {
    assert_eq!(canonicalize("/a/b/../c/./d//e/"), "/a/c/d/e");
    assert_eq!(canonicalize("/"), "/");
    assert_eq!(canonicalize("//"), "/");
    assert_eq!(canonicalize("/.."), "/");
    assert_eq!(canonicalize("/../../a"), "/a");
    assert_eq!(canonicalize("/a/.."), "/");
    assert_eq!(canonicalize("a/b/../../.."), "");
    assert_eq!(canonicalize("./a/./b"), "a/b");
    assert_eq!(canonicalize(""), "");
    assert_eq!(canonicalize("/a/..b/...//c."), "/a/..b/.../c.");
    let mut c = shell();
    c.current_dir = Some("/work/dir".to_string());
    assert_eq!(make_canonical_path(&c, "../x/./y"), "/work/x/y");
    assert_eq!(make_canonical_path(&c, "~/../v"), "/home/v");
    assert_eq!(make_canonical_path(&c, "/usr//lib/"), "/usr/lib");
}

#[test]
fn parameters_are_listed() {
    let mut db = DataBase::bare();
    assert_eq!(db.set_param("s", "cost $5", None), Ok(()));
    assert_eq!(db.init_as_num("n", "7", None), Ok(()));
    assert_eq!(db.set_array("a", Some(strings(&["x", "$y"])), None), Ok(()));
    assert_eq!(db.set_array_elem("a", "far", 5, None), Ok(()));
    assert_eq!(db.set_assoc("h", None, true), Ok(()));
    assert_eq!(db.set_assoc_elem("h", "k 1", "v", None), Ok(()));
    assert_eq!(db.set_int_array("ia", Some(strings(&["1", "2"])), None), Ok(()));
    assert_eq!(db.set_array("u", None, None), Ok(()));
    assert_eq!(db.set_array("e", Some(vec![]), None), Ok(()));
    db.functions.insert("f", "f () { echo; }".to_string());
    assert_eq!(db.print("s"), Some("s=cost $5".to_string()));
    assert_eq!(db.print("n"), Some("n=7".to_string()));
    assert_eq!(db.print("a"), Some("a=([0]=\"x\" [1]=\"\\$y\" [5]=\"far\")".to_string()));
    assert_eq!(db.print("h"), Some("h=([k 1]=\"v\")".to_string()));
    assert_eq!(db.print("ia"), Some("ia=([0]=\"1\" [1]=\"2\")".to_string()));
    assert_eq!(db.print("u"), Some("u".to_string()));
    assert_eq!(db.print("e"), Some("e=()".to_string()));
    assert_eq!(db.print("f"), Some("f () { echo; }".to_string()));
    assert_eq!(db.print("none"), None);
    assert_eq!(db.declare_print("s"), Some("declare -- s=\"cost \\$5\"".to_string()));
    assert_eq!(db.declare_print("n"), Some("declare -i n=\"7\"".to_string()));
    assert_eq!(db.declare_print("a"), Some("declare -a a=([0]=\"x\" [1]=\"\\$y\" [5]=\"far\")".to_string()));
    assert_eq!(db.declare_print("h"), Some("declare -A h=([k 1]=\"v\")".to_string()));
    assert_eq!(db.declare_print("ia"), Some("declare -ai ia=([0]=\"1\" [1]=\"2\")".to_string()));
    assert_eq!(db.declare_print("u"), Some("declare -a u".to_string()));
    assert_eq!(db.declare_print("f"), Some("f () { echo; }".to_string()));
    assert_eq!(db.declare_print("none"), None);
}
