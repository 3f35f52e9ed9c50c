//! Paths as texts: made absolute against the home and the working
//! directory, and made canonical by resolving `.`, `..` and repeated
//! slashes.

use vstd::prelude::*;
use crate::elements::expr::arithmetic::parser::ch;
use crate::feeder::run_end;
use crate::shell::{ShellView, ShellCore};
use crate::utils::text::{chars_of, glue, join, joined, str_eq, string_of_range, texts};

verus! {

/// The test for a character of a path component.
pub open spec fn part_pred() -> spec_fn(char) -> bool {
    |c: char| c != '/'
}

/// Whether the path starts at the root.
pub open spec fn is_rooted(path: Seq<char>) -> bool {
    path.len() > 0 && path[0] == '/'
}

/// Whether the path starts with the component `~`.
pub open spec fn starts_at_home(path: Seq<char>) -> bool {
    path.len() > 0 && path[0] == '~' && (path.len() == 1 || path[1] == '/')
}

/// `path` under `base`: a rooted path stands for itself, another one comes
/// after `base` with one slash between them.
pub open spec fn pushed(base: Seq<char>, path: Seq<char>) -> Seq<char> {
    if is_rooted(path) {
        path
    } else if base.len() == 0 || base.last() == '/' {
        base + path
    } else {
        base + seq!['/'] + path
    }
}

/// The path made absolute: a rooted path as it is; one that starts with
/// `~` under the home directory, as far as `HOME` is set; any other under
/// the working directory, as far as it is known; else nothing.
pub open spec fn absolute_path(core: ShellView, path: Seq<char>) -> Seq<char> {
    if is_rooted(path) {
        path
    } else if starts_at_home(path) {
        let home = match core.db.get_param("HOME"@) {
            Ok(h) => h,
            Err(_) => Seq::empty(),
        };
        if home.len() == 0 {
            Seq::empty()
        } else {
            pushed(
                home,
                path.skip(
                    if path.len() > 1 {
                        2
                    } else {
                        1
                    },
                ),
            )
        }
    } else {
        match core.current_dir {
            Some(cwd) => pushed(cwd, path),
            None => Seq::empty(),
        }
    }
}

/// The components that are left after the component `part`: `.` changes
/// nothing, `..` drops the last, anything else comes after them.
pub open spec fn stepped(parts: Seq<Seq<char>>, part: Seq<char>) -> Seq<Seq<char>> {
    if part == "."@ {
        parts
    } else if part == ".."@ {
        if parts.len() > 0 {
            parts.drop_last()
        } else {
            parts
        }
    } else {
        parts.push(part)
    }
}

/// The components that are left after the path from `pos` on was walked.
pub open spec fn walked(path: Seq<char>, pos: int, parts: Seq<Seq<char>>) -> Seq<Seq<char>>
    decreases path.len() - pos,
{
    if pos < 0 || pos >= path.len() {
        parts
    } else if path[pos] == '/' {
        walked(path, pos + 1, parts)
    } else {
        let end = run_end(path, pos, part_pred());
        if pos < end <= path.len() {
            walked(path, end, stepped(parts, path.subrange(pos, end)))
        } else {
            parts
        }
    }
}

/// The canonical form of a path: its components joined by single slashes,
/// after `.` and `..` were resolved, below the root where the path is
/// rooted.
pub open spec fn canonical_path(path: Seq<char>) -> Seq<char> {
    let parts = joined(walked(path, 0, Seq::empty()), seq!['/']);
    if is_rooted(path) {
        seq!['/'] + parts
    } else {
        parts
    }
}

fn push_path(base: &str, path: &str) -> (r: String)
    ensures
        r@ == pushed(base@, path@),
{
    let p = chars_of(path);
    if p.len() > 0 && p[0] == '/' {
        return path.to_owned();
    }
    let b = chars_of(base);
    if b.len() == 0 || b[b.len() - 1] == '/' {
        glue(base, path)
    } else {
        let mut s = glue(base, "/");
        proof {
            reveal_strlit("/");
            assert("/"@ =~= seq!['/']);
        }
        s.append(path);
        s
    }
}

/// Makes the path absolute.
pub fn make_absolute_path(core: &ShellCore, path_str: &str) -> (r: String)
    requires
        core.wf(),
    ensures
        r@ == absolute_path(core@, path_str@),
{
    let v = chars_of(path_str);
    if v.len() > 0 && v[0] == '/' {
        return path_str.to_owned();
    }
    if v.len() > 0 && v[0] == '~' && (v.len() == 1 || v[1] == '/') {
        let home = match core.db.get_param("HOME") {
            Ok(h) => h,
            Err(_) => String::new(),
        };
        if home.as_str().is_empty() {
            return String::new();
        }
        let num: usize = if v.len() > 1 {
            2
        } else {
            1
        };
        let rest = string_of_range(&v, num, v.len());
        assert(rest@ =~= path_str@.skip(num as int));
        return push_path(home.as_str(), rest.as_str());
    }
    match core.get_current_directory() {
        Some(cwd) => push_path(cwd.as_str(), path_str),
        None => String::new(),
    }
}

/// Makes the path absolute and canonical.
pub fn make_canonical_path(core: &ShellCore, path_str: &str) -> (r: String)
    requires
        core.wf(),
    ensures
        r@ == canonical_path(absolute_path(core@, path_str@)),
{
    let path = make_absolute_path(core, path_str);
    canonicalize(path.as_str())
}

/// The canonical form of a path.
pub fn canonicalize(path: &str) -> (r: String)
    ensures
        r@ == canonical_path(path@),
{
    let v = chars_of(path);
    let mut parts: Vec<String> = Vec::new();
    let mut i: usize = 0;
    proof {
        reveal_strlit(".");
        reveal_strlit("..");
        reveal_strlit("/");
        assert("/"@ =~= seq!['/']);
        assert(texts(parts@) =~= Seq::<Seq<char>>::empty());
    }
    while i < v.len()
        invariant
            i <= v.len(),
            v@ == path@,
            walked(path@, 0, Seq::empty()) == walked(path@, i as int, texts(parts@)),
        decreases v.len() - i,
    {
        if v[i] == '/' {
            i += 1;
        } else {
            let ghost before = texts(parts@);
            let mut end: usize = i;
            while end < v.len() && v[end] != '/'
                invariant
                    i <= end <= v.len(),
                    run_end(v@, i as int, part_pred()) == run_end(v@, end as int, part_pred()),
                decreases v.len() - end,
            {
                assert(part_pred()(v@[end as int]));
                end += 1;
            }
            proof {
                if end < v.len() {
                    assert(!part_pred()(v@[end as int]));
                }
                assert(part_pred()(v@[i as int]));
                if end == i {
                    assert(run_end(v@, i as int, part_pred()) == run_end(v@, i + 1, part_pred()));
                    crate::feeder::lemma_run_end(v@, i + 1, part_pred());
                }
            }
            let part = string_of_range(&v, i, end);
            if str_eq(part.as_str(), ".") {
            } else if str_eq(part.as_str(), "..") {
                if parts.len() > 0 {
                    parts.pop();
                    assert(texts(parts@) =~= before.drop_last());
                }
            } else {
                parts.push(part);
                assert(texts(parts@) =~= before.push(part@));
            }
            i = end;
        }
    }
    let body = join(&parts, "/");
    if v.len() > 0 && v[0] == '/' {
        glue("/", body.as_str())
    } else {
        body
    }
}

} // verus!
