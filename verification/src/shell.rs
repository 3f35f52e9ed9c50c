//! The shell's state: the parameter store and the options that the
//! evaluators consult.

pub mod builtins;
pub mod database;

use vstd::prelude::*;
use crate::shell::database::{DataBase, DbView};
use crate::utils::name_map::NameMap;
use crate::utils::text::{str_eq, texts};

verus! {

/// The options that `shopt` switches.
#[derive(Debug)]
pub struct Options {
    pub opts: NameMap<bool>,
}

impl Options {
    /// No option occurs twice.
    pub open spec fn wf(&self) -> bool {
        self.opts.wf()
    }

    /// The options as a map from names to their state.
    pub open spec fn view(&self) -> Map<Seq<char>, bool> {
        self.opts@
    }

    /// Whether the option is on in the map; one that is not there is off.
    pub open spec fn is_on(m: Map<Seq<char>, bool>, name: Seq<char>) -> bool {
        m.contains_key(name) && m[name]
    }

    /// No option is on.
    pub fn new() -> (r: Self)
        ensures
            r.wf(),
            r@ == Map::<Seq<char>, bool>::empty(),
    {
        Options { opts: NameMap::new() }
    }

    /// Whether the option is on.
    pub fn query(&self, name: &str) -> (r: bool)
        requires
            self.wf(),
        ensures
            r == Self::is_on(self@, name@),
    {
        match self.opts.get(name) {
            Some(b) => *b,
            None => false,
        }
    }

    /// Switches the option on or off.
    pub fn set(&mut self, name: &str, on: bool)
        requires
            old(self).wf(),
        ensures
            final(self).wf(),
            final(self)@ == old(self)@.insert(name@, on),
    {
        self.opts.insert(name, on);
    }
}

/// The state of a shell: its store, its aliases and builtins, its options.
#[derive(Debug)]
pub struct ShellCore {
    pub db: DataBase,
    /// What each alias stands for.
    pub aliases: NameMap<String>,
    /// The names of the builtins.
    pub builtins: Vec<String>,
    /// The working directory, where it is known.
    pub current_dir: Option<String>,
    pub shopts: Options,
    /// Whether the command that runs is one for which the option
    /// `assoc_expand_once` counts.
    pub valid_assoc_expand_once: bool,
}

/// The state of a shell as plain values.
pub struct ShellView {
    pub db: DbView,
    pub aliases: Map<Seq<char>, Seq<char>>,
    pub builtins: Seq<Seq<char>>,
    pub current_dir: Option<Seq<char>>,
    pub shopts: Map<Seq<char>, bool>,
    pub valid_assoc_expand_once: bool,
}

impl ShellView {
    /// The same shell with another store.
    pub open spec fn with_db(self, db: DbView) -> ShellView {
        ShellView { db, ..self }
    }

    /// Whether the subscript of an associative array is taken as it stands,
    /// without expansion.
    pub open spec fn expand_once(self) -> bool {
        self.valid_assoc_expand_once && Options::is_on(self.shopts, "assoc_expand_once"@)
    }
}

impl ShellCore {
    /// The store, the aliases and the options are well formed.
    pub open spec fn wf(&self) -> bool {
        self.db.wf() && self.shopts.wf() && self.aliases.wf()
    }

    /// The shell as plain values.
    pub open spec fn view(&self) -> ShellView {
        ShellView {
            db: self.db@,
            aliases: crate::shell::database::text_table_view(self.aliases),
            builtins: texts(self.builtins@),
            current_dir: match self.current_dir {
                Some(d) => Some(d@),
                None => None,
            },
            shopts: self.shopts@,
            valid_assoc_expand_once: self.valid_assoc_expand_once,
        }
    }

    /// A shell around the store `db`, with every option off.
    pub fn new(db: DataBase) -> (r: Self)
        requires
            db.wf(),
        ensures
            r.wf(),
            r@ == (ShellView {
                db: db@,
                aliases: Map::<Seq<char>, Seq<char>>::empty(),
                builtins: Seq::<Seq<char>>::empty(),
                current_dir: None,
                shopts: Map::<Seq<char>, bool>::empty(),
                valid_assoc_expand_once: false,
            }),
    {
        let r = ShellCore {
            db,
            aliases: NameMap::new(),
            builtins: Vec::new(),
            current_dir: None,
            shopts: Options::new(),
            valid_assoc_expand_once: false,
        };
        proof {
            assert(r@.aliases =~= Map::<Seq<char>, Seq<char>>::empty());
            assert(r@.builtins =~= Seq::<Seq<char>>::empty());
        }
        r
    }

    /// The working directory, where it is known.
    pub fn get_current_directory(&self) -> (r: Option<String>)
        ensures
            match r {
                Some(d) => self@.current_dir == Some(d@),
                None => self@.current_dir is None,
            },
    {
        match &self.current_dir {
            Some(d) => Some(d.clone()),
            None => None,
        }
    }

    /// Whether `name` is a builtin.
    pub fn is_builtin(&self, name: &str) -> (r: bool)
        ensures
            r == self@.builtins.contains(name@),
    {
        let mut i: usize = 0;
        while i < self.builtins.len()
            invariant
                i <= self.builtins.len(),
                forall|j: int| 0 <= j < i ==> texts(self.builtins@)[j] != name@,
            decreases self.builtins.len() - i,
        {
            if str_eq(self.builtins[i].as_str(), name) {
                assert(texts(self.builtins@)[i as int] == name@);
                return true;
            }
            i += 1;
        }
        false
    }

    /// What the alias `name` stands for.
    pub fn alias_of(&self, name: &str) -> (r: Option<String>)
        requires
            self.wf(),
        ensures
            match r {
                Some(v) => self@.aliases.contains_key(name@) && self@.aliases[name@] == v@,
                None => !self@.aliases.contains_key(name@),
            },
    {
        match self.aliases.get(name) {
            Some(v) => Some(v.clone()),
            None => None,
        }
    }

    /// Whether the subscript of an associative array is taken as it stands.
    pub fn expand_once(&self) -> (r: bool)
        requires
            self.wf(),
        ensures
            r == self@.expand_once(),
    {
        self.valid_assoc_expand_once && self.shopts.query("assoc_expand_once")
    }
}

} // verus!
