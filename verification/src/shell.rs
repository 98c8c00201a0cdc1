//! The interpreter-visible state that this layer reads and writes, held as an
//! explicit value.
//!
//! A [`Shell`] carries exactly the state the extension layer touches through
//! the interpreter's entry points: the two shell-option tables, the builtin
//! table, the variable table, the single-slot error channel (thread-local
//! slot and the pid-keyed shared slot a subshell reports through), the
//! subshell nesting level, the currently executing command name, and the
//! two console sinks.  The process-level glue that ties a `Shell` to a
//! live interpreter stays outside the library.

use vstd::prelude::*;
use vstd::string::StrSliceExecFns;

use crate::builtins::BuiltinV;
use crate::builtins::ForeignBuiltin;
use crate::builtins::BUILTIN_ENABLED;
use crate::builtins::STATIC_BUILTIN;
use crate::error::Error;
use crate::error::ErrorV;
use crate::variables::Var;
use crate::variables::VarV;

verus! {

/// Size of the fixed shared-memory error buffer, in characters; one place is
/// reserved for the terminating NUL, so a stored message holds at most
/// `SHM_BUF_LEN - 1` characters.
pub const SHM_BUF_LEN: usize = 4096;

/// The process exit status a subshell terminates with after depositing a
/// fatal error for its parent.
pub const FATAL_EXIT_CODE: i32 = 2;

/// The interpreter state as a mathematical value.
#[verifier::ext_equal]
pub struct ShellView {
    /// The configured process name; the interpreter prefixes error messages
    /// with it.
    pub name: Seq<char>,
    /// All option names the `set` builtin knows.
    pub set_known: Seq<Seq<char>>,
    /// The currently enabled `set` options.
    pub set_on: Seq<Seq<char>>,
    /// All option names the `shopt` builtin knows.
    pub shopt_known: Seq<Seq<char>>,
    /// The currently enabled `shopt` options.
    pub shopt_on: Seq<Seq<char>>,
    /// The interpreter's builtin table.
    pub builtins: Seq<BuiltinV>,
    /// The interpreter's variable table.
    pub vars: Seq<VarV>,
    /// The thread-local single-slot error mailbox.
    pub last_error: Option<ErrorV>,
    /// The pid-keyed shared error slot, written by a subshell for its parent.
    pub shm: Option<Seq<char>>,
    /// How many subshells deep this process runs; zero in the main process.
    pub subshell_level: int,
    /// The name of the command the interpreter is currently executing.
    pub current_cmd: Option<Seq<char>>,
    /// Standard-output lines written so far.
    pub out: Seq<Seq<char>>,
    /// Diagnostic lines written so far.
    pub diag: Seq<Seq<char>>,
}

/// The interpreter state the extension layer works against.
pub struct Shell {
    pub name: String,
    pub set_known: Vec<String>,
    pub set_on: Vec<String>,
    pub shopt_known: Vec<String>,
    pub shopt_on: Vec<String>,
    pub builtins: Vec<ForeignBuiltin>,
    pub vars: Vec<Var>,
    pub last_error: Option<Error>,
    pub shm: Option<String>,
    pub subshell_level: i32,
    pub current_cmd: Option<String>,
    pub out: Vec<String>,
    pub diag: Vec<String>,
}

impl View for Shell {
    type V = ShellView;

    open spec fn view(&self) -> ShellView {
        ShellView {
            name: self.name@,
            set_known: self.set_known.deep_view(),
            set_on: self.set_on.deep_view(),
            shopt_known: self.shopt_known.deep_view(),
            shopt_on: self.shopt_on.deep_view(),
            builtins: self.builtins.deep_view(),
            vars: self.vars.deep_view(),
            last_error: self.last_error.deep_view(),
            shm: self.shm.deep_view(),
            subshell_level: self.subshell_level as int,
            current_cmd: self.current_cmd.deep_view(),
            out: self.out.deep_view(),
            diag: self.diag.deep_view(),
        }
    }
}

impl ShellView {
    /// The well-formedness discipline of the interpreter tables: the builtin
    /// table and the variable table bind each name at most once.  A fresh
    /// shell satisfies it, and the library's operations keep it (see the
    /// preservation lemmas beside the table transformers).
    pub open spec fn wf(self) -> bool {
        &&& crate::variables::distinct_var_names(self.vars)
        &&& crate::builtins::distinct_builtin_names(self.builtins)
    }
}

/// The `set` option names of the modeled interpreter release.
pub open spec fn default_set_known() -> Seq<Seq<char>> {
    seq![
        "allexport"@,
        "braceexpand"@,
        "errexit"@,
        "hashall"@,
        "histexpand"@,
        "history"@,
        "ignoreeof"@,
        "interactive-comments"@,
        "monitor"@,
        "noclobber"@,
        "noexec"@,
        "noglob"@,
        "nounset"@,
        "pipefail"@,
        "posix"@,
        "verbose"@,
        "xtrace"@,
    ]
}

/// The `set` options enabled when the interpreter starts.
pub open spec fn default_set_on() -> Seq<Seq<char>> {
    seq!["braceexpand"@, "hashall"@, "interactive-comments"@]
}

/// The `shopt` option names of the modeled interpreter release.
pub open spec fn default_shopt_known() -> Seq<Seq<char>> {
    seq![
        "autocd"@,
        "cdspell"@,
        "checkhash"@,
        "checkwinsize"@,
        "cmdhist"@,
        "dotglob"@,
        "expand_aliases"@,
        "extglob"@,
        "extquote"@,
        "failglob"@,
        "globstar"@,
        "histappend"@,
        "hostcomplete"@,
        "interactive_comments"@,
        "nullglob"@,
        "progcomp"@,
        "promptvars"@,
        "sourcepath"@,
    ]
}

/// The `shopt` options enabled when the interpreter starts.
pub open spec fn default_shopt_on() -> Seq<Seq<char>> {
    seq![
        "checkwinsize"@,
        "cmdhist"@,
        "expand_aliases"@,
        "extquote"@,
        "hostcomplete"@,
        "interactive_comments"@,
        "progcomp"@,
        "promptvars"@,
        "sourcepath"@,
    ]
}

/// The names of the interpreter's own static builtins in the model.
pub open spec fn default_builtin_names() -> Seq<Seq<char>> {
    seq![
        ":"@,
        "alias"@,
        "break"@,
        "cd"@,
        "declare"@,
        "echo"@,
        "eval"@,
        "exit"@,
        "export"@,
        "local"@,
        "set"@,
        "shopt"@,
        "unset"@,
    ]
}

/// The interpreter's static builtin table: every entry enabled.
pub open spec fn default_builtins() -> Seq<BuiltinV> {
    default_builtin_names().map_values(
        |n: Seq<char>|
            (BuiltinV {
                name: n,
                flags: BUILTIN_ENABLED | STATIC_BUILTIN,
                short_doc: Seq::empty(),
                long_doc: Seq::empty(),
                has_function: true,
            }),
    )
}

/// The state of a freshly initialized shell.
pub open spec fn initial_shell() -> ShellView {
    ShellView {
        name: "scallop"@,
        set_known: default_set_known(),
        set_on: default_set_on(),
        shopt_known: default_shopt_known(),
        shopt_on: default_shopt_on(),
        builtins: default_builtins(),
        vars: Seq::empty(),
        last_error: None,
        shm: None,
        subshell_level: 0,
        current_cmd: None,
        out: Seq::empty(),
        diag: Seq::empty(),
    }
}

/// A freshly initialized shell is well formed: its variable table is empty
/// and its builtin table binds each of its names once.
pub proof fn lemma_initial_shell_wf()
    ensures
        initial_shell().wf(),
{
    reveal_strlit(":");
    reveal_strlit("alias");
    reveal_strlit("break");
    reveal_strlit("cd");
    reveal_strlit("declare");
    reveal_strlit("echo");
    reveal_strlit("eval");
    reveal_strlit("exit");
    reveal_strlit("export");
    reveal_strlit("local");
    reveal_strlit("set");
    reveal_strlit("shopt");
    reveal_strlit("unset");
    assert((":"@).len() == 1);
    assert(("alias"@).len() == 5);
    assert(("break"@).len() == 5);
    assert(("cd"@).len() == 2);
    assert(("declare"@).len() == 7);
    assert(("echo"@).len() == 4);
    assert(("eval"@).len() == 4);
    assert(("exit"@).len() == 4);
    assert(("export"@).len() == 6);
    assert(("local"@).len() == 5);
    assert(("set"@).len() == 3);
    assert(("shopt"@).len() == 5);
    assert(("unset"@).len() == 5);
    // character witnesses for the names of equal length
    assert(("alias"@)[0] == 'a');
    assert(("break"@)[0] == 'b');
    assert(("local"@)[0] == 'l');
    assert(("shopt"@)[0] == 's');
    assert(("unset"@)[0] == 'u');
    assert(("echo"@)[1] == 'c');
    assert(("eval"@)[1] == 'v');
    assert(("exit"@)[1] == 'x');
    let names = default_builtin_names();
        assert(names.len() == 13);
        assert(names[0] == ":"@);
        assert(names[1] == "alias"@);
        assert(names[2] == "break"@);
        assert(names[3] == "cd"@);
        assert(names[4] == "declare"@);
        assert(names[5] == "echo"@);
        assert(names[6] == "eval"@);
        assert(names[7] == "exit"@);
        assert(names[8] == "export"@);
        assert(names[9] == "local"@);
        assert(names[10] == "set"@);
        assert(names[11] == "shopt"@);
        assert(names[12] == "unset"@);
        assert(names[0] != names[1]);
        assert(names[0] != names[2]);
        assert(names[0] != names[3]);
        assert(names[0] != names[4]);
        assert(names[0] != names[5]);
        assert(names[0] != names[6]);
        assert(names[0] != names[7]);
        assert(names[0] != names[8]);
        assert(names[0] != names[9]);
        assert(names[0] != names[10]);
        assert(names[0] != names[11]);
        assert(names[0] != names[12]);
        assert(names[1] != names[2]);
        assert(names[1] != names[3]);
        assert(names[1] != names[4]);
        assert(names[1] != names[5]);
        assert(names[1] != names[6]);
        assert(names[1] != names[7]);
        assert(names[1] != names[8]);
        assert(names[1] != names[9]);
        assert(names[1] != names[10]);
        assert(names[1] != names[11]);
        assert(names[1] != names[12]);
        assert(names[2] != names[3]);
        assert(names[2] != names[4]);
        assert(names[2] != names[5]);
        assert(names[2] != names[6]);
        assert(names[2] != names[7]);
        assert(names[2] != names[8]);
        assert(names[2] != names[9]);
        assert(names[2] != names[10]);
        assert(names[2] != names[11]);
        assert(names[2] != names[12]);
        assert(names[3] != names[4]);
        assert(names[3] != names[5]);
        assert(names[3] != names[6]);
        assert(names[3] != names[7]);
        assert(names[3] != names[8]);
        assert(names[3] != names[9]);
        assert(names[3] != names[10]);
        assert(names[3] != names[11]);
        assert(names[3] != names[12]);
        assert(names[4] != names[5]);
        assert(names[4] != names[6]);
        assert(names[4] != names[7]);
        assert(names[4] != names[8]);
        assert(names[4] != names[9]);
        assert(names[4] != names[10]);
        assert(names[4] != names[11]);
        assert(names[4] != names[12]);
        assert(names[5] != names[6]);
        assert(names[5] != names[7]);
        assert(names[5] != names[8]);
        assert(names[5] != names[9]);
        assert(names[5] != names[10]);
        assert(names[5] != names[11]);
        assert(names[5] != names[12]);
        assert(names[6] != names[7]);
        assert(names[6] != names[8]);
        assert(names[6] != names[9]);
        assert(names[6] != names[10]);
        assert(names[6] != names[11]);
        assert(names[6] != names[12]);
        assert(names[7] != names[8]);
        assert(names[7] != names[9]);
        assert(names[7] != names[10]);
        assert(names[7] != names[11]);
        assert(names[7] != names[12]);
        assert(names[8] != names[9]);
        assert(names[8] != names[10]);
        assert(names[8] != names[11]);
        assert(names[8] != names[12]);
        assert(names[9] != names[10]);
        assert(names[9] != names[11]);
        assert(names[9] != names[12]);
        assert(names[10] != names[11]);
        assert(names[10] != names[12]);
        assert(names[11] != names[12]);
    assert forall|i: int, j: int| 0 <= i < j < default_builtins().len() implies default_builtins()[
        i].name != default_builtins()[j].name by {
        assert(default_builtins()[i].name == names[i]);
        assert(default_builtins()[j].name == names[j]);
    }
}

/// The version label of the modeled interpreter release.
pub open spec fn spec_bash_version() -> Seq<char> {
    "5.2.21"@
}

/// The version string of the modeled interpreter release.
pub fn bash_version() -> (r: String)
    ensures
        r@ == spec_bash_version(),
{
    "5.2.21".to_owned()
}

fn push_names(v: &mut Vec<String>, names: &[&str])
    ensures
        final(v).deep_view() == old(v).deep_view() + names.deep_view(),
{
    let ghost base = v.deep_view();
    let n = names.len();
    for i in 0..n
        invariant
            n == names.len(),
            v.deep_view() == base + names.deep_view().take(i as int),
    {
        let s: &str = names[i];
        let ghost pre = v.deep_view();
        v.push(s.to_owned());
        proof {
            assert(names.deep_view().take(i + 1) =~= names.deep_view().take(i as int).push(
                names.deep_view()[i as int],
            ));
            assert(s@ == names.deep_view()[i as int]);
            assert(v.deep_view() =~= pre.push(s@));
            assert(v.deep_view() =~= base + names.deep_view().take(i + 1));
        }
    }
    proof {
        assert(names.deep_view().take(n as int) =~= names.deep_view());
        assert(base + names.deep_view().take(n as int) =~= base + names.deep_view());
    }
}

impl Shell {
    /// Initialize the shell for library use: the fixed option and builtin
    /// tables of the modeled interpreter release, no variables, and both
    /// error slots empty.
    pub fn init() -> (r: Shell)
        ensures
            r@ == initial_shell(),
            r@.wf(),
    {
        let mut set_known: Vec<String> = Vec::new();
        push_names(
            &mut set_known,
            &[
                "allexport",
                "braceexpand",
                "errexit",
                "hashall",
                "histexpand",
                "history",
                "ignoreeof",
                "interactive-comments",
                "monitor",
                "noclobber",
                "noexec",
                "noglob",
                "nounset",
                "pipefail",
                "posix",
                "verbose",
                "xtrace",
            ],
        );
        let mut set_on: Vec<String> = Vec::new();
        push_names(&mut set_on, &["braceexpand", "hashall", "interactive-comments"]);
        let mut shopt_known: Vec<String> = Vec::new();
        push_names(
            &mut shopt_known,
            &[
                "autocd",
                "cdspell",
                "checkhash",
                "checkwinsize",
                "cmdhist",
                "dotglob",
                "expand_aliases",
                "extglob",
                "extquote",
                "failglob",
                "globstar",
                "histappend",
                "hostcomplete",
                "interactive_comments",
                "nullglob",
                "progcomp",
                "promptvars",
                "sourcepath",
            ],
        );
        let mut shopt_on: Vec<String> = Vec::new();
        push_names(
            &mut shopt_on,
            &[
                "checkwinsize",
                "cmdhist",
                "expand_aliases",
                "extquote",
                "hostcomplete",
                "interactive_comments",
                "progcomp",
                "promptvars",
                "sourcepath",
            ],
        );
        let mut builtins: Vec<ForeignBuiltin> = Vec::new();
        let table = [
            ":", "alias", "break", "cd", "declare", "echo", "eval", "exit", "export", "local",
            "set", "shopt", "unset",
        ];
        let n = table.len();
        proof {
            assert(table.deep_view() =~= default_builtin_names());
        }
        for i in 0..n
            invariant
                n == table.len(),
                table.deep_view() == default_builtin_names(),
                builtins.deep_view() == default_builtins().take(i as int),
        {
            let s: &str = table[i];
            let ghost pre = builtins.deep_view();
            let entry = ForeignBuiltin::table_entry(s);
            builtins.push(entry);
            proof {
                assert(s@ == default_builtin_names()[i as int]);
                assert(entry@ == default_builtins()[i as int]);
                assert(builtins.deep_view() =~= pre.push(entry@));
                assert(default_builtins().take(i + 1) =~= default_builtins().take(i as int).push(
                    default_builtins()[i as int],
                ));
                assert(builtins.deep_view() =~= default_builtins().take(i + 1));
            }
        }
        proof {
            assert(default_builtins().take(n as int) =~= default_builtins());
        }
        let r = Shell {
            name: "scallop".to_owned(),
            set_known,
            set_on,
            shopt_known,
            shopt_on,
            builtins,
            vars: Vec::new(),
            last_error: None,
            shm: None,
            subshell_level: 0,
            current_cmd: None,
            out: Vec::new(),
            diag: Vec::new(),
        };
        proof {
            assert(r@.set_known =~= default_set_known());
            assert(r@.set_on =~= default_set_on());
            assert(r@.shopt_known =~= default_shopt_known());
            assert(r@.shopt_on =~= default_shopt_on());
            assert(r@.vars =~= Seq::<VarV>::empty());
            assert(r@.out =~= Seq::<Seq<char>>::empty());
            assert(r@.diag =~= Seq::<Seq<char>>::empty());
            assert(r@ =~= initial_shell());
            lemma_initial_shell_wf();
        }
        r
    }

    /// Reset the interpreter state back to a pristine one.  The shared error
    /// slot, the subshell level and the process name survive a reset; they
    /// belong to the process, not to the interpreter tables.
    pub fn reset(&mut self)
        ensures
            final(self)@ == (ShellView {
                name: old(self)@.name,
                shm: old(self)@.shm,
                subshell_level: old(self)@.subshell_level,
                ..initial_shell()
            }),
    {
        let fresh = Shell::init();
        let Shell { set_known, set_on, shopt_known, shopt_on, builtins, vars, .. } = fresh;
        self.set_known = set_known;
        self.set_on = set_on;
        self.shopt_known = shopt_known;
        self.shopt_on = shopt_on;
        self.builtins = builtins;
        self.vars = vars;
        self.last_error = None;
        self.current_cmd = None;
        self.out = Vec::new();
        self.diag = Vec::new();
        proof {
            assert(self@.out =~= Seq::<Seq<char>>::empty());
            assert(self@.diag =~= Seq::<Seq<char>>::empty());
            assert(self@ =~= (ShellView {
                name: old(self)@.name,
                shm: old(self)@.shm,
                subshell_level: old(self)@.subshell_level,
                ..initial_shell()
            }));
        }
    }

    /// Record which command the interpreter is about to execute; the
    /// interpreter maintains this global around every builtin invocation.
    pub fn set_current_command(&mut self, name: &String)
        ensures
            final(self)@ == (ShellView { current_cmd: Some(name@), ..old(self)@ }),
    {
        self.current_cmd = Some(name.clone());
        proof {
            assert(self@ =~= (ShellView { current_cmd: Some(name@), ..old(self)@ }));
        }
    }

    /// Clear the currently executing command name.
    pub fn clear_current_command(&mut self)
        ensures
            final(self)@ == (ShellView { current_cmd: None, ..old(self)@ }),
    {
        self.current_cmd = None;
        proof {
            assert(self@ =~= (ShellView { current_cmd: None, ..old(self)@ }));
        }
    }

    /// The child state a fork into a subshell starts from: an exact copy of
    /// the parent, one subshell level deeper.
    pub fn subshell(&self) -> (r: Shell)
        requires
            self@.subshell_level < i32::MAX,
        ensures
            r@ == (ShellView { subshell_level: self@.subshell_level + 1, ..self@ }),
    {
        let r = Shell {
            name: self.name.clone(),
            set_known: self.set_known.clone(),
            set_on: self.set_on.clone(),
            shopt_known: self.shopt_known.clone(),
            shopt_on: self.shopt_on.clone(),
            builtins: clone_builtins(&self.builtins),
            vars: clone_vars(&self.vars),
            last_error: match &self.last_error {
                Some(e) => Some(e.clone()),
                None => None,
            },
            shm: match &self.shm {
                Some(s) => Some(s.clone()),
                None => None,
            },
            subshell_level: self.subshell_level + 1,
            current_cmd: match &self.current_cmd {
                Some(s) => Some(s.clone()),
                None => None,
            },
            out: self.out.clone(),
            diag: self.diag.clone(),
        };
        proof {
            assert(r.set_known.deep_view() =~= self.set_known.deep_view());
            assert(r.set_on.deep_view() =~= self.set_on.deep_view());
            assert(r.shopt_known.deep_view() =~= self.shopt_known.deep_view());
            assert(r.shopt_on.deep_view() =~= self.shopt_on.deep_view());
            assert(r.out.deep_view() =~= self.out.deep_view());
            assert(r.diag.deep_view() =~= self.diag.deep_view());
            assert(r@ =~= (ShellView { subshell_level: self@.subshell_level + 1, ..self@ }));
        }
        r
    }
}

fn clone_builtins(v: &Vec<ForeignBuiltin>) -> (r: Vec<ForeignBuiltin>)
    ensures
        r.deep_view() == v.deep_view(),
{
    let mut r: Vec<ForeignBuiltin> = Vec::new();
    let n = v.len();
    for i in 0..n
        invariant
            n == v.len(),
            r.deep_view() == v.deep_view().take(i as int),
    {
        let b = &v[i];
        let mut long_doc: Vec<String> = Vec::new();
        let m = b.long_doc.len();
        for j in 0..m
            invariant
                m == b.long_doc.len(),
                long_doc.deep_view() == b.long_doc.deep_view().take(j as int),
        {
            let ghost pre = long_doc.deep_view();
            let line = b.long_doc[j].clone();
            long_doc.push(line);
            proof {
                assert(long_doc.deep_view() =~= pre.push(b.long_doc.deep_view()[j as int]));
                assert(b.long_doc.deep_view().take(j + 1) =~= b.long_doc.deep_view().take(
                    j as int,
                ).push(b.long_doc.deep_view()[j as int]));
                assert(long_doc.deep_view() =~= b.long_doc.deep_view().take(j + 1));
            }
        }
        proof {
            assert(b.long_doc.deep_view().take(m as int) =~= b.long_doc.deep_view());
        }
        let ghost pre = r.deep_view();
        let copied = ForeignBuiltin {
            name: b.name.clone(),
            flags: b.flags,
            short_doc: b.short_doc.clone(),
            long_doc,
            has_function: b.has_function,
        };
        proof {
            assert(copied@ =~= v.deep_view()[i as int]);
        }
        r.push(copied);
        proof {
            assert(r.deep_view() =~= pre.push(v.deep_view()[i as int]));
            assert(v.deep_view().take(i + 1) =~= v.deep_view().take(i as int).push(
                v.deep_view()[i as int],
            ));
            assert(r.deep_view() =~= v.deep_view().take(i + 1));
        }
    }
    proof {
        assert(v.deep_view().take(n as int) =~= v.deep_view());
    }
    r
}

fn clone_vars(v: &Vec<Var>) -> (r: Vec<Var>)
    ensures
        r.deep_view() == v.deep_view(),
{
    let mut r: Vec<Var> = Vec::new();
    let n = v.len();
    for i in 0..n
        invariant
            n == v.len(),
            r.deep_view() == v.deep_view().take(i as int),
    {
        let x = &v[i];
        let value = match &x.value {
            crate::variables::VarValue::Scalar(s) => crate::variables::VarValue::Scalar(s.clone()),
            crate::variables::VarValue::Array(vs) => crate::variables::VarValue::Array(vs.clone()),
        };
        proof {
            assert(value@ =~= x.value@);
        }
        let ghost pre = r.deep_view();
        let copied = Var { name: x.name.clone(), value, attrs: x.attrs };
        proof {
            assert(copied@ =~= v.deep_view()[i as int]);
        }
        r.push(copied);
        proof {
            assert(r.deep_view() =~= pre.push(v.deep_view()[i as int]));
            assert(v.deep_view().take(i + 1) =~= v.deep_view().take(i as int).push(
                v.deep_view()[i as int],
            ));
            assert(r.deep_view() =~= v.deep_view().take(i + 1));
        }
    }
    proof {
        assert(v.deep_view().take(n as int) =~= v.deep_view());
    }
    r
}

/// Returns true when currently operating in a subshell.
pub fn in_subshell(sh: &Shell) -> (r: bool)
    ensures
        r == (sh@.subshell_level > 0),
{
    sh.subshell_level > 0
}

/// The count of nested subshells; zero in the main process.
pub fn subshell_level(sh: &Shell) -> (r: i32)
    ensures
        r as int == sh@.subshell_level,
{
    sh.subshell_level
}

/// A message as the fixed shared buffer stores it: truncated to the buffer
/// size less the terminating NUL.
pub open spec fn shm_truncate(m: Seq<char>) -> Seq<char> {
    if m.len() > SHM_BUF_LEN - 1 {
        m.take(SHM_BUF_LEN - 1)
    } else {
        m
    }
}

impl Shell {
    /// Write an error message into the shared slot, truncated to the fixed
    /// buffer size; a later write overwrites an unread message.
    pub fn set_shm_error(&mut self, msg: &str)
        ensures
            final(self)@ == (ShellView { shm: Some(shm_truncate(msg@)), ..old(self)@ }),
    {
        let n = msg.unicode_len();
        let stored: String = if n > SHM_BUF_LEN - 1 {
            msg.substring_char(0, SHM_BUF_LEN - 1).to_owned()
        } else {
            msg.to_owned()
        };
        proof {
            assert(stored@ =~= shm_truncate(msg@));
        }
        self.shm = Some(stored);
        proof {
            assert(self@ =~= (ShellView { shm: Some(shm_truncate(msg@)), ..old(self)@ }));
        }
    }

    /// Pull a pending error out of the shared slot, if one exists, into the
    /// thread-local slot, and clear the shared buffer.
    pub fn raise_shm_error(&mut self)
        ensures
            final(self)@ == crate::error::shm_drained(old(self)@),
    {
        let msg = self.shm.take();
        match msg {
            Some(m) => {
                crate::error::bash_error(self, &m, 0);
                proof {
                    assert(self@ =~= crate::error::shm_drained(old(self)@));
                }
            },
            None => {
                proof {
                    assert(self@ =~= old(self)@);
                }
            },
        }
    }
}

} // verus!
