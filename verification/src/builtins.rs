//! Builtin descriptors, the registry of native commands, enable/disable
//! toggling of the interpreter's builtin table, and the trampoline that
//! dispatches interpreter invocations back to native functions.

pub mod command_not_found_handle;
pub mod has;
pub mod hasv;
pub mod ver_cut;
pub mod ver_rs;
pub mod ver_test;
pub mod set;
pub mod shopt;

use vstd::prelude::*;
use vstd::string::StringExecFns;

use crate::error::Error;
use crate::error::ErrorV;
use crate::shell::Shell;
use crate::shell::ShellView;
use crate::status::ExecStatus;
use crate::names::add_name;
use crate::names::clone_names;
use crate::names::contains_name;
use crate::names::remove_name;
use crate::names::lemma_without_absent;
use crate::names::lemma_without_push;
use crate::names::without;
use crate::options::apply_disable;
use crate::options::apply_enable;
use crate::options::opts_disabled_list;
use crate::options::opts_enabled_list;
use crate::shell::in_subshell;
use crate::shell::shm_truncate;
use crate::shell::FATAL_EXIT_CODE;
use crate::text::joined;
use crate::text::join_comma;
use crate::text::split_on;
use crate::text::split_str;
use crate::traits::Words;

verus! {

/// Flag bit: the builtin is enabled.
pub const BUILTIN_ENABLED: u32 = 0x1;

/// Flag bit: the builtin was deleted from the table.
pub const BUILTIN_DELETED: u32 = 0x2;

/// Flag bit: the builtin is part of the interpreter's static table.
pub const STATIC_BUILTIN: u32 = 0x4;

/// Flag bit: the builtin is special to the POSIX search order.
pub const SPECIAL_BUILTIN: u32 = 0x8;

/// Flag bit: the builtin treats its arguments as assignment statements.
pub const ASSIGNMENT_BUILTIN: u32 = 0x10;

/// Flag bit: the builtin creates local variables.
pub const LOCALVAR_BUILTIN: u32 = 0x20;

/// The interpreter-visible mirror of a registered builtin: an entry of the
/// interpreter's own builtin table.  `has_function` models whether the entry
/// carries a callable function pointer; entries without one are stubs for
/// reserved words.
pub struct ForeignBuiltin {
    pub name: String,
    pub flags: u32,
    pub short_doc: String,
    pub long_doc: Vec<String>,
    pub has_function: bool,
}

/// The mathematical shape of a [`ForeignBuiltin`].
#[verifier::ext_equal]
pub struct BuiltinV {
    pub name: Seq<char>,
    pub flags: u32,
    pub short_doc: Seq<char>,
    pub long_doc: Seq<Seq<char>>,
    pub has_function: bool,
}

impl View for ForeignBuiltin {
    type V = BuiltinV;

    open spec fn view(&self) -> BuiltinV {
        BuiltinV {
            name: self.name@,
            flags: self.flags,
            short_doc: self.short_doc@,
            long_doc: self.long_doc.deep_view(),
            has_function: self.has_function,
        }
    }
}

impl DeepView for ForeignBuiltin {
    type V = BuiltinV;

    open spec fn deep_view(&self) -> BuiltinV {
        self.view()
    }
}

impl BuiltinV {
    /// Whether the enabled bit is set.
    pub open spec fn enabled(self) -> bool {
        self.flags & BUILTIN_ENABLED == BUILTIN_ENABLED
    }
}

impl ForeignBuiltin {
    /// An enabled entry of the interpreter's static builtin table.
    pub fn table_entry(name: &str) -> (r: ForeignBuiltin)
        ensures
            r@ == (BuiltinV {
                name: name@,
                flags: BUILTIN_ENABLED | STATIC_BUILTIN,
                short_doc: Seq::empty(),
                long_doc: Seq::empty(),
                has_function: true,
            }),
    {
        let r = ForeignBuiltin {
            name: name.to_owned(),
            flags: BUILTIN_ENABLED | STATIC_BUILTIN,
            short_doc: String::new(),
            long_doc: Vec::new(),
            has_function: true,
        };
        proof {
            assert(r.long_doc.deep_view() =~= Seq::<Seq<char>>::empty());
            assert(r@ =~= (BuiltinV {
                name: name@,
                flags: BUILTIN_ENABLED | STATIC_BUILTIN,
                short_doc: Seq::empty(),
                long_doc: Seq::empty(),
                has_function: true,
            }));
        }
        r
    }
}

/// The first entry of the builtin table named `n`, if any.
pub open spec fn find_builtin(bs: Seq<BuiltinV>, n: Seq<char>) -> Option<BuiltinV>
    decreases bs.len(),
{
    if bs.len() == 0 {
        None
    } else if bs[0].name == n {
        Some(bs[0])
    } else {
        find_builtin(bs.drop_first(), n)
    }
}

/// A first match at index `i` is what `find_builtin` returns.
pub proof fn lemma_find_builtin_at(bs: Seq<BuiltinV>, n: Seq<char>, i: int)
    requires
        0 <= i < bs.len(),
        bs[i].name == n,
        forall|j: int| 0 <= j < i ==> bs[j].name != n,
    ensures
        find_builtin(bs, n) == Some(bs[i]),
    decreases i,
{
    if i > 0 {
        assert forall|j: int| 0 <= j < i - 1 implies bs.drop_first()[j].name != n by {
            assert(bs.drop_first()[j] == bs[j + 1]);
        }
        assert(bs.drop_first()[i - 1] == bs[i]);
        lemma_find_builtin_at(bs.drop_first(), n, i - 1);
    }
}

/// With no match anywhere, `find_builtin` finds nothing.
pub proof fn lemma_find_builtin_none(bs: Seq<BuiltinV>, n: Seq<char>)
    requires
        forall|j: int| 0 <= j < bs.len() ==> bs[j].name != n,
    ensures
        find_builtin(bs, n) is None,
    decreases bs.len(),
{
    if bs.len() > 0 {
        assert forall|j: int| 0 <= j < bs.drop_first().len() implies bs.drop_first()[j].name
            != n by {
            assert(bs.drop_first()[j] == bs[j + 1]);
        }
        lemma_find_builtin_none(bs.drop_first(), n);
    }
}

/// When `find_builtin` finds nothing, no entry carries the name.
pub proof fn lemma_find_builtin_none_forall(bs: Seq<BuiltinV>, n: Seq<char>)
    requires
        find_builtin(bs, n) is None,
    ensures
        forall|j: int| 0 <= j < bs.len() ==> bs[j].name != n,
    decreases bs.len(),
{
    if bs.len() > 0 {
        lemma_find_builtin_none_forall(bs.drop_first(), n);
        assert forall|j: int| 0 <= j < bs.len() implies bs[j].name != n by {
            if j > 0 {
                assert(bs.drop_first()[j - 1] == bs[j]);
            }
        }
    }
}

/// An entry with its enabled bit forced to `enable`.
pub open spec fn set_enabled_flag(b: BuiltinV, enable: bool) -> BuiltinV {
    BuiltinV {
        flags: if enable {
            b.flags | BUILTIN_ENABLED
        } else {
            b.flags & !BUILTIN_ENABLED
        },
        ..b
    }
}

/// The builtin table after toggling the first entry named `n`, if any.
pub open spec fn builtin_toggled(bs: Seq<BuiltinV>, n: Seq<char>, enable: bool) -> Seq<BuiltinV>
    decreases bs.len(),
{
    if bs.len() == 0 {
        bs
    } else if bs[0].name == n {
        seq![set_enabled_flag(bs[0], enable)] + bs.drop_first()
    } else {
        seq![bs[0]] + builtin_toggled(bs.drop_first(), n, enable)
    }
}

/// Toggling rewrites exactly the first matching index.
pub proof fn lemma_builtin_toggled_at(bs: Seq<BuiltinV>, n: Seq<char>, enable: bool, i: int)
    requires
        0 <= i < bs.len(),
        bs[i].name == n,
        forall|j: int| 0 <= j < i ==> bs[j].name != n,
    ensures
        builtin_toggled(bs, n, enable) == bs.update(i, set_enabled_flag(bs[i], enable)),
    decreases i,
{
    if i == 0 {
        assert(builtin_toggled(bs, n, enable) =~= bs.update(0, set_enabled_flag(bs[0], enable)));
    } else {
        assert forall|j: int| 0 <= j < i - 1 implies bs.drop_first()[j].name != n by {
            assert(bs.drop_first()[j] == bs[j + 1]);
        }
        assert(bs.drop_first()[i - 1] == bs[i]);
        lemma_builtin_toggled_at(bs.drop_first(), n, enable, i - 1);
        assert(builtin_toggled(bs, n, enable) =~= bs.update(
            i,
            set_enabled_flag(bs[i], enable),
        ));
    }
}

/// Toggling an unknown name changes nothing.
pub proof fn lemma_builtin_toggled_none(bs: Seq<BuiltinV>, n: Seq<char>, enable: bool)
    requires
        forall|j: int| 0 <= j < bs.len() ==> bs[j].name != n,
    ensures
        builtin_toggled(bs, n, enable) == bs,
    decreases bs.len(),
{
    if bs.len() > 0 {
        assert forall|j: int| 0 <= j < bs.drop_first().len() implies bs.drop_first()[j].name
            != n by {
            assert(bs.drop_first()[j] == bs[j + 1]);
        }
        lemma_builtin_toggled_none(bs.drop_first(), n, enable);
        assert(builtin_toggled(bs, n, enable) =~= bs);
    } else {
        assert(builtin_toggled(bs, n, enable) =~= bs);
    }
}

/// The first index of an entry named `name`, scanning front to back.
fn find_builtin_index(v: &Vec<ForeignBuiltin>, name: &String) -> (r: Option<usize>)
    ensures
        match r {
            Some(i) => {
                &&& i < v.len()
                &&& v.deep_view()[i as int].name == name@
                &&& forall|j: int| 0 <= j < i ==> v.deep_view()[j].name != name@
                &&& find_builtin(v.deep_view(), name@) == Some(v.deep_view()[i as int])
            },
            None => find_builtin(v.deep_view(), name@) is None,
        },
{
    let n = v.len();
    for i in 0..n
        invariant
            n == v.len(),
            forall|j: int| 0 <= j < i ==> v.deep_view()[j].name != name@,
    {
        if v[i].name.eq(name) {
            proof {
                assert(v.deep_view()[i as int].name == name@);
                lemma_find_builtin_at(v.deep_view(), name@, i as int);
            }
            return Some(i);
        }
    }
    proof {
        lemma_find_builtin_none(v.deep_view(), name@);
    }
    None
}

/// Toggle one builtin's enabled bit in the interpreter's table; reports
/// whether the name exists and whether the bit actually changed.
fn toggle_one(sh: &mut Shell, name: &String, enable: bool) -> (r: Option<bool>)
    ensures
        final(sh)@ == (ShellView {
            builtins: builtin_toggled(old(sh)@.builtins, name@, enable),
            ..old(sh)@
        }),
        match r {
            None => find_builtin(old(sh)@.builtins, name@) is None,
            Some(changed) => match find_builtin(old(sh)@.builtins, name@) {
                Some(b) => changed == (b.enabled() != enable),
                None => false,
            },
        },
{
    let ghost orig = sh.builtins.deep_view();
    match find_builtin_index(&sh.builtins, name) {
        None => {
            proof {
                lemma_find_builtin_none_forall(orig, name@);
                lemma_builtin_toggled_none(orig, name@, enable);
                assert(sh@ =~= (ShellView { builtins: builtin_toggled(orig, name@, enable), ..old(
                    sh,
                )@ }));
            }
            None
        },
        Some(i) => {
            let mut b = sh.builtins.remove(i);
            let was_enabled = b.flags & BUILTIN_ENABLED == BUILTIN_ENABLED;
            let changed = was_enabled != enable;
            b.flags = if enable {
                b.flags | BUILTIN_ENABLED
            } else {
                b.flags & !BUILTIN_ENABLED
            };
            proof {
                assert(b@ == set_enabled_flag(orig[i as int], enable));
            }
            sh.builtins.insert(i, b);
            proof {
                lemma_builtin_toggled_at(orig, name@, enable, i as int);
                assert(sh.builtins.deep_view() =~= orig.update(
                    i as int,
                    set_enabled_flag(orig[i as int], enable),
                ));
                assert(sh@ =~= (ShellView { builtins: builtin_toggled(orig, name@, enable), ..old(
                    sh,
                )@ }));
            }
            Some(changed)
        },
    }
}

/// The builtin table after toggling each name of `names` in turn.
pub open spec fn builtins_toggled_list(
    bs: Seq<BuiltinV>,
    names: Seq<Seq<char>>,
    enable: bool,
) -> Seq<BuiltinV>
    decreases names.len(),
{
    if names.len() == 0 {
        bs
    } else {
        builtin_toggled(builtins_toggled_list(bs, names.drop_last(), enable), names.last(), enable)
    }
}

/// The names of `names` whose entry existed and whose enabled bit actually
/// changed when the list was toggled in order.
pub open spec fn toggled_names(bs: Seq<BuiltinV>, names: Seq<Seq<char>>, enable: bool) -> Seq<
    Seq<char>,
>
    decreases names.len(),
{
    if names.len() == 0 {
        Seq::empty()
    } else {
        let prev = toggled_names(bs, names.drop_last(), enable);
        match find_builtin(builtins_toggled_list(bs, names.drop_last(), enable), names.last()) {
            Some(b) => if b.enabled() != enable {
                prev.push(names.last())
            } else {
                prev
            },
            None => prev,
        }
    }
}

/// The names of `names` with no entry in the builtin table.
pub open spec fn unknown_names(bs: Seq<BuiltinV>, names: Seq<Seq<char>>, enable: bool) -> Seq<
    Seq<char>,
>
    decreases names.len(),
{
    if names.len() == 0 {
        Seq::empty()
    } else {
        let prev = unknown_names(bs, names.drop_last(), enable);
        match find_builtin(builtins_toggled_list(bs, names.drop_last(), enable), names.last()) {
            Some(_) => prev,
            None => prev.push(names.last()),
        }
    }
}

/// Enable or disable each named builtin in the interpreter's own table.
/// Every known name is toggled even when some are unknown; unknown names are
/// reported together in one batch error.
fn toggle_status(sh: &mut Shell, names: &Vec<String>, enable: bool) -> (r: Result<
    Vec<String>,
    Error,
>)
    ensures
        final(sh)@ == (ShellView {
            builtins: builtins_toggled_list(old(sh)@.builtins, names.deep_view(), enable),
            ..old(sh)@
        }),
        match r {
            Ok(toggled) => {
                &&& toggled.deep_view() == toggled_names(old(sh)@.builtins, names.deep_view(), enable)
                &&& unknown_names(old(sh)@.builtins, names.deep_view(), enable) == Seq::<
                    Seq<char>,
                >::empty()
            },
            Err(e) => {
                &&& unknown_names(old(sh)@.builtins, names.deep_view(), enable).len() > 0
                &&& e@ == ErrorV::Base(
                    "unknown builtins: "@ + joined(
                        unknown_names(old(sh)@.builtins, names.deep_view(), enable),
                    ),
                )
            },
        },
{
    let ghost orig = sh.builtins.deep_view();
    let ghost all = names.deep_view();
    let mut unknown: Vec<String> = Vec::new();
    let mut toggled: Vec<String> = Vec::new();
    let n = names.len();
    for i in 0..n
        invariant
            n == names.len(),
            names.deep_view() == all,
            old(sh)@.builtins == orig,
            sh@ == (ShellView {
                builtins: builtins_toggled_list(orig, all.take(i as int), enable),
                ..old(sh)@
            }),
            toggled.deep_view() == toggled_names(orig, all.take(i as int), enable),
            unknown.deep_view() == unknown_names(orig, all.take(i as int), enable),
    {
        let name = &names[i];
        proof {
            assert(name@ == all[i as int]);
            assert(all.take(i + 1).drop_last() =~= all.take(i as int));
            assert(all.take(i + 1).last() == all[i as int]);
        }
        let ghost pre_toggled = toggled.deep_view();
        let ghost pre_unknown = unknown.deep_view();
        match toggle_one(sh, name, enable) {
            Some(changed) => {
                if changed {
                    toggled.push(name.clone());
                    proof {
                        assert(toggled.deep_view() =~= pre_toggled.push(name@));
                    }
                }
            },
            None => {
                unknown.push(name.clone());
                proof {
                    assert(unknown.deep_view() =~= pre_unknown.push(name@));
                }
            },
        }
        proof {
            assert(sh@ =~= (ShellView {
                builtins: builtins_toggled_list(orig, all.take(i + 1), enable),
                ..old(sh)@
            }));
        }
    }
    proof {
        assert(all.take(n as int) =~= all);
    }
    if unknown.is_empty() {
        proof {
            assert(unknown_names(orig, all, enable) =~= Seq::<Seq<char>>::empty());
        }
        Ok(toggled)
    } else {
        let mut msg = "unknown builtins: ".to_owned();
        msg.append(join_comma(&unknown).as_str());
        Err(Error::Base(msg))
    }
}

/// Disable a given list of builtins by name.
pub fn disable(sh: &mut Shell, names: &Vec<String>) -> (r: Result<Vec<String>, Error>)
    ensures
        final(sh)@ == (ShellView {
            builtins: builtins_toggled_list(old(sh)@.builtins, names.deep_view(), false),
            ..old(sh)@
        }),
        match r {
            Ok(toggled) => {
                &&& toggled.deep_view() == toggled_names(old(sh)@.builtins, names.deep_view(), false)
                &&& unknown_names(old(sh)@.builtins, names.deep_view(), false) == Seq::<
                    Seq<char>,
                >::empty()
            },
            Err(e) => {
                &&& unknown_names(old(sh)@.builtins, names.deep_view(), false).len() > 0
                &&& e@ == ErrorV::Base(
                    "unknown builtins: "@ + joined(
                        unknown_names(old(sh)@.builtins, names.deep_view(), false),
                    ),
                )
            },
        },
{
    toggle_status(sh, names, false)
}

/// Enable a given list of builtins by name.
pub fn enable(sh: &mut Shell, names: &Vec<String>) -> (r: Result<Vec<String>, Error>)
    ensures
        final(sh)@ == (ShellView {
            builtins: builtins_toggled_list(old(sh)@.builtins, names.deep_view(), true),
            ..old(sh)@
        }),
        match r {
            Ok(toggled) => {
                &&& toggled.deep_view() == toggled_names(old(sh)@.builtins, names.deep_view(), true)
                &&& unknown_names(old(sh)@.builtins, names.deep_view(), true) == Seq::<
                    Seq<char>,
                >::empty()
            },
            Err(e) => {
                &&& unknown_names(old(sh)@.builtins, names.deep_view(), true).len() > 0
                &&& e@ == ErrorV::Base(
                    "unknown builtins: "@ + joined(
                        unknown_names(old(sh)@.builtins, names.deep_view(), true),
                    ),
                )
            },
        },
{
    toggle_status(sh, names, true)
}

/// The names of the table's enabled builtins, stubs excluded.
pub open spec fn enabled_builtin_names(bs: Seq<BuiltinV>) -> Seq<Seq<char>>
    decreases bs.len(),
{
    if bs.len() == 0 {
        Seq::empty()
    } else {
        let prev = enabled_builtin_names(bs.drop_last());
        if bs.last().has_function && bs.last().enabled() {
            prev.push(bs.last().name)
        } else {
            prev
        }
    }
}

/// The names of the table's disabled builtins, stubs excluded.
pub open spec fn disabled_builtin_names(bs: Seq<BuiltinV>) -> Seq<Seq<char>>
    decreases bs.len(),
{
    if bs.len() == 0 {
        Seq::empty()
    } else {
        let prev = disabled_builtin_names(bs.drop_last());
        if bs.last().has_function && !bs.last().enabled() {
            prev.push(bs.last().name)
        } else {
            prev
        }
    }
}

/// The names of the enabled and the disabled shell builtins.  Table entries
/// without a function are stubs for reserved words and are skipped.
pub fn shell_builtins(sh: &Shell) -> (r: (Vec<String>, Vec<String>))
    ensures
        r.0.deep_view() == enabled_builtin_names(sh@.builtins),
        r.1.deep_view() == disabled_builtin_names(sh@.builtins),
{
    let mut enabled_names: Vec<String> = Vec::new();
    let mut disabled_names: Vec<String> = Vec::new();
    let n = sh.builtins.len();
    for i in 0..n
        invariant
            n == sh.builtins.len(),
            enabled_names.deep_view() == enabled_builtin_names(sh@.builtins.take(i as int)),
            disabled_names.deep_view() == disabled_builtin_names(sh@.builtins.take(i as int)),
    {
        let b = &sh.builtins[i];
        proof {
            assert(sh@.builtins.take(i + 1).drop_last() =~= sh@.builtins.take(i as int));
            assert(sh@.builtins.take(i + 1).last() == sh@.builtins[i as int]);
            assert(b@ == sh@.builtins[i as int]);
        }
        if b.has_function {
            let ghost pre_e = enabled_names.deep_view();
            let ghost pre_d = disabled_names.deep_view();
            if b.flags & BUILTIN_ENABLED == BUILTIN_ENABLED {
                enabled_names.push(b.name.clone());
                proof {
                    assert(enabled_names.deep_view() =~= pre_e.push(sh@.builtins[i as int].name));
                }
            } else {
                disabled_names.push(b.name.clone());
                proof {
                    assert(disabled_names.deep_view() =~= pre_d.push(sh@.builtins[i as int].name));
                }
            }
        }
    }
    proof {
        assert(sh@.builtins.take(n as int) =~= sh@.builtins);
    }
    (enabled_names, disabled_names)
}

/// The index of the first match `find_builtin` returns.
pub proof fn lemma_find_builtin_witness(bs: Seq<BuiltinV>, n: Seq<char>) -> (i: int)
    requires
        find_builtin(bs, n) is Some,
    ensures
        0 <= i < bs.len(),
        bs[i].name == n,
        forall|j: int| 0 <= j < i ==> bs[j].name != n,
        find_builtin(bs, n) == Some(bs[i]),
    decreases bs.len(),
{
    if bs[0].name == n {
        0
    } else {
        let k = lemma_find_builtin_witness(bs.drop_first(), n);
        assert(bs.drop_first()[k] == bs[k + 1]);
        assert forall|j: int| 0 <= j < k + 1 implies bs[j].name != n by {
            if j > 0 {
                assert(bs.drop_first()[j - 1] == bs[j]);
            }
        }
        k + 1
    }
}

/// Toggle-pair law: for a builtin that starts disabled, `enable([x])`
/// followed by `disable([x])` leaves its enabled flag exactly as it was
/// before the pair ran, and leaves every other table entry untouched.  (A
/// builtin that starts enabled does not enjoy the same law: the enable is an
/// idempotent no-op there, while the disable is not.)
pub proof fn lemma_enable_disable_round_trip(bs: Seq<BuiltinV>, x: Seq<char>)
    requires
        match find_builtin(bs, x) {
            Some(b) => !b.enabled(),
            None => false,
        },
    ensures
        builtins_toggled_list(builtins_toggled_list(bs, seq![x], true), seq![x], false) == bs,
{
    reveal_with_fuel(builtins_toggled_list, 2);
    let i = lemma_find_builtin_witness(bs, x);
    let b = bs[i];
    assert(seq![x].drop_last() =~= Seq::<Seq<char>>::empty());
    assert(seq![x].last() == x);
    assert(builtins_toggled_list(bs, seq![x].drop_last(), true) == bs);
    assert(builtins_toggled_list(bs, seq![x], true) == builtin_toggled(bs, x, true));
    lemma_builtin_toggled_at(bs, x, true, i);
    let b1 = set_enabled_flag(b, true);
    let t1 = bs.update(i, b1);
    assert(builtins_toggled_list(bs, seq![x], true) == t1);
    assert(t1[i].name == x);
    assert(builtins_toggled_list(t1, seq![x].drop_last(), false) == t1);
    assert(builtins_toggled_list(t1, seq![x], false) == builtin_toggled(t1, x, false));
    lemma_builtin_toggled_at(t1, x, false, i);
    let b2 = set_enabled_flag(b1, false);
    assert(builtins_toggled_list(t1, seq![x], false) == t1.update(i, b2));
    let f = b.flags;
    assert(f & BUILTIN_ENABLED != BUILTIN_ENABLED);
    assert((f | 1u32) & !1u32 == f) by (bit_vector)
        requires
            f & 1u32 != 1u32,
    ;
    assert(b2 =~= b);
    assert(t1.update(i, b2) =~= bs);
}

/// Whether the builtin table holds each name at most once.  Freshly
/// initialized shells satisfy this, and toggling and registration
/// preserve it.
pub open spec fn distinct_builtin_names(bs: Seq<BuiltinV>) -> bool {
    forall|i: int, j: int| 0 <= i < j < bs.len() ==> bs[i].name != bs[j].name
}

/// Toggling never changes the table's length or any entry's name.
pub proof fn lemma_builtin_toggled_preserves_names(bs: Seq<BuiltinV>, n: Seq<char>, enable: bool)
    ensures
        builtin_toggled(bs, n, enable).len() == bs.len(),
        forall|j: int|
            0 <= j < bs.len() ==> #[trigger] builtin_toggled(bs, n, enable)[j].name == bs[j].name,
    decreases bs.len(),
{
    if bs.len() > 0 && bs[0].name != n {
        lemma_builtin_toggled_preserves_names(bs.drop_first(), n, enable);
        let out = seq![bs[0]] + builtin_toggled(bs.drop_first(), n, enable);
        assert forall|j: int| 0 <= j < bs.len() implies #[trigger] out[j].name == bs[j].name by {
            if j > 0 {
                assert(out[j] == builtin_toggled(bs.drop_first(), n, enable)[j - 1]);
                assert(bs.drop_first()[j - 1] == bs[j]);
            }
        }
    } else if bs.len() > 0 {
        let out = seq![set_enabled_flag(bs[0], enable)] + bs.drop_first();
        assert forall|j: int| 0 <= j < bs.len() implies #[trigger] out[j].name == bs[j].name by {
            if j > 0 {
                assert(out[j] == bs.drop_first()[j - 1]);
                assert(bs.drop_first()[j - 1] == bs[j]);
            }
        }
    }
}

/// Toggling a whole batch never changes the table's length or any entry's
/// name, so the at-most-once discipline survives it.
pub proof fn lemma_builtins_toggled_list_preserves_names(
    bs: Seq<BuiltinV>,
    names: Seq<Seq<char>>,
    enable: bool,
)
    ensures
        builtins_toggled_list(bs, names, enable).len() == bs.len(),
        forall|j: int|
            0 <= j < bs.len() ==> #[trigger] builtins_toggled_list(bs, names, enable)[j].name
                == bs[j].name,
        distinct_builtin_names(bs) ==> distinct_builtin_names(
            builtins_toggled_list(bs, names, enable),
        ),
    decreases names.len(),
{
    if names.len() > 0 {
        lemma_builtins_toggled_list_preserves_names(bs, names.drop_last(), enable);
        lemma_builtin_toggled_preserves_names(
            builtins_toggled_list(bs, names.drop_last(), enable),
            names.last(),
            enable,
        );
    }
}

/// Installation keeps the at-most-once discipline: it replaces the one
/// existing entry of the name, or appends a name the table did not hold.
pub proof fn lemma_table_installed_preserves_distinct(bs: Seq<BuiltinV>, d: BuiltinV)
    requires
        distinct_builtin_names(bs),
    ensures
        distinct_builtin_names(table_installed(bs, d)),
{
    if find_builtin(bs, d.name) is Some {
        let i = lemma_find_builtin_witness(bs, d.name);
        lemma_table_installed_at(bs, d, i);
        let out = bs.update(i, d);
        assert forall|p: int, q: int| 0 <= p < q < out.len() implies out[p].name
            != out[q].name by {
            assert(out[p].name == bs[p].name);
            assert(out[q].name == bs[q].name);
        }
    } else {
        lemma_find_builtin_none_forall(bs, d.name);
        lemma_table_installed_push(bs, d);
        let out = bs.push(d);
        assert forall|p: int, q: int| 0 <= p < q < out.len() implies out[p].name
            != out[q].name by {
            if q < bs.len() {
                assert(out[p] == bs[p]);
                assert(out[q] == bs[q]);
            } else {
                assert(out[p] == bs[p]);
                assert(out[q] == d);
            }
        }
    }
}

/// Registering a whole batch keeps the at-most-once discipline.
pub proof fn lemma_table_extended_preserves_distinct<F>(bs: Seq<BuiltinV>, batch: Seq<Builtin<F>>)
    requires
        distinct_builtin_names(bs),
    ensures
        distinct_builtin_names(table_extended(bs, batch)),
    decreases batch.len(),
{
    if batch.len() > 0 {
        lemma_table_extended_preserves_distinct(bs, batch.drop_last());
        lemma_table_installed_preserves_distinct(
            table_extended(bs, batch.drop_last()),
            descriptor_view(batch.last()),
        );
    }
}

/// Membership in the enabled-name listing: a name is listed exactly when
/// some entry carries it enabled and with a function.
pub proof fn lemma_enabled_names_membership(bs: Seq<BuiltinV>, n: Seq<char>)
    ensures
        enabled_builtin_names(bs).contains(n) <==> exists|i: int|
            0 <= i < bs.len() && #[trigger] bs[i].name == n && bs[i].has_function
                && bs[i].enabled(),
    decreases bs.len(),
{
    if bs.len() > 0 {
        lemma_enabled_names_membership(bs.drop_last(), n);
        let prev = enabled_builtin_names(bs.drop_last());
        assert forall|j: int| 0 <= j < bs.drop_last().len() implies bs.drop_last()[j]
            == bs[j] by {}
        assert(bs[bs.len() - 1] == bs.last());
        if bs.last().has_function && bs.last().enabled() {
            let out = prev.push(bs.last().name);
            assert forall|x: Seq<char>| out.contains(x) implies prev.contains(x) || x
                == bs.last().name by {
                let k = choose|k: int| 0 <= k < out.len() && out[k] == x;
                if k < prev.len() {
                    assert(prev[k] == x);
                }
            }
            assert(out.contains(bs.last().name)) by {
                assert(out[prev.len() as int] == bs.last().name);
            }
            assert forall|x: Seq<char>| prev.contains(x) implies out.contains(x) by {
                let k = choose|k: int| 0 <= k < prev.len() && prev[k] == x;
                assert(out[k] == x);
            }
        }
        if enabled_builtin_names(bs).contains(n) {
            if prev.contains(n) {
                let i = choose|i: int|
                    0 <= i < bs.drop_last().len() && #[trigger] bs.drop_last()[i].name == n
                        && bs.drop_last()[i].has_function && bs.drop_last()[i].enabled();
                assert(bs[i].name == n && bs[i].has_function && bs[i].enabled());
            } else {
                assert(bs[bs.len() - 1].name == n && bs[bs.len() - 1].has_function && bs[bs.len()
                    - 1].enabled());
            }
        }
        if exists|i: int|
            0 <= i < bs.len() && #[trigger] bs[i].name == n && bs[i].has_function
                && bs[i].enabled() {
            let i = choose|i: int|
                0 <= i < bs.len() && #[trigger] bs[i].name == n && bs[i].has_function
                    && bs[i].enabled();
            if i < bs.len() - 1 {
                assert(bs.drop_last()[i].name == n && bs.drop_last()[i].has_function
                    && bs.drop_last()[i].enabled());
            }
        }
    }
}

/// Membership in the disabled-name listing: a name is listed exactly when
/// some entry carries it disabled and with a function.
pub proof fn lemma_disabled_names_membership(bs: Seq<BuiltinV>, n: Seq<char>)
    ensures
        disabled_builtin_names(bs).contains(n) <==> exists|i: int|
            0 <= i < bs.len() && #[trigger] bs[i].name == n && bs[i].has_function && !bs[
                i].enabled(),
    decreases bs.len(),
{
    if bs.len() > 0 {
        lemma_disabled_names_membership(bs.drop_last(), n);
        let prev = disabled_builtin_names(bs.drop_last());
        assert forall|j: int| 0 <= j < bs.drop_last().len() implies bs.drop_last()[j]
            == bs[j] by {}
        assert(bs[bs.len() - 1] == bs.last());
        if bs.last().has_function && !bs.last().enabled() {
            let out = prev.push(bs.last().name);
            assert forall|x: Seq<char>| out.contains(x) implies prev.contains(x) || x
                == bs.last().name by {
                let k = choose|k: int| 0 <= k < out.len() && out[k] == x;
                if k < prev.len() {
                    assert(prev[k] == x);
                }
            }
            assert(out.contains(bs.last().name)) by {
                assert(out[prev.len() as int] == bs.last().name);
            }
            assert forall|x: Seq<char>| prev.contains(x) implies out.contains(x) by {
                let k = choose|k: int| 0 <= k < prev.len() && prev[k] == x;
                assert(out[k] == x);
            }
        }
        if disabled_builtin_names(bs).contains(n) {
            if prev.contains(n) {
                let i = choose|i: int|
                    0 <= i < bs.drop_last().len() && #[trigger] bs.drop_last()[i].name == n
                        && bs.drop_last()[i].has_function && !bs.drop_last()[i].enabled();
                assert(bs[i].name == n && bs[i].has_function && !bs[i].enabled());
            } else {
                assert(bs[bs.len() - 1].name == n && bs[bs.len() - 1].has_function && !bs[bs.len()
                    - 1].enabled());
            }
        }
        if exists|i: int|
            0 <= i < bs.len() && #[trigger] bs[i].name == n && bs[i].has_function && !bs[
                i].enabled() {
            let i = choose|i: int|
                0 <= i < bs.len() && #[trigger] bs[i].name == n && bs[i].has_function && !bs[
                    i].enabled();
            if i < bs.len() - 1 {
                assert(bs.drop_last()[i].name == n && bs.drop_last()[i].has_function && !bs
                    .drop_last()[i].enabled());
            }
        }
    }
}

/// Partition law: in a table that binds each name at most once, no name is
/// listed both enabled and disabled.
pub proof fn lemma_shell_builtins_partition(bs: Seq<BuiltinV>, n: Seq<char>)
    requires
        distinct_builtin_names(bs),
    ensures
        !(enabled_builtin_names(bs).contains(n) && disabled_builtin_names(bs).contains(n)),
{
    lemma_enabled_names_membership(bs, n);
    lemma_disabled_names_membership(bs, n);
    if enabled_builtin_names(bs).contains(n) && disabled_builtin_names(bs).contains(n) {
        let i = choose|i: int|
            0 <= i < bs.len() && #[trigger] bs[i].name == n && bs[i].has_function
                && bs[i].enabled();
        let j = choose|j: int|
            0 <= j < bs.len() && #[trigger] bs[j].name == n && bs[j].has_function && !bs[
                j].enabled();
        assert(i != j);
        assert(bs[i].name == bs[j].name);
        assert(false);
    }
}

/// The running state of one scoped option batch: the two enabled-option
/// lists as they evolve, the names this batch recorded for reversion, and
/// the names it rejected.
#[verifier::ext_equal]
pub struct OptionToggles {
    pub set_on: Seq<Seq<char>>,
    pub shopt_on: Seq<Seq<char>>,
    pub set_recorded: Seq<Seq<char>>,
    pub shopt_recorded: Seq<Seq<char>>,
    pub unknown: Seq<Seq<char>>,
}

/// One `ScopedOptions::enable` batch over `opts`: a name that belongs to
/// exactly one option table is enabled there, and is recorded only when it
/// was not already enabled as the batch started — an idempotent toggle is
/// performed silently, without a recorded delta and without an error.  A
/// name in neither table, or ambiguously in both, is rejected.
pub open spec fn scoped_enable_fold(
    set_known: Seq<Seq<char>>,
    shopt_known: Seq<Seq<char>>,
    snap_set: Seq<Seq<char>>,
    snap_shopt: Seq<Seq<char>>,
    start: OptionToggles,
    opts: Seq<Seq<char>>,
) -> OptionToggles
    decreases opts.len(),
{
    if opts.len() == 0 {
        start
    } else {
        let prev = scoped_enable_fold(
            set_known,
            shopt_known,
            snap_set,
            snap_shopt,
            start,
            opts.drop_last(),
        );
        let o = opts.last();
        if set_known.contains(o) && !shopt_known.contains(o) {
            if snap_set.contains(o) {
                prev
            } else {
                OptionToggles {
                    set_on: if prev.set_on.contains(o) {
                        prev.set_on
                    } else {
                        prev.set_on.push(o)
                    },
                    set_recorded: prev.set_recorded.push(o),
                    ..prev
                }
            }
        } else if !set_known.contains(o) && shopt_known.contains(o) {
            if snap_shopt.contains(o) {
                prev
            } else {
                OptionToggles {
                    shopt_on: if prev.shopt_on.contains(o) {
                        prev.shopt_on
                    } else {
                        prev.shopt_on.push(o)
                    },
                    shopt_recorded: prev.shopt_recorded.push(o),
                    ..prev
                }
            }
        } else {
            OptionToggles { unknown: prev.unknown.push(o), ..prev }
        }
    }
}

/// One `ScopedOptions::disable` batch over `opts`: a name that belongs to
/// exactly one option table is disabled there, and is recorded only when it
/// was enabled as the batch started — an idempotent toggle is performed
/// silently, without a recorded delta and without an error.  A name in
/// neither table, or ambiguously in both, is rejected.
pub open spec fn scoped_disable_fold(
    set_known: Seq<Seq<char>>,
    shopt_known: Seq<Seq<char>>,
    snap_set: Seq<Seq<char>>,
    snap_shopt: Seq<Seq<char>>,
    start: OptionToggles,
    opts: Seq<Seq<char>>,
) -> OptionToggles
    decreases opts.len(),
{
    if opts.len() == 0 {
        start
    } else {
        let prev = scoped_disable_fold(
            set_known,
            shopt_known,
            snap_set,
            snap_shopt,
            start,
            opts.drop_last(),
        );
        let o = opts.last();
        if set_known.contains(o) && !shopt_known.contains(o) {
            if snap_set.contains(o) {
                OptionToggles {
                    set_on: without(prev.set_on, o),
                    set_recorded: prev.set_recorded.push(o),
                    ..prev
                }
            } else {
                prev
            }
        } else if !set_known.contains(o) && shopt_known.contains(o) {
            if snap_shopt.contains(o) {
                OptionToggles {
                    shopt_on: without(prev.shopt_on, o),
                    shopt_recorded: prev.shopt_recorded.push(o),
                    ..prev
                }
            } else {
                prev
            }
        } else {
            OptionToggles { unknown: prev.unknown.push(o), ..prev }
        }
    }
}

/// The interpreter state after a guard's scope-exit reversion: each option
/// table has the guard's enabled names disabled again and its disabled
/// names enabled again.
pub open spec fn options_restored(v: ShellView, g: ScopedOptionsV) -> ShellView {
    ShellView {
        set_on: opts_enabled_list(opts_disabled_list(v.set_on, g.set_enabled), g.set_disabled),
        shopt_on: opts_enabled_list(
            opts_disabled_list(v.shopt_on, g.shopt_enabled),
            g.shopt_disabled,
        ),
        ..v
    }
}

/// The deltas a [`ScopedOptions`] guard has recorded.
#[verifier::ext_equal]
pub struct ScopedOptionsV {
    pub shopt_enabled: Seq<Seq<char>>,
    pub shopt_disabled: Seq<Seq<char>>,
    pub set_enabled: Seq<Seq<char>>,
    pub set_disabled: Seq<Seq<char>>,
}

/// Toggle shell options, recording every change so the scope-exit reversion
/// can undo exactly those deltas.
pub struct ScopedOptions {
    pub shopt_enabled: Vec<String>,
    pub shopt_disabled: Vec<String>,
    pub set_enabled: Vec<String>,
    pub set_disabled: Vec<String>,
}

impl View for ScopedOptions {
    type V = ScopedOptionsV;

    open spec fn view(&self) -> ScopedOptionsV {
        ScopedOptionsV {
            shopt_enabled: self.shopt_enabled.deep_view(),
            shopt_disabled: self.shopt_disabled.deep_view(),
            set_enabled: self.set_enabled.deep_view(),
            set_disabled: self.set_disabled.deep_view(),
        }
    }
}

/// A guard that has recorded nothing yet.
pub open spec fn empty_scoped_options() -> ScopedOptionsV {
    ScopedOptionsV {
        shopt_enabled: Seq::empty(),
        shopt_disabled: Seq::empty(),
        set_enabled: Seq::empty(),
        set_disabled: Seq::empty(),
    }
}

impl Default for ScopedOptions {
    fn default() -> (r: Self)
        ensures
            r@ == empty_scoped_options(),
    {
        let r = ScopedOptions {
            shopt_enabled: Vec::new(),
            shopt_disabled: Vec::new(),
            set_enabled: Vec::new(),
            set_disabled: Vec::new(),
        };
        proof {
            assert(r@ =~= empty_scoped_options());
        }
        r
    }
}

impl ScopedOptions {
    /// Enable shell options, recording each actual change so the scope-exit
    /// reversion undoes exactly those deltas.  A valid name that is already
    /// enabled is skipped silently and not recorded.  Names that no option
    /// table holds (or that both hold, which no table of the interpreter
    /// does) are reported together as one batch error; valid names are
    /// still toggled.
    pub fn enable(&mut self, sh: &mut Shell, options: &Vec<String>) -> (r: Result<(), Error>)
        ensures
            ({
                let f = scoped_enable_fold(
                    old(sh)@.set_known,
                    old(sh)@.shopt_known,
                    old(sh)@.set_on,
                    old(sh)@.shopt_on,
                    (OptionToggles {
                        set_on: old(sh)@.set_on,
                        shopt_on: old(sh)@.shopt_on,
                        set_recorded: old(self)@.set_enabled,
                        shopt_recorded: old(self)@.shopt_enabled,
                        unknown: Seq::empty(),
                    }),
                    options.deep_view(),
                );
                &&& final(sh)@ == (ShellView {
                    set_on: f.set_on,
                    shopt_on: f.shopt_on,
                    ..old(sh)@
                })
                &&& final(self)@ == (ScopedOptionsV {
                    set_enabled: f.set_recorded,
                    shopt_enabled: f.shopt_recorded,
                    set_disabled: old(self)@.set_disabled,
                    shopt_disabled: old(self)@.shopt_disabled,
                })
                &&& match r {
                    Ok(_) => f.unknown.len() == 0,
                    Err(e) => f.unknown.len() > 0 && e@ == ErrorV::Base(
                        "unknown options: "@ + joined(f.unknown),
                    ),
                }
            }),
    {
        let ghost s0 = sh@;
        let ghost g0 = self@;
        let ghost start = OptionToggles {
            set_on: s0.set_on,
            shopt_on: s0.shopt_on,
            set_recorded: g0.set_enabled,
            shopt_recorded: g0.shopt_enabled,
            unknown: Seq::empty(),
        };
        let snap_set = clone_names(&sh.set_on);
        let snap_shopt = clone_names(&sh.shopt_on);
        let mut unknown: Vec<String> = Vec::new();
        let n = options.len();
        for i in 0..n
            invariant
                n == options.len(),
                snap_set.deep_view() == s0.set_on,
                snap_shopt.deep_view() == s0.shopt_on,
                ({
                    let f = scoped_enable_fold(
                        s0.set_known,
                        s0.shopt_known,
                        s0.set_on,
                        s0.shopt_on,
                        start,
                        options.deep_view().take(i as int),
                    );
                    &&& sh@ == (ShellView { set_on: f.set_on, shopt_on: f.shopt_on, ..s0 })
                    &&& self@ == (ScopedOptionsV {
                        set_enabled: f.set_recorded,
                        shopt_enabled: f.shopt_recorded,
                        set_disabled: g0.set_disabled,
                        shopt_disabled: g0.shopt_disabled,
                    })
                    &&& unknown.deep_view() == f.unknown
                }),
        {
            let o = &options[i];
            let ghost fpre = scoped_enable_fold(
                s0.set_known,
                s0.shopt_known,
                s0.set_on,
                s0.shopt_on,
                start,
                options.deep_view().take(i as int),
            );
            proof {
                assert(o@ == options.deep_view()[i as int]);
                assert(options.deep_view().take(i + 1).drop_last() =~= options.deep_view().take(
                    i as int,
                ));
                assert(options.deep_view().take(i + 1).last() == options.deep_view()[i as int]);
            }
            let in_set = contains_name(&sh.set_known, o);
            let in_shopt = contains_name(&sh.shopt_known, o);
            if in_set && !in_shopt {
                if !contains_name(&snap_set, o) {
                    let ghost pre = self.set_enabled.deep_view();
                    add_name(&mut sh.set_on, o);
                    self.set_enabled.push(o.clone());
                    proof {
                        assert(self.set_enabled.deep_view() =~= pre.push(o@));
                        assert(self@ =~= (ScopedOptionsV {
                            set_enabled: fpre.set_recorded.push(o@),
                            shopt_enabled: fpre.shopt_recorded,
                            set_disabled: g0.set_disabled,
                            shopt_disabled: g0.shopt_disabled,
                        }));
                        assert(sh@ =~= (ShellView {
                            set_on: if fpre.set_on.contains(o@) {
                                fpre.set_on
                            } else {
                                fpre.set_on.push(o@)
                            },
                            shopt_on: fpre.shopt_on,
                            ..s0
                        }));
                    }
                }
            } else if !in_set && in_shopt {
                if !contains_name(&snap_shopt, o) {
                    let ghost pre = self.shopt_enabled.deep_view();
                    add_name(&mut sh.shopt_on, o);
                    self.shopt_enabled.push(o.clone());
                    proof {
                        assert(self.shopt_enabled.deep_view() =~= pre.push(o@));
                        assert(self@ =~= (ScopedOptionsV {
                            set_enabled: fpre.set_recorded,
                            shopt_enabled: fpre.shopt_recorded.push(o@),
                            set_disabled: g0.set_disabled,
                            shopt_disabled: g0.shopt_disabled,
                        }));
                        assert(sh@ =~= (ShellView {
                            set_on: fpre.set_on,
                            shopt_on: if fpre.shopt_on.contains(o@) {
                                fpre.shopt_on
                            } else {
                                fpre.shopt_on.push(o@)
                            },
                            ..s0
                        }));
                    }
                }
            } else {
                let ghost pre = unknown.deep_view();
                unknown.push(o.clone());
                proof {
                    assert(unknown.deep_view() =~= pre.push(o@));
                }
            }
        }
        proof {
            assert(options.deep_view().take(n as int) =~= options.deep_view());
        }
        if unknown.is_empty() {
            proof {
                assert(unknown.deep_view().len() == 0);
            }
            Ok(())
        } else {
            let mut msg = "unknown options: ".to_owned();
            msg.append(join_comma(&unknown).as_str());
            Err(Error::Base(msg))
        }
    }

    /// Disable shell options, recording each actual change so the scope-exit
    /// reversion undoes exactly those deltas.  A valid name that is already
    /// disabled is skipped silently and not recorded.  Names that no option
    /// table holds (or that both hold, which no table of the interpreter
    /// does) are reported together as one batch error; valid names are
    /// still toggled.
    pub fn disable(&mut self, sh: &mut Shell, options: &Vec<String>) -> (r: Result<(), Error>)
        ensures
            ({
                let f = scoped_disable_fold(
                    old(sh)@.set_known,
                    old(sh)@.shopt_known,
                    old(sh)@.set_on,
                    old(sh)@.shopt_on,
                    (OptionToggles {
                        set_on: old(sh)@.set_on,
                        shopt_on: old(sh)@.shopt_on,
                        set_recorded: old(self)@.set_disabled,
                        shopt_recorded: old(self)@.shopt_disabled,
                        unknown: Seq::empty(),
                    }),
                    options.deep_view(),
                );
                &&& final(sh)@ == (ShellView {
                    set_on: f.set_on,
                    shopt_on: f.shopt_on,
                    ..old(sh)@
                })
                &&& final(self)@ == (ScopedOptionsV {
                    set_disabled: f.set_recorded,
                    shopt_disabled: f.shopt_recorded,
                    set_enabled: old(self)@.set_enabled,
                    shopt_enabled: old(self)@.shopt_enabled,
                })
                &&& match r {
                    Ok(_) => f.unknown.len() == 0,
                    Err(e) => f.unknown.len() > 0 && e@ == ErrorV::Base(
                        "unknown options: "@ + joined(f.unknown),
                    ),
                }
            }),
    {
        let ghost s0 = sh@;
        let ghost g0 = self@;
        let ghost start = OptionToggles {
            set_on: s0.set_on,
            shopt_on: s0.shopt_on,
            set_recorded: g0.set_disabled,
            shopt_recorded: g0.shopt_disabled,
            unknown: Seq::empty(),
        };
        let snap_set = clone_names(&sh.set_on);
        let snap_shopt = clone_names(&sh.shopt_on);
        let mut unknown: Vec<String> = Vec::new();
        let n = options.len();
        for i in 0..n
            invariant
                n == options.len(),
                snap_set.deep_view() == s0.set_on,
                snap_shopt.deep_view() == s0.shopt_on,
                ({
                    let f = scoped_disable_fold(
                        s0.set_known,
                        s0.shopt_known,
                        s0.set_on,
                        s0.shopt_on,
                        start,
                        options.deep_view().take(i as int),
                    );
                    &&& sh@ == (ShellView { set_on: f.set_on, shopt_on: f.shopt_on, ..s0 })
                    &&& self@ == (ScopedOptionsV {
                        set_disabled: f.set_recorded,
                        shopt_disabled: f.shopt_recorded,
                        set_enabled: g0.set_enabled,
                        shopt_enabled: g0.shopt_enabled,
                    })
                    &&& unknown.deep_view() == f.unknown
                }),
        {
            let o = &options[i];
            let ghost fpre = scoped_disable_fold(
                s0.set_known,
                s0.shopt_known,
                s0.set_on,
                s0.shopt_on,
                start,
                options.deep_view().take(i as int),
            );
            proof {
                assert(o@ == options.deep_view()[i as int]);
                assert(options.deep_view().take(i + 1).drop_last() =~= options.deep_view().take(
                    i as int,
                ));
                assert(options.deep_view().take(i + 1).last() == options.deep_view()[i as int]);
            }
            let in_set = contains_name(&sh.set_known, o);
            let in_shopt = contains_name(&sh.shopt_known, o);
            if in_set && !in_shopt {
                if contains_name(&snap_set, o) {
                    let ghost pre = self.set_disabled.deep_view();
                    remove_name(&mut sh.set_on, o);
                    self.set_disabled.push(o.clone());
                    proof {
                        assert(self.set_disabled.deep_view() =~= pre.push(o@));
                        assert(self@ =~= (ScopedOptionsV {
                            set_disabled: fpre.set_recorded.push(o@),
                            shopt_disabled: fpre.shopt_recorded,
                            set_enabled: g0.set_enabled,
                            shopt_enabled: g0.shopt_enabled,
                        }));
                        assert(sh@ =~= (ShellView {
                            set_on: without(fpre.set_on, o@),
                            shopt_on: fpre.shopt_on,
                            ..s0
                        }));
                    }
                }
            } else if !in_set && in_shopt {
                if contains_name(&snap_shopt, o) {
                    let ghost pre = self.shopt_disabled.deep_view();
                    remove_name(&mut sh.shopt_on, o);
                    self.shopt_disabled.push(o.clone());
                    proof {
                        assert(self.shopt_disabled.deep_view() =~= pre.push(o@));
                        assert(self@ =~= (ScopedOptionsV {
                            set_disabled: fpre.set_recorded,
                            shopt_disabled: fpre.shopt_recorded.push(o@),
                            set_enabled: g0.set_enabled,
                            shopt_enabled: g0.shopt_enabled,
                        }));
                        assert(sh@ =~= (ShellView {
                            set_on: fpre.set_on,
                            shopt_on: without(fpre.shopt_on, o@),
                            ..s0
                        }));
                    }
                }
            } else {
                let ghost pre = unknown.deep_view();
                unknown.push(o.clone());
                proof {
                    assert(unknown.deep_view() =~= pre.push(o@));
                }
            }
        }
        proof {
            assert(options.deep_view().take(n as int) =~= options.deep_view());
        }
        if unknown.is_empty() {
            Ok(())
        } else {
            let mut msg = "unknown options: ".to_owned();
            msg.append(join_comma(&unknown).as_str());
            Err(Error::Base(msg))
        }
    }

    /// The scope-exit reversion: undo exactly the recorded deltas, in the
    /// fixed order disable-the-enabled then enable-the-disabled, per option
    /// table.  Every recorded name is a valid option name by construction,
    /// so reversion cannot fail.
    pub fn restore(self, sh: &mut Shell)
        ensures
            final(sh)@ == options_restored(old(sh)@, self@),
    {
        let ghost g = self@;
        let ScopedOptions { shopt_enabled, shopt_disabled, set_enabled, set_disabled } = self;
        apply_disable(&mut sh.shopt_on, &shopt_enabled, shopt_enabled.len());
        apply_enable(&mut sh.shopt_on, &shopt_disabled, shopt_disabled.len());
        apply_disable(&mut sh.set_on, &set_enabled, set_enabled.len());
        apply_enable(&mut sh.set_on, &set_disabled, set_disabled.len());
        proof {
            assert(g.shopt_enabled.take(g.shopt_enabled.len() as int) =~= g.shopt_enabled);
            assert(g.shopt_disabled.take(g.shopt_disabled.len() as int) =~= g.shopt_disabled);
            assert(g.set_enabled.take(g.set_enabled.len() as int) =~= g.set_enabled);
            assert(g.set_disabled.take(g.set_disabled.len() as int) =~= g.set_disabled);
            assert(sh@ =~= (ShellView {
                set_on: opts_enabled_list(
                    opts_disabled_list(old(sh)@.set_on, g.set_enabled),
                    g.set_disabled,
                ),
                shopt_on: opts_enabled_list(
                    opts_disabled_list(old(sh)@.shopt_on, g.shopt_enabled),
                    g.shopt_disabled,
                ),
                ..old(sh)@
            }));
        }
    }
}

/// The deltas a [`ScopedBuiltins`] guard has recorded.
#[verifier::ext_equal]
pub struct ScopedBuiltinsV {
    pub enabled: Seq<Seq<char>>,
    pub disabled: Seq<Seq<char>>,
}

/// Enable and disable builtins, recording every actual change so the
/// scope-exit reversion can undo exactly those deltas.
pub struct ScopedBuiltins {
    pub enabled: Vec<String>,
    pub disabled: Vec<String>,
}

impl View for ScopedBuiltins {
    type V = ScopedBuiltinsV;

    open spec fn view(&self) -> ScopedBuiltinsV {
        ScopedBuiltinsV {
            enabled: self.enabled.deep_view(),
            disabled: self.disabled.deep_view(),
        }
    }
}

impl ScopedBuiltins {
    /// Enable one list of builtins and disable another, recording exactly
    /// the names whose enabled state actually changed.
    pub fn new(sh: &mut Shell, add: &Vec<String>, sub: &Vec<String>) -> (r: Result<
        ScopedBuiltins,
        Error,
    >)
        ensures
            ({
                let bs1 = builtins_toggled_list(old(sh)@.builtins, add.deep_view(), true);
                let u1 = unknown_names(old(sh)@.builtins, add.deep_view(), true);
                let bs2 = builtins_toggled_list(bs1, sub.deep_view(), false);
                let u2 = unknown_names(bs1, sub.deep_view(), false);
                match r {
                    Ok(g) => {
                        &&& u1.len() == 0
                        &&& u2.len() == 0
                        &&& final(sh)@ == (ShellView { builtins: bs2, ..old(sh)@ })
                        &&& g@ == (ScopedBuiltinsV {
                            enabled: toggled_names(old(sh)@.builtins, add.deep_view(), true),
                            disabled: toggled_names(bs1, sub.deep_view(), false),
                        })
                    },
                    Err(e) => if u1.len() > 0 {
                        &&& final(sh)@ == (ShellView { builtins: bs1, ..old(sh)@ })
                        &&& e@ == ErrorV::Base("unknown builtins: "@ + joined(u1))
                    } else {
                        &&& u2.len() > 0
                        &&& final(sh)@ == (ShellView { builtins: bs2, ..old(sh)@ })
                        &&& e@ == ErrorV::Base("unknown builtins: "@ + joined(u2))
                    },
                }
            }),
    {
        let enabled = match enable(sh, add) {
            Ok(t) => t,
            Err(e) => {
                return Err(e);
            },
        };
        let disabled = match disable(sh, sub) {
            Ok(t) => t,
            Err(e) => {
                return Err(e);
            },
        };
        Ok(ScopedBuiltins { enabled, disabled })
    }

    /// The scope-exit reversion: disable what was enabled, then enable what
    /// was disabled.  Every recorded name names a table entry, so reversion
    /// cannot fail; the requirement states just that.
    pub fn restore(self, sh: &mut Shell)
        requires
            unknown_names(old(sh)@.builtins, self@.enabled, false).len() == 0,
            unknown_names(
                builtins_toggled_list(old(sh)@.builtins, self@.enabled, false),
                self@.disabled,
                true,
            ).len() == 0,
        ensures
            final(sh)@ == (ShellView {
                builtins: builtins_toggled_list(
                    builtins_toggled_list(old(sh)@.builtins, self@.enabled, false),
                    self@.disabled,
                    true,
                ),
                ..old(sh)@
            }),
    {
        let ScopedBuiltins { enabled, disabled } = self;
        match disable(sh, &enabled) {
            Ok(_) => (),
            Err(_) => {
                proof {
                    assert(false);
                }
            },
        };
        match enable(sh, &disabled) {
            Ok(_) => (),
            Err(_) => {
                proof {
                    assert(false);
                }
            },
        };
    }
}

/// Scoped-guard nesting law, `shopt` table: an outer guard enables option
/// `o`, an inner guard disables it again in a nested scope, and the guards
/// are released innermost first.  The inner release re-establishes the
/// outer toggle, the outer release then restores `o` to its pre-toggle
/// membership, and neither release corrupts the other guard's recorded
/// delta.
pub proof fn lemma_scoped_guard_nesting_shopt(v0: ShellView, o: Seq<char>)
    requires
        v0.shopt_known.contains(o),
        !v0.set_known.contains(o),
        !v0.shopt_on.contains(o),
    ensures
        ({
            let start1 = OptionToggles {
                set_on: v0.set_on,
                shopt_on: v0.shopt_on,
                set_recorded: Seq::empty(),
                shopt_recorded: Seq::empty(),
                unknown: Seq::empty(),
            };
            let f1 = scoped_enable_fold(
                v0.set_known,
                v0.shopt_known,
                v0.set_on,
                v0.shopt_on,
                start1,
                seq![o],
            );
            let s1 = ShellView { set_on: f1.set_on, shopt_on: f1.shopt_on, ..v0 };
            let g1 = ScopedOptionsV {
                shopt_enabled: f1.shopt_recorded,
                shopt_disabled: Seq::empty(),
                set_enabled: f1.set_recorded,
                set_disabled: Seq::empty(),
            };
            let start2 = OptionToggles {
                set_on: s1.set_on,
                shopt_on: s1.shopt_on,
                set_recorded: Seq::empty(),
                shopt_recorded: Seq::empty(),
                unknown: Seq::empty(),
            };
            let f2 = scoped_disable_fold(
                s1.set_known,
                s1.shopt_known,
                s1.set_on,
                s1.shopt_on,
                start2,
                seq![o],
            );
            let s2 = ShellView { set_on: f2.set_on, shopt_on: f2.shopt_on, ..s1 };
            let g2 = ScopedOptionsV {
                shopt_enabled: Seq::empty(),
                shopt_disabled: f2.shopt_recorded,
                set_enabled: Seq::empty(),
                set_disabled: f2.set_recorded,
            };
            let s3 = options_restored(s2, g2);
            let s4 = options_restored(s3, g1);
            &&& f1.unknown.len() == 0
            &&& f2.unknown.len() == 0
            &&& s3.shopt_on.contains(o)
            &&& s4 == v0
        }),
{
    let start1 = OptionToggles {
        set_on: v0.set_on,
        shopt_on: v0.shopt_on,
        set_recorded: Seq::empty(),
        shopt_recorded: Seq::empty(),
        unknown: Seq::empty(),
    };
    assert(seq![o].drop_last() =~= Seq::<Seq<char>>::empty());
    assert(seq![o].last() == o);
    assert(scoped_enable_fold(
        v0.set_known,
        v0.shopt_known,
        v0.set_on,
        v0.shopt_on,
        start1,
        seq![o].drop_last(),
    ) == start1);
    let f1 = scoped_enable_fold(
        v0.set_known,
        v0.shopt_known,
        v0.set_on,
        v0.shopt_on,
        start1,
        seq![o],
    );
    assert(f1.shopt_on == v0.shopt_on.push(o));
    assert(f1.set_on == v0.set_on);
    assert(f1.shopt_recorded =~= seq![o]);
    assert(f1.set_recorded.len() == 0);
    assert(f1.unknown.len() == 0);
    let s1 = ShellView { set_on: f1.set_on, shopt_on: f1.shopt_on, ..v0 };
    assert(s1.shopt_on.contains(o)) by {
        assert(s1.shopt_on[v0.shopt_on.len() as int] == o);
    }
    let start2 = OptionToggles {
        set_on: s1.set_on,
        shopt_on: s1.shopt_on,
        set_recorded: Seq::empty(),
        shopt_recorded: Seq::empty(),
        unknown: Seq::empty(),
    };
    assert(scoped_disable_fold(
        s1.set_known,
        s1.shopt_known,
        s1.set_on,
        s1.shopt_on,
        start2,
        seq![o].drop_last(),
    ) == start2);
    let f2 = scoped_disable_fold(
        s1.set_known,
        s1.shopt_known,
        s1.set_on,
        s1.shopt_on,
        start2,
        seq![o],
    );
    lemma_without_push(v0.shopt_on, o);
    lemma_without_absent(v0.shopt_on, o);
    assert(f2.shopt_on == v0.shopt_on);
    assert(f2.set_on == v0.set_on);
    assert(f2.shopt_recorded =~= seq![o]);
    assert(f2.set_recorded.len() == 0);
    assert(f2.unknown.len() == 0);
    let s2 = ShellView { set_on: f2.set_on, shopt_on: f2.shopt_on, ..s1 };
    let g2 = ScopedOptionsV {
        shopt_enabled: Seq::empty(),
        shopt_disabled: f2.shopt_recorded,
        set_enabled: Seq::empty(),
        set_disabled: f2.set_recorded,
    };
    // the inner release: nothing to disable, and `o` to enable again
    assert(opts_disabled_list(s2.set_on, g2.set_enabled) == s2.set_on);
    assert(opts_enabled_list(s2.set_on, g2.set_disabled) == s2.set_on);
    assert(opts_disabled_list(s2.shopt_on, g2.shopt_enabled) == s2.shopt_on);
    assert(opts_enabled_list(s2.shopt_on, seq![o].drop_last()) == s2.shopt_on);
    assert(opts_enabled_list(s2.shopt_on, seq![o]) == s2.shopt_on.push(o));
    let s3 = options_restored(s2, g2);
    assert(s3.shopt_on == v0.shopt_on.push(o));
    assert(s3.shopt_on.contains(o)) by {
        assert(s3.shopt_on[v0.shopt_on.len() as int] == o);
    }
    let g1 = ScopedOptionsV {
        shopt_enabled: f1.shopt_recorded,
        shopt_disabled: Seq::empty(),
        set_enabled: f1.set_recorded,
        set_disabled: Seq::empty(),
    };
    // the outer release: disable `o` again, nothing to enable
    assert(g1.set_enabled =~= Seq::<Seq<char>>::empty());
    assert(opts_disabled_list(s3.set_on, g1.set_enabled) == s3.set_on);
    assert(opts_enabled_list(s3.set_on, g1.set_disabled) == s3.set_on);
    assert(g1.shopt_enabled == seq![o]);
    assert(opts_disabled_list(s3.shopt_on, seq![o].drop_last()) == s3.shopt_on);
    assert(opts_disabled_list(s3.shopt_on, seq![o]) == without(s3.shopt_on, o));
    assert(without(s3.shopt_on, o) == v0.shopt_on);
    let s4 = options_restored(s3, g1);
    assert(opts_enabled_list(opts_disabled_list(s3.shopt_on, g1.shopt_enabled), g1.shopt_disabled)
        == v0.shopt_on);
    assert(s4 =~= v0);
}

/// The behavior of a native command: a deterministic transformer of the
/// interpreter state and the marshaled arguments.  The executable `run` is
/// held to the mathematical `spec_run` by its contract, so everything the
/// trampoline promises about an invocation follows from the implementing
/// type's own definition.
pub trait BuiltinFn: Sized {
    /// The result a run returns and the interpreter state it leaves behind.
    spec fn spec_run(&self, sh: ShellView, args: Seq<Seq<char>>) -> (Result<ExecStatus, ErrorV>, ShellView);

    /// Run the native command on the marshaled arguments.
    fn run(&self, sh: &mut Shell, args: &Vec<String>) -> (r: Result<ExecStatus, Error>)
        ensures
            final(sh)@ == self.spec_run(old(sh)@, args.deep_view()).1,
            match (r, self.spec_run(old(sh)@, args.deep_view()).0) {
                (Ok(a), Ok(b)) => a == b,
                (Err(e), Err(ev)) => e@ == ev,
                _ => false,
            },
    ;
}

/// A native command descriptor: its stable name, the host function run on
/// its behalf, and its two documentation strings.  Identity is the name.
pub struct Builtin<F> {
    pub name: String,
    pub func: F,
    pub help: String,
    pub usage: String,
}

impl<F: BuiltinFn> Builtin<F> {
    /// Run the descriptor's host function.
    pub fn run(&self, sh: &mut Shell, args: &Vec<String>) -> (r: Result<ExecStatus, Error>)
        ensures
            final(sh)@ == self.func.spec_run(old(sh)@, args.deep_view()).1,
            match (r, self.func.spec_run(old(sh)@, args.deep_view()).0) {
                (Ok(a), Ok(b)) => a == b,
                (Err(e), Err(ev)) => e@ == ev,
                _ => false,
            },
    {
        self.func.run(sh, args)
    }
}

/// The interpreter-table descriptor a registered builtin is mirrored as:
/// enabled, usage as the short documentation, help split into lines as the
/// long documentation, and a live trampoline function.
pub open spec fn descriptor_view<F>(b: Builtin<F>) -> BuiltinV {
    BuiltinV {
        name: b.name@,
        flags: BUILTIN_ENABLED,
        short_doc: b.usage@,
        long_doc: split_on(b.help@, '\n'),
        has_function: true,
    }
}

impl<F> Builtin<F> {
    /// Convert the builtin to the interpreter's descriptor layout.
    pub fn to_descriptor(&self) -> (r: ForeignBuiltin)
        ensures
            r@ == descriptor_view(*self),
    {
        let r = ForeignBuiltin {
            name: self.name.clone(),
            flags: BUILTIN_ENABLED,
            short_doc: self.usage.clone(),
            long_doc: split_str(self.help.as_str(), '\n'),
            has_function: true,
        };
        proof {
            assert(r@ =~= descriptor_view(*self));
        }
        r
    }
}

/// The process-wide mapping from registered command name to its builtin,
/// read by the trampoline on every invocation and written at registration.
pub struct Registry<F> {
    pub entries: Vec<Builtin<F>>,
}

impl<F> Registry<F> {
    /// An empty registry.
    pub fn new() -> (r: Registry<F>)
        ensures
            r.entries@ == Seq::<Builtin<F>>::empty(),
    {
        Registry { entries: Vec::new() }
    }
}

/// The first registered builtin named `n`, if any.
pub open spec fn lookup<F>(entries: Seq<Builtin<F>>, n: Seq<char>) -> Option<Builtin<F>>
    decreases entries.len(),
{
    if entries.len() == 0 {
        None
    } else if entries[0].name@ == n {
        Some(entries[0])
    } else {
        lookup(entries.drop_first(), n)
    }
}

/// A first match at index `i` is what `lookup` returns.
pub proof fn lemma_lookup_at<F>(entries: Seq<Builtin<F>>, n: Seq<char>, i: int)
    requires
        0 <= i < entries.len(),
        entries[i].name@ == n,
        forall|j: int| 0 <= j < i ==> entries[j].name@ != n,
    ensures
        lookup(entries, n) == Some(entries[i]),
    decreases i,
{
    if i > 0 {
        assert forall|j: int| 0 <= j < i - 1 implies entries.drop_first()[j].name@ != n by {
            assert(entries.drop_first()[j] == entries[j + 1]);
        }
        assert(entries.drop_first()[i - 1] == entries[i]);
        lemma_lookup_at(entries.drop_first(), n, i - 1);
    }
}

/// With no match anywhere, `lookup` finds nothing.
pub proof fn lemma_lookup_none<F>(entries: Seq<Builtin<F>>, n: Seq<char>)
    requires
        forall|j: int| 0 <= j < entries.len() ==> entries[j].name@ != n,
    ensures
        lookup(entries, n) is None,
    decreases entries.len(),
{
    if entries.len() > 0 {
        assert forall|j: int| 0 <= j < entries.drop_first().len() implies entries.drop_first()[
            j].name@ != n by {
            assert(entries.drop_first()[j] == entries[j + 1]);
        }
        lemma_lookup_none(entries.drop_first(), n);
    }
}

/// The registry after inserting one builtin: the first entry with the same
/// name is replaced, or the builtin is appended.
pub open spec fn registry_insert<F>(entries: Seq<Builtin<F>>, b: Builtin<F>) -> Seq<Builtin<F>>
    decreases entries.len(),
{
    if entries.len() == 0 {
        seq![b]
    } else if entries[0].name@ == b.name@ {
        seq![b] + entries.drop_first()
    } else {
        seq![entries[0]] + registry_insert(entries.drop_first(), b)
    }
}

/// What `lookup` finds after an insertion: the inserted builtin under its
/// own name, everything else unchanged.
pub proof fn lemma_lookup_insert<F>(entries: Seq<Builtin<F>>, b: Builtin<F>, n: Seq<char>)
    ensures
        lookup(registry_insert(entries, b), n) == if n == b.name@ {
            Some(b)
        } else {
            lookup(entries, n)
        },
    decreases entries.len(),
{
    if entries.len() == 0 {
        let out = seq![b];
        assert(registry_insert(entries, b) == out);
        assert(out[0] == b);
        assert(out.drop_first() =~= Seq::<Builtin<F>>::empty());
        if n == b.name@ {
            assert(lookup(out, n) == Some(b));
        } else {
            assert(lookup(out, n) == lookup(out.drop_first(), n));
            assert(lookup(out.drop_first(), n) is None);
            assert(lookup(entries, n) is None);
        }
    } else if entries[0].name@ == b.name@ {
        let out = seq![b] + entries.drop_first();
        assert(registry_insert(entries, b) == out);
        assert(out[0] == b);
        assert(out.drop_first() =~= entries.drop_first());
        if n == b.name@ {
            assert(lookup(out, n) == Some(b));
        } else {
            assert(lookup(out, n) == lookup(entries.drop_first(), n));
            assert(lookup(entries, n) == lookup(entries.drop_first(), n));
        }
    } else {
        let out = seq![entries[0]] + registry_insert(entries.drop_first(), b);
        assert(registry_insert(entries, b) == out);
        assert(out[0] == entries[0]);
        assert(out.drop_first() =~= registry_insert(entries.drop_first(), b));
        lemma_lookup_insert(entries.drop_first(), b, n);
        if out[0].name@ == n {
            assert(n != b.name@);
            assert(lookup(out, n) == Some(entries[0]));
            assert(lookup(entries, n) == Some(entries[0]));
        } else {
            assert(lookup(out, n) == lookup(registry_insert(entries.drop_first(), b), n));
            assert(lookup(entries, n) == lookup(entries.drop_first(), n));
        }
    }
}

/// The registry after inserting each builtin of a batch, in order.
pub open spec fn registry_extended<F>(entries: Seq<Builtin<F>>, bs: Seq<Builtin<F>>) -> Seq<
    Builtin<F>,
>
    decreases bs.len(),
{
    if bs.len() == 0 {
        entries
    } else {
        registry_insert(registry_extended(entries, bs.drop_last()), bs.last())
    }
}

/// Dispatch law: after a batch of builtins with pairwise distinct names is
/// registered, looking up any name of the batch — which is what dispatch
/// does during a real invocation of that name — resolves to exactly the
/// builtin that was passed to `register`, by name equality.
pub proof fn lemma_dispatch_resolves<F>(entries: Seq<Builtin<F>>, bs: Seq<Builtin<F>>, i: int)
    requires
        0 <= i < bs.len(),
        forall|j: int, k: int| 0 <= j < k < bs.len() ==> bs[j].name@ != bs[k].name@,
    ensures
        lookup(registry_extended(entries, bs), bs[i].name@) == Some(bs[i]),
    decreases bs.len(),
{
    lemma_lookup_insert(registry_extended(entries, bs.drop_last()), bs.last(), bs[i].name@);
    if i < bs.len() - 1 {
        assert(bs[i].name@ != bs[bs.len() - 1].name@);
        assert forall|j: int, k: int| 0 <= j < k < bs.drop_last().len() implies bs.drop_last()[
            j].name@ != bs.drop_last()[k].name@ by {
            assert(bs.drop_last()[j] == bs[j]);
            assert(bs.drop_last()[k] == bs[k]);
        }
        assert(bs.drop_last()[i] == bs[i]);
        lemma_dispatch_resolves(entries, bs.drop_last(), i);
    }
}

/// Insertion rewrites the first matching index, or appends.
pub proof fn lemma_registry_insert_at<F>(entries: Seq<Builtin<F>>, b: Builtin<F>, i: int)
    requires
        0 <= i < entries.len(),
        entries[i].name@ == b.name@,
        forall|j: int| 0 <= j < i ==> entries[j].name@ != b.name@,
    ensures
        registry_insert(entries, b) == entries.update(i, b),
    decreases i,
{
    if i == 0 {
        assert(registry_insert(entries, b) =~= entries.update(0, b));
    } else {
        assert forall|j: int| 0 <= j < i - 1 implies entries.drop_first()[j].name@ != b.name@ by {
            assert(entries.drop_first()[j] == entries[j + 1]);
        }
        assert(entries.drop_first()[i - 1] == entries[i]);
        lemma_registry_insert_at(entries.drop_first(), b, i - 1);
        assert(registry_insert(entries, b) =~= entries.update(i, b));
    }
}

/// Inserting an unseen name appends.
pub proof fn lemma_registry_insert_push<F>(entries: Seq<Builtin<F>>, b: Builtin<F>)
    requires
        forall|j: int| 0 <= j < entries.len() ==> entries[j].name@ != b.name@,
    ensures
        registry_insert(entries, b) == entries.push(b),
    decreases entries.len(),
{
    if entries.len() == 0 {
        assert(registry_insert(entries, b) =~= entries.push(b));
    } else {
        assert forall|j: int| 0 <= j < entries.drop_first().len() implies entries.drop_first()[
            j].name@ != b.name@ by {
            assert(entries.drop_first()[j] == entries[j + 1]);
        }
        lemma_registry_insert_push(entries.drop_first(), b);
        assert(registry_insert(entries, b) =~= entries.push(b));
    }
}

/// Insert one builtin into the registry, replacing an entry of the same
/// name if present.
fn registry_insert_exec<F>(reg: &mut Registry<F>, b: Builtin<F>)
    ensures
        final(reg).entries@ == registry_insert(old(reg).entries@, b),
{
    let n = reg.entries.len();
    let mut at: Option<usize> = None;
    for i in 0..n
        invariant
            n == reg.entries.len(),
            reg.entries == old(reg).entries,
            match at {
                Some(k) => {
                    &&& k < i
                    &&& reg.entries@[k as int].name@ == b.name@
                    &&& forall|j: int| 0 <= j < k ==> reg.entries@[j].name@ != b.name@
                },
                None => forall|j: int| 0 <= j < i ==> reg.entries@[j].name@ != b.name@,
            },
    {
        if at.is_none() && reg.entries[i].name.eq(&b.name) {
            at = Some(i);
        }
    }
    match at {
        Some(i) => {
            proof {
                lemma_registry_insert_at(reg.entries@, b, i as int);
            }
            reg.entries.remove(i);
            reg.entries.insert(i, b);
            proof {
                assert(reg.entries@ =~= old(reg).entries@.update(
                    i as int,
                    reg.entries@[i as int],
                ));
            }
        },
        None => {
            proof {
                lemma_registry_insert_push(reg.entries@, b);
            }
            reg.entries.push(b);
        },
    }
}

/// Add builtins to the dispatch mapping so the trampoline can resolve them;
/// later registrations of the same name replace earlier ones.
pub fn update_run_map<F>(reg: &mut Registry<F>, builtins: Vec<Builtin<F>>)
    ensures
        final(reg).entries@ == registry_extended(old(reg).entries@, builtins@),
{
    let ghost all = builtins@;
    let ghost base = reg.entries@;
    proof {
        assert(all.len() == builtins.len());
    }
    let mut rest = builtins;
    let mut k: usize = 0;
    while rest.len() > 0
        invariant
            k <= all.len(),
            all.len() <= usize::MAX,
            rest@ == all.skip(k as int),
            reg.entries@ == registry_extended(base, all.take(k as int)),
        decreases rest.len(),
    {
        let b = rest.remove(0);
        proof {
            assert(b == all[k as int]);
            assert(rest@ =~= all.skip(k + 1));
            assert(all.take(k + 1).drop_last() =~= all.take(k as int));
            assert(all.take(k + 1).last() == all[k as int]);
        }
        registry_insert_exec(reg, b);
        k = k + 1;
    }
    proof {
        assert(all.take(k as int) =~= all);
    }
}

/// The interpreter's builtin table after installing one descriptor: the
/// first entry with the same name is replaced, or the descriptor is
/// appended.
pub open spec fn table_installed(bs: Seq<BuiltinV>, d: BuiltinV) -> Seq<BuiltinV>
    decreases bs.len(),
{
    if bs.len() == 0 {
        seq![d]
    } else if bs[0].name == d.name {
        seq![d] + bs.drop_first()
    } else {
        seq![bs[0]] + table_installed(bs.drop_first(), d)
    }
}

/// Installation rewrites the first matching index, or appends.
pub proof fn lemma_table_installed_at(bs: Seq<BuiltinV>, d: BuiltinV, i: int)
    requires
        0 <= i < bs.len(),
        bs[i].name == d.name,
        forall|j: int| 0 <= j < i ==> bs[j].name != d.name,
    ensures
        table_installed(bs, d) == bs.update(i, d),
    decreases i,
{
    if i == 0 {
        assert(table_installed(bs, d) =~= bs.update(0, d));
    } else {
        assert forall|j: int| 0 <= j < i - 1 implies bs.drop_first()[j].name != d.name by {
            assert(bs.drop_first()[j] == bs[j + 1]);
        }
        assert(bs.drop_first()[i - 1] == bs[i]);
        lemma_table_installed_at(bs.drop_first(), d, i - 1);
        assert(table_installed(bs, d) =~= bs.update(i, d));
    }
}

/// Installing an unseen name appends.
pub proof fn lemma_table_installed_push(bs: Seq<BuiltinV>, d: BuiltinV)
    requires
        forall|j: int| 0 <= j < bs.len() ==> bs[j].name != d.name,
    ensures
        table_installed(bs, d) == bs.push(d),
    decreases bs.len(),
{
    if bs.len() == 0 {
        assert(table_installed(bs, d) =~= bs.push(d));
    } else {
        assert forall|j: int| 0 <= j < bs.drop_first().len() implies bs.drop_first()[j].name
            != d.name by {
            assert(bs.drop_first()[j] == bs[j + 1]);
        }
        lemma_table_installed_push(bs.drop_first(), d);
        assert(table_installed(bs, d) =~= bs.push(d));
    }
}

/// Install one descriptor into the interpreter's builtin table.
fn install_descriptor(sh: &mut Shell, d: ForeignBuiltin)
    ensures
        final(sh)@ == (ShellView {
            builtins: table_installed(old(sh)@.builtins, d@),
            ..old(sh)@
        }),
{
    let ghost dv = d@;
    match find_builtin_index(&sh.builtins, &d.name) {
        Some(i) => {
            proof {
                lemma_table_installed_at(sh@.builtins, dv, i as int);
            }
            sh.builtins.remove(i);
            sh.builtins.insert(i, d);
            proof {
                assert(sh.builtins.deep_view() =~= old(sh)@.builtins.update(i as int, dv));
                assert(sh@ =~= (ShellView {
                    builtins: table_installed(old(sh)@.builtins, dv),
                    ..old(sh)@
                }));
            }
        },
        None => {
            proof {
                lemma_find_builtin_none_forall(sh@.builtins, dv.name);
                lemma_table_installed_push(sh@.builtins, dv);
            }
            sh.builtins.push(d);
            proof {
                assert(sh.builtins.deep_view() =~= old(sh)@.builtins.push(dv));
                assert(sh@ =~= (ShellView {
                    builtins: table_installed(old(sh)@.builtins, dv),
                    ..old(sh)@
                }));
            }
        },
    }
}

/// The interpreter's table after installing the descriptors of a batch.
pub open spec fn table_extended<F>(bs: Seq<BuiltinV>, batch: Seq<Builtin<F>>) -> Seq<BuiltinV>
    decreases batch.len(),
{
    if batch.len() == 0 {
        bs
    } else {
        table_installed(table_extended(bs, batch.drop_last()), descriptor_view(batch.last()))
    }
}

/// Register builtins for use: build each one's interpreter descriptor, hand
/// it to the interpreter's builtin table, and add the builtin to the
/// dispatch mapping.  Safe to call repeatedly with further batches.
pub fn register<F: BuiltinFn>(sh: &mut Shell, reg: &mut Registry<F>, builtins: Vec<Builtin<F>>)
    ensures
        final(sh)@ == (ShellView {
            builtins: table_extended(old(sh)@.builtins, builtins@),
            ..old(sh)@
        }),
        final(reg).entries@ == registry_extended(old(reg).entries@, builtins@),
{
    let ghost all = builtins@;
    let ghost base_table = sh@.builtins;
    let ghost base_reg = reg.entries@;
    let ghost s0 = sh@;
    proof {
        assert(all.len() == builtins.len());
    }
    let mut rest = builtins;
    let mut k: usize = 0;
    while rest.len() > 0
        invariant
            k <= all.len(),
            all.len() <= usize::MAX,
            rest@ == all.skip(k as int),
            sh@ == (ShellView { builtins: table_extended(base_table, all.take(k as int)), ..s0 }),
            reg.entries@ == registry_extended(base_reg, all.take(k as int)),
        decreases rest.len(),
    {
        let b = rest.remove(0);
        proof {
            assert(b == all[k as int]);
            assert(rest@ =~= all.skip(k + 1));
            assert(all.take(k + 1).drop_last() =~= all.take(k as int));
            assert(all.take(k + 1).last() == all[k as int]);
        }
        let d = b.to_descriptor();
        install_descriptor(sh, d);
        registry_insert_exec(reg, b);
        k = k + 1;
    }
    proof {
        assert(all.take(k as int) =~= all);
    }
}

/// The builtin matching the currently executing command, if one is
/// registered under that name.
pub fn running_builtin<'a, F>(sh: &Shell, reg: &'a Registry<F>) -> (r: Option<&'a Builtin<F>>)
    ensures
        match (sh@.current_cmd, r) {
            (Some(n), Some(b)) => lookup(reg.entries@, n) == Some(*b) && b.name@ == n,
            (Some(n), None) => lookup(reg.entries@, n) is None,
            (None, None) => true,
            (None, Some(_)) => false,
        },
{
    let name = match &sh.current_cmd {
        None => {
            return None;
        },
        Some(name) => name,
    };
    let n = reg.entries.len();
    for i in 0..n
        invariant
            n == reg.entries.len(),
            sh@.current_cmd == Some(name@),
            forall|j: int| 0 <= j < i ==> reg.entries@[j].name@ != name@,
    {
        if reg.entries[i].name.eq(name) {
            proof {
                lemma_lookup_at(reg.entries@, name@, i as int);
            }
            return Some(&reg.entries[i]);
        }
    }
    proof {
        lemma_lookup_none(reg.entries@, name@);
    }
    None
}

/// The diagnostic line the trampoline writes for a failed builtin: errors a
/// builtin raised about its own arguments are prefixed with the command
/// name, anything else is printed bare.
pub open spec fn error_line(cmd: Seq<char>, e: ErrorV) -> Seq<char> {
    match e {
        ErrorV::Builtin(m) => cmd + ": error: "@ + m,
        _ => e.message(),
    }
}

/// The single foreign-callable trampoline the interpreter invokes for every
/// registered builtin: resolve the currently executing command name, marshal
/// the argument words, run the matching host function, and hand the
/// interpreter back an integer status, writing a diagnostic line for a
/// failed run.  The interpreter only calls the trampoline for names it was
/// told are registered, so an unresolved name is excluded by precondition
/// rather than handled at run time.
pub fn run_builtin<F: BuiltinFn>(sh: &mut Shell, reg: &Registry<F>, list: Words) -> (code: i32)
    requires
        old(sh)@.current_cmd is Some,
        lookup(reg.entries@, old(sh)@.current_cmd.unwrap()) is Some,
    ensures
        ({
            let n = old(sh)@.current_cmd.unwrap();
            let b = lookup(reg.entries@, n).unwrap();
            let (res, post) = b.func.spec_run(old(sh)@, list@);
            match res {
                Ok(st) => code == st.spec_code() && final(sh)@ == post,
                Err(e) => code == 1 && final(sh)@ == (ShellView {
                    diag: post.diag.push(error_line(n, e)),
                    ..post
                }),
            }
        }),
{
    let b = match running_builtin(&*sh, reg) {
        Some(b) => b,
        None => {
            proof {
                assert(false);
            }
            return 1;
        },
    };
    let words = list.to_vec();
    match b.run(sh, &words) {
        Ok(ret) => i32::from(ret),
        Err(e) => {
            let line = match &e {
                Error::Builtin(m) => {
                    let mut line = b.name.clone();
                    line.append(": error: ");
                    line.append(m.as_str());
                    line
                },
                _ => e.message(),
            };
            let ghost mid = sh@;
            sh.diag.push(line);
            proof {
                assert(sh@.diag =~= mid.diag.push(error_line(
                    old(sh)@.current_cmd.unwrap(),
                    e@,
                )));
                assert(sh@ =~= (ShellView {
                    diag: mid.diag.push(error_line(old(sh)@.current_cmd.unwrap(), e@)),
                    ..mid
                }));
            }
            1
        },
    }
}

/// What the fatal-error path asks the embedding to do after the message has
/// been deposited: in the main process the interpreter unwinds through the
/// returned status; inside a subshell the embedding must signal the parent
/// with the user-defined signal and terminate the child with the
/// distinguished fatal exit code.
#[derive(Debug, Clone, Copy, PartialEq, Eq, Structural)]
pub enum RaiseAction {
    /// Return `ExecStatus::Error` so the interpreter unwinds in place.
    Unwind,
    /// Signal the parent process and exit with the given code.
    SignalParentAndExit { exit_code: i32 },
}

/// Raise an error from within a builtin.  The message is written into the
/// pid-keyed shared slot; in the main process the interpreter then unwinds,
/// while a subshell must instead wake its parent and terminate, because the
/// parent continues the evaluation and cannot receive a return value.
pub fn raise_error(sh: &mut Shell, msg: &str) -> (r: RaiseAction)
    ensures
        final(sh)@ == (ShellView { shm: Some(shm_truncate(msg@)), ..old(sh)@ }),
        r == if old(sh)@.subshell_level > 0 {
            RaiseAction::SignalParentAndExit { exit_code: FATAL_EXIT_CODE }
        } else {
            RaiseAction::Unwind
        },
{
    sh.set_shm_error(msg);
    if in_subshell(sh) {
        RaiseAction::SignalParentAndExit { exit_code: FATAL_EXIT_CODE }
    } else {
        RaiseAction::Unwind
    }
}

/// The native builtins this library ships.
pub enum NativeBuiltin {
    /// `has`: does the first argument appear among the rest?
    Has,
    /// `hasv`: the same as `has`, printing the needle when found.
    Hasv,
    /// `ver_test`: version testing against the `PVR` binding.
    VerTest,
    /// `ver_cut`: print a component range of the `PV` version string.
    VerCut,
    /// `ver_rs`: print the `PV` version string with separators replaced.
    VerRs,
}

impl BuiltinFn for NativeBuiltin {
    open spec fn spec_run(&self, sh: ShellView, args: Seq<Seq<char>>) -> (Result<
        ExecStatus,
        ErrorV,
    >, ShellView) {
        match self {
            NativeBuiltin::Has => (has::spec_has(args), sh),
            NativeBuiltin::Hasv => hasv::spec_hasv(sh, args),
            NativeBuiltin::VerTest => (
                ver_test::spec_ver_test(
                    args,
                    crate::variables::string_value_spec(sh.vars, "PVR"@),
                ),
                sh,
            ),
            NativeBuiltin::VerCut => (
                match ver_cut::spec_ver_cut(
                    args,
                    crate::variables::string_value_spec(sh.vars, "PV"@),
                ) {
                    Ok(s) => (
                        Ok(ExecStatus::Success),
                        (ShellView { out: sh.out.push(s), ..sh }),
                    ),
                    Err(e) => (Err(e), sh),
                }
            ),
            NativeBuiltin::VerRs => (
                match ver_rs::spec_ver_rs(
                    args,
                    crate::variables::string_value_spec(sh.vars, "PV"@),
                ) {
                    Ok(s) => (
                        Ok(ExecStatus::Success),
                        (ShellView { out: sh.out.push(s), ..sh }),
                    ),
                    Err(e) => (Err(e), sh),
                }
            ),
        }
    }

    fn run(&self, sh: &mut Shell, args: &Vec<String>) -> (r: Result<ExecStatus, Error>) {
        match self {
            NativeBuiltin::Has => has::has(args),
            NativeBuiltin::Hasv => hasv::hasv(sh, args),
            NativeBuiltin::VerTest => {
                let pvr = crate::variables::string_value(sh, "PVR");
                ver_test::ver_test(args, &pvr)
            },
            NativeBuiltin::VerCut => {
                let pv = crate::variables::string_value(sh, "PV");
                match ver_cut::ver_cut(args, &pv) {
                    Ok(s) => {
                        let ghost sv = s@;
                        sh.out.push(s);
                        proof {
                            assert(sh@.out =~= old(sh)@.out.push(sv));
                            assert(sh@ =~= (ShellView {
                                out: old(sh)@.out.push(sv),
                                ..old(sh)@
                            }));
                        }
                        Ok(ExecStatus::Success)
                    },
                    Err(e) => Err(e),
                }
            },
            NativeBuiltin::VerRs => {
                let pv = crate::variables::string_value(sh, "PV");
                match ver_rs::ver_rs(args, &pv) {
                    Ok(s) => {
                        let ghost sv = s@;
                        sh.out.push(s);
                        proof {
                            assert(sh@.out =~= old(sh)@.out.push(sv));
                            assert(sh@ =~= (ShellView {
                                out: old(sh)@.out.push(sv),
                                ..old(sh)@
                            }));
                        }
                        Ok(ExecStatus::Success)
                    },
                    Err(e) => Err(e),
                }
            },
        }
    }
}

/// Scoped-guard nesting law, `set` table: the mirror of the `shopt`-side
/// law for an option of the `set` table — outer enable, nested inner
/// disable, releases innermost first, everything restored.
pub proof fn lemma_scoped_guard_nesting_set(v0: ShellView, o: Seq<char>)
    requires
        v0.set_known.contains(o),
        !v0.shopt_known.contains(o),
        !v0.set_on.contains(o),
    ensures
        ({
            let start1 = OptionToggles {
                set_on: v0.set_on,
                shopt_on: v0.shopt_on,
                set_recorded: Seq::empty(),
                shopt_recorded: Seq::empty(),
                unknown: Seq::empty(),
            };
            let f1 = scoped_enable_fold(
                v0.set_known,
                v0.shopt_known,
                v0.set_on,
                v0.shopt_on,
                start1,
                seq![o],
            );
            let s1 = ShellView { set_on: f1.set_on, shopt_on: f1.shopt_on, ..v0 };
            let g1 = ScopedOptionsV {
                set_enabled: f1.set_recorded,
                set_disabled: Seq::empty(),
                shopt_enabled: f1.shopt_recorded,
                shopt_disabled: Seq::empty(),
            };
            let start2 = OptionToggles {
                set_on: s1.set_on,
                shopt_on: s1.shopt_on,
                set_recorded: Seq::empty(),
                shopt_recorded: Seq::empty(),
                unknown: Seq::empty(),
            };
            let f2 = scoped_disable_fold(
                s1.set_known,
                s1.shopt_known,
                s1.set_on,
                s1.shopt_on,
                start2,
                seq![o],
            );
            let s2 = ShellView { set_on: f2.set_on, shopt_on: f2.shopt_on, ..s1 };
            let g2 = ScopedOptionsV {
                set_enabled: Seq::empty(),
                set_disabled: f2.set_recorded,
                shopt_enabled: Seq::empty(),
                shopt_disabled: f2.shopt_recorded,
            };
            let s3 = options_restored(s2, g2);
            let s4 = options_restored(s3, g1);
            &&& f1.unknown.len() == 0
            &&& f2.unknown.len() == 0
            &&& s3.set_on.contains(o)
            &&& s4 == v0
        }),
{
    let start1 = OptionToggles {
        set_on: v0.set_on,
        shopt_on: v0.shopt_on,
        set_recorded: Seq::empty(),
        shopt_recorded: Seq::empty(),
        unknown: Seq::empty(),
    };
    assert(seq![o].drop_last() =~= Seq::<Seq<char>>::empty());
    assert(seq![o].last() == o);
    assert(scoped_enable_fold(
        v0.set_known,
        v0.shopt_known,
        v0.set_on,
        v0.shopt_on,
        start1,
        seq![o].drop_last(),
    ) == start1);
    let f1 = scoped_enable_fold(
        v0.set_known,
        v0.shopt_known,
        v0.set_on,
        v0.shopt_on,
        start1,
        seq![o],
    );
    assert(f1.set_on == v0.set_on.push(o));
    assert(f1.shopt_on == v0.shopt_on);
    assert(f1.set_recorded =~= seq![o]);
    assert(f1.shopt_recorded.len() == 0);
    assert(f1.unknown.len() == 0);
    let s1 = ShellView { set_on: f1.set_on, shopt_on: f1.shopt_on, ..v0 };
    assert(s1.set_on.contains(o)) by {
        assert(s1.set_on[v0.set_on.len() as int] == o);
    }
    let start2 = OptionToggles {
        set_on: s1.set_on,
        shopt_on: s1.shopt_on,
        set_recorded: Seq::empty(),
        shopt_recorded: Seq::empty(),
        unknown: Seq::empty(),
    };
    assert(scoped_disable_fold(
        s1.set_known,
        s1.shopt_known,
        s1.set_on,
        s1.shopt_on,
        start2,
        seq![o].drop_last(),
    ) == start2);
    let f2 = scoped_disable_fold(
        s1.set_known,
        s1.shopt_known,
        s1.set_on,
        s1.shopt_on,
        start2,
        seq![o],
    );
    lemma_without_push(v0.set_on, o);
    lemma_without_absent(v0.set_on, o);
    assert(f2.set_on == v0.set_on);
    assert(f2.shopt_on == v0.shopt_on);
    assert(f2.set_recorded =~= seq![o]);
    assert(f2.shopt_recorded.len() == 0);
    assert(f2.unknown.len() == 0);
    let s2 = ShellView { set_on: f2.set_on, shopt_on: f2.shopt_on, ..s1 };
    let g2 = ScopedOptionsV {
        set_enabled: Seq::empty(),
        set_disabled: f2.set_recorded,
        shopt_enabled: Seq::empty(),
        shopt_disabled: f2.shopt_recorded,
    };
    // the inner release: nothing to disable, and `o` to enable again
    assert(opts_disabled_list(s2.shopt_on, g2.shopt_enabled) == s2.shopt_on);
    assert(opts_enabled_list(s2.shopt_on, g2.shopt_disabled) == s2.shopt_on);
    assert(opts_disabled_list(s2.set_on, g2.set_enabled) == s2.set_on);
    assert(opts_enabled_list(s2.set_on, seq![o].drop_last()) == s2.set_on);
    assert(opts_enabled_list(s2.set_on, seq![o]) == s2.set_on.push(o));
    let s3 = options_restored(s2, g2);
    assert(s3.set_on == v0.set_on.push(o));
    assert(s3.set_on.contains(o)) by {
        assert(s3.set_on[v0.set_on.len() as int] == o);
    }
    let g1 = ScopedOptionsV {
        set_enabled: f1.set_recorded,
        set_disabled: Seq::empty(),
        shopt_enabled: f1.shopt_recorded,
        shopt_disabled: Seq::empty(),
    };
    // the outer release: disable `o` again, nothing to enable
    assert(g1.shopt_enabled =~= Seq::<Seq<char>>::empty());
    assert(opts_disabled_list(s3.shopt_on, g1.shopt_enabled) == s3.shopt_on);
    assert(opts_enabled_list(s3.shopt_on, g1.shopt_disabled) == s3.shopt_on);
    assert(g1.set_enabled == seq![o]);
    assert(opts_disabled_list(s3.set_on, seq![o].drop_last()) == s3.set_on);
    assert(opts_disabled_list(s3.set_on, seq![o]) == without(s3.set_on, o));
    assert(without(s3.set_on, o) == v0.set_on);
    let s4 = options_restored(s3, g1);
    assert(opts_enabled_list(opts_disabled_list(s3.set_on, g1.set_enabled), g1.set_disabled)
        == v0.set_on);
    assert(s4 =~= v0);
}

} // verus!