//! Variable bindings of the interpreter: lookup, binding, unbinding, and the
//! scope guard that restores a variable's previous value.

use vstd::prelude::*;
use vstd::string::StringExecFns;

use crate::error::Error;
use crate::error::ErrorV;
use crate::shell::Shell;
use crate::shell::ShellView;
use crate::status::ExecStatus;
use crate::text::nonempty_fields;
use crate::text::filter_nonempty;
use crate::text::split_on;
use crate::text::split_str;

verus! {

/// Attribute bit: the variable is exported to the environment.
pub const ATT_EXPORTED: u32 = 0x1;

/// Attribute bit: the variable cannot be rebound or unset.
pub const ATT_READONLY: u32 = 0x2;

/// Attribute bit: the variable holds an indexed array.
pub const ATT_ARRAY: u32 = 0x4;

/// Attribute bit: the variable holds a function.
pub const ATT_FUNCTION: u32 = 0x8;

/// Attribute bit: the variable is treated as an integer.
pub const ATT_INTEGER: u32 = 0x10;

/// Attribute bit: the variable is local to a function scope.
pub const ATT_LOCAL: u32 = 0x20;

/// Assignment flag: append to the existing value instead of replacing it.
pub const ASS_APPEND: u32 = 0x1;

/// Assignment flag: create the binding in the current local scope.
pub const ASS_MKLOCAL: u32 = 0x2;

/// Assignment flag: create the binding in the global scope.
pub const ASS_MKGLOBAL: u32 = 0x4;

/// A variable's value: a plain string or an indexed array.
pub enum VarValue {
    Scalar(String),
    Array(Vec<String>),
}

/// The mathematical shape of a [`VarValue`].
#[verifier::ext_equal]
pub enum ValueV {
    Scalar(Seq<char>),
    Array(Seq<Seq<char>>),
}

impl View for VarValue {
    type V = ValueV;

    open spec fn view(&self) -> ValueV {
        match self {
            VarValue::Scalar(s) => ValueV::Scalar(s@),
            VarValue::Array(vs) => ValueV::Array(vs.deep_view()),
        }
    }
}

impl DeepView for VarValue {
    type V = ValueV;

    open spec fn deep_view(&self) -> ValueV {
        self.view()
    }
}

/// One bound variable of the interpreter's variable table.
pub struct Var {
    pub name: String,
    pub value: VarValue,
    pub attrs: u32,
}

/// The mathematical shape of a [`Var`].
#[verifier::ext_equal]
pub struct VarV {
    pub name: Seq<char>,
    pub value: ValueV,
    pub attrs: u32,
}

impl View for Var {
    type V = VarV;

    open spec fn view(&self) -> VarV {
        VarV { name: self.name@, value: self.value@, attrs: self.attrs }
    }
}

impl DeepView for Var {
    type V = VarV;

    open spec fn deep_view(&self) -> VarV {
        self.view()
    }
}

impl VarV {
    /// Whether the readonly attribute is set.
    pub open spec fn readonly(self) -> bool {
        self.attrs & ATT_READONLY == ATT_READONLY
    }

    /// Whether the array attribute is set.
    pub open spec fn is_array(self) -> bool {
        self.attrs & ATT_ARRAY == ATT_ARRAY
    }
}

/// The first variable named `n` in the table, if any.
pub open spec fn find_var(vs: Seq<VarV>, n: Seq<char>) -> Option<VarV>
    decreases vs.len(),
{
    if vs.len() == 0 {
        None
    } else if vs[0].name == n {
        Some(vs[0])
    } else {
        find_var(vs.drop_first(), n)
    }
}

/// A first match at index `i` is what `find_var` returns.
pub proof fn lemma_find_var_at(vs: Seq<VarV>, n: Seq<char>, i: int)
    requires
        0 <= i < vs.len(),
        vs[i].name == n,
        forall|j: int| 0 <= j < i ==> vs[j].name != n,
    ensures
        find_var(vs, n) == Some(vs[i]),
    decreases i,
{
    if i > 0 {
        assert forall|j: int| 0 <= j < i - 1 implies vs.drop_first()[j].name != n by {
            assert(vs.drop_first()[j] == vs[j + 1]);
        }
        assert(vs.drop_first()[i - 1] == vs[i]);
        lemma_find_var_at(vs.drop_first(), n, i - 1);
    }
}

/// With no match anywhere, `find_var` finds nothing.
pub proof fn lemma_find_var_none(vs: Seq<VarV>, n: Seq<char>)
    requires
        forall|j: int| 0 <= j < vs.len() ==> vs[j].name != n,
    ensures
        find_var(vs, n) is None,
    decreases vs.len(),
{
    if vs.len() > 0 {
        assert forall|j: int| 0 <= j < vs.drop_first().len() implies vs.drop_first()[j].name
            != n by {
            assert(vs.drop_first()[j] == vs[j + 1]);
        }
        lemma_find_var_none(vs.drop_first(), n);
    }
}

/// The table after binding `v`: the first variable of the same name is
/// replaced, or the binding is appended.
pub open spec fn var_bound(vs: Seq<VarV>, v: VarV) -> Seq<VarV>
    decreases vs.len(),
{
    if vs.len() == 0 {
        seq![v]
    } else if vs[0].name == v.name {
        seq![v] + vs.drop_first()
    } else {
        seq![vs[0]] + var_bound(vs.drop_first(), v)
    }
}

/// Binding rewrites the first matching index, or appends.
pub proof fn lemma_var_bound_at(vs: Seq<VarV>, v: VarV, i: int)
    requires
        0 <= i < vs.len(),
        vs[i].name == v.name,
        forall|j: int| 0 <= j < i ==> vs[j].name != v.name,
    ensures
        var_bound(vs, v) == vs.update(i, v),
    decreases i,
{
    if i == 0 {
        assert(var_bound(vs, v) =~= vs.update(0, v));
    } else {
        assert forall|j: int| 0 <= j < i - 1 implies vs.drop_first()[j].name != v.name by {
            assert(vs.drop_first()[j] == vs[j + 1]);
        }
        assert(vs.drop_first()[i - 1] == vs[i]);
        lemma_var_bound_at(vs.drop_first(), v, i - 1);
        assert(var_bound(vs, v) =~= vs.update(i, v));
    }
}

/// Binding an unseen name appends.
pub proof fn lemma_var_bound_push(vs: Seq<VarV>, v: VarV)
    requires
        forall|j: int| 0 <= j < vs.len() ==> vs[j].name != v.name,
    ensures
        var_bound(vs, v) == vs.push(v),
    decreases vs.len(),
{
    if vs.len() == 0 {
        assert(var_bound(vs, v) =~= vs.push(v));
    } else {
        assert forall|j: int| 0 <= j < vs.drop_first().len() implies vs.drop_first()[j].name
            != v.name by {
            assert(vs.drop_first()[j] == vs[j + 1]);
        }
        lemma_var_bound_push(vs.drop_first(), v);
        assert(var_bound(vs, v) =~= vs.push(v));
    }
}

/// The table after unbinding `n`: the first variable of that name is
/// removed; an absent name leaves the table unchanged.
pub open spec fn var_removed(vs: Seq<VarV>, n: Seq<char>) -> Seq<VarV>
    decreases vs.len(),
{
    if vs.len() == 0 {
        vs
    } else if vs[0].name == n {
        vs.drop_first()
    } else {
        seq![vs[0]] + var_removed(vs.drop_first(), n)
    }
}

/// Unbinding removes exactly the first matching index.
pub proof fn lemma_var_removed_at(vs: Seq<VarV>, n: Seq<char>, i: int)
    requires
        0 <= i < vs.len(),
        vs[i].name == n,
        forall|j: int| 0 <= j < i ==> vs[j].name != n,
    ensures
        var_removed(vs, n) == vs.remove(i),
    decreases i,
{
    if i == 0 {
        assert(var_removed(vs, n) =~= vs.remove(0));
    } else {
        assert forall|j: int| 0 <= j < i - 1 implies vs.drop_first()[j].name != n by {
            assert(vs.drop_first()[j] == vs[j + 1]);
        }
        assert(vs.drop_first()[i - 1] == vs[i]);
        lemma_var_removed_at(vs.drop_first(), n, i - 1);
        assert(var_removed(vs, n) =~= vs.remove(i));
    }
}

/// Unbinding an absent name changes nothing.
pub proof fn lemma_var_removed_none(vs: Seq<VarV>, n: Seq<char>)
    requires
        forall|j: int| 0 <= j < vs.len() ==> vs[j].name != n,
    ensures
        var_removed(vs, n) == vs,
    decreases vs.len(),
{
    if vs.len() > 0 {
        assert forall|j: int| 0 <= j < vs.drop_first().len() implies vs.drop_first()[j].name
            != n by {
            assert(vs.drop_first()[j] == vs[j + 1]);
        }
        lemma_var_removed_none(vs.drop_first(), n);
        assert(var_removed(vs, n) =~= vs);
    } else {
        assert(var_removed(vs, n) =~= vs);
    }
}

/// Whether the table binds each name at most once.  Freshly initialized
/// shells satisfy this, and every variable operation of the library
/// preserves it.
pub open spec fn distinct_var_names(vs: Seq<VarV>) -> bool {
    forall|i: int, j: int| 0 <= i < j < vs.len() ==> vs[i].name != vs[j].name
}

/// The index of the first match `find_var` returns.
pub proof fn lemma_find_var_witness(vs: Seq<VarV>, n: Seq<char>) -> (i: int)
    requires
        find_var(vs, n) is Some,
    ensures
        0 <= i < vs.len(),
        vs[i].name == n,
        forall|j: int| 0 <= j < i ==> vs[j].name != n,
        find_var(vs, n) == Some(vs[i]),
    decreases vs.len(),
{
    if vs[0].name == n {
        0
    } else {
        let k = lemma_find_var_witness(vs.drop_first(), n);
        assert(vs.drop_first()[k] == vs[k + 1]);
        assert forall|j: int| 0 <= j < k + 1 implies vs[j].name != n by {
            if j > 0 {
                assert(vs.drop_first()[j - 1] == vs[j]);
            }
        }
        k + 1
    }
}

/// Binding law: after a bind the name reads back exactly the bound value,
/// whatever the table held before.
pub proof fn lemma_bind_reads_back(vs: Seq<VarV>, v: VarV)
    ensures
        find_var(var_bound(vs, v), v.name) == Some(v),
    decreases vs.len(),
{
    if vs.len() == 0 {
        assert(var_bound(vs, v) == seq![v]);
        assert(seq![v][0] == v);
    } else if vs[0].name == v.name {
        let out = seq![v] + vs.drop_first();
        assert(var_bound(vs, v) == out);
        assert(out[0] == v);
    } else {
        let out = seq![vs[0]] + var_bound(vs.drop_first(), v);
        assert(var_bound(vs, v) == out);
        assert(out[0] == vs[0]);
        assert(out.drop_first() =~= var_bound(vs.drop_first(), v));
        lemma_bind_reads_back(vs.drop_first(), v);
    }
}

/// Binding keeps the at-most-once discipline: it replaces the one existing
/// binding of the name, or appends a name the table did not hold.
pub proof fn lemma_var_bound_preserves_distinct(vs: Seq<VarV>, v: VarV)
    requires
        distinct_var_names(vs),
    ensures
        distinct_var_names(var_bound(vs, v)),
{
    if find_var(vs, v.name) is Some {
        let i = lemma_find_var_witness(vs, v.name);
        lemma_var_bound_at(vs, v, i);
        let out = vs.update(i, v);
        assert forall|p: int, q: int| 0 <= p < q < out.len() implies out[p].name
            != out[q].name by {
            assert(out[p].name == vs[p].name);
            assert(out[q].name == vs[q].name);
        }
    } else {
        lemma_find_var_none_forall(vs, v.name);
        lemma_var_bound_push(vs, v);
        let out = vs.push(v);
        assert forall|p: int, q: int| 0 <= p < q < out.len() implies out[p].name
            != out[q].name by {
            if q < vs.len() {
                assert(out[p] == vs[p]);
                assert(out[q] == vs[q]);
            } else {
                assert(out[p] == vs[p]);
                assert(out[q] == v);
            }
        }
    }
}

/// Unbinding keeps the at-most-once discipline.
pub proof fn lemma_var_removed_preserves_distinct(vs: Seq<VarV>, n: Seq<char>)
    requires
        distinct_var_names(vs),
    ensures
        distinct_var_names(var_removed(vs, n)),
{
    if find_var(vs, n) is Some {
        let i = lemma_find_var_witness(vs, n);
        lemma_var_removed_at(vs, n, i);
        let out = vs.remove(i);
        assert forall|p: int, q: int| 0 <= p < q < out.len() implies out[p].name
            != out[q].name by {
            let p0 = if p < i {
                p
            } else {
                p + 1
            };
            let q0 = if q < i {
                q
            } else {
                q + 1
            };
            assert(out[p] == vs[p0]);
            assert(out[q] == vs[q0]);
        }
    } else {
        lemma_find_var_none_forall(vs, n);
        lemma_var_removed_none(vs, n);
    }
}

/// Unbinding law: for a table that binds each name at most once, after an
/// unbind the name reads back nothing — whether or not it was bound, and
/// unbinding is not an error either way per the contract of `unbind` — and
/// unbinding twice leaves exactly the table that unbinding once left.
pub proof fn lemma_unbind_idempotent(vs: Seq<VarV>, n: Seq<char>)
    requires
        distinct_var_names(vs),
    ensures
        find_var(var_removed(vs, n), n) is None,
        string_value_spec(var_removed(vs, n), n) is None,
        var_removed(var_removed(vs, n), n) == var_removed(vs, n),
        distinct_var_names(var_removed(vs, n)),
{
    lemma_var_removed_preserves_distinct(vs, n);
    if find_var(vs, n) is Some {
        let i = lemma_find_var_witness(vs, n);
        lemma_var_removed_at(vs, n, i);
        let out = vs.remove(i);
        assert forall|j: int| 0 <= j < out.len() implies out[j].name != n by {
            let j0 = if j < i {
                j
            } else {
                j + 1
            };
            assert(out[j] == vs[j0]);
            assert(vs[j0].name != vs[i].name);
        }
        lemma_find_var_none(out, n);
        lemma_var_removed_none(out, n);
    } else {
        lemma_find_var_none_forall(vs, n);
        lemma_var_removed_none(vs, n);
    }
}

/// The first index of a variable named `name`, scanning front to back.
fn find_var_index(v: &Vec<Var>, name: &str) -> (r: Option<usize>)
    ensures
        match r {
            Some(i) => {
                &&& i < v.len()
                &&& v.deep_view()[i as int].name == name@
                &&& forall|j: int| 0 <= j < i ==> v.deep_view()[j].name != name@
                &&& find_var(v.deep_view(), name@) == Some(v.deep_view()[i as int])
            },
            None => find_var(v.deep_view(), name@) is None,
        },
{
    let n = v.len();
    for i in 0..n
        invariant
            n == v.len(),
            forall|j: int| 0 <= j < i ==> v.deep_view()[j].name != name@,
    {
        if crate::text::str_eq(v[i].name.as_str(), name) {
            proof {
                assert(v.deep_view()[i as int].name == name@);
                lemma_find_var_at(v.deep_view(), name@, i as int);
            }
            return Some(i);
        }
    }
    proof {
        lemma_find_var_none(v.deep_view(), name@);
    }
    None
}

/// The raw string value a name reads back: a scalar's value, an array's
/// first element, nothing for an unset first element or an unbound name.
pub open spec fn string_value_spec(vs: Seq<VarV>, n: Seq<char>) -> Option<Seq<char>> {
    match find_var(vs, n) {
        None => None,
        Some(v) => match v.value {
            ValueV::Scalar(s) => Some(s),
            ValueV::Array(a) => if a.len() > 0 {
                Some(a[0])
            } else {
                None
            },
        },
    }
}

/// Get the raw string value of a given variable name.
pub fn string_value(sh: &Shell, name: &str) -> (r: Option<String>)
    ensures
        r.deep_view() == string_value_spec(sh@.vars, name@),
{
    match find_var_index(&sh.vars, name) {
        None => None,
        Some(i) => match &sh.vars[i].value {
            VarValue::Scalar(s) => Some(s.clone()),
            VarValue::Array(a) => if a.len() > 0 {
                proof {
                    assert(a.deep_view()[0] == a@[0]@);
                }
                Some(a[0].clone())
            } else {
                None
            },
        },
    }
}

/// The value of `0` for an omitted flag word.
pub open spec fn or_zero(o: Option<u32>) -> u32 {
    match o {
        Some(f) => f,
        None => 0,
    }
}

/// The value a binding takes: with the append flag, the old scalar value
/// extended by the new text; otherwise the new text alone.
pub open spec fn bound_value(existing: Option<VarV>, value: Seq<char>, flags: u32) -> ValueV {
    if flags & ASS_APPEND == ASS_APPEND {
        match existing {
            Some(v) => match v.value {
                ValueV::Scalar(s) => ValueV::Scalar(s + value),
                ValueV::Array(_) => ValueV::Scalar(value),
            },
            None => ValueV::Scalar(value),
        }
    } else {
        ValueV::Scalar(value)
    }
}

/// The attribute word a binding takes: new attribute bits are added to an
/// existing variable's word.
pub open spec fn bound_attrs(existing: Option<VarV>, attrs: u32) -> u32 {
    match existing {
        Some(v) => v.attrs | attrs,
        None => attrs,
    }
}

/// Whether a found variable is readonly.
pub open spec fn found_readonly(existing: Option<VarV>) -> bool {
    match existing {
        Some(v) => v.readonly(),
        None => false,
    }
}

/// Bind a value to a variable name.  A readonly variable rejects the
/// binding; otherwise the value replaces (or, with the append flag,
/// extends) the old one and the attribute bits are added.
pub fn bind(sh: &mut Shell, name: &str, value: &str, flags: Option<u32>, attrs: Option<u32>) -> (r:
    Result<ExecStatus, Error>)
    ensures
        ({
            let existing = find_var(old(sh)@.vars, name@);
            if found_readonly(existing) {
                &&& final(sh)@ == old(sh)@
                &&& (match r {
                    Err(e) => e@ == ErrorV::Base(name@ + ": readonly variable"@),
                    Ok(_) => false,
                })
            } else {
                &&& final(sh)@ == (ShellView {
                    vars: var_bound(
                        old(sh)@.vars,
                        (VarV {
                            name: name@,
                            value: bound_value(existing, value@, or_zero(flags)),
                            attrs: bound_attrs(existing, or_zero(attrs)),
                        }),
                    ),
                    ..old(sh)@
                })
                &&& r == Ok::<ExecStatus, Error>(ExecStatus::Success)
            }
        }),
{
    let f = match flags {
        Some(f) => f,
        None => 0,
    };
    let a = match attrs {
        Some(a) => a,
        None => 0,
    };
    match find_var_index(&sh.vars, name) {
        Some(i) => {
            let old_var = sh.vars.remove(i);
            if old_var.attrs & ATT_READONLY == ATT_READONLY {
                sh.vars.insert(i, old_var);
                proof {
                    assert(sh.vars.deep_view() =~= old(sh)@.vars);
                    assert(sh@ =~= old(sh)@);
                }
                let mut m = name.to_owned();
                m.append(": readonly variable");
                return Err(Error::Base(m));
            }
            let new_value = if f & ASS_APPEND == ASS_APPEND {
                match old_var.value {
                    VarValue::Scalar(s) => VarValue::Scalar(s.concat(value)),
                    VarValue::Array(_) => VarValue::Scalar(value.to_owned()),
                }
            } else {
                VarValue::Scalar(value.to_owned())
            };
            let new_var = Var { name: name.to_owned(), value: new_value, attrs: old_var.attrs | a };
            proof {
                lemma_var_bound_at(old(sh)@.vars, new_var@, i as int);
            }
            sh.vars.insert(i, new_var);
            proof {
                assert(sh.vars.deep_view() =~= var_bound(
                    old(sh)@.vars,
                    (VarV {
                        name: name@,
                        value: bound_value(find_var(old(sh)@.vars, name@), value@, f),
                        attrs: bound_attrs(find_var(old(sh)@.vars, name@), a),
                    }),
                ));
                assert(sh@ =~= (ShellView { vars: sh.vars.deep_view(), ..old(sh)@ }));
            }
            Ok(ExecStatus::Success)
        },
        None => {
            let new_var = Var {
                name: name.to_owned(),
                value: VarValue::Scalar(value.to_owned()),
                attrs: a,
            };
            proof {
                lemma_find_var_none_forall(old(sh)@.vars, name@);
                lemma_var_bound_push(old(sh)@.vars, new_var@);
            }
            sh.vars.push(new_var);
            proof {
                assert(sh.vars.deep_view() =~= var_bound(
                    old(sh)@.vars,
                    (VarV {
                        name: name@,
                        value: bound_value(find_var(old(sh)@.vars, name@), value@, f),
                        attrs: bound_attrs(find_var(old(sh)@.vars, name@), a),
                    }),
                ));
                assert(sh@ =~= (ShellView { vars: sh.vars.deep_view(), ..old(sh)@ }));
            }
            Ok(ExecStatus::Success)
        },
    }
}

/// When `find_var` finds nothing, no entry carries the name.
pub proof fn lemma_find_var_none_forall(vs: Seq<VarV>, n: Seq<char>)
    requires
        find_var(vs, n) is None,
    ensures
        forall|j: int| 0 <= j < vs.len() ==> vs[j].name != n,
    decreases vs.len(),
{
    if vs.len() > 0 {
        lemma_find_var_none_forall(vs.drop_first(), n);
        assert forall|j: int| 0 <= j < vs.len() implies vs[j].name != n by {
            if j > 0 {
                assert(vs.drop_first()[j - 1] == vs[j]);
            }
        }
    }
}

/// Bind an array of values to a variable name, setting the array attribute.
/// The interpreter creates such bindings through array assignment; this is
/// the table-level counterpart.
pub fn bind_array(sh: &mut Shell, name: &str, values: &Vec<String>) -> (r: Result<
    ExecStatus,
    Error,
>)
    ensures
        ({
            let existing = find_var(old(sh)@.vars, name@);
            if found_readonly(existing) {
                &&& final(sh)@ == old(sh)@
                &&& (match r {
                    Err(e) => e@ == ErrorV::Base(name@ + ": readonly variable"@),
                    Ok(_) => false,
                })
            } else {
                &&& final(sh)@ == (ShellView {
                    vars: var_bound(
                        old(sh)@.vars,
                        (VarV {
                            name: name@,
                            value: ValueV::Array(values.deep_view()),
                            attrs: bound_attrs(existing, ATT_ARRAY),
                        }),
                    ),
                    ..old(sh)@
                })
                &&& r == Ok::<ExecStatus, Error>(ExecStatus::Success)
            }
        }),
{
    match find_var_index(&sh.vars, name) {
        Some(i) => {
            let old_var = sh.vars.remove(i);
            if old_var.attrs & ATT_READONLY == ATT_READONLY {
                sh.vars.insert(i, old_var);
                proof {
                    assert(sh.vars.deep_view() =~= old(sh)@.vars);
                    assert(sh@ =~= old(sh)@);
                }
                let mut m = name.to_owned();
                m.append(": readonly variable");
                return Err(Error::Base(m));
            }
            let new_var = Var {
                name: name.to_owned(),
                value: VarValue::Array(crate::names::clone_names(values)),
                attrs: old_var.attrs | ATT_ARRAY,
            };
            proof {
                lemma_var_bound_at(old(sh)@.vars, new_var@, i as int);
            }
            sh.vars.insert(i, new_var);
            proof {
                assert(sh.vars.deep_view() =~= var_bound(old(sh)@.vars, new_var@));
                assert(sh@ =~= (ShellView { vars: sh.vars.deep_view(), ..old(sh)@ }));
            }
            Ok(ExecStatus::Success)
        },
        None => {
            let new_var = Var {
                name: name.to_owned(),
                value: VarValue::Array(crate::names::clone_names(values)),
                attrs: ATT_ARRAY,
            };
            proof {
                lemma_find_var_none_forall(old(sh)@.vars, name@);
                lemma_var_bound_push(old(sh)@.vars, new_var@);
            }
            sh.vars.push(new_var);
            proof {
                assert(sh.vars.deep_view() =~= var_bound(old(sh)@.vars, new_var@));
                assert(sh@ =~= (ShellView { vars: sh.vars.deep_view(), ..old(sh)@ }));
            }
            Ok(ExecStatus::Success)
        },
    }
}

/// Unbind a variable name.  A readonly variable rejects the unbinding;
/// unbinding a name that is not bound is not an error.
pub fn unbind(sh: &mut Shell, name: &str) -> (r: Result<ExecStatus, Error>)
    ensures
        ({
            let existing = find_var(old(sh)@.vars, name@);
            if found_readonly(existing) {
                &&& final(sh)@ == old(sh)@
                &&& (match r {
                    Err(e) => e@ == ErrorV::Base(name@ + ": cannot unset: readonly variable"@),
                    Ok(_) => false,
                })
            } else {
                &&& final(sh)@ == (ShellView {
                    vars: var_removed(old(sh)@.vars, name@),
                    ..old(sh)@
                })
                &&& r == Ok::<ExecStatus, Error>(ExecStatus::Success)
            }
        }),
{
    match find_var_index(&sh.vars, name) {
        Some(i) => {
            if sh.vars[i].attrs & ATT_READONLY == ATT_READONLY {
                let mut m = name.to_owned();
                m.append(": cannot unset: readonly variable");
                return Err(Error::Base(m));
            }
            proof {
                lemma_var_removed_at(old(sh)@.vars, name@, i as int);
            }
            sh.vars.remove(i);
            proof {
                assert(sh.vars.deep_view() =~= var_removed(old(sh)@.vars, name@));
                assert(sh@ =~= (ShellView { vars: sh.vars.deep_view(), ..old(sh)@ }));
            }
            Ok(ExecStatus::Success)
        },
        None => {
            proof {
                lemma_find_var_none_forall(old(sh)@.vars, name@);
                lemma_var_removed_none(old(sh)@.vars, name@);
                assert(sh@ =~= (ShellView { vars: var_removed(old(sh)@.vars, name@), ..old(
                    sh,
                )@ }));
            }
            Ok(ExecStatus::Success)
        },
    }
}

/// The whitespace-separated fields of a variable's raw string value.
pub open spec fn string_fields(s: Seq<char>) -> Seq<Seq<char>> {
    nonempty_fields(split_on(s, ' '))
}

/// Get the string value of a given variable name split into fields on the
/// default separator.
pub fn string_vec(sh: &Shell, name: &str) -> (r: Result<Vec<String>, Error>)
    ensures
        match (r, string_value_spec(sh@.vars, name@)) {
            (Ok(fields), Some(s)) => fields.deep_view() == string_fields(s),
            (Err(e), None) => e@ == ErrorV::Base("undefined variable: "@ + name@),
            _ => false,
        },
{
    match string_value(sh, name) {
        None => {
            let mut m = "undefined variable: ".to_owned();
            m.append(name);
            Err(Error::Base(m))
        },
        Some(s) => {
            let parts = split_str(s.as_str(), ' ');
            Ok(filter_nonempty(&parts))
        },
    }
}

/// The element sequence an array-attributed variable holds.
pub open spec fn array_fields(v: ValueV) -> Seq<Seq<char>> {
    match v {
        ValueV::Array(a) => a,
        ValueV::Scalar(s) => seq![s],
    }
}

/// Get the value of an array for a given variable name; an unbound name or
/// one without the array attribute is an error.
pub fn array_to_vec(sh: &Shell, name: &str) -> (r: Result<Vec<String>, Error>)
    ensures
        match find_var(sh@.vars, name@) {
            None => (match r {
                Err(e) => e@ == ErrorV::Base("undefined variable: "@ + name@),
                Ok(_) => false,
            }),
            Some(v) => if v.is_array() {
                match r {
                    Ok(fields) => fields.deep_view() == array_fields(v.value),
                    Err(_) => false,
                }
            } else {
                match r {
                    Err(e) => e@ == ErrorV::Base("variable is not an array: "@ + name@),
                    Ok(_) => false,
                }
            },
        },
{
    match find_var_index(&sh.vars, name) {
        None => {
            let mut m = "undefined variable: ".to_owned();
            m.append(name);
            Err(Error::Base(m))
        },
        Some(i) => {
            let v = &sh.vars[i];
            if v.attrs & ATT_ARRAY == ATT_ARRAY {
                match &v.value {
                    VarValue::Array(a) => Ok(crate::names::clone_names(a)),
                    VarValue::Scalar(s) => {
                        let mut one: Vec<String> = Vec::new();
                        one.push(s.clone());
                        proof {
                            assert(one.deep_view() =~= seq![s@]);
                        }
                        Ok(one)
                    },
                }
            } else {
                let mut m = "variable is not an array: ".to_owned();
                m.append(name);
                Err(Error::Base(m))
            }
        },
    }
}

/// Get the value of a given variable name as a vector: an array's elements,
/// or a scalar's whitespace-separated fields.
pub fn var_to_vec(sh: &Shell, name: &str) -> (r: Result<Vec<String>, Error>)
    ensures
        match find_var(sh@.vars, name@) {
            Some(v) => if v.is_array() {
                match r {
                    Ok(fields) => fields.deep_view() == array_fields(v.value),
                    Err(_) => false,
                }
            } else {
                match (r, string_value_spec(sh@.vars, name@)) {
                    (Ok(fields), Some(s)) => fields.deep_view() == string_fields(s),
                    (Err(e), None) => e@ == ErrorV::Base("undefined variable: "@ + name@),
                    _ => false,
                }
            },
            None => (match r {
                Err(e) => e@ == ErrorV::Base("undefined variable: "@ + name@),
                Ok(_) => false,
            }),
        },
{
    let is_array = match find_var_index(&sh.vars, name) {
        Some(i) => sh.vars[i].attrs & ATT_ARRAY == ATT_ARRAY,
        None => false,
    };
    if is_array {
        array_to_vec(sh, name)
    } else {
        string_vec(sh, name)
    }
}

/// A handle on one interpreter variable, addressed by name.
impl Var {
    /// The variable's name.
    pub fn name(&self) -> (r: &str)
        ensures
            r@ == self@.name,
    {
        self.name.as_str()
    }
}

/// A named variable of the interpreter, used to read and write its binding.
#[derive(Debug)]
pub struct Variable {
    pub name: String,
}

impl Variable {
    /// A handle on the variable called `name`.
    pub fn new(name: &str) -> (r: Variable)
        ensures
            r.name@ == name@,
    {
        Variable { name: name.to_owned() }
    }

    /// The variable's name.
    pub fn name(&self) -> (r: &str)
        ensures
            r@ == self.name@,
    {
        self.name.as_str()
    }

    /// The variable's raw string value.
    pub fn string_value(&self, sh: &Shell) -> (r: Option<String>)
        ensures
            r.deep_view() == string_value_spec(sh@.vars, self.name@),
    {
        string_value(sh, self.name.as_str())
    }

    /// Bind a value to the variable.
    pub fn bind(&mut self, sh: &mut Shell, value: &str, flags: Option<u32>, attrs: Option<u32>) -> (r:
        Result<ExecStatus, Error>)
        ensures
            *final(self) == *old(self),
            ({
                let existing = find_var(old(sh)@.vars, old(self).name@);
                if found_readonly(existing) {
                    &&& final(sh)@ == old(sh)@
                    &&& (match r {
                        Err(e) => e@ == ErrorV::Base(old(self).name@ + ": readonly variable"@),
                        Ok(_) => false,
                    })
                } else {
                    &&& final(sh)@ == (ShellView {
                        vars: var_bound(
                            old(sh)@.vars,
                            (VarV {
                                name: old(self).name@,
                                value: bound_value(existing, value@, or_zero(flags)),
                                attrs: bound_attrs(existing, or_zero(attrs)),
                            }),
                        ),
                        ..old(sh)@
                    })
                    &&& r == Ok::<ExecStatus, Error>(ExecStatus::Success)
                }
            }),
    {
        bind(sh, self.name.as_str(), value, flags, attrs)
    }

    /// Append to the variable's value.
    pub fn append(&mut self, sh: &mut Shell, value: &str) -> (r: Result<ExecStatus, Error>)
        ensures
            *final(self) == *old(self),
            ({
                let existing = find_var(old(sh)@.vars, old(self).name@);
                if found_readonly(existing) {
                    &&& final(sh)@ == old(sh)@
                    &&& (match r {
                        Err(e) => e@ == ErrorV::Base(old(self).name@ + ": readonly variable"@),
                        Ok(_) => false,
                    })
                } else {
                    &&& final(sh)@ == (ShellView {
                        vars: var_bound(
                            old(sh)@.vars,
                            (VarV {
                                name: old(self).name@,
                                value: bound_value(existing, value@, ASS_APPEND),
                                attrs: bound_attrs(existing, 0),
                            }),
                        ),
                        ..old(sh)@
                    })
                    &&& r == Ok::<ExecStatus, Error>(ExecStatus::Success)
                }
            }),
    {
        bind(sh, self.name.as_str(), value, Some(ASS_APPEND), None)
    }

    /// Unbind the variable.
    pub fn unbind(&mut self, sh: &mut Shell) -> (r: Result<ExecStatus, Error>)
        ensures
            *final(self) == *old(self),
            ({
                let existing = find_var(old(sh)@.vars, old(self).name@);
                if found_readonly(existing) {
                    &&& final(sh)@ == old(sh)@
                    &&& (match r {
                        Err(e) => e@ == ErrorV::Base(
                            old(self).name@ + ": cannot unset: readonly variable"@,
                        ),
                        Ok(_) => false,
                    })
                } else {
                    &&& final(sh)@ == (ShellView {
                        vars: var_removed(old(sh)@.vars, old(self).name@),
                        ..old(sh)@
                    })
                    &&& r == Ok::<ExecStatus, Error>(ExecStatus::Success)
                }
            }),
    {
        unbind(sh, self.name.as_str())
    }

    /// Whether the variable currently carries the array attribute.
    pub fn is_array(&self, sh: &Shell) -> (r: bool)
        ensures
            r == match find_var(sh@.vars, self.name@) {
                Some(v) => v.is_array(),
                None => false,
            },
    {
        match find_var_index(&sh.vars, self.name.as_str()) {
            Some(i) => sh.vars[i].attrs & ATT_ARRAY == ATT_ARRAY,
            None => false,
        }
    }

    /// Whether the variable currently carries the readonly attribute.
    pub fn is_readonly(&self, sh: &Shell) -> (r: bool)
        ensures
            r == found_readonly(find_var(sh@.vars, self.name@)),
    {
        match find_var_index(&sh.vars, self.name.as_str()) {
            Some(i) => sh.vars[i].attrs & ATT_READONLY == ATT_READONLY,
            None => false,
        }
    }
}

/// A variable that resets itself to its original value when its scope ends.
#[derive(Debug)]
pub struct ScopedVariable {
    pub var: Variable,
    pub orig: Option<String>,
}

impl ScopedVariable {
    /// Snapshot the variable's current value so the scope-exit reversion can
    /// restore it.
    pub fn new(sh: &Shell, name: &str) -> (r: ScopedVariable)
        ensures
            r.var.name@ == name@,
            r.orig.deep_view() == string_value_spec(sh@.vars, name@),
    {
        let var = Variable::new(name);
        let orig = string_value(sh, name);
        ScopedVariable { var, orig }
    }

    /// The variable's name.
    pub fn name(&self) -> (r: &str)
        ensures
            r@ == self.var.name@,
    {
        self.var.name.as_str()
    }

    /// The variable's current raw string value.
    pub fn string_value(&self, sh: &Shell) -> (r: Option<String>)
        ensures
            r.deep_view() == string_value_spec(sh@.vars, self.var.name@),
    {
        string_value(sh, self.var.name.as_str())
    }

    /// Bind a value to the variable.
    pub fn bind(&mut self, sh: &mut Shell, value: &str, flags: Option<u32>, attrs: Option<u32>) -> (r:
        Result<ExecStatus, Error>)
        ensures
            *final(self) == *old(self),
            ({
                let existing = find_var(old(sh)@.vars, old(self).var.name@);
                if found_readonly(existing) {
                    &&& final(sh)@ == old(sh)@
                    &&& (match r {
                        Err(e) => e@ == ErrorV::Base(old(self).var.name@ + ": readonly variable"@),
                        Ok(_) => false,
                    })
                } else {
                    &&& final(sh)@ == (ShellView {
                        vars: var_bound(
                            old(sh)@.vars,
                            (VarV {
                                name: old(self).var.name@,
                                value: bound_value(existing, value@, or_zero(flags)),
                                attrs: bound_attrs(existing, or_zero(attrs)),
                            }),
                        ),
                        ..old(sh)@
                    })
                    &&& r == Ok::<ExecStatus, Error>(ExecStatus::Success)
                }
            }),
    {
        bind(sh, self.var.name.as_str(), value, flags, attrs)
    }

    /// The scope-exit reversion: rebind the snapshotted original value, or
    /// unbind the variable if it was originally unbound.  A reversion that
    /// the variable table would reject means the interpreter state has
    /// drifted out from under the guard, which the requirement excludes.
    pub fn restore(self, sh: &mut Shell)
        requires
            string_value_spec(old(sh)@.vars, self.var.name@) != self.orig.deep_view()
                ==> !found_readonly(find_var(old(sh)@.vars, self.var.name@)),
        ensures
            ({
                let n = self.var.name@;
                if string_value_spec(old(sh)@.vars, n) == self.orig.deep_view() {
                    final(sh)@ == old(sh)@
                } else {
                    match self.orig.deep_view() {
                        Some(v) => final(sh)@ == (ShellView {
                            vars: var_bound(
                                old(sh)@.vars,
                                (VarV {
                                    name: n,
                                    value: bound_value(find_var(old(sh)@.vars, n), v, 0),
                                    attrs: bound_attrs(find_var(old(sh)@.vars, n), 0),
                                }),
                            ),
                            ..old(sh)@
                        }),
                        None => final(sh)@ == (ShellView {
                            vars: var_removed(old(sh)@.vars, n),
                            ..old(sh)@
                        }),
                    }
                }
            }),
    {
        let ScopedVariable { var, orig } = self;
        let current = string_value(sh, var.name.as_str());
        let differs = match (&current, &orig) {
            (Some(a), Some(b)) => !a.eq(b),
            (None, None) => false,
            _ => true,
        };
        if differs {
            match orig {
                Some(v) => {
                    let r = bind(sh, var.name.as_str(), v.as_str(), None, None);
                    proof {
                        assert(r is Ok);
                    }
                },
                None => {
                    let r = unbind(sh, var.name.as_str());
                    proof {
                        assert(r is Ok);
                    }
                },
            }
        }
    }
}

} // verus!