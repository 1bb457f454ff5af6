//! The template manifest: name, description, an ordered sequence of typed
//! variable declarations, an ordered sequence of conditional rules, and
//! optional post-create hook commands. Variable values are resolved by
//! merging, in ascending precedence, the manifest default, the global-config
//! default, and the explicitly supplied value.

use vstd::prelude::*;

use crate::assignment::Assignment;
use crate::bytes::{clone_bytes, eq_bytes};
use crate::cond::Conditional;

verus! {

/// A declared template variable.
pub struct Variable {
    /// Unique key, used as the substitution token.
    pub name: Vec<u8>,
    /// Prompt text shown when a value is asked for.
    pub description: Vec<u8>,
    /// Default value, if the manifest gives one.
    pub default: Option<Vec<u8>>,
    /// Declared type: `string` when absent, else `bool` or `choice`.
    pub var_type: Option<Vec<u8>>,
    /// The alternatives of a `choice` variable.
    pub choices: Vec<Vec<u8>>,
}

/// Commands run after a successful render, in order, in the output directory.
#[derive(Default)]
pub struct HooksConfig {
    /// The post-create command lines.
    pub post_create: Vec<Vec<u8>>,
}

/// A parsed template manifest.
pub struct TemplateConfig {
    /// Display name of the template.
    pub name: Vec<u8>,
    /// One-line description.
    pub description: Vec<u8>,
    /// Declared variables, in manifest order.
    pub variables: Vec<Variable>,
    /// Conditional rules, in manifest order.
    pub conditionals: Vec<Conditional>,
    /// Post-create hooks, if any.
    pub hooks: Option<HooksConfig>,
}

/// The bytes of the type label `bool`.
pub open spec fn bool_label() -> Seq<u8> {
    seq![('b' as u8), ('o' as u8), ('o' as u8), ('l' as u8)]
}

/// The bytes of the type label `choice`.
pub open spec fn choice_label() -> Seq<u8> {
    seq![('c' as u8), ('h' as u8), ('o' as u8), ('i' as u8), ('c' as u8), ('e' as u8)]
}

/// The bytes of the fallback value `false`.
pub open spec fn false_value() -> Seq<u8> {
    seq![('f' as u8), ('a' as u8), ('l' as u8), ('s' as u8), ('e' as u8)]
}

pub(crate) fn lit_bool_label() -> (v: Vec<u8>)
    ensures
        v@ == bool_label(),
{
    let mut v: Vec<u8> = Vec::new();
    v.push('b' as u8);
    v.push('o' as u8);
    v.push('o' as u8);
    v.push('l' as u8);
    proof {
        assert(v@ =~= bool_label());
    }
    v
}

pub(crate) fn lit_choice_label() -> (v: Vec<u8>)
    ensures
        v@ == choice_label(),
{
    let mut v: Vec<u8> = Vec::new();
    v.push('c' as u8);
    v.push('h' as u8);
    v.push('o' as u8);
    v.push('i' as u8);
    v.push('c' as u8);
    v.push('e' as u8);
    proof {
        assert(v@ =~= choice_label());
    }
    v
}

pub(crate) fn lit_false_value() -> (v: Vec<u8>)
    ensures
        v@ == false_value(),
{
    let mut v: Vec<u8> = Vec::new();
    v.push('f' as u8);
    v.push('a' as u8);
    v.push('l' as u8);
    v.push('s' as u8);
    v.push('e' as u8);
    proof {
        assert(v@ =~= false_value());
    }
    v
}

/// Is the variable declared with the given type label?
pub open spec fn var_has_type(v: Variable, lbl: Seq<u8>) -> bool {
    match v.var_type {
        Some(t) => t@ == lbl,
        None => false,
    }
}

/// The default that applies to a variable. Precedence ascends from the
/// manifest to the user's saved settings: a global-config default, when one
/// is saved under the variable's name, overrides the manifest default.
pub open spec fn effective_default_spec(v: Variable, g: Map<Seq<u8>, Seq<u8>>) -> Option<
    Seq<u8>,
> {
    if g.contains_key(v.name@) {
        Some(g[v.name@])
    } else {
        match v.default {
            Some(d) => Some(d@),
            None => None,
        }
    }
}

/// The value a variable takes when no one is asked: its effective default,
/// else `false` for a `bool`, the first alternative for a `choice`, and the
/// empty string otherwise.
pub open spec fn default_value_spec(v: Variable, g: Map<Seq<u8>, Seq<u8>>) -> Seq<u8> {
    match effective_default_spec(v, g) {
        Some(d) => d,
        None => if var_has_type(v, bool_label()) {
            false_value()
        } else if var_has_type(v, choice_label()) {
            if v.choices@.len() > 0 {
                v.choices@[0]@
            } else {
                Seq::empty()
            }
        } else {
            Seq::empty()
        },
    }
}

/// The assignment after resolving the declared variables left to right over
/// the already-bound values `acc`: a variable already bound keeps its value,
/// any other is bound to its default value.
pub open spec fn resolve_spec(
    vs: Seq<Variable>,
    g: Map<Seq<u8>, Seq<u8>>,
    acc: Map<Seq<u8>, Seq<u8>>,
) -> Map<Seq<u8>, Seq<u8>>
    decreases vs.len(),
{
    if vs.len() == 0 {
        acc
    } else {
        let acc2 = if acc.contains_key(vs[0].name@) {
            acc
        } else {
            acc.insert(vs[0].name@, default_value_spec(vs[0], g))
        };
        resolve_spec(vs.skip(1), g, acc2)
    }
}

/// The resolved assignment binds a name exactly when it was supplied or
/// declared.
pub proof fn lemma_resolve_domain(
    vs: Seq<Variable>,
    g: Map<Seq<u8>, Seq<u8>>,
    acc: Map<Seq<u8>, Seq<u8>>,
    k: Seq<u8>,
)
    ensures
        resolve_spec(vs, g, acc).contains_key(k) <==> (acc.contains_key(k) || exists|i: int|
            0 <= i < vs.len() && vs[i].name@ == k),
    decreases vs.len(),
{
    if vs.len() > 0 {
        let acc2 = if acc.contains_key(vs[0].name@) {
            acc
        } else {
            acc.insert(vs[0].name@, default_value_spec(vs[0], g))
        };
        lemma_resolve_domain(vs.skip(1), g, acc2, k);
        if k == vs[0].name@ {
            assert(vs[0].name@ == k && 0 < vs.len());
        }
        assert(forall|i: int|
            0 <= i < vs.skip(1).len() ==> vs.skip(1)[i] == vs[i + 1]);
        if exists|i: int| 0 <= i < vs.len() && vs[i].name@ == k {
            let i = choose|i: int| 0 <= i < vs.len() && vs[i].name@ == k;
            if i > 0 {
                assert(vs.skip(1)[i - 1].name@ == k);
            }
        }
    }
}

/// The default that applies to `var`: the saved global default for its name
/// when there is one, else the manifest default.
pub fn effective_default(var: &Variable, global: &Assignment) -> (r: Option<Vec<u8>>)
    requires
        global.wf(),
    ensures
        match r {
            Some(d) => effective_default_spec(*var, global@) == Some(d@),
            None => effective_default_spec(*var, global@) is None,
        },
{
    match global.get(&var.name) {
        Some(g) => Some(clone_bytes(g)),
        None => match &var.default {
            Some(d) => Some(clone_bytes(d)),
            None => None,
        },
    }
}

/// The value `var` takes when prompts are skipped.
pub fn default_value(var: &Variable, global: &Assignment) -> (r: Vec<u8>)
    requires
        global.wf(),
    ensures
        r@ == default_value_spec(*var, global@),
{
    match effective_default(var, global) {
        Some(d) => d,
        None => {
            let is_bool = match &var.var_type {
                Some(t) => {
                    let lbl = lit_bool_label();
                    eq_bytes(t, &lbl)
                },
                None => false,
            };
            if is_bool {
                lit_false_value()
            } else {
                let is_choice = match &var.var_type {
                    Some(t) => {
                        let lbl = lit_choice_label();
                        eq_bytes(t, &lbl)
                    },
                    None => false,
                };
                if is_choice {
                    if var.choices.len() > 0 {
                        clone_bytes(&var.choices[0])
                    } else {
                        let v: Vec<u8> = Vec::new();
                        proof {
                            assert(v@ =~= Seq::<u8>::empty());
                        }
                        v
                    }
                } else {
                    let v: Vec<u8> = Vec::new();
                    proof {
                        assert(v@ =~= Seq::<u8>::empty());
                    }
                    v
                }
            }
        },
    }
}

/// Resolve every declared variable over the explicitly supplied values:
/// supplied values win, then manifest defaults, then global defaults, then
/// the per-type fallback. The first declaration of a name decides.
pub fn resolve_variables(variables: &Vec<Variable>, global: &Assignment, supplied: Assignment)
    -> (a: Assignment)
    requires
        global.wf(),
        supplied.wf(),
    ensures
        a.wf(),
        a@ == resolve_spec(variables@, global@, supplied@),
{
    let ghost g = global@;
    let ghost acc0 = supplied@;
    let mut a = supplied;
    let mut i: usize = 0;
    proof {
        assert(variables@.skip(0) =~= variables@);
    }
    while i < variables.len()
        invariant
            i <= variables@.len(),
            global.wf(),
            a.wf(),
            g == global@,
            resolve_spec(variables@, g, acc0) == resolve_spec(variables@.skip(i as int), g, a@),
        decreases variables@.len() - i,
    {
        let ghost t = variables@.skip(i as int);
        proof {
            assert(t[0] == variables@[i as int]);
            assert(t.skip(1) =~= variables@.skip(i as int + 1));
        }
        if !a.contains_key(&variables[i].name) {
            let value = default_value(&variables[i], global);
            let name = clone_bytes(&variables[i].name);
            a.insert(name, value);
        }
        i += 1;
    }
    proof {
        assert(variables@.skip(variables@.len() as int).len() == 0);
    }
    a
}

} // verus!
