//! Validation of a loaded manifest and of a template tree: a conditional rule
//! must name exactly one of its two paths, a `choice` variable must offer at
//! least one choice, variable names must be unique, and the `{{...}}` tokens
//! used across the tree can be collected and compared with the declared
//! variable names.

use vstd::prelude::*;

use crate::bytes::{clone_bytes, contains_name, name_in, sub_vec};
use crate::cond::Conditional;
use crate::manifest::{TemplateConfig, Variable, choice_label, var_has_type};
use crate::subst::{has_token, token_ident, token_len, try_token};

verus! {

/// A defect that makes a manifest malformed.
#[derive(Clone, Copy, Debug, PartialEq, Eq, Structural)]
pub enum ManifestError {
    /// A conditional rule names neither path.
    ConditionalWithoutPath,
    /// A conditional rule names both paths.
    ConditionalBothPaths,
    /// A `choice` variable declares no choices.
    ChoiceWithoutChoices,
    /// Two variables share a name.
    DuplicateVariableName,
}

/// The defect of one conditional rule, if any.
pub open spec fn cond_issue(c: Conditional) -> Option<ManifestError> {
    if c.include_path is None && c.exclude_path is None {
        Some(ManifestError::ConditionalWithoutPath)
    } else if c.include_path is Some && c.exclude_path is Some {
        Some(ManifestError::ConditionalBothPaths)
    } else {
        None
    }
}

/// The first defective conditional's defect.
pub open spec fn first_cond_issue(cs: Seq<Conditional>) -> Option<ManifestError>
    decreases cs.len(),
{
    if cs.len() == 0 {
        None
    } else if cond_issue(cs[0]) is Some {
        cond_issue(cs[0])
    } else {
        first_cond_issue(cs.skip(1))
    }
}

/// The defect of one variable declaration, if any.
pub open spec fn var_issue(v: Variable) -> Option<ManifestError> {
    if var_has_type(v, choice_label()) && v.choices@.len() == 0 {
        Some(ManifestError::ChoiceWithoutChoices)
    } else {
        None
    }
}

/// The first defective variable's defect.
pub open spec fn first_var_issue(vs: Seq<Variable>) -> Option<ManifestError>
    decreases vs.len(),
{
    if vs.len() == 0 {
        None
    } else if var_issue(vs[0]) is Some {
        var_issue(vs[0])
    } else {
        first_var_issue(vs.skip(1))
    }
}

/// Two declarations share a name.
pub open spec fn has_duplicate_names(vs: Seq<Variable>) -> bool {
    exists|i: int, j: int| 0 <= i < j < vs.len() && vs[i].name@ == vs[j].name@
}

/// The manifest's defect, checked rule by rule, then variable by variable,
/// then for duplicate names.
pub open spec fn manifest_issue(c: TemplateConfig) -> Option<ManifestError> {
    if first_cond_issue(c.conditionals@) is Some {
        first_cond_issue(c.conditionals@)
    } else if first_var_issue(c.variables@) is Some {
        first_var_issue(c.variables@)
    } else if has_duplicate_names(c.variables@) {
        Some(ManifestError::DuplicateVariableName)
    } else {
        None
    }
}

/// Validate a manifest: every conditional rule names exactly one path, every
/// `choice` variable has at least one choice, and no variable name repeats.
pub fn validate_config(config: &TemplateConfig) -> (r: Result<(), ManifestError>)
    ensures
        match r {
            Ok(()) => manifest_issue(*config) is None,
            Err(e) => manifest_issue(*config) == Some(e),
        },
{
    let mut i: usize = 0;
    proof {
        assert(config.conditionals@.skip(0) =~= config.conditionals@);
    }
    while i < config.conditionals.len()
        invariant
            i <= config.conditionals@.len(),
            first_cond_issue(config.conditionals@) == first_cond_issue(
                config.conditionals@.skip(i as int),
            ),
        decreases config.conditionals@.len() - i,
    {
        let ghost t = config.conditionals@.skip(i as int);
        proof {
            assert(t[0] == config.conditionals@[i as int]);
            assert(t.skip(1) =~= config.conditionals@.skip(i as int + 1));
        }
        let has_inc = match &config.conditionals[i].include_path {
            Some(_) => true,
            None => false,
        };
        let has_exc = match &config.conditionals[i].exclude_path {
            Some(_) => true,
            None => false,
        };
        if !has_inc && !has_exc {
            return Err(ManifestError::ConditionalWithoutPath);
        }
        if has_inc && has_exc {
            return Err(ManifestError::ConditionalBothPaths);
        }
        i += 1;
    }
    proof {
        assert(config.conditionals@.skip(config.conditionals@.len() as int).len() == 0);
    }
    let mut k: usize = 0;
    proof {
        assert(config.variables@.skip(0) =~= config.variables@);
    }
    while k < config.variables.len()
        invariant
            k <= config.variables@.len(),
            first_cond_issue(config.conditionals@) is None,
            first_var_issue(config.variables@) == first_var_issue(
                config.variables@.skip(k as int),
            ),
        decreases config.variables@.len() - k,
    {
        let ghost t = config.variables@.skip(k as int);
        proof {
            assert(t[0] == config.variables@[k as int]);
            assert(t.skip(1) =~= config.variables@.skip(k as int + 1));
        }
        let is_choice = match &config.variables[k].var_type {
            Some(ty) => {
                let lbl = crate::manifest::lit_choice_label();
                crate::bytes::eq_bytes(ty, &lbl)
            },
            None => false,
        };
        if is_choice && config.variables[k].choices.len() == 0 {
            return Err(ManifestError::ChoiceWithoutChoices);
        }
        k += 1;
    }
    proof {
        assert(config.variables@.skip(config.variables@.len() as int).len() == 0);
    }
    let n = config.variables.len();
    let mut a: usize = 0;
    while a < n
        invariant
            a <= n == config.variables@.len(),
            first_cond_issue(config.conditionals@) is None,
            first_var_issue(config.variables@) is None,
            forall|x: int, y: int|
                0 <= x < y < n && x < a ==> config.variables@[x].name@
                    != config.variables@[y].name@,
        decreases n - a,
    {
        let mut b: usize = a + 1;
        while b < n
            invariant
                a < b <= n == config.variables@.len(),
                first_cond_issue(config.conditionals@) is None,
                first_var_issue(config.variables@) is None,
                forall|y: int|
                    a < y < b ==> config.variables@[a as int].name@
                        != config.variables@[y].name@,
            decreases n - b,
        {
            if crate::bytes::eq_bytes(&config.variables[a].name, &config.variables[b].name) {
                proof {
                    assert(config.variables@[a as int].name@ == config.variables@[b as int].name@);
                }
                return Err(ManifestError::DuplicateVariableName);
            }
            b += 1;
        }
        a += 1;
    }
    proof {
        assert(!has_duplicate_names(config.variables@));
    }
    Ok(())
}

/// The identifiers of all tokens occurring in `t`, under the one-pass scan.
pub open spec fn idents_of(t: Seq<u8>) -> Set<Seq<u8>>
    decreases t.len(),
{
    if t.len() == 0 {
        Set::empty()
    } else if has_token(t) {
        idents_of(t.skip(token_len(t))).insert(token_ident(t))
    } else {
        idents_of(t.skip(1))
    }
}

/// The set of names in a list.
pub open spec fn names_of(s: Seq<Vec<u8>>) -> Set<Seq<u8>> {
    Set::new(|n: Seq<u8>| name_in(s, n))
}

/// Collect the identifiers of every `{{...}}` token in `text`, for checking
/// which variables a template uses.
pub fn find_tokens(text: &Vec<u8>) -> (out: Vec<Vec<u8>>)
    ensures
        names_of(out@) == idents_of(text@),
{
    let mut out: Vec<Vec<u8>> = Vec::new();
    let mut i: usize = 0;
    proof {
        assert(text@.skip(0) =~= text@);
        assert(names_of(out@).union(idents_of(text@)) =~= idents_of(text@));
    }
    while i < text.len()
        invariant
            i <= text@.len(),
            idents_of(text@) == names_of(out@).union(idents_of(text@.skip(i as int))),
        decreases text@.len() - i,
    {
        let ghost t = text@.skip(i as int);
        let ghost out0 = out@;
        match try_token(text, i) {
            Some((ws, we, end)) => {
                let ident = sub_vec(text, ws, we);
                proof {
                    assert(ident@ =~= token_ident(t));
                    assert(t.skip(token_len(t)) =~= text@.skip(end as int));
                }
                out.push(ident);
                proof {
                    assert(forall|x: Seq<u8>|
                        #![trigger name_in(out@, x)]
                        #![trigger name_in(out0, x)]
                        name_in(out@, x) <==> (name_in(out0, x) || x == token_ident(t))) by {
                        assert(forall|j: int| 0 <= j < out0.len() ==> out@[j] == out0[j]);
                        assert(out@[out0.len() as int]@ == token_ident(t));
                        assert(forall|x: Seq<u8>| #[trigger] name_in(out@, x) && x
                            != token_ident(t) ==> name_in(out0, x)) by {
                            assert(forall|j: int| 0 <= j < out0.len() ==> out@[j] == out0[j]);
                        }
                    }
                    assert(idents_of(text@.skip(end as int)) == idents_of(
                        t.skip(token_len(t)),
                    ));
                    assert(idents_of(t) == idents_of(t.skip(token_len(t))).insert(
                        token_ident(t),
                    ));
                    assert(names_of(out@) =~= names_of(out0).insert(token_ident(t)));
                    assert(names_of(out@).union(idents_of(text@.skip(end as int)))
                        =~= names_of(out0).union(idents_of(t)));
                }
                i = end;
            },
            None => {
                proof {
                    assert(t.skip(1) =~= text@.skip(i as int + 1));
                }
                i += 1;
            },
        }
    }
    proof {
        assert(idents_of(text@.skip(i as int)) =~= Set::<Seq<u8>>::empty());
        assert(names_of(out@).union(idents_of(text@.skip(i as int))) =~= names_of(out@));
    }
    out
}

/// The names of `a` that are missing from `b`: used both for variables that
/// are used in the tree but not declared, and for variables that are declared
/// but never used.
pub fn missing_from(a: &Vec<Vec<u8>>, b: &Vec<Vec<u8>>) -> (out: Vec<Vec<u8>>)
    ensures
        forall|n: Seq<u8>| #[trigger] name_in(out@, n) <==> (name_in(a@, n) && !name_in(b@, n)),
{
    let mut out: Vec<Vec<u8>> = Vec::new();
    let mut i: usize = 0;
    while i < a.len()
        invariant
            i <= a@.len(),
            forall|n: Seq<u8>| #[trigger] name_in(out@, n) <==> (name_in(a@.take(i as int), n)
                && !name_in(b@, n)),
        decreases a@.len() - i,
    {
        let ghost out0 = out@;
        let ghost pre = a@.take(i as int);
        let ghost post = a@.take(i as int + 1);
        proof {
            assert(forall|j: int| 0 <= j < pre.len() ==> post[j] == pre[j]);
            assert(post[i as int] == a@[i as int]);
            assert(forall|n: Seq<u8>| #[trigger] name_in(post, n) <==> (name_in(pre, n) || n
                == a@[i as int]@)) by {
                assert(forall|n: Seq<u8>| name_in(pre, n) ==> #[trigger] name_in(post, n));
                assert(post[i as int]@ == a@[i as int]@);
                assert(forall|n: Seq<u8>| #[trigger] name_in(post, n) && n != a@[i as int]@
                    ==> name_in(pre, n));
            }
        }
        if !contains_name(b, &a[i]) {
            out.push(clone_bytes(&a[i]));
            proof {
                assert(forall|n: Seq<u8>| #[trigger] name_in(out@, n) <==> (name_in(out0, n)
                    || n == a@[i as int]@)) by {
                    assert(forall|j: int| 0 <= j < out0.len() ==> out@[j] == out0[j]);
                    assert(out@[out0.len() as int]@ == a@[i as int]@);
                    assert(forall|n: Seq<u8>| #[trigger] name_in(out@, n) && n != a@[i as int]@
                        ==> name_in(out0, n));
                }
            }
        }
        i += 1;
    }
    proof {
        assert(a@.take(a@.len() as int) =~= a@);
    }
    out
}

} // verus!
