//! The conditional-rule language: a rule names a path and a `when`
//! expression of the form `identifier == literal`, where the literal is a
//! single- or double-quoted string or a bare word. A missing variable never
//! errs: the expression is simply false. A keep-rule excludes its path
//! when the expression is false, a drop-rule excludes its path when the
//! expression is true, and the exclusion set is the union over all rules.

use vstd::prelude::*;

use crate::assignment::Assignment;
use crate::bytes::{clone_bytes, eq_bytes, name_in, sub_vec};
use crate::subst::{scan_spaces, scan_words, space_run, word_run, lemma_space_run_le,
    lemma_word_run_le};

verus! {

/// Quote bytes: double quote and single quote.
pub open spec fn is_quote_byte(b: u8) -> bool {
    b == 34u8 || b == 39u8
}

/// Executable check for [`is_quote_byte`].
pub fn quote_byte(b: u8) -> (r: bool)
    ensures
        r == is_quote_byte(b),
{
    b == 34u8 || b == 39u8
}

/// Length of the run of non-quote bytes at the start of `s`.
pub open spec fn nonquote_run(s: Seq<u8>) -> nat
    decreases s.len(),
{
    if s.len() > 0 && !is_quote_byte(s[0]) {
        nonquote_run(s.skip(1)) + 1
    } else {
        0
    }
}

pub proof fn lemma_nonquote_run_le(s: Seq<u8>)
    ensures
        nonquote_run(s) <= s.len(),
    decreases s.len(),
{
    if s.len() > 0 && !is_quote_byte(s[0]) {
        lemma_nonquote_run_le(s.skip(1));
    }
}

/// Scan the non-quote run that starts at `from`.
fn scan_nonquotes(text: &Vec<u8>, from: usize) -> (j: usize)
    requires
        from <= text@.len(),
    ensures
        from <= j <= text@.len(),
        j - from == nonquote_run(text@.skip(from as int)),
        j == text@.len() || is_quote_byte(text@[j as int]),
{
    let mut j: usize = from;
    while j < text.len() && !quote_byte(text[j])
        invariant
            from <= j <= text@.len(),
            nonquote_run(text@.skip(from as int)) == j - from + nonquote_run(
                text@.skip(j as int),
            ),
        decreases text@.len() - j,
    {
        proof {
            assert(text@.skip(j as int).len() > 0);
            assert(text@.skip(j as int)[0] == text@[j as int]);
            assert(text@.skip(j as int).skip(1) =~= text@.skip(j as int + 1));
        }
        j += 1;
    }
    proof {
        if j < text@.len() {
            assert(text@.skip(j as int)[0] == text@[j as int]);
        }
        assert(nonquote_run(text@.skip(j as int)) == 0);
    }
    j
}

/// Parse of a `when` expression: `Some((identifier, literal))` when `s` is
/// `ws* identifier ws* == ws* literal ws*` with a quoted or bare literal.
pub open spec fn cond_parse(s: Seq<u8>) -> Option<(Seq<u8>, Seq<u8>)> {
    let a = space_run(s) as int;
    let q = word_run(s.skip(a)) as int;
    let b = space_run(s.skip(a + q)) as int;
    let e0 = a + q + b;
    if q == 0 || e0 + 2 > s.len() || s[e0] != ('=' as u8) || s[e0 + 1] != ('=' as u8) {
        None
    } else {
        let c = space_run(s.skip(e0 + 2)) as int;
        let d = e0 + 2 + c;
        if d >= s.len() {
            None
        } else if is_quote_byte(s[d]) {
            let e = nonquote_run(s.skip(d + 1)) as int;
            if e == 0 || d + 2 + e > s.len() || !is_quote_byte(s[d + 1 + e]) {
                None
            } else {
                let f = space_run(s.skip(d + 2 + e)) as int;
                if d + 2 + e + f == s.len() {
                    Some((s.subrange(a, a + q), s.subrange(d + 1, d + 1 + e)))
                } else {
                    None
                }
            }
        } else {
            let g = word_run(s.skip(d)) as int;
            if g == 0 {
                None
            } else {
                let f = space_run(s.skip(d + g)) as int;
                if d + g + f == s.len() {
                    Some((s.subrange(a, a + q), s.subrange(d, d + g)))
                } else {
                    None
                }
            }
        }
    }
}

/// Value of a `when` expression under an assignment: false when the expression
/// does not parse or the identifier is unbound, otherwise the comparison of
/// the bound value with the literal.
pub open spec fn cond_value(s: Seq<u8>, m: Map<Seq<u8>, Seq<u8>>) -> bool {
    match cond_parse(s) {
        Some(p) => m.contains_key(p.0) && m[p.0] == p.1,
        None => false,
    }
}

/// Evaluate a `when` expression such as `use_docker == true` or
/// `license == 'MIT'` against the assignment.
pub fn evaluate_condition(condition: &Vec<u8>, vars: &Assignment) -> (r: bool)
    requires
        vars.wf(),
    ensures
        r == cond_value(condition@, vars@),
{
    let ghost s = condition@;
    let n = condition.len();
    proof {
        lemma_space_run_le(s);
    }
    let a = scan_spaces(condition, 0);
    proof {
        assert(s.skip(0) =~= s);
        assert(space_run(s) == a);
        lemma_word_run_le(s.skip(a as int));
    }
    let qe = scan_words(condition, a);
    let ghost q = qe - a;
    proof {
        lemma_space_run_le(s.skip(qe as int));
        assert(s.skip(a as int + (qe - a)) =~= s.skip(qe as int));
    }
    if qe == a {
        return false;
    }
    let be = scan_spaces(condition, qe);
    // `be` is the position of the expected `==`.
    if n - be < 2 {
        return false;
    }
    if !(condition[be] == ('=' as u8) && condition[be + 1] == ('=' as u8)) {
        return false;
    }
    proof {
        lemma_space_run_le(s.skip(be as int + 2));
    }
    let ce = scan_spaces(condition, be + 2);
    // `ce` is the start of the literal.
    if ce >= n {
        return false;
    }
    let ghost ident = s.subrange(a as int, a + q);
    let id_vec = sub_vec(condition, a, qe);
    proof {
        assert(id_vec@ =~= ident);
    }
    if quote_byte(condition[ce]) {
        proof {
            lemma_nonquote_run_le(s.skip(ce as int + 1));
        }
        let le = scan_nonquotes(condition, ce + 1);
        if le == ce + 1 {
            return false;
        }
        if le >= n {
            return false;
        }
        if !quote_byte(condition[le]) {
            return false;
        }
        proof {
            lemma_space_run_le(s.skip(le as int + 1));
        }
        let fe = scan_spaces(condition, le + 1);
        if fe != n {
            return false;
        }
        let lit_vec = sub_vec(condition, ce + 1, le);
        proof {
            assert(cond_parse(s) == Some((ident, s.subrange(ce as int + 1, le as int))));
            assert(lit_vec@ =~= s.subrange(ce as int + 1, le as int));
        }
        match vars.get(&id_vec) {
            Some(v) => eq_bytes(v, &lit_vec),
            None => false,
        }
    } else {
        proof {
            lemma_word_run_le(s.skip(ce as int));
        }
        let ge = scan_words(condition, ce);
        if ge == ce {
            return false;
        }
        proof {
            lemma_space_run_le(s.skip(ge as int));
        }
        let fe = scan_spaces(condition, ge);
        if fe != n {
            return false;
        }
        let lit_vec = sub_vec(condition, ce, ge);
        proof {
            assert(cond_parse(s) == Some((ident, s.subrange(ce as int, ge as int))));
            assert(lit_vec@ =~= s.subrange(ce as int, ge as int));
        }
        match vars.get(&id_vec) {
            Some(v) => eq_bytes(v, &lit_vec),
            None => false,
        }
    }
}

/// A conditional rule of the manifest: exactly one of `include_path` /
/// `exclude_path` names a path-segment, and `when` holds the expression. (A
/// manifest that sets both or neither is rejected at validation.)
pub struct Conditional {
    /// Path kept only when the condition holds.
    pub include_path: Option<Vec<u8>>,
    /// Path dropped when the condition holds.
    pub exclude_path: Option<Vec<u8>>,
    /// The `identifier == literal` expression.
    pub when: Vec<u8>,
}

/// Does the rule `c` exclude the path-segment name `n` under `m`?
pub open spec fn excludes_name(c: Conditional, m: Map<Seq<u8>, Seq<u8>>, n: Seq<u8>) -> bool {
    ||| match c.include_path {
        Some(p) => p@ == n && !cond_value(c.when@, m),
        None => false,
    }
    ||| match c.exclude_path {
        Some(p) => p@ == n && cond_value(c.when@, m),
        None => false,
    }
}

/// Does any rule of `cs` exclude the name `n` under `m`?
pub open spec fn excluded_by(cs: Seq<Conditional>, m: Map<Seq<u8>, Seq<u8>>, n: Seq<u8>) -> bool {
    exists|i: int| 0 <= i < cs.len() && excludes_name(cs[i], m, n)
}

/// Compute the exclusion set: the names excluded by at least one rule. Being
/// a union over the rules, the set does not depend on their order.
pub fn evaluate_conditionals(conditionals: &Vec<Conditional>, vars: &Assignment) -> (out: Vec<
    Vec<u8>,
>)
    requires
        vars.wf(),
    ensures
        forall|n: Seq<u8>|
            #![trigger name_in(out@, n)]
            #![trigger excluded_by(conditionals@, vars@, n)]
            name_in(out@, n) <==> excluded_by(conditionals@, vars@, n),
{
    let ghost m = vars@;
    let mut out: Vec<Vec<u8>> = Vec::new();
    let mut i: usize = 0;
    while i < conditionals.len()
        invariant
            i <= conditionals@.len(),
            vars.wf(),
            m == vars@,
            forall|n: Seq<u8>|
                #![trigger name_in(out@, n)]
                #![trigger excluded_by(conditionals@.take(i as int), m, n)]
                name_in(out@, n) <==> excluded_by(conditionals@.take(i as int), m, n),
        decreases conditionals@.len() - i,
    {
        let ghost c = conditionals@[i as int];
        let met = evaluate_condition(&conditionals[i].when, vars);
        match &conditionals[i].include_path {
            Some(p) => {
                if !met {
                    let ghost out0 = out@;
                    out.push(clone_bytes(p));
                    proof {
                        assert(forall|n: Seq<u8>| #[trigger] name_in(out@, n) <==> (name_in(
                            out0,
                            n,
                        ) || p@ == n)) by {
                            assert(forall|n: Seq<u8>| name_in(out0, n) ==> #[trigger] name_in(
                                out@,
                                n,
                            )) by {
                                assert(forall|j: int|
                                    0 <= j < out0.len() ==> out@[j] == out0[j]);
                            }
                            assert(out@[out0.len() as int]@ == p@);
                            assert(forall|n: Seq<u8>| #[trigger] name_in(out@, n) && p@ != n
                                ==> name_in(out0, n)) by {
                                assert(forall|j: int|
                                    0 <= j < out0.len() ==> out@[j] == out0[j]);
                            }
                        }
                        assert(excludes_name(c, m, p@));
                    }
                }
            },
            None => {},
        }
        match &conditionals[i].exclude_path {
            Some(p) => {
                if met {
                    let ghost out0 = out@;
                    out.push(clone_bytes(p));
                    proof {
                        assert(forall|n: Seq<u8>| #[trigger] name_in(out@, n) <==> (name_in(
                            out0,
                            n,
                        ) || p@ == n)) by {
                            assert(forall|n: Seq<u8>| name_in(out0, n) ==> #[trigger] name_in(
                                out@,
                                n,
                            )) by {
                                assert(forall|j: int|
                                    0 <= j < out0.len() ==> out@[j] == out0[j]);
                            }
                            assert(out@[out0.len() as int]@ == p@);
                            assert(forall|n: Seq<u8>| #[trigger] name_in(out@, n) && p@ != n
                                ==> name_in(out0, n)) by {
                                assert(forall|j: int|
                                    0 <= j < out0.len() ==> out@[j] == out0[j]);
                            }
                        }
                        assert(excludes_name(c, m, p@));
                    }
                }
            },
            None => {},
        }
        proof {
            let pre = conditionals@.take(i as int);
            let post = conditionals@.take(i as int + 1);
            assert(forall|j: int| 0 <= j < pre.len() ==> post[j] == pre[j]);
            assert(post[i as int] == c);
            assert(forall|n: Seq<u8>| #[trigger] excluded_by(post, m, n) <==> (excluded_by(
                pre,
                m,
                n,
            ) || excludes_name(c, m, n))) by {
                assert(forall|n: Seq<u8>| #[trigger] excluded_by(pre, m, n) ==> excluded_by(
                    post,
                    m,
                    n,
                )) by {
                    assert(forall|n: Seq<u8>, j: int|
                        0 <= j < pre.len() && #[trigger] excludes_name(pre[j], m, n)
                            ==> excludes_name(post[j], m, n) && 0 <= j < post.len());
                }
                assert(forall|n: Seq<u8>| excludes_name(c, m, n) ==> #[trigger] excluded_by(
                    post,
                    m,
                    n,
                ));
                assert(forall|n: Seq<u8>| #[trigger] excluded_by(post, m, n) ==> (excluded_by(
                    pre,
                    m,
                    n,
                ) || excludes_name(c, m, n))) by {
                    assert(forall|n: Seq<u8>, j: int|
                        0 <= j < post.len() && #[trigger] excludes_name(post[j], m, n) && j < i
                            ==> excludes_name(pre[j], m, n));
                }
            }
        }
        i += 1;
    }
    proof {
        assert(conditionals@.take(conditionals@.len() as int) =~= conditionals@);
    }
    out
}

/// Law of keep-rules: the named path is excluded exactly when the
/// condition fails, so a path under such a rule whose variable is
/// absent from the assignment is always excluded.
pub proof fn lemma_include_rule(
    c: Conditional,
    p: Vec<u8>,
    m: Map<Seq<u8>, Seq<u8>>,
    id: Seq<u8>,
    lit: Seq<u8>,
)
    requires
        c.include_path == Some(p),
        c.exclude_path is None,
        cond_parse(c.when@) == Some((id, lit)),
    ensures
        excludes_name(c, m, p@) <==> !(m.contains_key(id) && m[id] == lit),
        !m.contains_key(id) ==> excludes_name(c, m, p@),
{
}

/// Law of drop-rules: the named path is excluded exactly when the
/// condition holds, so a path under such a rule whose variable is
/// absent from the assignment is never excluded.
pub proof fn lemma_exclude_rule(
    c: Conditional,
    p: Vec<u8>,
    m: Map<Seq<u8>, Seq<u8>>,
    id: Seq<u8>,
    lit: Seq<u8>,
)
    requires
        c.exclude_path == Some(p),
        c.include_path is None,
        cond_parse(c.when@) == Some((id, lit)),
    ensures
        excludes_name(c, m, p@) <==> (m.contains_key(id) && m[id] == lit),
        !m.contains_key(id) ==> !excludes_name(c, m, p@),
{
}

} // verus!
