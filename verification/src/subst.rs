//! The placeholder-token grammar and the variable-substitution engine.
//!
//! A token is `{{ identifier }}`: two opening braces, optional whitespace, one
//! or more identifier bytes (ASCII letters, digits, underscore), optional
//! whitespace, two closing braces. Substitution makes exactly one left-to-right
//! pass: each token whose identifier is bound in the assignment is replaced by
//! the bound value, every other token and every other byte is kept verbatim,
//! and the scan resumes after the replaced token, never inside a replacement.

use vstd::prelude::*;

use crate::assignment::Assignment;
use crate::bytes::{is_space_byte, is_word_byte, space_byte, word_byte, sub_vec, push_all};

verus! {

/// Length of the run of whitespace bytes at the start of `s`.
pub open spec fn space_run(s: Seq<u8>) -> nat
    decreases s.len(),
{
    if s.len() > 0 && is_space_byte(s[0]) {
        space_run(s.skip(1)) + 1
    } else {
        0
    }
}

/// Length of the run of identifier bytes at the start of `s`.
pub open spec fn word_run(s: Seq<u8>) -> nat
    decreases s.len(),
{
    if s.len() > 0 && is_word_byte(s[0]) {
        word_run(s.skip(1)) + 1
    } else {
        0
    }
}

pub proof fn lemma_space_run_le(s: Seq<u8>)
    ensures
        space_run(s) <= s.len(),
    decreases s.len(),
{
    if s.len() > 0 && is_space_byte(s[0]) {
        lemma_space_run_le(s.skip(1));
    }
}

pub proof fn lemma_word_run_le(s: Seq<u8>)
    ensures
        word_run(s) <= s.len(),
    decreases s.len(),
{
    if s.len() > 0 && is_word_byte(s[0]) {
        lemma_word_run_le(s.skip(1));
    }
}

/// Whitespace run after the two opening braces.
pub open spec fn tok_p(t: Seq<u8>) -> nat {
    space_run(t.skip(2))
}

/// Identifier run after the leading whitespace.
pub open spec fn tok_q(t: Seq<u8>) -> nat {
    word_run(t.skip((2 + tok_p(t)) as int))
}

/// Whitespace run after the identifier.
pub open spec fn tok_r(t: Seq<u8>) -> nat {
    space_run(t.skip((2 + tok_p(t) + tok_q(t)) as int))
}

/// Length of the token at the start of `t`, when there is one.
pub open spec fn token_len(t: Seq<u8>) -> int {
    (2 + tok_p(t) + tok_q(t) + tok_r(t) + 2) as int
}

/// Does a `{{ identifier }}` token start at the first byte of `t`?
pub open spec fn has_token(t: Seq<u8>) -> bool {
    &&& t.len() >= 2
    &&& t[0] == ('{' as u8)
    &&& t[1] == ('{' as u8)
    &&& tok_q(t) >= 1
    &&& token_len(t) <= t.len()
    &&& t[token_len(t) - 2] == ('}' as u8)
    &&& t[token_len(t) - 1] == ('}' as u8)
}

/// The identifier of the token at the start of `t`.
pub open spec fn token_ident(t: Seq<u8>) -> Seq<u8> {
    t.subrange((2 + tok_p(t)) as int, (2 + tok_p(t) + tok_q(t)) as int)
}

/// One substitution pass over `t` under the assignment `m`.
pub open spec fn subst_bytes(t: Seq<u8>, m: Map<Seq<u8>, Seq<u8>>) -> Seq<u8>
    decreases t.len(),
{
    if t.len() == 0 {
        t
    } else if has_token(t) {
        let repl = if m.contains_key(token_ident(t)) {
            m[token_ident(t)]
        } else {
            t.take(token_len(t))
        };
        repl + subst_bytes(t.skip(token_len(t)), m)
    } else {
        seq![t[0]] + subst_bytes(t.skip(1), m)
    }
}

/// Scan the whitespace run that starts at `from`.
pub(crate) fn scan_spaces(text: &Vec<u8>, from: usize) -> (j: usize)
    requires
        from <= text@.len(),
    ensures
        from <= j <= text@.len(),
        j - from == space_run(text@.skip(from as int)),
        j == text@.len() || !is_space_byte(text@[j as int]),
{
    let mut j: usize = from;
    while j < text.len() && space_byte(text[j])
        invariant
            from <= j <= text@.len(),
            space_run(text@.skip(from as int)) == j - from + space_run(text@.skip(j as int)),
        decreases text@.len() - j,
    {
        proof {
            assert(text@.skip(j as int).len() > 0);
            assert(text@.skip(j as int)[0] == text@[j as int]);
            assert(text@.skip(j as int).skip(1) =~= text@.skip(j as int + 1));
        }
        j += 1;
    }
    proof {
        if j < text@.len() {
            assert(text@.skip(j as int)[0] == text@[j as int]);
        }
        assert(space_run(text@.skip(j as int)) == 0);
    }
    j
}

/// Scan the identifier run that starts at `from`.
pub(crate) fn scan_words(text: &Vec<u8>, from: usize) -> (j: usize)
    requires
        from <= text@.len(),
    ensures
        from <= j <= text@.len(),
        j - from == word_run(text@.skip(from as int)),
        j == text@.len() || !is_word_byte(text@[j as int]),
{
    let mut j: usize = from;
    while j < text.len() && word_byte(text[j])
        invariant
            from <= j <= text@.len(),
            word_run(text@.skip(from as int)) == j - from + word_run(text@.skip(j as int)),
        decreases text@.len() - j,
    {
        proof {
            assert(text@.skip(j as int).len() > 0);
            assert(text@.skip(j as int)[0] == text@[j as int]);
            assert(text@.skip(j as int).skip(1) =~= text@.skip(j as int + 1));
        }
        j += 1;
    }
    proof {
        if j < text@.len() {
            assert(text@.skip(j as int)[0] == text@[j as int]);
        }
        assert(word_run(text@.skip(j as int)) == 0);
    }
    j
}

/// Parse a token at position `i`. `Some((ws, we, end))` gives the identifier
/// range `ws..we` and the position `end` just past the token.
pub(crate) fn try_token(text: &Vec<u8>, i: usize) -> (r: Option<(usize, usize, usize)>)
    requires
        i < text@.len(),
    ensures
        match r {
            Some(t) => {
                &&& has_token(text@.skip(i as int))
                &&& i + 2 <= t.0 <= t.1 <= text@.len()
                &&& t.2 <= text@.len()
                &&& t.0 == i + 2 + tok_p(text@.skip(i as int))
                &&& t.1 == t.0 + tok_q(text@.skip(i as int))
                &&& t.2 == i + token_len(text@.skip(i as int))
            },
            None => !has_token(text@.skip(i as int)),
        },
{
    let ghost t = text@.skip(i as int);
    let n = text.len();
    if n - i < 2 {
        return None;
    }
    if !(text[i] == ('{' as u8) && text[i + 1] == ('{' as u8)) {
        proof {
            assert(t[0] == text@[i as int]);
            assert(t[1] == text@[i as int + 1]);
        }
        return None;
    }
    proof {
        assert(t[0] == text@[i as int]);
        assert(t[1] == text@[i as int + 1]);
        assert(t.skip(2) =~= text@.skip(i as int + 2));
        lemma_space_run_le(t.skip(2));
    }
    let ws = scan_spaces(text, i + 2);
    proof {
        assert(tok_p(t) == ws - i - 2);
        assert(t.skip((2 + tok_p(t)) as int) =~= text@.skip(ws as int));
        lemma_word_run_le(t.skip((2 + tok_p(t)) as int));
    }
    let we = scan_words(text, ws);
    proof {
        assert(tok_q(t) == we - ws);
        assert(t.skip((2 + tok_p(t) + tok_q(t)) as int) =~= text@.skip(we as int));
        lemma_space_run_le(t.skip((2 + tok_p(t) + tok_q(t)) as int));
    }
    if we == ws {
        assert(tok_q(t) == 0);
        return None;
    }
    let re = scan_spaces(text, we);
    proof {
        assert(tok_r(t) == re - we);
        assert(token_len(t) == re + 2 - i);
    }
    if n - re < 2 {
        assert(token_len(t) > t.len());
        return None;
    }
    if text[re] == ('}' as u8) && text[re + 1] == ('}' as u8) {
        proof {
            assert(t[token_len(t) - 2] == text@[re as int]);
            assert(t[token_len(t) - 1] == text@[re as int + 1]);
        }
        Some((ws, we, re + 2))
    } else {
        proof {
            assert(t[token_len(t) - 2] == text@[re as int]);
            assert(t[token_len(t) - 1] == text@[re as int + 1]);
        }
        None
    }
}

/// Replace every `{{ identifier }}` token bound in `vars` by its value, in one
/// left-to-right pass; unbound tokens and all other bytes pass through
/// unchanged.
pub fn substitute_variables(text: &Vec<u8>, vars: &Assignment) -> (out: Vec<u8>)
    requires
        vars.wf(),
    ensures
        out@ == subst_bytes(text@, vars@),
{
    let ghost m = vars@;
    let mut out: Vec<u8> = Vec::new();
    let mut i: usize = 0;
    proof {
        assert(text@.skip(0) =~= text@);
        assert(out@ + subst_bytes(text@, m) =~= subst_bytes(text@, m));
    }
    while i < text.len()
        invariant
            i <= text@.len(),
            vars.wf(),
            m == vars@,
            subst_bytes(text@, m) == out@ + subst_bytes(text@.skip(i as int), m),
        decreases text@.len() - i,
    {
        let ghost t = text@.skip(i as int);
        let ghost out0 = out@;
        match try_token(text, i) {
            Some((ws, we, end)) => {
                let ident = sub_vec(text, ws, we);
                proof {
                    assert(ident@ =~= token_ident(t));
                    assert(t.skip(token_len(t)) =~= text@.skip(end as int));
                    assert(t.take(token_len(t)) =~= text@.subrange(i as int, end as int));
                }
                match vars.get(&ident) {
                    Some(val) => {
                        push_all(&mut out, val);
                        proof {
                            assert(subst_bytes(t, m) == m[ident@] + subst_bytes(
                                text@.skip(end as int),
                                m,
                            ));
                            assert(out0 + (m[ident@] + subst_bytes(text@.skip(end as int), m))
                                =~= (out0 + m[ident@]) + subst_bytes(text@.skip(end as int), m));
                        }
                    },
                    None => {
                        let tok = sub_vec(text, i, end);
                        push_all(&mut out, &tok);
                        proof {
                            assert(subst_bytes(t, m) == t.take(token_len(t)) + subst_bytes(
                                text@.skip(end as int),
                                m,
                            ));
                            assert(out0 + (t.take(token_len(t)) + subst_bytes(
                                text@.skip(end as int),
                                m,
                            )) =~= (out0 + t.take(token_len(t))) + subst_bytes(
                                text@.skip(end as int),
                                m,
                            ));
                        }
                    },
                }
                i = end;
            },
            None => {
                out.push(text[i]);
                proof {
                    assert(t[0] == text@[i as int]);
                    assert(t.skip(1) =~= text@.skip(i as int + 1));
                    assert(subst_bytes(t, m) == seq![text@[i as int]] + subst_bytes(
                        text@.skip(i as int + 1),
                        m,
                    ));
                    assert(out0 + (seq![text@[i as int]] + subst_bytes(
                        text@.skip(i as int + 1),
                        m,
                    )) =~= out0.push(text@[i as int]) + subst_bytes(text@.skip(i as int + 1), m));
                }
                i += 1;
            },
        }
    }
    proof {
        assert(text@.skip(text@.len() as int).len() == 0);
        assert(out@ + subst_bytes(text@.skip(i as int), m) =~= out@);
    }
    out
}

} // verus!
