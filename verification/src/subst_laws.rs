//! Laws of the substitution engine.
//!
//! The identity law: on text none of whose token identifiers is bound, one
//! substitution pass changes nothing. The idempotence law: substituting twice
//! equals substituting once, provided every bound value is *inert* — free of
//! brace bytes and holding at least one byte that is neither an identifier
//! byte nor whitespace. Without that proviso a replacement can butt braces
//! and identifier bytes of the surrounding text together into a token that
//! only a second pass would see.

use vstd::prelude::*;

use crate::bytes::{is_space_byte, is_word_byte};
use crate::subst::{has_token, space_run, subst_bytes, token_ident, token_len, tok_p, tok_q,
    tok_r, word_run, lemma_space_run_le, lemma_word_run_le};

verus! {

/// `v` holds neither `{` nor `}`.
pub open spec fn brace_free(v: Seq<u8>) -> bool {
    forall|i: int| 0 <= i < v.len() ==> v[i] != ('{' as u8) && v[i] != ('}' as u8)
}

/// A byte that can appear in no token: not an identifier byte, not
/// whitespace, not a brace.
pub open spec fn is_sep_byte(b: u8) -> bool {
    !is_word_byte(b) && !is_space_byte(b) && b != ('{' as u8) && b != ('}' as u8)
}

/// An inert replacement value: brace-free, with at least one separating byte,
/// so that no token of a later pass can overlap it.
pub open spec fn inert_value(v: Seq<u8>) -> bool {
    brace_free(v) && exists|i: int| 0 <= i < v.len() && is_sep_byte(v[i])
}

/// Every value of the assignment is inert.
pub open spec fn inert_values(m: Map<Seq<u8>, Seq<u8>>) -> bool {
    forall|k: Seq<u8>| #[trigger] m.contains_key(k) ==> inert_value(m[k])
}

/// Shape `ws* w+ ws* }}`: what must follow the two opening braces of a token.
spec fn m1(v: Seq<u8>) -> bool {
    let p = space_run(v) as int;
    let q = word_run(v.skip(p)) as int;
    let r = space_run(v.skip(p + q)) as int;
    q >= 1 && p + q + r + 2 <= v.len() && v[p + q + r] == ('}' as u8) && v[p + q + r + 1] == (
    '}' as u8)
}

/// Shape `w* ws* }}`.
spec fn m2(v: Seq<u8>) -> bool {
    let q = word_run(v) as int;
    let r = space_run(v.skip(q)) as int;
    q + r + 2 <= v.len() && v[q + r] == ('}' as u8) && v[q + r + 1] == ('}' as u8)
}

/// Shape `ws* }}`.
spec fn m3(v: Seq<u8>) -> bool {
    let r = space_run(v) as int;
    r + 2 <= v.len() && v[r] == ('}' as u8) && v[r + 1] == ('}' as u8)
}

/// Shape `}` at the first byte.
spec fn m4(v: Seq<u8>) -> bool {
    v.len() >= 1 && v[0] == ('}' as u8)
}

/// Shape of a token missing its first byte: `{ ws* w+ ws* }}`.
spec fn m5(v: Seq<u8>) -> bool {
    v.len() >= 1 && v[0] == ('{' as u8) && m1(v.skip(1))
}

/// A token starts at `t` exactly when two braces are followed by shape `m1`.
proof fn lemma_token_shape(t: Seq<u8>)
    ensures
        has_token(t) == (t.len() >= 2 && t[0] == ('{' as u8) && t[1] == ('{' as u8) && m1(
            t.skip(2),
        )),
{
    if t.len() >= 2 {
        let v = t.skip(2);
        let p = space_run(v) as int;
        lemma_space_run_le(v);
        let q = word_run(v.skip(p)) as int;
        lemma_word_run_le(v.skip(p));
        let r = space_run(v.skip(p + q)) as int;
        lemma_space_run_le(v.skip(p + q));
        assert(v.skip(p) =~= t.skip(2 + p));
        assert(v.skip(p + q) =~= t.skip(2 + p + q));
        assert(tok_p(t) == p && tok_q(t) == q && tok_r(t) == r);
        assert(token_len(t) == 2 + p + q + r + 2);
        if p + q + r + 2 <= v.len() {
            assert(v[p + q + r] == t[2 + p + q + r]);
            assert(v[p + q + r + 1] == t[2 + p + q + r + 1]);
        }
    }
}

/// A token starts at `t` exactly when `{` is followed by shape `m5`.
proof fn lemma_token_m5(t: Seq<u8>)
    requires
        t.len() >= 1,
    ensures
        has_token(t) == (t[0] == ('{' as u8) && m5(t.skip(1))),
{
    lemma_token_shape(t);
    if t.len() >= 2 {
        assert(t.skip(1)[0] == t[1]);
        assert(t.skip(1).skip(1) =~= t.skip(2));
    } else {
        assert(t.skip(1).len() == 0);
    }
}

/// Unfolding of shape `m1` at its first byte.
proof fn lemma_m1_step(v: Seq<u8>)
    requires
        v.len() >= 1,
    ensures
        m1(v) == (if is_space_byte(v[0]) {
            m1(v.skip(1))
        } else if is_word_byte(v[0]) {
            m2(v.skip(1))
        } else {
            false
        }),
{
    let w = v.skip(1);
    if is_space_byte(v[0]) {
        let p = space_run(w) as int;
        lemma_space_run_le(w);
        assert(space_run(v) == p + 1);
        assert(v.skip(p + 1) =~= w.skip(p));
        let q = word_run(w.skip(p)) as int;
        lemma_word_run_le(w.skip(p));
        assert(v.skip(p + 1 + q) =~= w.skip(p + q));
        let r = space_run(w.skip(p + q)) as int;
        assert(forall|k: int| 0 <= k < w.len() ==> w[k] == v[k + 1]);
    } else if is_word_byte(v[0]) {
        assert(space_run(v) == 0);
        assert(v.skip(0) =~= v);
        let q = word_run(w) as int;
        lemma_word_run_le(w);
        assert(word_run(v) == q + 1);
        assert(v.skip(q + 1) =~= w.skip(q));
        let r = space_run(w.skip(q)) as int;
        assert(forall|k: int| 0 <= k < w.len() ==> w[k] == v[k + 1]);
    } else {
        assert(space_run(v) == 0);
        assert(v.skip(0) =~= v);
        assert(word_run(v) == 0);
    }
}

/// Unfolding of shape `m2` at its first byte.
proof fn lemma_m2_step(v: Seq<u8>)
    requires
        v.len() >= 1,
    ensures
        m2(v) == (if is_word_byte(v[0]) {
            m2(v.skip(1))
        } else if is_space_byte(v[0]) {
            m3(v.skip(1))
        } else if v[0] == ('}' as u8) {
            m4(v.skip(1))
        } else {
            false
        }),
{
    let w = v.skip(1);
    assert(forall|k: int| 0 <= k < w.len() ==> w[k] == v[k + 1]);
    if is_word_byte(v[0]) {
        let q = word_run(w) as int;
        lemma_word_run_le(w);
        assert(word_run(v) == q + 1);
        assert(v.skip(q + 1) =~= w.skip(q));
    } else if is_space_byte(v[0]) {
        assert(word_run(v) == 0);
        assert(v.skip(0) =~= v);
        let r = space_run(w) as int;
        assert(space_run(v) == r + 1);
        assert(v.skip(0) =~= v);
    } else {
        assert(word_run(v) == 0);
        assert(v.skip(0) =~= v);
        assert(space_run(v) == 0);
    }
}

/// Unfolding of shape `m3` at its first byte.
proof fn lemma_m3_step(v: Seq<u8>)
    requires
        v.len() >= 1,
    ensures
        m3(v) == (if is_space_byte(v[0]) {
            m3(v.skip(1))
        } else if v[0] == ('}' as u8) {
            m4(v.skip(1))
        } else {
            false
        }),
{
    let w = v.skip(1);
    assert(forall|k: int| 0 <= k < w.len() ==> w[k] == v[k + 1]);
    if is_space_byte(v[0]) {
        let r = space_run(w) as int;
        assert(space_run(v) == r + 1);
    } else {
        assert(space_run(v) == 0);
    }
}

/// An inert value at the front of any text blocks every token shape.
proof fn lemma_inert_blocks(v: Seq<u8>, w: Seq<u8>)
    requires
        inert_value(v),
    ensures
        !m1(v + w),
        !m2(v + w),
        !m3(v + w),
        !m4(v + w),
        (v + w).len() >= 1 && (v + w)[0] != ('{' as u8),
    decreases v.len(),
{
    let c = v[0];
    let x = v + w;
    assert(x[0] == c);
    assert(x.skip(1) =~= v.skip(1) + w);
    lemma_m1_step(x);
    lemma_m2_step(x);
    lemma_m3_step(x);
    if is_sep_byte(c) {
    } else {
        assert(inert_value(v.skip(1))) by {
            let i = choose|i: int| 0 <= i < v.len() && is_sep_byte(v[i]);
            assert(i != 0);
            assert(v.skip(1)[i - 1] == v[i]);
            assert(forall|k: int| 0 <= k < v.skip(1).len() ==> v.skip(1)[k] == v[k + 1]);
        }
        lemma_inert_blocks(v.skip(1), w);
    }
}

/// Whitespace runs agree on sequences that share a long enough prefix.
proof fn lemma_space_run_agree(x: Seq<u8>, y: Seq<u8>, k: int)
    requires
        0 <= k <= x.len(),
        k <= y.len(),
        x.take(k) == y.take(k),
        space_run(x) < k,
    ensures
        space_run(y) == space_run(x),
    decreases k,
{
    assert(forall|j: int| 0 <= j < k ==> x[j] == y[j]) by {
        assert(forall|j: int| 0 <= j < k ==> x.take(k)[j] == x[j] && y.take(k)[j] == y[j]);
    }
    if is_space_byte(x[0]) {
        assert(space_run(x) == space_run(x.skip(1)) + 1);
        assert(space_run(y) == space_run(y.skip(1)) + 1);
        assert(x.skip(1).take(k - 1) =~= y.skip(1).take(k - 1));
        lemma_space_run_agree(x.skip(1), y.skip(1), k - 1);
    } else {
        assert(space_run(y) == 0);
    }
}

/// Identifier runs agree on sequences that share a long enough prefix.
proof fn lemma_word_run_agree(x: Seq<u8>, y: Seq<u8>, k: int)
    requires
        0 <= k <= x.len(),
        k <= y.len(),
        x.take(k) == y.take(k),
        word_run(x) < k,
    ensures
        word_run(y) == word_run(x),
    decreases k,
{
    assert(forall|j: int| 0 <= j < k ==> x[j] == y[j]) by {
        assert(forall|j: int| 0 <= j < k ==> x.take(k)[j] == x[j] && y.take(k)[j] == y[j]);
    }
    if is_word_byte(x[0]) {
        assert(word_run(x) == word_run(x.skip(1)) + 1);
        assert(word_run(y) == word_run(y.skip(1)) + 1);
        assert(x.skip(1).take(k - 1) =~= y.skip(1).take(k - 1));
        lemma_word_run_agree(x.skip(1), y.skip(1), k - 1);
    } else {
        assert(word_run(y) == 0);
    }
}

/// A token text followed by anything parses as the very same token.
proof fn lemma_token_prefix(t: Seq<u8>, w: Seq<u8>)
    requires
        has_token(t),
    ensures
        has_token(t.take(token_len(t)) + w),
        token_len(t.take(token_len(t)) + w) == token_len(t),
        token_ident(t.take(token_len(t)) + w) == token_ident(t),
    decreases t.len(),
{
    let p = tok_p(t) as int;
    let q = tok_q(t) as int;
    let r = tok_r(t) as int;
    let len = token_len(t);
    let x = t.take(len) + w;
    assert(x.len() == len + w.len());
    assert(forall|j: int| 0 <= j < len ==> x[j] == t[j]) by {
        assert(forall|j: int| 0 <= j < len ==> t.take(len)[j] == t[j]);
    }
    assert(x[0] == ('{' as u8) && x[1] == ('{' as u8));
    assert(t.skip(2).take(len - 2) =~= x.skip(2).take(len - 2));
    lemma_space_run_le(t.skip(2));
    assert(space_run(t.skip(2)) == p && p < len - 2);
    lemma_space_run_agree(t.skip(2), x.skip(2), len - 2);
    assert(tok_p(x) == p);
    assert(t.skip(2 + p).take(len - 2 - p) =~= x.skip(2 + p).take(len - 2 - p));
    assert(word_run(t.skip(2 + p)) == q && q < len - 2 - p);
    lemma_word_run_agree(t.skip(2 + p), x.skip(2 + p), len - 2 - p);
    assert(tok_q(x) == q);
    assert(t.skip(2 + p + q).take(len - 2 - p - q) =~= x.skip(2 + p + q).take(len - 2 - p - q));
    assert(space_run(t.skip(2 + p + q)) == r && r < len - 2 - p - q);
    lemma_space_run_agree(t.skip(2 + p + q), x.skip(2 + p + q), len - 2 - p - q);
    assert(tok_r(x) == r);
    assert(token_len(x) == len);
    assert(x[len - 2] == t[len - 2] && x[len - 1] == t[len - 1]);
    assert(token_ident(x) =~= token_ident(t));
}

/// Substitution leaves every token shape refutable: a shape that holds of the
/// output held already of the input.
proof fn lemma_subst_shapes(t: Seq<u8>, m: Map<Seq<u8>, Seq<u8>>)
    requires
        inert_values(m),
    ensures
        m1(subst_bytes(t, m)) ==> m1(t),
        m2(subst_bytes(t, m)) ==> m2(t),
        m3(subst_bytes(t, m)) ==> m3(t),
        m4(subst_bytes(t, m)) ==> m4(t),
        m5(subst_bytes(t, m)) ==> m5(t),
    decreases t.len(),
{
    let g = subst_bytes(t, m);
    if t.len() == 0 {
    } else if has_token(t) {
        let len = token_len(t);
        let rest = subst_bytes(t.skip(len), m);
        if m.contains_key(token_ident(t)) {
            let v = m[token_ident(t)];
            assert(g == v + rest);
            lemma_inert_blocks(v, rest);
            assert(!m5(g));
        } else {
            let tt = t.take(len);
            assert(g == tt + rest);
            assert(g[0] == t[0]);
            assert(g.len() >= len);
            lemma_m1_step(g);
            lemma_m2_step(g);
            lemma_m3_step(g);
            assert(!m4(g));
            assert(g.skip(1) =~= tt.skip(1) + rest);
            assert(g.skip(1)[0] == t[1]);
            if m5(g) {
                lemma_m1_step(g.skip(1));
                assert(false);
            }
        }
    } else {
        let g1 = subst_bytes(t.skip(1), m);
        assert(g == seq![t[0]] + g1);
        assert(g[0] == t[0]);
        assert(g.skip(1) =~= g1);
        lemma_subst_shapes(t.skip(1), m);
        lemma_m1_step(g);
        lemma_m2_step(g);
        lemma_m3_step(g);
        lemma_m1_step(t);
        lemma_m2_step(t);
        lemma_m3_step(t);
        if m5(g) {
            assert(m1(g1));
            assert(m5(t));
        }
    }
}

/// A brace-free prefix passes through substitution unchanged.
proof fn lemma_subst_prepend_plain(u: Seq<u8>, w: Seq<u8>, m: Map<Seq<u8>, Seq<u8>>)
    requires
        brace_free(u),
    ensures
        subst_bytes(u + w, m) == u + subst_bytes(w, m),
    decreases u.len(),
{
    if u.len() == 0 {
        assert(u + w =~= w);
        assert(u + subst_bytes(w, m) =~= subst_bytes(w, m));
    } else {
        let x = u + w;
        assert(x[0] == u[0]);
        assert(!has_token(x));
        assert(x.skip(1) =~= u.skip(1) + w);
        assert(brace_free(u.skip(1))) by {
            assert(forall|k: int| 0 <= k < u.skip(1).len() ==> u.skip(1)[k] == u[k + 1]);
        }
        lemma_subst_prepend_plain(u.skip(1), w, m);
        assert(subst_bytes(x, m) == seq![u[0]] + (u.skip(1) + subst_bytes(w, m)));
        assert(seq![u[0]] + (u.skip(1) + subst_bytes(w, m)) =~= u + subst_bytes(w, m));
    }
}

/// One-pass idempotence: when every bound value is inert, substituting the
/// output of a pass changes nothing more, so `substitute` composed with
/// itself equals `substitute`. (Values that are not inert can defeat this:
/// with `a` bound to `name` and `name` bound at all, the text `{{{{a}}}}`
/// renders in one pass to `{{name}}`, which a second pass would rewrite.)
pub proof fn lemma_substitute_idempotent(t: Seq<u8>, m: Map<Seq<u8>, Seq<u8>>)
    requires
        inert_values(m),
    ensures
        subst_bytes(subst_bytes(t, m), m) == subst_bytes(t, m),
    decreases t.len(),
{
    let g = subst_bytes(t, m);
    if t.len() == 0 {
    } else if has_token(t) {
        let len = token_len(t);
        let rest = subst_bytes(t.skip(len), m);
        lemma_substitute_idempotent(t.skip(len), m);
        if m.contains_key(token_ident(t)) {
            let v = m[token_ident(t)];
            assert(g == v + rest);
            lemma_subst_prepend_plain(v, rest, m);
        } else {
            let tt = t.take(len);
            assert(g == tt + rest);
            lemma_token_prefix(t, rest);
            assert(has_token(g) && token_len(g) == len && token_ident(g) == token_ident(t));
            assert(subst_bytes(g, m) == g.take(len) + subst_bytes(g.skip(len), m));
            assert(g.take(len) =~= tt);
            assert(g.skip(len) =~= rest);
        }
    } else {
        let g1 = subst_bytes(t.skip(1), m);
        assert(g == seq![t[0]] + g1);
        assert(g.len() >= 1 && g[0] == t[0]);
        assert(g.skip(1) =~= g1);
        lemma_substitute_idempotent(t.skip(1), m);
        assert(!has_token(g)) by {
            if has_token(g) {
                lemma_token_m5(g);
                lemma_subst_shapes(t.skip(1), m);
                lemma_token_m5(t);
            }
        }
        assert(subst_bytes(g, m) == seq![g[0]] + subst_bytes(g.skip(1), m));
        assert(seq![g[0]] + g1 =~= g);
    }
}

/// Identity on unmatched text: when no token identifier anywhere in `t` is
/// bound in the assignment, one substitution pass returns `t` itself.
pub proof fn lemma_substitute_identity(t: Seq<u8>, m: Map<Seq<u8>, Seq<u8>>)
    requires
        forall|j: int|
            #![trigger t.skip(j)]
            0 <= j <= t.len() ==> (has_token(t.skip(j)) ==> !m.contains_key(
                token_ident(t.skip(j)),
            )),
    ensures
        subst_bytes(t, m) == t,
    decreases t.len(),
{
    if t.len() == 0 {
    } else if has_token(t) {
        let len = token_len(t);
        assert(t.skip(0) =~= t);
        assert(!m.contains_key(token_ident(t)));
        assert(forall|j: int|
            #![trigger t.skip(len).skip(j)]
            0 <= j <= t.skip(len).len() ==> t.skip(len).skip(j) =~= t.skip(len + j));
        lemma_substitute_identity(t.skip(len), m);
        assert(t.take(len) + t.skip(len) =~= t);
    } else {
        assert(forall|j: int|
            #![trigger t.skip(1).skip(j)]
            0 <= j <= t.skip(1).len() ==> t.skip(1).skip(j) =~= t.skip(1 + j));
        lemma_substitute_identity(t.skip(1), m);
        assert(seq![t[0]] + t.skip(1) =~= t);
    }
}

} // verus!
