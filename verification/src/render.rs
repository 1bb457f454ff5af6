//! Rendering decisions of the tree walk. The walker hands the template tree
//! over as a flat list of entries, each a path of name segments relative to
//! the template root plus, for files, the raw bytes. Rendering skips an entry
//! when any segment is excluded or is the manifest file, substitutes variables
//! into every kept segment name, and substitutes into a file's contents only
//! when the bytes are valid UTF-8: any other byte sequence is kept verbatim,
//! because token scanning assumes text.

use vstd::prelude::*;

use crate::assignment::Assignment;
use crate::bytes::{clone_bytes, contains_name, eq_bytes, name_in};
use crate::subst::{subst_bytes, substitute_variables};

verus! {

/// Name of the manifest file that every template root carries; it is metadata
/// and is never copied into the output.
pub open spec fn manifest_name() -> Seq<u8> {
    seq![
        ('t' as u8),
        ('e' as u8),
        ('m' as u8),
        ('p' as u8),
        ('l' as u8),
        ('a' as u8),
        ('t' as u8),
        ('e' as u8),
        ('.' as u8),
        ('t' as u8),
        ('o' as u8),
        ('m' as u8),
        ('l' as u8),
    ]
}

/// The manifest file name as bytes.
pub fn manifest_file_name() -> (v: Vec<u8>)
    ensures
        v@ == manifest_name(),
{
    let mut v: Vec<u8> = Vec::new();
    v.push('t' as u8);
    v.push('e' as u8);
    v.push('m' as u8);
    v.push('p' as u8);
    v.push('l' as u8);
    v.push('a' as u8);
    v.push('t' as u8);
    v.push('e' as u8);
    v.push('.' as u8);
    v.push('t' as u8);
    v.push('o' as u8);
    v.push('m' as u8);
    v.push('l' as u8);
    proof {
        assert(v@ =~= manifest_name());
    }
    v
}

/// Continuation byte of a multi-byte UTF-8 sequence.
pub open spec fn is_cont_byte(b: u8) -> bool {
    0x80 <= b && b <= 0xBF
}

fn cont_byte(b: u8) -> (r: bool)
    ensures
        r == is_cont_byte(b),
{
    0x80 <= b && b <= 0xBF
}

/// Valid UTF-8, by the shortest-form byte grammar: ASCII bytes stand alone;
/// two-byte sequences start in `C2..DF`; three-byte sequences start in
/// `E0..EF` with the surrogate range and overlong forms carved out of the
/// second byte; four-byte sequences start in `F0..F4` bounded by `U+10FFFF`.
pub open spec fn is_utf8(s: Seq<u8>) -> bool
    decreases s.len(),
{
    if s.len() == 0 {
        true
    } else {
        let b0 = s[0];
        if b0 < 0x80 {
            is_utf8(s.skip(1))
        } else if 0xC2 <= b0 && b0 <= 0xDF {
            s.len() >= 2 && is_cont_byte(s[1]) && is_utf8(s.skip(2))
        } else if b0 == 0xE0 {
            s.len() >= 3 && 0xA0 <= s[1] && s[1] <= 0xBF && is_cont_byte(s[2]) && is_utf8(
                s.skip(3),
            )
        } else if b0 == 0xED {
            s.len() >= 3 && 0x80 <= s[1] && s[1] <= 0x9F && is_cont_byte(s[2]) && is_utf8(
                s.skip(3),
            )
        } else if 0xE1 <= b0 && b0 <= 0xEF {
            s.len() >= 3 && is_cont_byte(s[1]) && is_cont_byte(s[2]) && is_utf8(s.skip(3))
        } else if b0 == 0xF0 {
            s.len() >= 4 && 0x90 <= s[1] && s[1] <= 0xBF && is_cont_byte(s[2]) && is_cont_byte(
                s[3],
            ) && is_utf8(s.skip(4))
        } else if 0xF1 <= b0 && b0 <= 0xF3 {
            s.len() >= 4 && is_cont_byte(s[1]) && is_cont_byte(s[2]) && is_cont_byte(s[3])
                && is_utf8(s.skip(4))
        } else if b0 == 0xF4 {
            s.len() >= 4 && 0x80 <= s[1] && s[1] <= 0x8F && is_cont_byte(s[2]) && is_cont_byte(
                s[3],
            ) && is_utf8(s.skip(4))
        } else {
            false
        }
    }
}

/// Executable UTF-8 validity check.
pub fn check_utf8(bytes: &Vec<u8>) -> (r: bool)
    ensures
        r == is_utf8(bytes@),
{
    let n = bytes.len();
    let mut i: usize = 0;
    proof {
        assert(bytes@.skip(0) =~= bytes@);
    }
    while i < n
        invariant
            i <= n == bytes@.len(),
            is_utf8(bytes@) == is_utf8(bytes@.skip(i as int)),
        decreases n - i,
    {
        let ghost t = bytes@.skip(i as int);
        proof {
            assert(t.len() == n - i);
            assert(forall|k: int| 0 <= k < t.len() ==> t[k] == bytes@[i + k]);
        }
        let b0 = bytes[i];
        let step: usize;
        if b0 < 0x80 {
            step = 1;
        } else if 0xC2 <= b0 && b0 <= 0xDF {
            if n - i < 2 || !cont_byte(bytes[i + 1]) {
                return false;
            }
            step = 2;
        } else if b0 == 0xE0 {
            if n - i < 3 || !(0xA0 <= bytes[i + 1] && bytes[i + 1] <= 0xBF) || !cont_byte(
                bytes[i + 2],
            ) {
                return false;
            }
            step = 3;
        } else if b0 == 0xED {
            if n - i < 3 || !(0x80 <= bytes[i + 1] && bytes[i + 1] <= 0x9F) || !cont_byte(
                bytes[i + 2],
            ) {
                return false;
            }
            step = 3;
        } else if 0xE1 <= b0 && b0 <= 0xEF {
            if n - i < 3 || !cont_byte(bytes[i + 1]) || !cont_byte(bytes[i + 2]) {
                return false;
            }
            step = 3;
        } else if b0 == 0xF0 {
            if n - i < 4 || !(0x90 <= bytes[i + 1] && bytes[i + 1] <= 0xBF) || !cont_byte(
                bytes[i + 2],
            ) || !cont_byte(bytes[i + 3]) {
                return false;
            }
            step = 4;
        } else if 0xF1 <= b0 && b0 <= 0xF3 {
            if n - i < 4 || !cont_byte(bytes[i + 1]) || !cont_byte(bytes[i + 2]) || !cont_byte(
                bytes[i + 3],
            ) {
                return false;
            }
            step = 4;
        } else if b0 == 0xF4 {
            if n - i < 4 || !(0x80 <= bytes[i + 1] && bytes[i + 1] <= 0x8F) || !cont_byte(
                bytes[i + 2],
            ) || !cont_byte(bytes[i + 3]) {
                return false;
            }
            step = 4;
        } else {
            return false;
        }
        proof {
            assert(t.skip(step as int) =~= bytes@.skip(i + step as int));
        }
        i += step;
    }
    true
}

/// One entry of a template tree: the path segments below the template root
/// and, for a file, its raw bytes (`None` marks a directory).
pub struct TemplateEntry {
    /// Name segments of the entry's relative path, outermost first.
    pub path: Vec<Vec<u8>>,
    /// File bytes, or `None` for a directory.
    pub content: Option<Vec<u8>>,
}

/// Mathematical reading of an entry: its segment names and content.
pub open spec fn entry_model(e: TemplateEntry) -> (Seq<Seq<u8>>, Option<Seq<u8>>) {
    (
        Seq::new(e.path@.len(), |i: int| e.path@[i]@),
        match e.content {
            Some(c) => Some(c@),
            None => None,
        },
    )
}

/// Is the entry pruned? An entry is skipped when any of its path segments is
/// in the exclusion set, or names the manifest file while `skip_manifest`
/// holds; pruning a directory name thereby prunes its whole subtree.
pub open spec fn entry_skipped(e: TemplateEntry, ex: Seq<Vec<u8>>, skip_manifest: bool) -> bool {
    exists|i: int|
        0 <= i < e.path@.len() && (name_in(ex, e.path@[i]@) || (skip_manifest && e.path@[i]@
            == manifest_name()))
}

/// Rendered content of a file: substituted when the bytes are valid UTF-8,
/// the very same bytes otherwise.
pub open spec fn render_content(c: Seq<u8>, m: Map<Seq<u8>, Seq<u8>>) -> Seq<u8> {
    if is_utf8(c) {
        subst_bytes(c, m)
    } else {
        c
    }
}

/// Mathematical reading of a rendered entry: every segment name substituted,
/// file content rendered.
pub open spec fn rendered_model(e: TemplateEntry, m: Map<Seq<u8>, Seq<u8>>) -> (
    Seq<Seq<u8>>,
    Option<Seq<u8>>,
) {
    (
        Seq::new(e.path@.len(), |i: int| subst_bytes(e.path@[i]@, m)),
        match e.content {
            Some(c) => Some(render_content(c@, m)),
            None => None,
        },
    )
}

/// Executable form of [`entry_skipped`].
pub fn entry_is_skipped(e: &TemplateEntry, excluded: &Vec<Vec<u8>>, skip_manifest: bool) -> (r:
    bool)
    ensures
        r == entry_skipped(*e, excluded@, skip_manifest),
{
    let manifest = manifest_file_name();
    let mut i: usize = 0;
    while i < e.path.len()
        invariant
            i <= e.path@.len(),
            manifest@ == manifest_name(),
            forall|j: int|
                0 <= j < i ==> !(name_in(excluded@, e.path@[j]@) || (skip_manifest && e.path@[j]@
                    == manifest_name())),
        decreases e.path@.len() - i,
    {
        if contains_name(excluded, &e.path[i]) {
            return true;
        }
        if skip_manifest && eq_bytes(&e.path[i], &manifest) {
            return true;
        }
        i += 1;
    }
    false
}

/// Render a file's bytes: substitute variables when they are valid UTF-8 text,
/// copy them byte-for-byte otherwise — no substitution is ever attempted on a
/// byte sequence that is not valid UTF-8.
pub fn render_file_content(content: &Vec<u8>, vars: &Assignment) -> (out: Vec<u8>)
    requires
        vars.wf(),
    ensures
        out@ == render_content(content@, vars@),
        !is_utf8(content@) ==> out@ == content@,
{
    if check_utf8(content) {
        substitute_variables(content, vars)
    } else {
        clone_bytes(content)
    }
}

/// Render one entry: `None` when the entry is pruned, otherwise the entry
/// with every path segment substituted and file content rendered.
pub fn render_entry(e: &TemplateEntry, vars: &Assignment, excluded: &Vec<Vec<u8>>,
    skip_manifest: bool) -> (r: Option<TemplateEntry>)
    requires
        vars.wf(),
    ensures
        (r is None) == entry_skipped(*e, excluded@, skip_manifest),
        match r {
            Some(out) => entry_model(out) == rendered_model(*e, vars@),
            None => true,
        },
{
    if entry_is_skipped(e, excluded, skip_manifest) {
        return None;
    }
    let mut path: Vec<Vec<u8>> = Vec::new();
    let mut i: usize = 0;
    while i < e.path.len()
        invariant
            i <= e.path@.len(),
            vars.wf(),
            path@.len() == i,
            forall|j: int| 0 <= j < i ==> path@[j]@ == subst_bytes(e.path@[j]@, vars@),
        decreases e.path@.len() - i,
    {
        path.push(substitute_variables(&e.path[i], vars));
        i += 1;
    }
    let content = match &e.content {
        Some(c) => Some(render_file_content(c, vars)),
        None => None,
    };
    let out = TemplateEntry { path, content };
    proof {
        assert(entry_model(out).0 =~= rendered_model(*e, vars@).0);
    }
    Some(out)
}

/// Mathematical reading of a whole rendered tree: the models of the surviving
/// entries, in walk order.
pub open spec fn render_list(
    s: Seq<TemplateEntry>,
    m: Map<Seq<u8>, Seq<u8>>,
    ex: Seq<Vec<u8>>,
    skip_manifest: bool,
) -> Seq<(Seq<Seq<u8>>, Option<Seq<u8>>)>
    decreases s.len(),
{
    if s.len() == 0 {
        Seq::empty()
    } else {
        let rest = render_list(s.skip(1), m, ex, skip_manifest);
        if entry_skipped(s[0], ex, skip_manifest) {
            rest
        } else {
            seq![rendered_model(s[0], m)] + rest
        }
    }
}

/// Models of a list of entries.
pub open spec fn entry_models(s: Seq<TemplateEntry>) -> Seq<(Seq<Seq<u8>>, Option<Seq<u8>>)> {
    Seq::new(s.len(), |i: int| entry_model(s[i]))
}

/// Render a whole template tree, one entry at a time: pruned entries are
/// dropped, all others have their names substituted and contents rendered,
/// and the walk order is kept.
pub fn render_entries(entries: &Vec<TemplateEntry>, vars: &Assignment, excluded: &Vec<Vec<u8>>,
    skip_manifest: bool) -> (out: Vec<TemplateEntry>)
    requires
        vars.wf(),
    ensures
        entry_models(out@) == render_list(entries@, vars@, excluded@, skip_manifest),
{
    let ghost m = vars@;
    let mut out: Vec<TemplateEntry> = Vec::new();
    let mut i: usize = 0;
    proof {
        assert(entries@.skip(0) =~= entries@);
        assert(entry_models(out@) + render_list(entries@, m, excluded@, skip_manifest)
            =~= render_list(entries@, m, excluded@, skip_manifest));
    }
    while i < entries.len()
        invariant
            i <= entries@.len(),
            vars.wf(),
            m == vars@,
            render_list(entries@, m, excluded@, skip_manifest) == entry_models(out@)
                + render_list(entries@.skip(i as int), m, excluded@, skip_manifest),
        decreases entries@.len() - i,
    {
        let ghost t = entries@.skip(i as int);
        let ghost out0 = out@;
        proof {
            assert(t[0] == entries@[i as int]);
            assert(t.skip(1) =~= entries@.skip(i as int + 1));
        }
        match render_entry(&entries[i], vars, excluded, skip_manifest) {
            Some(r) => {
                out.push(r);
                proof {
                    assert(entry_models(out@) =~= entry_models(out0) + seq![entry_model(r)]);
                    assert(entry_models(out0) + (seq![rendered_model(entries@[i as int], m)]
                        + render_list(entries@.skip(i as int + 1), m, excluded@, skip_manifest))
                        =~= (entry_models(out0) + seq![entry_model(r)]) + render_list(
                        entries@.skip(i as int + 1),
                        m,
                        excluded@,
                        skip_manifest,
                    ));
                }
            },
            None => {},
        }
        i += 1;
    }
    proof {
        assert(entries@.skip(entries@.len() as int).len() == 0);
        assert(entry_models(out@) + Seq::<(Seq<Seq<u8>>, Option<Seq<u8>>)>::empty()
            =~= entry_models(out@));
    }
    out
}

/// Number of files a render of `s` would write: file entries that are not
/// pruned, the manifest file never among them.
pub open spec fn count_rendered(s: Seq<TemplateEntry>, ex: Seq<Vec<u8>>) -> int
    decreases s.len(),
{
    if s.len() == 0 {
        0
    } else {
        (if !entry_skipped(s[0], ex, true) && s[0].content is Some {
            1int
        } else {
            0int
        }) + count_rendered(s.skip(1), ex)
    }
}

pub proof fn lemma_count_rendered_le(s: Seq<TemplateEntry>, ex: Seq<Vec<u8>>)
    ensures
        0 <= count_rendered(s, ex) <= s.len(),
    decreases s.len(),
{
    if s.len() > 0 {
        lemma_count_rendered_le(s.skip(1), ex);
    }
}

/// Count the files that rendering would write.
pub fn count_files(entries: &Vec<TemplateEntry>, excluded: &Vec<Vec<u8>>) -> (n: usize)
    ensures
        n == count_rendered(entries@, excluded@),
{
    let mut n: usize = 0;
    let mut i: usize = 0;
    proof {
        assert(entries@.skip(0) =~= entries@);
        lemma_count_rendered_le(entries@, excluded@);
    }
    while i < entries.len()
        invariant
            i <= entries@.len(),
            count_rendered(entries@, excluded@) == n + count_rendered(
                entries@.skip(i as int),
                excluded@,
            ),
            n <= i,
        decreases entries@.len() - i,
    {
        let ghost t = entries@.skip(i as int);
        proof {
            assert(t[0] == entries@[i as int]);
            assert(t.skip(1) =~= entries@.skip(i as int + 1));
            lemma_count_rendered_le(entries@.skip(i as int + 1), excluded@);
        }
        let is_file = match &entries[i].content {
            Some(_) => true,
            None => false,
        };
        if is_file && !entry_is_skipped(&entries[i], excluded, true) {
            n += 1;
        }
        i += 1;
    }
    proof {
        assert(entries@.skip(entries@.len() as int).len() == 0);
    }
    n
}

} // verus!
