//! The template registry: merging the user's local templates with the
//! bundled set (local names shadow bundled ones of the same name, never the
//! reverse), the decision whether a directory entry counts as a template,
//! and the version-marker rule that triggers re-extraction of the bundled
//! cache.

use vstd::prelude::*;

use crate::bytes::{clone_bytes, contains_name, eq_bytes, is_space_byte, name_in, space_byte,
    sub_vec};
use crate::manifest::TemplateConfig;
use crate::subst::{lemma_space_run_le, scan_spaces, space_run};

verus! {

/// Where a template came from.
#[derive(Debug, Clone, Copy, PartialEq, Eq, Structural)]
pub enum TemplateSource {
    /// A template in the user's local templates directory.
    Local,
    /// A built-in template extracted from the bundled set.
    Bundled,
}

/// An available template: its directory name, parsed manifest, provenance,
/// and the path of its root.
pub struct AvailableTemplate {
    /// Name of the directory holding the template; the key callers select by.
    pub dir_name: Vec<u8>,
    /// The parsed manifest.
    pub config: TemplateConfig,
    /// Local or bundled.
    pub source: TemplateSource,
    /// Path of the template root, as bytes.
    pub path: Vec<u8>,
}

/// Is some template of `s` named `n`?
pub open spec fn has_dir_name(s: Seq<AvailableTemplate>, n: Seq<u8>) -> bool {
    exists|i: int| 0 <= i < s.len() && s[i].dir_name@ == n
}

/// The bundled templates that survive the merge: those whose name no local
/// template carries, in order.
pub open spec fn keep_unshadowed(l: Seq<AvailableTemplate>, b: Seq<AvailableTemplate>) -> Seq<
    AvailableTemplate,
>
    decreases b.len(),
{
    if b.len() == 0 {
        Seq::empty()
    } else {
        keep_unshadowed(l, b.drop_last()) + (if has_dir_name(l, b.last().dir_name@) {
            Seq::empty()
        } else {
            seq![b.last()]
        })
    }
}

/// The merged registry: all local templates first, then the bundled ones
/// whose names are not shadowed.
pub open spec fn merge_templates(l: Seq<AvailableTemplate>, b: Seq<AvailableTemplate>) -> Seq<
    AvailableTemplate,
> {
    l + keep_unshadowed(l, b)
}

/// Merge the scanned local templates with the scanned bundled templates:
/// local templates come first and a bundled template is dropped when a local
/// one has the same directory name.
pub fn get_available_templates(local: Vec<AvailableTemplate>, bundled: Vec<AvailableTemplate>)
    -> (out: Vec<AvailableTemplate>)
    ensures
        out@ == merge_templates(local@, bundled@),
{
    let ghost l = local@;
    let ghost b0 = bundled@;
    let mut names: Vec<Vec<u8>> = Vec::new();
    let mut i: usize = 0;
    while i < local.len()
        invariant
            i <= local@.len(),
            l == local@,
            names@.len() == i,
            forall|j: int| 0 <= j < i ==> names@[j]@ == local@[j].dir_name@,
        decreases local@.len() - i,
    {
        names.push(clone_bytes(&local[i].dir_name));
        i += 1;
    }
    let mut out = local;
    let mut rest = bundled;
    let ghost mut done = Seq::<AvailableTemplate>::empty();
    proof {
        assert(done + rest@ =~= b0);
        assert(keep_unshadowed(l, done) =~= Seq::<AvailableTemplate>::empty());
        assert(out@ =~= l + keep_unshadowed(l, done));
    }
    while rest.len() > 0
        invariant
            done + rest@ == b0,
            out@ == l + keep_unshadowed(l, done),
            names@.len() == l.len(),
            forall|j: int| 0 <= j < l.len() ==> names@[j]@ == l[j].dir_name@,
        decreases rest@.len(),
    {
        let ghost done0 = done;
        let ghost rest0 = rest@;
        let t = rest.remove(0);
        let keep = !contains_name(&names, &t.dir_name);
        proof {
            done = done0.push(t);
            assert(done + rest@ =~= b0) by {
                assert(rest0 =~= seq![t] + rest0.remove(0));
                assert(done0.push(t) + rest0.remove(0) =~= done0 + rest0);
            }
            // The membership test over the copied names decides shadowing.
            assert(keep == !has_dir_name(l, t.dir_name@)) by {
                if name_in(names@, t.dir_name@) {
                    let j = choose|j: int|
                        0 <= j < names@.len() && names@[j]@ == t.dir_name@;
                    assert(l[j].dir_name@ == t.dir_name@);
                }
                if has_dir_name(l, t.dir_name@) {
                    let j = choose|j: int| 0 <= j < l.len() && l[j].dir_name@ == t.dir_name@;
                    assert(names@[j]@ == t.dir_name@);
                }
            }
            assert(done.drop_last() =~= done0);
            assert(done.last() == t);
        }
        if keep {
            out.push(t);
            proof {
                assert(keep_unshadowed(l, done) =~= keep_unshadowed(l, done0) + seq![t]);
                assert(out@ =~= l + keep_unshadowed(l, done));
            }
        } else {
            proof {
                assert(keep_unshadowed(l, done) =~= keep_unshadowed(l, done0));
                assert(out@ =~= l + keep_unshadowed(l, done));
            }
        }
    }
    proof {
        assert(done + rest@ =~= done);
    }
    out
}

/// How many templates of `s` are named `n`.
pub open spec fn count_named(s: Seq<AvailableTemplate>, n: Seq<u8>) -> int
    decreases s.len(),
{
    if s.len() == 0 {
        0
    } else {
        (if s[0].dir_name@ == n {
            1int
        } else {
            0int
        }) + count_named(s.skip(1), n)
    }
}

proof fn lemma_count_named_concat(x: Seq<AvailableTemplate>, y: Seq<AvailableTemplate>, n: Seq<u8>)
    ensures
        count_named(x + y, n) == count_named(x, n) + count_named(y, n),
    decreases x.len(),
{
    if x.len() == 0 {
        assert(x + y =~= y);
    } else {
        assert((x + y)[0] == x[0]);
        assert((x + y).skip(1) =~= x.skip(1) + y);
        lemma_count_named_concat(x.skip(1), y, n);
    }
}

proof fn lemma_keep_unshadowed_none_named(
    l: Seq<AvailableTemplate>,
    b: Seq<AvailableTemplate>,
    n: Seq<u8>,
)
    requires
        has_dir_name(l, n),
    ensures
        count_named(keep_unshadowed(l, b), n) == 0,
        forall|i: int|
            0 <= i < keep_unshadowed(l, b).len() ==> keep_unshadowed(l, b)[i].dir_name@ != n,
    decreases b.len(),
{
    if b.len() == 0 {
        assert(count_named(keep_unshadowed(l, b), n) == 0);
    } else {
        lemma_keep_unshadowed_none_named(l, b.drop_last(), n);
        let tail: Seq<AvailableTemplate> = if has_dir_name(l, b.last().dir_name@) {
            Seq::empty()
        } else {
            seq![b.last()]
        };
        lemma_count_named_concat(keep_unshadowed(l, b.drop_last()), tail, n);
        if tail.len() > 0 {
            assert(tail[0] == b.last());
            if b.last().dir_name@ == n {
                assert(has_dir_name(l, b.last().dir_name@));
            }
            assert(count_named(tail.skip(1), n) == 0) by {
                assert(tail.skip(1) =~= Seq::<AvailableTemplate>::empty());
            }
            assert(count_named(tail, n) == 0);
        }
        assert(forall|i: int|
            0 <= i < keep_unshadowed(l, b).len() ==> keep_unshadowed(l, b)[i] == (if i
                < keep_unshadowed(l, b.drop_last()).len() {
                keep_unshadowed(l, b.drop_last())[i]
            } else {
                tail[i - keep_unshadowed(l, b.drop_last()).len()]
            }));
    }
}

/// Law of the registry merge: when some local template is named `n`, the
/// merged registry holds exactly as many templates named `n` as the local
/// list does — a bundled template never survives under a locally taken name —
/// and the local list itself is kept unchanged at the front of the result.
/// With a single local template named `n`, the registry thus returns exactly
/// one entry for `n`, the local one.
pub proof fn lemma_local_shadows_bundled(
    l: Seq<AvailableTemplate>,
    b: Seq<AvailableTemplate>,
    n: Seq<u8>,
)
    requires
        has_dir_name(l, n),
    ensures
        count_named(merge_templates(l, b), n) == count_named(l, n),
        merge_templates(l, b).take(l.len() as int) == l,
        forall|i: int|
            l.len() <= i < merge_templates(l, b).len() ==> merge_templates(
                l,
                b,
            )[i].dir_name@ != n,
{
    lemma_keep_unshadowed_none_named(l, b, n);
    lemma_count_named_concat(l, keep_unshadowed(l, b), n);
    assert(merge_templates(l, b).take(l.len() as int) =~= l);
    assert(forall|i: int|
        l.len() <= i < merge_templates(l, b).len() ==> merge_templates(l, b)[i]
            == keep_unshadowed(l, b)[i - l.len()]);
}

/// What a directory entry found while scanning a templates directory is:
/// not a template at all, a directory lacking a manifest (skipped with a
/// warning so one broken template cannot hide the others), or a template to
/// load.
#[derive(Debug, Clone, Copy, PartialEq, Eq, Structural)]
pub enum ScanEntryAction {
    /// Not a candidate: a file, or a hidden directory.
    Ignore,
    /// A directory without a manifest file: skipped, with a warning.
    SkipWithWarning,
    /// A template directory whose manifest should be loaded.
    Load,
}

/// The decision on one scanned entry.
pub open spec fn scan_decision_spec(name: Seq<u8>, is_dir: bool, has_manifest: bool)
    -> ScanEntryAction {
    if !is_dir {
        ScanEntryAction::Ignore
    } else if name.len() > 0 && name[0] == ('.' as u8) {
        ScanEntryAction::Ignore
    } else if !has_manifest {
        ScanEntryAction::SkipWithWarning
    } else {
        ScanEntryAction::Load
    }
}

/// Decide what to do with one entry of a templates directory: only visible
/// directories count, and only those directly holding a manifest file load.
pub fn scan_decision(name: &Vec<u8>, is_dir: bool, has_manifest: bool) -> (r: ScanEntryAction)
    ensures
        r == scan_decision_spec(name@, is_dir, has_manifest),
{
    if !is_dir {
        ScanEntryAction::Ignore
    } else if name.len() > 0 && name[0] == ('.' as u8) {
        ScanEntryAction::Ignore
    } else if !has_manifest {
        ScanEntryAction::SkipWithWarning
    } else {
        ScanEntryAction::Load
    }
}

/// Length of the whitespace run at the end of `s`.
pub open spec fn trailing_spaces(s: Seq<u8>) -> nat
    decreases s.len(),
{
    if s.len() > 0 && is_space_byte(s[s.len() - 1]) {
        trailing_spaces(s.take(s.len() - 1)) + 1
    } else {
        0
    }
}

/// `s` with leading and trailing whitespace removed.
pub open spec fn trim_spec(s: Seq<u8>) -> Seq<u8> {
    if space_run(s) == s.len() {
        Seq::empty()
    } else {
        s.subrange(space_run(s) as int, s.len() - trailing_spaces(s))
    }
}

/// Strip leading and trailing whitespace.
pub fn trim_bytes(s: &Vec<u8>) -> (r: Vec<u8>)
    ensures
        r@ == trim_spec(s@),
{
    let n = s.len();
    proof {
        lemma_space_run_le(s@);
        assert(s@.skip(0) =~= s@);
    }
    let start = scan_spaces(s, 0);
    if start == n {
        let r: Vec<u8> = Vec::new();
        proof {
            assert(r@ =~= trim_spec(s@));
        }
        return r;
    }
    let mut j: usize = n;
    proof {
        assert(s@.take(n as int) =~= s@);
        assert(j == n > start);
        assert(!is_space_byte(s@[start as int]));
    }
    while j > start && space_byte(s[j - 1])
        invariant
            start < j <= n == s@.len(),
            start == space_run(s@),
            start < n,
            !is_space_byte(s@[start as int]),
            trailing_spaces(s@) == n - j + trailing_spaces(s@.take(j as int)),
        decreases j,
    {
        proof {
            assert(s@.take(j as int).len() == j);
            assert(s@.take(j as int)[j - 1] == s@[j - 1]);
            assert(s@.take(j as int).take(j - 1) =~= s@.take(j - 1));
            assert(j - 1 > start) by {
                if j - 1 == start {
                    assert(is_space_byte(s@[start as int]));
                }
            }
        }
        j -= 1;
    }
    proof {
        assert(j > start);
        assert(s@.take(j as int)[j - 1] == s@[j - 1]);
        assert(!is_space_byte(s@[j - 1]));
        assert(trailing_spaces(s@.take(j as int)) == 0);
        assert(trailing_spaces(s@) == n - j);
    }
    let r = sub_vec(s, start, j);
    proof {
        assert(r@ =~= trim_spec(s@));
    }
    r
}

/// Must the bundled cache be re-extracted? Yes when there is no readable
/// version marker, or when the marker's trimmed contents differ from the
/// running program's version.
pub fn needs_extraction(marker: &Option<Vec<u8>>, current_version: &Vec<u8>) -> (r: bool)
    ensures
        r == !(match *marker {
            Some(m) => trim_spec(m@) == current_version@,
            None => false,
        }),
{
    match marker {
        Some(m) => {
            let t = trim_bytes(m);
            !eq_bytes(&t, current_version)
        },
        None => true,
    }
}

} // verus!
