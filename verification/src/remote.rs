//! Remote template references. An identifier denotes a remote repository when
//! it begins with a well-known scheme (`https://`, `http://`, `git@`,
//! `git://`) or the `github:` shorthand, and may carry a `#subpath` fragment
//! selecting a subdirectory of the cloned tree as the template root. The
//! shorthand `github:owner/repo` expands to `https://github.com/owner/repo.git`.

use vstd::prelude::*;

use crate::bytes::{clone_bytes, find_byte, first_index, has_prefix, push_all, starts_with,
    sub_vec};

verus! {

/// The bytes of `https://`.
pub open spec fn https_scheme() -> Seq<u8> {
    seq![
        ('h' as u8),
        ('t' as u8),
        ('t' as u8),
        ('p' as u8),
        ('s' as u8),
        (':' as u8),
        ('/' as u8),
        ('/' as u8),
    ]
}

/// The bytes of `http://`.
pub open spec fn http_scheme() -> Seq<u8> {
    seq![
        ('h' as u8),
        ('t' as u8),
        ('t' as u8),
        ('p' as u8),
        (':' as u8),
        ('/' as u8),
        ('/' as u8),
    ]
}

/// The bytes of `git@`.
pub open spec fn git_at_prefix() -> Seq<u8> {
    seq![('g' as u8), ('i' as u8), ('t' as u8), ('@' as u8)]
}

/// The bytes of `git://`.
pub open spec fn git_scheme() -> Seq<u8> {
    seq![('g' as u8), ('i' as u8), ('t' as u8), (':' as u8), ('/' as u8), ('/' as u8)]
}

/// The bytes of `github:`.
pub open spec fn github_scheme() -> Seq<u8> {
    seq![
        ('g' as u8),
        ('i' as u8),
        ('t' as u8),
        ('h' as u8),
        ('u' as u8),
        ('b' as u8),
        (':' as u8),
    ]
}

/// The bytes of `https://github.com/`.
pub open spec fn github_base() -> Seq<u8> {
    seq![
        ('h' as u8),
        ('t' as u8),
        ('t' as u8),
        ('p' as u8),
        ('s' as u8),
        (':' as u8),
        ('/' as u8),
        ('/' as u8),
        ('g' as u8),
        ('i' as u8),
        ('t' as u8),
        ('h' as u8),
        ('u' as u8),
        ('b' as u8),
        ('.' as u8),
        ('c' as u8),
        ('o' as u8),
        ('m' as u8),
        ('/' as u8),
    ]
}

/// The bytes of `.git`.
pub open spec fn git_suffix() -> Seq<u8> {
    seq![('.' as u8), ('g' as u8), ('i' as u8), ('t' as u8)]
}

fn lit_https_scheme() -> (v: Vec<u8>)
    ensures
        v@ == https_scheme(),
{
    let mut v: Vec<u8> = Vec::new();
    v.push('h' as u8);
    v.push('t' as u8);
    v.push('t' as u8);
    v.push('p' as u8);
    v.push('s' as u8);
    v.push(':' as u8);
    v.push('/' as u8);
    v.push('/' as u8);
    proof {
        assert(v@ =~= https_scheme());
    }
    v
}

fn lit_http_scheme() -> (v: Vec<u8>)
    ensures
        v@ == http_scheme(),
{
    let mut v: Vec<u8> = Vec::new();
    v.push('h' as u8);
    v.push('t' as u8);
    v.push('t' as u8);
    v.push('p' as u8);
    v.push(':' as u8);
    v.push('/' as u8);
    v.push('/' as u8);
    proof {
        assert(v@ =~= http_scheme());
    }
    v
}

fn lit_git_at_prefix() -> (v: Vec<u8>)
    ensures
        v@ == git_at_prefix(),
{
    let mut v: Vec<u8> = Vec::new();
    v.push('g' as u8);
    v.push('i' as u8);
    v.push('t' as u8);
    v.push('@' as u8);
    proof {
        assert(v@ =~= git_at_prefix());
    }
    v
}

fn lit_git_scheme() -> (v: Vec<u8>)
    ensures
        v@ == git_scheme(),
{
    let mut v: Vec<u8> = Vec::new();
    v.push('g' as u8);
    v.push('i' as u8);
    v.push('t' as u8);
    v.push(':' as u8);
    v.push('/' as u8);
    v.push('/' as u8);
    proof {
        assert(v@ =~= git_scheme());
    }
    v
}

fn lit_github_scheme() -> (v: Vec<u8>)
    ensures
        v@ == github_scheme(),
{
    let mut v: Vec<u8> = Vec::new();
    v.push('g' as u8);
    v.push('i' as u8);
    v.push('t' as u8);
    v.push('h' as u8);
    v.push('u' as u8);
    v.push('b' as u8);
    v.push(':' as u8);
    proof {
        assert(v@ =~= github_scheme());
    }
    v
}

fn lit_github_base() -> (v: Vec<u8>)
    ensures
        v@ == github_base(),
{
    let mut v: Vec<u8> = Vec::new();
    v.push('h' as u8);
    v.push('t' as u8);
    v.push('t' as u8);
    v.push('p' as u8);
    v.push('s' as u8);
    v.push(':' as u8);
    v.push('/' as u8);
    v.push('/' as u8);
    v.push('g' as u8);
    v.push('i' as u8);
    v.push('t' as u8);
    v.push('h' as u8);
    v.push('u' as u8);
    v.push('b' as u8);
    v.push('.' as u8);
    v.push('c' as u8);
    v.push('o' as u8);
    v.push('m' as u8);
    v.push('/' as u8);
    proof {
        assert(v@ =~= github_base());
    }
    v
}

fn lit_git_suffix() -> (v: Vec<u8>)
    ensures
        v@ == git_suffix(),
{
    let mut v: Vec<u8> = Vec::new();
    v.push('.' as u8);
    v.push('g' as u8);
    v.push('i' as u8);
    v.push('t' as u8);
    proof {
        assert(v@ =~= git_suffix());
    }
    v
}

/// Does the identifier denote a remote repository?
pub open spec fn is_git_url_spec(s: Seq<u8>) -> bool {
    has_prefix(s, https_scheme()) || has_prefix(s, http_scheme()) || has_prefix(
        s,
        git_at_prefix(),
    ) || has_prefix(s, git_scheme()) || has_prefix(s, github_scheme())
}

/// Check whether a template identifier is a remote repository reference
/// rather than a local path.
pub fn is_git_url(path: &Vec<u8>) -> (r: bool)
    ensures
        r == is_git_url_spec(path@),
{
    let https = lit_https_scheme();
    let http = lit_http_scheme();
    let git_at = lit_git_at_prefix();
    let git = lit_git_scheme();
    let github = lit_github_scheme();
    starts_with(path, &https) || starts_with(path, &http) || starts_with(path, &git_at)
        || starts_with(path, &git) || starts_with(path, &github)
}

/// The `github:` shorthand stripped when present.
pub open spec fn git_body_of(u: Seq<u8>) -> Seq<u8> {
    if has_prefix(u, github_scheme()) {
        u.skip(7)
    } else {
        u
    }
}

/// Repository URL of a remote reference: the part before the first `#`,
/// expanded to `https://github.com/<body>.git` for the shorthand.
pub open spec fn git_repo_of(u: Seq<u8>) -> Seq<u8> {
    let body = git_body_of(u);
    let repo = match first_index(body, ('#' as u8)) {
        Some(i) => body.take(i),
        None => body,
    };
    if has_prefix(u, github_scheme()) {
        github_base() + repo + git_suffix()
    } else {
        repo
    }
}

/// Subpath of a remote reference: what follows the first `#`, if any.
pub open spec fn git_subpath_of(u: Seq<u8>) -> Option<Seq<u8>> {
    let body = git_body_of(u);
    match first_index(body, ('#' as u8)) {
        Some(i) => Some(body.skip(i + 1)),
        None => None,
    }
}

/// A parsed remote reference: repository URL and optional subpath.
pub struct RemoteUrl {
    /// The URL handed to the clone command.
    pub repo_url: Vec<u8>,
    /// Subdirectory of the cloned tree to use as the template root.
    pub subpath: Option<Vec<u8>>,
}

/// Parse a remote reference, extracting the repository URL and the optional
/// `#subpath` fragment.
pub fn parse_git_url(url: &Vec<u8>) -> (r: RemoteUrl)
    ensures
        r.repo_url@ == git_repo_of(url@),
        match r.subpath {
            Some(s) => git_subpath_of(url@) == Some(s@),
            None => git_subpath_of(url@) is None,
        },
{
    let github = lit_github_scheme();
    let shorthand = starts_with(url, &github);
    let body: Vec<u8> = if shorthand {
        let b = sub_vec(url, 7, url.len());
        proof {
            assert(b@ =~= url@.skip(7));
        }
        b
    } else {
        clone_bytes(url)
    };
    let ghost bs = git_body_of(url@);
    proof {
        assert(body@ == bs);
    }
    let (repo, subpath): (Vec<u8>, Option<Vec<u8>>) = match find_byte(&body, '#' as u8) {
        Some(i) => {
            let blen = body.len();
            assert(i < blen);
            let rp = sub_vec(&body, 0, i);
            let sp = sub_vec(&body, i + 1, blen);
            proof {
                assert(rp@ =~= bs.take(i as int));
                assert(sp@ =~= bs.skip(i as int + 1));
            }
            (rp, Some(sp))
        },
        None => (body, None),
    };
    if shorthand {
        let mut out = lit_github_base();
        push_all(&mut out, &repo);
        let suffix = lit_git_suffix();
        push_all(&mut out, &suffix);
        RemoteUrl { repo_url: out, subpath }
    } else {
        RemoteUrl { repo_url: repo, subpath }
    }
}

} // verus!
