//! Validation of command-line inputs: `key=value` variable overrides, names
//! under which a template may be registered, and the project name derived
//! from an output directory.

use vstd::prelude::*;

use crate::bytes::{first_index, find_byte, is_word_byte, sub_vec, word_byte};

verus! {

/// Why a `key=value` pair was rejected.
#[derive(Clone, Copy, Debug, PartialEq, Eq, Structural)]
pub enum KeyValError {
    /// No `=` separator in the argument.
    MissingSeparator,
}

/// Split a `key=value` argument at its first `=`; everything after that `=`
/// is the value, so values may themselves contain `=` and may be empty.
pub fn parse_key_val(s: &Vec<u8>) -> (r: Result<(Vec<u8>, Vec<u8>), KeyValError>)
    ensures
        match r {
            Ok(kv) => {
                &&& first_index(s@, ('=' as u8)) is Some
                &&& kv.0@ == s@.take(first_index(s@, ('=' as u8)).unwrap())
                &&& kv.1@ == s@.skip(first_index(s@, ('=' as u8)).unwrap() + 1)
            },
            Err(e) => e == KeyValError::MissingSeparator && first_index(s@, ('=' as u8)) is None,
        },
{
    match find_byte(s, '=' as u8) {
        Some(i) => {
            let n = s.len();
            assert(i < n);
            let key = sub_vec(s, 0, i);
            let value = sub_vec(s, i + 1, n);
            proof {
                assert(key@ =~= s@.take(i as int));
                assert(value@ =~= s@.skip(i as int + 1));
            }
            Ok((key, value))
        },
        None => Err(KeyValError::MissingSeparator),
    }
}

/// A byte allowed in a template name: identifier bytes plus the hyphen.
pub open spec fn is_name_byte(b: u8) -> bool {
    is_word_byte(b) || b == ('-' as u8)
}

/// Why a template name was rejected.
#[derive(Clone, Copy, Debug, PartialEq, Eq, Structural)]
pub enum NameError {
    /// The name is empty.
    Empty,
    /// The name contains a path separator.
    PathSeparator,
    /// The name starts with a dot.
    LeadingDot,
    /// The name holds a byte outside letters, digits, hyphen and underscore.
    InvalidByte,
}

/// The checks on a template name, in the order they are reported.
pub open spec fn name_issue(s: Seq<u8>) -> Option<NameError> {
    if s.len() == 0 {
        Some(NameError::Empty)
    } else if exists|i: int|
        0 <= i < s.len() && (s[i] == ('/' as u8) || s[i] == ('\\' as u8)) {
        Some(NameError::PathSeparator)
    } else if s[0] == ('.' as u8) {
        Some(NameError::LeadingDot)
    } else if exists|i: int| 0 <= i < s.len() && !is_name_byte(s[i]) {
        Some(NameError::InvalidByte)
    } else {
        None
    }
}

/// Validate a name under which a template is registered: non-empty, free of
/// path separators, not starting with a dot, and made of letters, digits,
/// hyphens and underscores alone. The allowed letters and digits are ASCII,
/// by choice: a template name doubles as a directory name, and the ASCII
/// rule keeps it portable across filesystems.
pub fn validate_template_name(name: &Vec<u8>) -> (r: Result<(), NameError>)
    ensures
        match r {
            Ok(()) => name_issue(name@) is None,
            Err(e) => name_issue(name@) == Some(e),
        },
{
    let n = name.len();
    if n == 0 {
        return Err(NameError::Empty);
    }
    let mut i: usize = 0;
    while i < n
        invariant
            i <= n == name@.len(),
            forall|j: int| 0 <= j < i ==> name@[j] != ('/' as u8) && name@[j] != ('\\' as u8),
        decreases n - i,
    {
        if name[i] == ('/' as u8) || name[i] == ('\\' as u8) {
            return Err(NameError::PathSeparator);
        }
        i += 1;
    }
    proof {
        assert(forall|j: int|
            0 <= j < name@.len() ==> name@[j] != ('/' as u8) && name@[j] != ('\\' as u8));
    }
    if name[0] == ('.' as u8) {
        return Err(NameError::LeadingDot);
    }
    let mut k: usize = 0;
    while k < n
        invariant
            k <= n == name@.len(),
            name@[0] != ('.' as u8),
            forall|j: int| 0 <= j < k ==> is_name_byte(name@[j]),
            forall|j: int|
                0 <= j < name@.len() ==> name@[j] != ('/' as u8) && name@[j] != ('\\' as u8),
        decreases n - k,
    {
        if !(word_byte(name[k]) || name[k] == ('-' as u8)) {
            proof {
                assert(!is_name_byte(name@[k as int]));
            }
            return Err(NameError::InvalidByte);
        }
        k += 1;
    }
    Ok(())
}

/// Project name derived from an output directory's name: hyphens become
/// underscores, so the default is a valid identifier in most target
/// languages.
pub open spec fn derived_name(s: Seq<u8>) -> Seq<u8> {
    Seq::new(
        s.len(),
        |i: int|
            if s[i] == ('-' as u8) {
                ('_' as u8)
            } else {
                s[i]
            },
    )
}

/// Derive a default project name from the output directory's base name.
pub fn derive_project_name(dir_name: &Vec<u8>) -> (r: Vec<u8>)
    ensures
        r@ == derived_name(dir_name@),
{
    let mut r: Vec<u8> = Vec::new();
    let mut i: usize = 0;
    while i < dir_name.len()
        invariant
            i <= dir_name@.len(),
            r@ =~= derived_name(dir_name@).take(i as int),
        decreases dir_name@.len() - i,
    {
        if dir_name[i] == ('-' as u8) {
            r.push('_' as u8);
        } else {
            r.push(dir_name[i]);
        }
        proof {
            assert(r@ =~= derived_name(dir_name@).take(i + 1 as int));
        }
        i += 1;
    }
    proof {
        assert(r@ =~= derived_name(dir_name@));
    }
    r
}

} // verus!
