//! The ignore policy: which paths never leave the machine.
//!
//! A path is judged segment by segment after its separators have been
//! normalized to forward slashes. The version-control directory and the
//! dependency-install directory are always excluded; an ignore list adds
//! further names.

use vstd::prelude::*;
use crate::text::{chars_of, occurs_at, occurs_at_exec, replace_char, replaced};

verus! {

/// `path` with every backslash turned into a forward slash.
pub open spec fn normalized(path: Seq<char>) -> Seq<char> {
    replaced(path, '\\', '/')
}

/// `name` stands in `p` at index `i` as a whole run of segments: it begins at
/// the start of `p` or after a slash, and ends at the end of `p` or before a
/// slash.
pub open spec fn segment_at(p: Seq<char>, name: Seq<char>, i: int) -> bool {
    &&& occurs_at(p, name, i)
    &&& (i == 0 || p[i - 1] == '/')
    &&& (i + name.len() == p.len() || p[i + name.len()] == '/')
}

/// Some segment of `p` is `name`. The empty name is no segment.
pub open spec fn has_segment(p: Seq<char>, name: Seq<char>) -> bool {
    name.len() > 0 && exists|i: int| segment_at(p, name, i)
}

/// Some name of the ignore list is a segment of `p`.
pub open spec fn listed(p: Seq<char>, ignore: Seq<String>) -> bool {
    exists|k: int| 0 <= k < ignore.len() && has_segment(p, #[trigger] ignore[k]@)
}

/// The policy itself, on a path whose separators may be of either kind.
pub open spec fn excluded(path: Seq<char>, ignore: Seq<String>) -> bool {
    let p = normalized(path);
    has_segment(p, ".git"@) || has_segment(p, "node_modules"@) || listed(p, ignore)
}

/// Normalizing twice changes nothing.
pub proof fn lemma_normalized_idempotent(path: Seq<char>)
    ensures
        normalized(normalized(path)) == normalized(path),
{
    assert(normalized(normalized(path)) =~= normalized(path));
}

/// The policy gives the same answer before and after normalization.
pub proof fn lemma_excluded_normalized(path: Seq<char>, ignore: Seq<String>)
    ensures
        excluded(normalized(path), ignore) == excluded(path, ignore),
{
    lemma_normalized_idempotent(path);
}

/// The ignore list in use when none is supplied.
pub fn default_ignore() -> (r: Vec<String>)
    ensures
        r@.len() == 1,
        r@[0]@ == "node_modules"@,
{
    let mut list: Vec<String> = Vec::new();
    list.push(String::from_str("node_modules"));
    list
}

/// The characters of `path` with separators normalized.
pub fn normalize(path: &str) -> (r: Vec<char>)
    ensures
        r@ == normalized(path@),
{
    let chars = chars_of(path);
    replace_char(&chars, '\\', '/')
}

/// Whether `name` is a segment of `p`.
pub fn has_segment_exec(p: &Vec<char>, name: &Vec<char>) -> (r: bool)
    ensures
        r == has_segment(p@, name@),
{
    if name.len() == 0 || name.len() > p.len() {
        return false;
    }
    let last: usize = p.len() - name.len();
    let mut i: usize = 0;
    loop
        invariant
            name.len() > 0,
            last == p.len() - name.len(),
            i <= last,
            forall|j: int| 0 <= j < i ==> !segment_at(p@, name@, j),
        decreases last - i,
    {
        if (i == 0 || p[i - 1] == '/') && (i == last || p[i + name.len()] == '/') && occurs_at_exec(
            p,
            name,
            i,
        ) {
            assert(segment_at(p@, name@, i as int));
            return true;
        }
        if i == last {
            return false;
        }
        i += 1;
    }
}

/// Whether some name of the ignore list is a segment of `p`.
pub fn listed_exec(p: &Vec<char>, ignore: &Vec<String>) -> (r: bool)
    ensures
        r == listed(p@, ignore@),
{
    let mut k: usize = 0;
    while k < ignore.len()
        invariant
            k <= ignore.len(),
            forall|j: int| 0 <= j < k ==> !has_segment(p@, #[trigger] ignore@[j]@),
        decreases ignore.len() - k,
    {
        let name = chars_of(ignore[k].as_str());
        if has_segment_exec(p, &name) {
            return true;
        }
        k += 1;
    }
    false
}

/// Whether the policy excludes a path that is already normalized.
pub fn excluded_normalized(p: &Vec<char>, ignore: &Vec<String>) -> (r: bool)
    ensures
        r == (has_segment(p@, ".git"@) || has_segment(p@, "node_modules"@) || listed(p@, ignore@)),
{
    let git = chars_of(".git");
    let modules = chars_of("node_modules");
    has_segment_exec(p, &git) || has_segment_exec(p, &modules) || listed_exec(p, ignore)
}

/// Whether the policy excludes `path`.
pub fn is_excluded(path: &str, ignore: &Vec<String>) -> (r: bool)
    ensures
        r == excluded(path@, ignore@),
{
    let p = normalize(path);
    excluded_normalized(&p, ignore)
}

} // verus!
