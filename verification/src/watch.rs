//! Watch mode's rebuild filter.
//!
//! A filesystem event triggers a rebuild only when its path is neither the
//! build's own output nor a backup file: events under the output directory
//! and events on paths whose extension ends with a tilde are ignored.  The
//! filter is applied before any rebuild decision; the watch loop itself
//! lives outside the library.

use vstd::prelude::*;

verus! {

use crate::page::{last_index_of, find_last};

/// The path names a backup or temporary file: it has an extension, and
/// that extension ends with `~`.  An extension is what follows the last
/// `.` of the file name, when that `.` is not the file name's first
/// character.
pub open spec fn is_backup_path(p: Seq<char>) -> bool {
    match last_index_of(p, '.') {
        Some(d) => {
            let start = match last_index_of(p, '/') {
                Some(i) => i + 1,
                None => 0,
            };
            d > start && p.len() > 0 && p[p.len() - 1] == '~'
        },
        None => false,
    }
}

/// The path lies at or under the directory `target`, compared component by
/// component; `target` carries no trailing slash.
pub open spec fn in_target_dir(p: Seq<char>, target: Seq<char>) -> bool {
    p == target || (p.len() > target.len() && p.take(target.len() as int) == target && p[target.len() as int]
        == '/')
}

/// The rebuild decision for one filesystem event: rebuild unless the path
/// is the build's own output or a backup file.
pub open spec fn spec_should_rebuild(path: Seq<char>, target: Seq<char>) -> bool {
    !is_backup_path(path) && !in_target_dir(path, target)
}

/// Whether `q` is a prefix of `p`, character by character.
fn has_prefix(p: &str, q: &str) -> (b: bool)
    ensures
        b == (q@.len() <= p@.len() && p@.take(q@.len() as int) == q@),
{
    let np = p.unicode_len();
    let nq = q.unicode_len();
    if nq > np {
        return false;
    }
    let mut k: usize = 0;
    while k < nq
        invariant
            k <= nq,
            nq == q@.len(),
            np == p@.len(),
            nq <= np,
            forall|j: int| 0 <= j < k ==> p@[j] == q@[j],
        decreases nq - k,
    {
        if p.get_char(k) != q.get_char(k) {
            proof {
                assert(p@.take(nq as int)[k as int] == p@[k as int]);
            }
            return false;
        }
        k = k + 1;
    }
    proof {
        assert(p@.take(nq as int) =~= q@);
    }
    true
}

/// Decide whether a filesystem event at `path` should trigger a rebuild,
/// given the site's output directory (canonical, no trailing slash): a
/// write under the output directory, or to a backup file, never does; any
/// other path does.
pub fn should_rebuild(path: &String, target_dir: &String) -> (b: bool)
    ensures
        b == spec_should_rebuild(path@, target_dir@),
{
    let p = path.as_str();
    let n = p.unicode_len();
    let backup = match find_last(p, '.') {
        Some(d) => {
            let start: usize = match find_last(p, '/') {
                Some(i) => i + 1,
                None => 0,
            };
            d > start && p.get_char(n - 1) == '~'
        },
        None => false,
    };
    if backup {
        return false;
    }
    if path.eq(target_dir) {
        return false;
    }
    let t = target_dir.as_str();
    let tn = t.unicode_len();
    if n > tn && has_prefix(p, t) && p.get_char(tn) == '/' {
        return false;
    }
    true
}

} // verus!
