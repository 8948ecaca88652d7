use vstd::prelude::*;

use crate::error::PackageError;

verus! {

/// Index of the last `/` in `p`, or -1 when there is none.
pub open spec fn last_sep(p: Seq<char>) -> int
    decreases p.len(),
{
    if p.len() == 0 {
        -1
    } else if p.last() == '/' {
        p.len() - 1
    } else {
        last_sep(p.drop_last())
    }
}

/// The final segment of a path: what follows its last `/`.
pub open spec fn base_name(p: Seq<char>) -> Seq<char> {
    p.subrange(last_sep(p) + 1, p.len() as int)
}

/// The parent of a path, up to and including its last `/`.
pub open spec fn parent_prefix(p: Seq<char>) -> Seq<char> {
    p.subrange(0, last_sep(p) + 1)
}

/// The directory holding a path: everything before its last `/`, or `/` itself
/// when that is the only separator left.
pub open spec fn parent_dir(p: Seq<char>) -> Seq<char> {
    if last_sep(p) <= 0 {
        p.subrange(0, last_sep(p) + 1)
    } else {
        p.subrange(0, last_sep(p))
    }
}

/// Whether `file` lies strictly below the parent of `root`.
pub open spec fn resolvable(file: Seq<char>, root: Seq<char>) -> bool {
    let pre = parent_prefix(root);
    pre.len() < file.len() && file.subrange(0, pre.len() as int) == pre
}

/// The archive name of `file`: the path with the parent of `root` stripped off.
pub open spec fn delta_of(file: Seq<char>, root: Seq<char>) -> Seq<char> {
    file.subrange(parent_prefix(root).len() as int, file.len() as int)
}

pub proof fn lemma_last_sep_bounds(p: Seq<char>)
    ensures
        -1 <= last_sep(p) < p.len(),
        last_sep(p) >= 0 ==> p[last_sep(p)] == '/',
        forall|j: int| last_sep(p) < j < p.len() ==> p[j] != '/',
    decreases p.len(),
{
    if p.len() > 0 && p.last() != '/' {
        lemma_last_sep_bounds(p.drop_last());
        assert forall|j: int| last_sep(p) < j < p.len() implies p[j] != '/' by {
            if j < p.len() - 1 {
                assert(p.drop_last()[j] == p[j]);
            }
        }
    }
}

/// Position of the last `/` in `p`, if any.
fn last_separator(p: &str) -> (r: Option<usize>)
    ensures
        match r {
            Some(i) => i as int == last_sep(p@) && i < usize::MAX,
            None => last_sep(p@) == -1,
        },
{
    let n = p.unicode_len();
    let mut i: usize = n;
    assert(p@.subrange(0, n as int) =~= p@);
    while i > 0
        invariant
            i <= n,
            n == p@.len(),
            last_sep(p@) == last_sep(p@.subrange(0, i as int)),
        decreases i,
    {
        assert(p@.subrange(0, i as int).drop_last() =~= p@.subrange(0, i - 1));
        if p.get_char(i - 1) == '/' {
            return Some(i - 1);
        }
        i = i - 1;
    }
    assert(p@.subrange(0, 0).len() == 0);
    None
}

/// Copies the characters of `p` from `from` to the end.
fn tail_of(p: &str, from: usize) -> (r: String)
    requires
        from <= p@.len(),
    ensures
        r@ == p@.subrange(from as int, p@.len() as int),
{
    let n = p.unicode_len();
    String::from_str(p.substring_char(from, n))
}

/// The final segment of `path`.
pub fn base_name_of(path: &str) -> (r: String)
    ensures
        r@ == base_name(path@),
{
    proof {
        lemma_last_sep_bounds(path@);
    }
    let start: usize = match last_separator(path) {
        Some(i) => i + 1,
        None => 0,
    };
    tail_of(path, start)
}

/// The directory holding `path`.
pub fn parent_of(path: &str) -> (r: String)
    ensures
        r@ == parent_dir(path@),
{
    proof {
        lemma_last_sep_bounds(path@);
    }
    let end: usize = match last_separator(path) {
        Some(0) => 1,
        Some(i) => i,
        None => 0,
    };
    String::from_str(path.substring_char(0, end))
}

/// Tells whether `text` begins with the characters of `pre`.
fn starts_with(text: &str, pre: &str) -> (r: bool)
    ensures
        r == (pre@.len() <= text@.len() && text@.subrange(0, pre@.len() as int) == pre@),
{
    let n = pre.unicode_len();
    let m = text.unicode_len();
    if n > m {
        return false;
    }
    let mut i: usize = 0;
    while i < n
        invariant
            n == pre@.len(),
            m == text@.len(),
            n <= m,
            i <= n,
            forall|j: int| 0 <= j < i ==> text@[j] == pre@[j],
        decreases n - i,
    {
        if text.get_char(i) != pre.get_char(i) {
            assert(text@.subrange(0, n as int)[i as int] != pre@[i as int]);
            return false;
        }
        i = i + 1;
    }
    assert(text@.subrange(0, n as int) =~= pre@);
    true
}

/// Expresses `file` relative to the parent of `root`, so that the result begins
/// with the name of `root` itself. Fails when `file` does not lie strictly below
/// that parent.
pub fn get_delta(file: &str, root: &str) -> (r: Result<String, PackageError>)
    ensures
        match r {
            Ok(d) => resolvable(file@, root@) && d@ == delta_of(file@, root@),
            Err(e) => !resolvable(file@, root@) && (e matches PackageError::PathResolution { path }
                && path@ == file@),
        },
{
    proof {
        lemma_last_sep_bounds(root@);
    }
    let cut: usize = match last_separator(root) {
        Some(i) => i + 1,
        None => 0,
    };
    let pre = root.substring_char(0, cut);
    assert(pre@ == parent_prefix(root@));
    if starts_with(file, pre) && cut < file.unicode_len() {
        Ok(tail_of(file, cut))
    } else {
        Err(PackageError::PathResolution { path: String::from_str(file) })
    }
}

} // verus!
