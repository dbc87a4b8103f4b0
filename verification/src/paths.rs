//! Pure path utilities: the parent of a slash-delimited site path, and the
//! depth of a path measured as its number of `/` occurrences.
use vstd::prelude::*;

verus! {

/// A well-formed absolute site path: starts with `/`, has no empty segment,
/// and does not end in `/` unless it is the root path `/` itself.
pub open spec fn wf_path(p: Seq<char>) -> bool {
    &&& p.len() >= 1
    &&& p[0] == '/'
    &&& (p.len() == 1 || p[p.len() - 1] != '/')
    &&& forall|i: int| 0 < i < p.len() && p[i - 1] == '/' ==> #[trigger] p[i] != '/'
}

/// The root path `/`.
pub open spec fn root_path() -> Seq<char> {
    seq!['/']
}

/// Index of the last `/` in `p`, or -1 if `p` holds none.
pub open spec fn last_slash_index(p: Seq<char>) -> int
    decreases p.len(),
{
    if p.len() == 0 {
        -1
    } else if p[p.len() - 1] == '/' {
        p.len() - 1
    } else {
        last_slash_index(p.drop_last())
    }
}

/// The parent of a path: none for the root (length <= 1); otherwise the part
/// before the last `/`, or the root when that part is empty.
pub open spec fn parent_path_spec(p: Seq<char>) -> Option<Seq<char>> {
    if p.len() <= 1 {
        None
    } else {
        let i = last_slash_index(p);
        if i <= 0 {
            Some(root_path())
        } else {
            Some(p.subrange(0, i))
        }
    }
}

/// Number of `/` occurrences in `p`.
pub open spec fn count_slashes(p: Seq<char>) -> int
    decreases p.len(),
{
    if p.len() == 0 {
        0
    } else {
        count_slashes(p.drop_last()) + if p[p.len() - 1] == '/' {
            1int
        } else {
            0int
        }
    }
}

/// Number of segments of a well-formed path: 0 for the root, else its number
/// of `/` occurrences.
pub open spec fn segment_count(p: Seq<char>) -> int {
    if p == root_path() {
        0
    } else {
        count_slashes(p)
    }
}

pub proof fn lemma_last_slash_at(p: Seq<char>, k: int)
    requires
        0 <= k < p.len(),
        p[k] == '/',
        forall|j: int| k < j < p.len() ==> p[j] != '/',
    ensures
        last_slash_index(p) == k,
    decreases p.len(),
{
    if k < p.len() - 1 {
        lemma_last_slash_at(p.drop_last(), k);
    }
}

pub proof fn lemma_last_slash_none(p: Seq<char>)
    requires
        forall|j: int| 0 <= j < p.len() ==> p[j] != '/',
    ensures
        last_slash_index(p) == -1,
    decreases p.len(),
{
    if p.len() > 0 {
        lemma_last_slash_none(p.drop_last());
    }
}

pub proof fn lemma_last_slash_bounds(p: Seq<char>)
    ensures
        -1 <= last_slash_index(p) < p.len(),
        last_slash_index(p) >= 0 ==> p[last_slash_index(p)] == '/',
        forall|j: int| last_slash_index(p) < j < p.len() ==> p[j] != '/',
    decreases p.len(),
{
    if p.len() > 0 && p[p.len() - 1] != '/' {
        lemma_last_slash_bounds(p.drop_last());
        assert(forall|j: int|
            last_slash_index(p) < j < p.len() - 1 ==> p.drop_last()[j] == #[trigger] p[j]);
    }
}

/// Count of `/` is unchanged by dropping a slash-free tail.
proof fn lemma_count_slashes_drop_tail(p: Seq<char>, k: int)
    requires
        0 <= k <= p.len(),
        forall|j: int| k <= j < p.len() ==> p[j] != '/',
    ensures
        count_slashes(p) == count_slashes(p.subrange(0, k)),
    decreases p.len() - k,
{
    if k < p.len() {
        assert(p.subrange(0, p.len() as int) =~= p);
        assert(p.subrange(0, k + 1).drop_last() =~= p.subrange(0, k));
        lemma_count_slashes_drop_tail(p, k + 1);
        if k + 1 == p.len() {
            assert(p.subrange(0, k + 1) =~= p);
        } else {
            assert(p.subrange(0, k + 1) == p.subrange(0, k + 1));
        }
    } else {
        assert(p.subrange(0, p.len() as int) =~= p);
    }
}

/// The parent of a well-formed path is none exactly for the root; otherwise it
/// is a well-formed strict prefix with one segment fewer.
pub proof fn lemma_parent_path(p: Seq<char>)
    requires
        wf_path(p),
    ensures
        (parent_path_spec(p) is None) <==> p == root_path(),
        parent_path_spec(p) matches Some(q) ==> {
            &&& wf_path(q)
            &&& q.len() < p.len()
            &&& q == p.subrange(0, q.len() as int)
            &&& segment_count(q) == segment_count(p) - 1
        },
{
    lemma_last_slash_bounds(p);
    if p.len() <= 1 {
        assert(p =~= root_path());
    } else {
        assert(p != root_path());
        let i = last_slash_index(p);
        assert(i >= 0) by {
            if i < 0 {
                assert(p[0] != '/');
            }
        }
        lemma_count_slashes_drop_tail(p, i + 1);
        assert(p.subrange(0, i + 1).drop_last() =~= p.subrange(0, i));
        if i == 0 {
            let q = root_path();
            assert(q =~= p.subrange(0, 1));
            assert(count_slashes(p.subrange(0, 1)) == count_slashes(p.subrange(0, 0)) + 1);
            assert(p.subrange(0, 0) =~= Seq::<char>::empty());
            assert(segment_count(p) == 1);
        } else {
            let q = p.subrange(0, i);
            // no `//` in p, so the character before the last slash is not a slash
            assert(p[i - 1] != '/');
            assert(i != 1) by {
                if i == 1 {
                    assert(p[0] == '/' && p[1] == '/');
                }
            }
            assert(q.len() >= 2);
            assert(q[0] == p[0]);
            assert(q[q.len() - 1] == p[i - 1]);
            assert(q != root_path()) by {
                assert(q.len() != root_path().len());
            }
            assert(wf_path(q)) by {
                assert(forall|j: int|
                    0 < j < q.len() && q[j - 1] == '/' ==> #[trigger] q[j] != '/') by {
                    assert(forall|j: int| 0 <= j < q.len() ==> q[j] == p[j]);
                }
            }
            assert(count_slashes(p.subrange(0, i + 1)) == count_slashes(q) + 1);
            assert(segment_count(p) == count_slashes(p));
        }
    }
}



/// A path has at most as many slashes as characters.
pub proof fn lemma_count_slashes_le_len(p: Seq<char>)
    ensures
        0 <= count_slashes(p) <= p.len(),
    decreases p.len(),
{
    if p.len() > 0 {
        lemma_count_slashes_le_len(p.drop_last());
    }
}

/// The proper ancestors of a path, root first, immediate parent last.
pub open spec fn ancestors_of(p: Seq<char>) -> Seq<Seq<char>>
    decreases p.len(),
    via ancestors_of_decreases
{
    match parent_path_spec(p) {
        None => Seq::empty(),
        Some(q) => ancestors_of(q).push(q),
    }
}

#[via_fn]
proof fn ancestors_of_decreases(p: Seq<char>) {
    lemma_last_slash_bounds(p);
}


/// Parent of a path string: none for the root (length <= 1); otherwise the
/// part before the last `/`, or `/` when nothing precedes that slash.
pub fn parent_path(path: &str) -> (r: Option<String>)
    ensures
        r is None <==> path@.len() <= 1,
        r matches Some(q) ==> parent_path_spec(path@) == Some(q@),
{
    let len = path.unicode_len();
    if len <= 1 {
        return None;
    }
    let mut i: usize = len;
    while i > 0
        invariant
            i <= len,
            len == path@.len(),
            len > 1,
            forall|j: int| i <= j < len ==> path@[j] != '/',
        decreases i,
    {
        if path.get_char(i - 1) == '/' {
            proof {
                lemma_last_slash_at(path@, i - 1);
            }
            if i == 1 {
                let root = String::from_str("/");
                proof {
                    reveal_strlit("/");
                    assert(root@ =~= root_path());
                }
                return Some(root);
            }
            let q = path.substring_char(0, i - 1);
            return Some(String::from_str(q));
        }
        i = i - 1;
    }
    proof {
        lemma_last_slash_none(path@);
    }
    let root = String::from_str("/");
    proof {
        reveal_strlit("/");
        assert(root@ =~= root_path());
    }
    Some(root)
}

/// Depth of a path: its number of `/` occurrences, a coarse proxy for tree
/// level.
pub fn depth(path: &str) -> (r: usize)
    ensures
        r == count_slashes(path@),
{
    let len = path.unicode_len();
    let mut count: usize = 0;
    let mut i: usize = 0;
    while i < len
        invariant
            i <= len,
            len == path@.len(),
            count <= i,
            count == count_slashes(path@.subrange(0, i as int)),
        decreases len - i,
    {
        proof {
            assert(path@.subrange(0, i + 1).drop_last() =~= path@.subrange(0, i as int));
        }
        if path.get_char(i) == '/' {
            count = count + 1;
        }
        i = i + 1;
    }
    proof {
        assert(path@.subrange(0, len as int) =~= path@);
    }
    count
}

} // verus!
