//! Path arithmetic: joining components and the descendant relation.
//!
//! Paths are plain strings; a separator is the single character `/`.

use vstd::prelude::*;

verus! {

/// The characters of `parent`, a separator, then `child`.
pub open spec fn spec_join(parent: Seq<char>, child: Seq<char>) -> Seq<char> {
    parent + seq!['/'] + child
}

/// `q` lies strictly below `p`: it extends `p` with a separator and more.
pub open spec fn is_strict_descendant(q: Seq<char>, p: Seq<char>) -> bool {
    &&& q.len() > p.len()
    &&& q.subrange(0, p.len() as int) == p
    &&& q[p.len() as int] == '/'
}

/// `q` is `p` itself or lies strictly below it.
pub open spec fn at_or_under(q: Seq<char>, p: Seq<char>) -> bool {
    q == p || is_strict_descendant(q, p)
}

/// `s` names a single component: no separator occurs in it.
pub open spec fn has_no_separator(s: Seq<char>) -> bool {
    forall|i: int| 0 <= i < s.len() ==> s[i] != '/'
}

/// Appends `child` to `parent` with a separator between them.
pub fn path_join(parent: &str, child: &str) -> (r: String)
    ensures
        r@ == spec_join(parent@, child@),
{
    proof {
        reveal_strlit("/");
    }
    let mut s = parent.to_owned();
    s.append("/");
    s.append(child);
    proof {
        assert(s@ =~= spec_join(parent@, child@));
    }
    s
}

/// Joining places the result strictly below the parent.
pub proof fn lemma_join_is_strict_descendant(parent: Seq<char>, child: Seq<char>)
    ensures
        is_strict_descendant(spec_join(parent, child), parent),
{
    assert(spec_join(parent, child).subrange(0, parent.len() as int) =~= parent);
}

/// `q` ends with the characters of `suffix`.
pub open spec fn spec_ends_with(q: Seq<char>, suffix: Seq<char>) -> bool {
    &&& suffix.len() <= q.len()
    &&& q.subrange(q.len() - suffix.len(), q.len() as int) == suffix
}

/// The last path component of `s`: everything past the final separator,
/// or all of `s` when it has none.
pub open spec fn basename_of(s: Seq<char>) -> Seq<char>
    decreases s.len(),
{
    if s.len() == 0 {
        s
    } else if s.last() == '/' {
        Seq::empty()
    } else {
        basename_of(s.drop_last()).push(s.last())
    }
}

/// Decides whether `q` is `p` or lies below it.
pub fn path_at_or_under(q: &str, p: &str) -> (r: bool)
    ensures
        r == at_or_under(q@, p@),
{
    let ql = q.unicode_len();
    let pl = p.unicode_len();
    if ql < pl {
        return false;
    }
    let mut i: usize = 0;
    while i < pl
        invariant
            i <= pl,
            pl == p@.len(),
            ql == q@.len(),
            pl <= ql,
            forall|k: int| 0 <= k < i ==> q@[k] == p@[k],
        decreases pl - i,
    {
        if q.get_char(i) != p.get_char(i) {
            proof {
                if q@ == p@ {
                    assert(q@[i as int] == p@[i as int]);
                }
                if is_strict_descendant(q@, p@) {
                    assert(q@.subrange(0, p@.len() as int)[i as int] == p@[i as int]);
                }
            }
            return false;
        }
        i = i + 1;
    }
    if ql == pl {
        proof {
            assert(q@ =~= p@);
        }
        true
    } else {
        proof {
            assert(q@.subrange(0, p@.len() as int) =~= p@);
        }
        let c = q.get_char(pl);
        c == '/'
    }
}

/// Decides whether `q` ends with `suffix`.
pub fn path_ends_with(q: &str, suffix: &str) -> (r: bool)
    ensures
        r == spec_ends_with(q@, suffix@),
{
    let ql = q.unicode_len();
    let sl = suffix.unicode_len();
    if ql < sl {
        return false;
    }
    let off = ql - sl;
    let mut i: usize = 0;
    while i < sl
        invariant
            i <= sl,
            sl == suffix@.len(),
            ql == q@.len(),
            off == ql - sl,
            forall|k: int| 0 <= k < i ==> q@[off + k] == suffix@[k],
        decreases sl - i,
    {
        if q.get_char(off + i) != suffix.get_char(i) {
            proof {
                if spec_ends_with(q@, suffix@) {
                    assert(q@.subrange(q@.len() - suffix@.len(), q@.len() as int)[i as int]
                        == suffix@[i as int]);
                }
            }
            return false;
        }
        i = i + 1;
    }
    proof {
        assert(q@.subrange(q@.len() - suffix@.len(), q@.len() as int) =~= suffix@);
    }
    true
}

/// The last path component of `s`, as a fresh string.
pub fn basename(s: &str) -> (r: String)
    ensures
        r@ == basename_of(s@),
{
    let n = s.unicode_len();
    let mut i: usize = n;
    proof {
        assert(s@.take(n as int) =~= s@);
        assert(basename_of(s@) + s@.skip(n as int) =~= basename_of(s@));
    }
    while i > 0 && s.get_char(i - 1) != '/'
        invariant
            i <= n,
            n == s@.len(),
            basename_of(s@) == basename_of(s@.take(i as int)) + s@.skip(i as int),
            i > 0 ==> i - 1 < s@.len(),
        decreases i,
    {
        proof {
            let ghost t = s@.take(i as int);
            assert(t.drop_last() =~= s@.take(i as int - 1));
            assert(basename_of(t) == basename_of(s@.take(i as int - 1)).push(s@[i as int - 1]));
            assert(basename_of(s@.take(i as int - 1)).push(s@[i as int - 1]) + s@.skip(i as int)
                =~= basename_of(s@.take(i as int - 1)) + s@.skip(i as int - 1));
        }
        i = i - 1;
    }
    let r = s.substring_char(i, n).to_owned();
    proof {
        if i == 0 {
            assert(s@.take(0) =~= Seq::<char>::empty());
            assert(basename_of(Seq::<char>::empty()) + s@.skip(0) =~= s@.skip(0));
        } else {
            assert(s@.take(i as int).last() == '/');
            assert(basename_of(s@.take(i as int)) + s@.skip(i as int) =~= s@.skip(i as int));
        }
        assert(s@.subrange(i as int, n as int) =~= s@.skip(i as int));
    }
    r
}

/// The descendant relation composes downward.
pub proof fn lemma_strict_descendant_transitive(r: Seq<char>, q: Seq<char>, p: Seq<char>)
    requires
        is_strict_descendant(r, q),
        is_strict_descendant(q, p),
    ensures
        is_strict_descendant(r, p),
{
    assert(r.subrange(0, p.len() as int) =~= q.subrange(0, p.len() as int));
    assert(r[p.len() as int] == q[p.len() as int]);
}

} // verus!
