//! The effective path: truncation at the root marker, and joining segments
//! into a relative path.

use vstd::prelude::*;

verus! {

/// The ghost value of an optional root-marker string.
pub open spec fn root_view(root: Option<String>) -> Option<Seq<char>> {
    match root {
        Option::None => Option::None,
        Option::Some(s) => Option::Some(s@),
    }
}

/// True when some segment equals `root`.
pub open spec fn has_root(segs: Seq<Seq<char>>, root: Seq<char>) -> bool {
    exists|i: int| 0 <= i < segs.len() && segs[i] == root
}

/// The suffix of `segs` that starts at the first segment equal to `root`
/// (empty when no segment matches).
pub open spec fn suffix_from(segs: Seq<Seq<char>>, root: Seq<char>) -> Seq<Seq<char>>
    decreases segs.len(),
{
    if segs.len() == 0 {
        segs
    } else if segs[0] == root {
        segs
    } else {
        suffix_from(segs.drop_first(), root)
    }
}

/// The effective path: with no root marker, or with one that matches no
/// segment, every segment is kept; otherwise the suffix starting at the first
/// segment equal to the marker.
pub open spec fn spec_effective_path(segs: Seq<Seq<char>>, root: Option<Seq<char>>) -> Seq<
    Seq<char>,
> {
    match root {
        Option::None => segs,
        Option::Some(r) => if has_root(segs, r) {
            suffix_from(segs, r)
        } else {
            segs
        },
    }
}

/// When `root` first occurs at index `i`, the truncated path is the suffix of
/// `segs` from `i` on.
pub proof fn lemma_suffix_from_at(segs: Seq<Seq<char>>, root: Seq<char>, i: int)
    requires
        0 <= i < segs.len(),
        segs[i] == root,
        forall|j: int| 0 <= j < i ==> segs[j] != root,
    ensures
        has_root(segs, root),
        suffix_from(segs, root) == segs.subrange(i, segs.len() as int),
    decreases i,
{
    if i == 0 {
        assert(segs.subrange(0, segs.len() as int) =~= segs);
    } else {
        let tail = segs.drop_first();
        assert(tail[i - 1] == segs[i]);
        assert forall|j: int| 0 <= j < i - 1 implies tail[j] != root by {
            assert(tail[j] == segs[j + 1]);
        }
        lemma_suffix_from_at(tail, root, i - 1);
        assert(tail.subrange(i - 1, tail.len() as int) =~= segs.subrange(i, segs.len() as int));
    }
}

/// A root marker that matches no segment leaves the path whole: nothing is
/// dropped, rather than everything.
pub proof fn lemma_root_absent_keeps_all(segs: Seq<Seq<char>>, root: Seq<char>)
    requires
        forall|j: int| 0 <= j < segs.len() ==> segs[j] != root,
    ensures
        !has_root(segs, root),
        spec_effective_path(segs, Option::Some(root)) == segs,
        spec_effective_path(segs, Option::Some(root)) == spec_effective_path(
            segs,
            Option::None,
        ),
{
}

/// Copies the segments of `segs` from index `from` on.
fn copy_segments(segs: &Vec<String>, from: usize) -> (r: Vec<String>)
    requires
        from <= segs@.len(),
    ensures
        r.deep_view() == segs.deep_view().subrange(from as int, segs@.len() as int),
{
    let mut r: Vec<String> = Vec::new();
    let mut j: usize = from;
    proof {
        assert(r.deep_view() =~= segs.deep_view().subrange(from as int, from as int));
    }
    while j < segs.len()
        invariant
            from <= j <= segs@.len(),
            r.deep_view() == segs.deep_view().subrange(from as int, j as int),
        decreases segs@.len() - j,
    {
        let ghost r0 = r.deep_view();
        r.push(segs[j].clone());
        proof {
            assert(r.deep_view() =~= r0.push(segs.deep_view()[j as int]));
            assert(r.deep_view() =~= segs.deep_view().subrange(from as int, j as int + 1));
        }
        j += 1;
    }
    r
}

/// Truncates the path segments at the configured root marker, keeping all of
/// them when no marker is configured or the marker matches no segment.
pub fn effective_path(segs: &Vec<String>, root: &Option<String>) -> (r: Vec<String>)
    ensures
        r.deep_view() == spec_effective_path(segs.deep_view(), root_view(*root)),
{
    match root {
        Option::None => copy_segments(segs, 0),
        Option::Some(rt) => {
            let n = segs.len();
            let mut i: usize = 0;
            while i < n
                invariant
                    n == segs@.len(),
                    i <= n,
                    root_view(*root) == Option::Some(rt@),
                    forall|j: int| 0 <= j < i ==> segs.deep_view()[j] != rt@,
                decreases n - i,
            {
                proof {
                    assert(segs.deep_view()[i as int] == segs@[i as int]@);
                }
                if segs[i] == *rt {
                    proof {
                        lemma_suffix_from_at(segs.deep_view(), rt@, i as int);
                    }
                    return copy_segments(segs, i);
                }
                i += 1;
            }
            proof {
                lemma_root_absent_keeps_all(segs.deep_view(), rt@);
                assert(segs.deep_view().subrange(0, segs@.len() as int) =~= segs.deep_view());
            }
            copy_segments(segs, 0)
        },
    }
}

/// The segments joined with `/` into one relative path.
pub open spec fn spec_join(segs: Seq<Seq<char>>) -> Seq<char>
    decreases segs.len(),
{
    if segs.len() == 0 {
        Seq::empty()
    } else if segs.len() == 1 {
        segs[0]
    } else {
        segs[0] + seq!['/'] + spec_join(segs.drop_first())
    }
}

/// Joining one more segment appends a separator and the segment.
proof fn lemma_join_push(segs: Seq<Seq<char>>, x: Seq<char>)
    requires
        segs.len() >= 1,
    ensures
        spec_join(segs.push(x)) == spec_join(segs) + seq!['/'] + x,
    decreases segs.len(),
{
    if segs.len() == 1 {
        assert(segs.push(x).drop_first() =~= seq![x]);
        assert(spec_join(seq![x]) == x);
    } else {
        assert(segs.push(x).drop_first() =~= segs.drop_first().push(x));
        lemma_join_push(segs.drop_first(), x);
        assert(segs.push(x)[0] == segs[0]);
    }
}

/// Joins the segments with `/` into one relative path string.
pub fn join_segments(segs: &Vec<String>) -> (r: String)
    ensures
        r@ == spec_join(segs.deep_view()),
{
    if segs.len() == 0 {
        let r = String::new();
        proof {
            assert(r@ =~= spec_join(segs.deep_view()));
        }
        return r;
    }
    let mut acc = segs[0].clone();
    let mut j: usize = 1;
    proof {
        assert(segs.deep_view().subrange(0, 1) =~= seq![segs.deep_view()[0]]);
        assert(spec_join(seq![segs.deep_view()[0]]) == segs.deep_view()[0]);
    }
    while j < segs.len()
        invariant
            1 <= j <= segs@.len(),
            segs@.len() == segs.deep_view().len(),
            acc@ == spec_join(segs.deep_view().subrange(0, j as int)),
        decreases segs@.len() - j,
    {
        let ghost acc0 = acc@;
        let ghost prefix = segs.deep_view().subrange(0, j as int);
        acc.append("/");
        acc.append(segs[j].as_str());
        proof {
            reveal_strlit("/");
            assert("/"@ =~= seq!['/']);
            lemma_join_push(prefix, segs.deep_view()[j as int]);
            assert(prefix.push(segs.deep_view()[j as int]) =~= segs.deep_view().subrange(
                0,
                j as int + 1,
            ));
            assert(acc@ =~= acc0 + seq!['/'] + segs.deep_view()[j as int]);
        }
        j += 1;
    }
    proof {
        assert(segs.deep_view().subrange(0, segs@.len() as int) =~= segs.deep_view());
    }
    acc
}

} // verus!
