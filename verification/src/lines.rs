//! Splitting manifest text into lines and recognizing link lines.

use vstd::prelude::*;
use vstd::string::StrSliceExecFns;

verus! {

/// True when the line begins with the four characters `http`.
pub open spec fn starts_with_http(s: Seq<char>) -> bool {
    s.len() >= 4 && s[0] == 'h' && s[1] == 't' && s[2] == 't' && s[3] == 'p'
}

/// A manifest line is treated as a download link exactly when it starts with `http`.
pub fn is_link_line(line: &str) -> (r: bool)
    ensures
        r == starts_with_http(line@),
{
    let n = line.unicode_len();
    if n < 4 {
        return false;
    }
    line.get_char(0) == 'h' && line.get_char(1) == 't' && line.get_char(2) == 't'
        && line.get_char(3) == 'p'
}

/// Index of the first line break in `s`, or `s.len()` when there is none.
pub open spec fn first_newline(s: Seq<char>) -> int
    decreases s.len(),
{
    if s.len() == 0 {
        0
    } else if s[0] == '\n' {
        0
    } else {
        1 + first_newline(s.drop_first())
    }
}

proof fn lemma_first_newline(s: Seq<char>)
    ensures
        0 <= first_newline(s) <= s.len(),
        forall|j: int| 0 <= j < first_newline(s) ==> s[j] != '\n',
        first_newline(s) < s.len() ==> s[first_newline(s)] == '\n',
    decreases s.len(),
{
    if s.len() > 0 && s[0] != '\n' {
        lemma_first_newline(s.drop_first());
        assert forall|j: int| 0 <= j < first_newline(s) implies s[j] != '\n' by {
            if j > 0 {
                assert(s.drop_first()[j - 1] == s[j]);
            }
        }
        if first_newline(s) < s.len() {
            assert(s.drop_first()[first_newline(s) - 1] == s[first_newline(s)]);
        }
    }
}

/// A carriage return standing just before the line break is dropped from the line.
pub open spec fn strip_cr(l: Seq<char>) -> Seq<char> {
    if l.len() > 0 && l[l.len() - 1] == '\r' {
        l.drop_last()
    } else {
        l
    }
}

/// The lines of `s`: the pieces between `\n` breaks, a `\r` standing directly
/// before a break dropped, and no empty piece after a final line break.
pub open spec fn spec_lines(s: Seq<char>) -> Seq<Seq<char>>
    decreases s.len(),
    via spec_lines_decreases
{
    if s.len() == 0 {
        Seq::empty()
    } else {
        let i = first_newline(s);
        if i == s.len() {
            seq![s]
        } else {
            seq![strip_cr(s.subrange(0, i))] + spec_lines(s.subrange(i + 1, s.len() as int))
        }
    }
}

#[via_fn]
proof fn spec_lines_decreases(s: Seq<char>) {
    lemma_first_newline(s);
}

/// If `s` has no `\n` before index `k`, and `k` is the length of `s` or the
/// index of a `\n`, then `k` is the first line break.
proof fn lemma_first_newline_at(s: Seq<char>, k: int)
    requires
        0 <= k <= s.len(),
        forall|j: int| 0 <= j < k ==> s[j] != '\n',
        k < s.len() ==> s[k] == '\n',
    ensures
        first_newline(s) == k,
    decreases s.len(),
{
    if s.len() > 0 && s[0] != '\n' {
        assert forall|j: int| 0 <= j < k - 1 implies s.drop_first()[j] != '\n' by {
            assert(s.drop_first()[j] == s[j + 1]);
        }
        if k < s.len() {
            assert(s.drop_first()[k - 1] == s[k]);
        }
        lemma_first_newline_at(s.drop_first(), k - 1);
    }
}

/// Splits manifest text into lines, as the view `spec_lines` describes.
pub fn split_lines(s: &str) -> (r: Vec<String>)
    ensures
        r.deep_view() == spec_lines(s@),
{
    let n = s.unicode_len();
    let mut out: Vec<String> = Vec::new();
    let mut start: usize = 0;
    proof {
        assert(s@.subrange(0, n as int) =~= s@);
        assert(out.deep_view() =~= Seq::<Seq<char>>::empty());
    }
    while start < n
        invariant
            n == s@.len(),
            start <= n,
            spec_lines(s@) == out.deep_view() + spec_lines(s@.subrange(start as int, n as int)),
        decreases n - start,
    {
        let ghost u = s@.subrange(start as int, n as int);
        let ghost out0 = out.deep_view();
        let mut end: usize = start;
        loop
            invariant
                n == s@.len(),
                start <= end <= n,
                forall|j: int| start <= j < end ==> s@[j] != '\n',
            ensures
                start <= end <= n,
                forall|j: int| start <= j < end ==> s@[j] != '\n',
                end < n ==> s@[end as int] == '\n',
            decreases n - end,
        {
            if end == n {
                break ;
            }
            if s.get_char(end) == '\n' {
                break ;
            }
            end += 1;
        }
        let ghost k = end as int - start as int;
        proof {
            assert forall|j: int| 0 <= j < k implies u[j] != '\n' by {
                assert(u[j] == s@[start + j]);
            }
            if (end as int) < n as int {
                assert(u[k] == s@[end as int]);
            }
            lemma_first_newline_at(u, k);
        }
        if end == n {
            let piece = s.substring_char(start, n);
            out.push(piece.to_owned());
            proof {
                assert(piece@ =~= u);
                assert(spec_lines(u) == seq![u]);
                assert(out.deep_view() =~= out0.push(u));
                assert(s@.subrange(n as int, n as int) =~= Seq::<char>::empty());
                assert(out0 + seq![u] =~= out0.push(u));
                assert(out.deep_view() + spec_lines(Seq::<char>::empty()) =~= out.deep_view());
            }
            start = n;
        } else {
            let piece = if end > start && s.get_char(end - 1) == '\r' {
                s.substring_char(start, end - 1)
            } else {
                s.substring_char(start, end)
            };
            out.push(piece.to_owned());
            proof {
                let prefix = u.subrange(0, k);
                let rest = s@.subrange(end as int + 1, n as int);
                assert(prefix =~= s@.subrange(start as int, end as int));
                if end > start && s@[end as int - 1] == '\r' {
                    assert(prefix[k - 1] == s@[end as int - 1]);
                    assert(piece@ =~= prefix.drop_last());
                    assert(piece@ == strip_cr(prefix));
                } else {
                    if end > start {
                        assert(prefix[k - 1] == s@[end as int - 1]);
                    }
                    assert(piece@ =~= prefix);
                    assert(piece@ == strip_cr(prefix));
                }
                assert(u.subrange(k + 1, u.len() as int) =~= rest);
                assert(spec_lines(u) == seq![strip_cr(prefix)] + spec_lines(rest));
                assert(out.deep_view() =~= out0.push(piece@));
                assert(out0 + (seq![piece@] + spec_lines(rest)) =~= out0.push(piece@) + spec_lines(
                    rest,
                ));
            }
            start = end + 1;
        }
    }
    proof {
        assert(s@.subrange(start as int, n as int) =~= Seq::<char>::empty());
        assert(out.deep_view() + Seq::<Seq<char>>::empty() =~= out.deep_view());
    }
    out
}

} // verus!
