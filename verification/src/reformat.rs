//! Reformatting link lines: deriving the output directory and filename from a
//! URL's path segments, and processing whole manifest files.

use vstd::prelude::*;
use crate::lines::{is_link_line, spec_lines, split_lines, starts_with_http};
use crate::segments::{
    effective_path, join_segments, lemma_suffix_from_at, root_view, spec_effective_path, spec_join,
};
use crate::urls::{parse_link_url, url_parses, url_path_segments, url_serialization};

verus! {

/// Why processing a manifest aborted.
#[derive(Clone, Copy, Debug, PartialEq, Eq)]
pub enum LinkError {
    /// A line starting with `http` is not a valid absolute URL.
    InvalidUrl,
    /// The URL has no path-segment component at all (cannot-be-a-base).
    NoPathSegments,
    /// The effective path has no parent directory: fewer than two segments.
    TooFewSegments,
}

/// What is reported for one link line: the serialized URL, the output
/// directory, and the output filename.
#[derive(Debug, PartialEq, Eq)]
pub struct LinkReport {
    pub url: String,
    pub dir: String,
    pub file: String,
}

/// The ghost value of a report: the three strings' character sequences.
pub type ReportView = (Seq<char>, Seq<char>, Seq<char>);

impl View for LinkReport {
    type V = ReportView;

    open spec fn view(&self) -> ReportView {
        (self.url@, self.dir@, self.file@)
    }
}

impl DeepView for LinkReport {
    type V = ReportView;

    open spec fn deep_view(&self) -> ReportView {
        self@
    }
}

/// Directory and filename derived from the effective path: the directory is
/// every segment but the last joined with `/`, the filename the last segment;
/// an error when no parent directory is left.
pub open spec fn spec_derive(segs: Seq<Seq<char>>, root: Option<Seq<char>>) -> Result<
    (Seq<char>, Seq<char>),
    LinkError,
> {
    let eff = spec_effective_path(segs, root);
    if eff.len() < 2 {
        Result::Err(LinkError::TooFewSegments)
    } else {
        Result::Ok((spec_join(eff.drop_last()), eff.last()))
    }
}

/// The ghost value of a derived directory/filename pair.
pub open spec fn derive_view(r: Result<(String, String), LinkError>) -> Result<
    (Seq<char>, Seq<char>),
    LinkError,
> {
    match r {
        Result::Ok(p) => Result::Ok((p.0@, p.1@)),
        Result::Err(e) => Result::Err(e),
    }
}

/// Splits the (truncated) path segments into output directory and filename.
pub fn derive_output(segs: &Vec<String>, root: &Option<String>) -> (r: Result<
    (String, String),
    LinkError,
>)
    ensures
        derive_view(r) == spec_derive(segs.deep_view(), root_view(*root)),
{
    let mut eff = effective_path(segs, root);
    if eff.len() < 2 {
        return Result::Err(LinkError::TooFewSegments);
    }
    let ghost eff0 = eff.deep_view();
    let file = eff.pop().unwrap();
    let dir = join_segments(&eff);
    proof {
        assert(eff.deep_view() =~~= eff0.drop_last());
        assert(file@ == eff0.last());
    }
    Result::Ok((dir, file))
}

/// With no root marker configured, the directory is every segment but the
/// last joined with `/`, and the filename is the last segment.
pub proof fn lemma_derive_no_root(segs: Seq<Seq<char>>)
    requires
        segs.len() >= 2,
    ensures
        spec_derive(segs, Option::None) == Result::<(Seq<char>, Seq<char>), LinkError>::Ok(
            (spec_join(segs.drop_last()), segs.last()),
        ),
{
}

/// With a root marker first matching at index `i`, the effective path is the
/// suffix of the segments from `i` on, and directory and filename are derived
/// from that suffix.
pub proof fn lemma_derive_with_root(segs: Seq<Seq<char>>, root: Seq<char>, i: int)
    requires
        0 <= i < segs.len(),
        segs[i] == root,
        forall|j: int| 0 <= j < i ==> segs[j] != root,
        segs.len() - i >= 2,
    ensures
        spec_effective_path(segs, Option::Some(root)) == segs.subrange(i, segs.len() as int),
        spec_derive(segs, Option::Some(root)) == Result::<(Seq<char>, Seq<char>), LinkError>::Ok(
            (
                spec_join(segs.subrange(i, segs.len() as int).drop_last()),
                segs.subrange(i, segs.len() as int).last(),
            ),
        ),
{
    lemma_suffix_from_at(segs, root, i);
}

/// What one manifest line yields: nothing for a non-link line, a report for a
/// link line, or the error that aborts the run.
pub open spec fn spec_line_result(line: Seq<char>, root: Option<Seq<char>>) -> Result<
    Option<ReportView>,
    LinkError,
> {
    if !starts_with_http(line) {
        Result::Ok(Option::None)
    } else if !url_parses(line) {
        Result::Err(LinkError::InvalidUrl)
    } else {
        match url_path_segments(line) {
            Option::None => Result::Err(LinkError::NoPathSegments),
            Option::Some(segs) => match spec_derive(segs, root) {
                Result::Err(e) => Result::Err(e),
                Result::Ok(p) => Result::Ok(
                    Option::Some((url_serialization(line), p.0, p.1)),
                ),
            },
        }
    }
}

/// A line that does not start with `http` is silently discarded: it yields no
/// report and no error.
pub proof fn lemma_non_link_line_ignored(line: Seq<char>, root: Option<Seq<char>>)
    requires
        !starts_with_http(line),
    ensures
        spec_line_result(line, root) == Result::<Option<ReportView>, LinkError>::Ok(Option::None),
{
}

/// The ghost value of one processed line.
pub open spec fn line_result_view(r: Result<Option<LinkReport>, LinkError>) -> Result<
    Option<ReportView>,
    LinkError,
> {
    match r {
        Result::Ok(Option::None) => Result::Ok(Option::None),
        Result::Ok(Option::Some(rep)) => Result::Ok(Option::Some(rep@)),
        Result::Err(e) => Result::Err(e),
    }
}

/// Processes one manifest line: skips a non-link line, otherwise parses the
/// URL and derives the output directory and filename.
pub fn process_line(line: &str, root: &Option<String>) -> (r: Result<Option<LinkReport>, LinkError>)
    ensures
        line_result_view(r) == spec_line_result(line@, root_view(*root)),
{
    if !is_link_line(line) {
        return Result::Ok(Option::None);
    }
    match parse_link_url(line) {
        Option::None => Result::Err(LinkError::InvalidUrl),
        Option::Some((url, segments)) => match segments {
            Option::None => Result::Err(LinkError::NoPathSegments),
            Option::Some(segs) => match derive_output(&segs, root) {
                Result::Err(e) => Result::Err(e),
                Result::Ok((dir, file)) => Result::Ok(Option::Some(LinkReport { url, dir, file })),
            },
        },
    }
}

/// What a whole manifest yields: the reports of its link lines in order, up
/// to (not including) the first failing line, and that line's error if any.
pub open spec fn spec_process(lines: Seq<Seq<char>>, root: Option<Seq<char>>) -> (
    Seq<ReportView>,
    Option<LinkError>,
)
    decreases lines.len(),
{
    if lines.len() == 0 {
        (Seq::empty(), Option::None)
    } else {
        match spec_line_result(lines[0], root) {
            Result::Err(e) => (Seq::empty(), Option::Some(e)),
            Result::Ok(opt) => {
                let rest = spec_process(lines.drop_first(), root);
                match opt {
                    Option::None => rest,
                    Option::Some(t) => (seq![t] + rest.0, rest.1),
                }
            },
        }
    }
}

/// A manifest with no link line yields no output and no error: blank lines,
/// comments and other schemes never cause a failure.
pub proof fn lemma_no_link_lines_no_output(lines: Seq<Seq<char>>, root: Option<Seq<char>>)
    requires
        forall|i: int| 0 <= i < lines.len() ==> !starts_with_http(lines[i]),
    ensures
        spec_process(lines, root) == (Seq::<ReportView>::empty(), Option::<LinkError>::None),
    decreases lines.len(),
{
    if lines.len() > 0 {
        assert(!starts_with_http(lines[0]));
        assert forall|i: int| 0 <= i < lines.drop_first().len() implies !starts_with_http(
            lines.drop_first()[i],
        ) by {
            assert(lines.drop_first()[i] == lines[i + 1]);
        }
        lemma_no_link_lines_no_output(lines.drop_first(), root);
    }
}

/// Processes a whole manifest's text: splits it into lines and handles each
/// link line in order, stopping at the first error. Returns the reports of
/// the lines processed before any error, and the error itself if one struck.
pub fn process_content(content: &str, root: &Option<String>) -> (r: (
    Vec<LinkReport>,
    Option<LinkError>,
))
    ensures
        r.0.deep_view() == spec_process(spec_lines(content@), root_view(*root)).0,
        r.1 == spec_process(spec_lines(content@), root_view(*root)).1,
{
    let lines = split_lines(content);
    let ghost all = spec_lines(content@);
    let ghost rv = root_view(*root);
    let mut out: Vec<LinkReport> = Vec::new();
    let mut i: usize = 0;
    proof {
        assert(all.subrange(0, all.len() as int) =~= all);
        assert(out.deep_view() =~= Seq::<ReportView>::empty());
    }
    while i < lines.len()
        invariant
            lines.deep_view() == all,
            all == spec_lines(content@),
            all.len() == lines@.len(),
            rv == root_view(*root),
            i <= lines@.len(),
            spec_process(all, rv).0 == out.deep_view() + spec_process(
                all.subrange(i as int, all.len() as int),
                rv,
            ).0,
            spec_process(all, rv).1 == spec_process(
                all.subrange(i as int, all.len() as int),
                rv,
            ).1,
        decreases lines@.len() - i,
    {
        let ghost suffix = all.subrange(i as int, all.len() as int);
        proof {
            assert(suffix[0] == all[i as int]);
            assert(lines.deep_view()[i as int] == lines@[i as int]@);
            assert(suffix.drop_first() =~= all.subrange(i as int + 1, all.len() as int));
        }
        let ghost out0 = out.deep_view();
        match process_line(lines[i].as_str(), root) {
            Result::Err(e) => {
                proof {
                    assert(spec_process(suffix, rv) == (
                        Seq::<ReportView>::empty(),
                        Option::Some(e),
                    ));
                    assert(out0 + Seq::<ReportView>::empty() =~= out0);
                }
                return (out, Option::Some(e));
            },
            Result::Ok(Option::None) => {},
            Result::Ok(Option::Some(rep)) => {
                out.push(rep);
                proof {
                    assert(out.deep_view() =~= out0.push(rep@));
                    assert(out0 + (seq![rep@] + spec_process(suffix.drop_first(), rv).0)
                        =~= out0.push(rep@) + spec_process(suffix.drop_first(), rv).0);
                }
            },
        }
        i += 1;
    }
    proof {
        assert(all.subrange(i as int, all.len() as int) =~= Seq::<Seq<char>>::empty());
        assert(out.deep_view() + Seq::<ReportView>::empty() =~= out.deep_view());
    }
    (out, Option::None)
}

/// The three output lines for one link: the URL, the directory (indented,
/// after `dir=`), and the filename (indented, after `out=`).
pub open spec fn spec_render(t: ReportView) -> Seq<char> {
    t.0 + "\n dir="@ + t.1 + "\n out="@ + t.2 + "\n"@
}

/// Renders one report as its three output lines.
pub fn render_report(rep: &LinkReport) -> (r: String)
    ensures
        r@ == spec_render(rep@),
{
    let mut r = rep.url.clone();
    r.append("\n dir=");
    r.append(rep.dir.as_str());
    r.append("\n out=");
    r.append(rep.file.as_str());
    r.append("\n");
    proof {
        assert(r@ =~= spec_render(rep@));
    }
    r
}

} // verus!

