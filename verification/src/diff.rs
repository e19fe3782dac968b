//! The difference between what a remote file holds and what it should hold,
//! line by line, for the operator to review.

use vstd::prelude::*;
use vstd::string::*;
use crate::text::join;

verus! {

/// A run of lines that the two texts share, or that only one of them has.
/// The lines of a run are joined by line feeds.
#[derive(Debug, Clone, PartialEq, Eq)]
pub enum DiffSegment {
    /// Lines that both texts hold.
    Same(String),
    /// Lines that only the new text holds.
    Add(String),
    /// Lines that only the old text holds.
    Rem(String),
}

/// What a `DiffSegment` holds, as plain values.
pub enum DiffSegmentView {
    Same(Seq<char>),
    Add(Seq<char>),
    Rem(Seq<char>),
}

impl View for DiffSegment {
    type V = DiffSegmentView;

    open spec fn view(&self) -> DiffSegmentView {
        match self {
            DiffSegment::Same(s) => DiffSegmentView::Same(s@),
            DiffSegment::Add(s) => DiffSegmentView::Add(s@),
            DiffSegment::Rem(s) => DiffSegmentView::Rem(s@),
        }
    }
}

/// The views of the segments of a vector.
pub open spec fn segment_views(diffs: Seq<DiffSegment>) -> Seq<DiffSegmentView> {
    diffs.map_values(|d: DiffSegment| d@)
}

/// The segments that `difference::Changeset::new` finds between two texts
/// that it splits at `split`: the outcome of its longest-common-subsequence
/// search, which this crate does not spell out.
pub uninterp spec fn changeset_diffs(
    orig: Seq<char>,
    edit: Seq<char>,
    split: Seq<char>,
) -> Seq<DiffSegmentView>;

/// Whether a difference shows nothing added and nothing removed.
pub open spec fn unchanged(diffs: Seq<DiffSegmentView>) -> bool {
    forall|i: int| 0 <= i < diffs.len() ==> #[trigger] diffs[i] is Same
}

/// The runs of a difference that belong to the old text: those that both
/// texts hold and those that were removed, in their order.
pub open spec fn old_runs(diffs: Seq<DiffSegmentView>) -> Seq<Seq<char>>
    decreases diffs.len(),
{
    if diffs.len() == 0 {
        Seq::empty()
    } else {
        match diffs.last() {
            DiffSegmentView::Same(s) => old_runs(diffs.drop_last()).push(s),
            DiffSegmentView::Rem(s) => old_runs(diffs.drop_last()).push(s),
            DiffSegmentView::Add(_) => old_runs(diffs.drop_last()),
        }
    }
}

/// The runs of a difference that belong to the new text: those that both
/// texts hold and those that were added, in their order.
pub open spec fn new_runs(diffs: Seq<DiffSegmentView>) -> Seq<Seq<char>>
    decreases diffs.len(),
{
    if diffs.len() == 0 {
        Seq::empty()
    } else {
        match diffs.last() {
            DiffSegmentView::Same(s) => new_runs(diffs.drop_last()).push(s),
            DiffSegmentView::Add(s) => new_runs(diffs.drop_last()).push(s),
            DiffSegmentView::Rem(_) => new_runs(diffs.drop_last()),
        }
    }
}

/// Whether a difference accounts for both texts: its old runs, joined at the
/// split, give the old text, and its new runs the new one.
pub open spec fn accounts_for(
    diffs: Seq<DiffSegmentView>,
    orig: Seq<char>,
    edit: Seq<char>,
    split: Seq<char>,
) -> bool {
    join(old_runs(diffs), split) == orig && join(new_runs(diffs), split) == edit
}

/// Whether two segments are of the same kind.
pub open spec fn same_kind(a: DiffSegmentView, b: DiffSegmentView) -> bool {
    (a is Same && b is Same) || (a is Add && b is Add) || (a is Rem && b is Rem)
}

/// Whether runs of one kind are gathered: no segment is of the kind of the
/// segment before it.
pub open spec fn gathered(diffs: Seq<DiffSegmentView>) -> bool {
    forall|i: int| 0 < i < diffs.len() ==> !same_kind(diffs[i - 1], #[trigger] diffs[i])
}

/// Whether two texts are small enough to be compared. The comparison fills a
/// table with one machine word for each pair of pieces of the two texts, and
/// a text has at most two pieces more than it has characters; the table must
/// not take more bytes than `isize::MAX`.
pub open spec fn comparable(orig: Seq<char>, edit: Seq<char>) -> bool {
    orig.len() + 2 <= (isize::MAX as int / 8) / (edit.len() as int + 2)
}

/// Calls `difference::Changeset::new` and hands its `diffs` on, variant by
/// variant. Which runs it finds is that crate's matter and is only named
/// here. Four things are claimed of the result. It depends on the three
/// texts alone. It accounts for both texts: the crate's merge takes every
/// piece of the old text into a `Same` or a `Rem` and every piece of the new
/// text into a `Same` or an `Add`, in order. Where the split is not empty,
/// neighbours differ in kind: the crate gathers what is of one kind into one
/// segment. And for equal texts it holds no `Add` and no `Rem`: every piece
/// is then part of the common subsequence. Texts that are not `comparable`
/// are left out: on them the size of the crate's table overflows.
#[verifier::external_body]
fn changeset(orig: &str, edit: &str, split: &str) -> (diffs: Vec<DiffSegment>)
    requires
        comparable(orig@, edit@),
    ensures
        segment_views(diffs@) == changeset_diffs(orig@, edit@, split@),
        accounts_for(segment_views(diffs@), orig@, edit@, split@),
        split@.len() > 0 ==> gathered(segment_views(diffs@)),
        orig@ == edit@ ==> unchanged(segment_views(diffs@)),
{
    difference::Changeset::new(orig, edit, split).diffs.into_iter().map(
        |d| match d {
            difference::Difference::Same(s) => DiffSegment::Same(s),
            difference::Difference::Add(s) => DiffSegment::Add(s),
            difference::Difference::Rem(s) => DiffSegment::Rem(s),
        },
    ).collect()
}

/// The text at which a file is split into lines.
pub open spec fn line_feed() -> Seq<char> {
    "\n"@
}

/// Whether two texts are small enough to be compared.
pub fn can_compare(current: &str, desired: &str) -> (fits: bool)
    ensures
        fits == comparable(current@, desired@),
{
    let a: usize = current.unicode_len();
    let b: usize = desired.unicode_len();
    if a > usize::MAX - 2 || b > usize::MAX - 2 {
        proof {
            let top = isize::MAX as int / 8;
            let parts = b as int + 2;
            assert(top / parts <= top) by (nonlinear_arith)
                requires
                    top >= 0,
                    parts >= 1,
            ;
            if b > usize::MAX - 2 {
                assert(top / parts == 0) by (nonlinear_arith)
                    requires
                        0 <= top < parts,
                ;
            }
        }
        return false;
    }
    let limit: usize = (isize::MAX as usize) / 8;
    a + 2 <= limit / (b + 2)
}

/// The line-by-line difference between what a file holds and what it should
/// hold; none where the two are too large to be compared.
pub fn diff_lines(current: &str, desired: &str) -> (diffs: Option<Vec<DiffSegment>>)
    ensures
        diffs is Some == comparable(current@, desired@),
        diffs matches Some(d) ==> segment_views(d@) == changeset_diffs(
            current@,
            desired@,
            line_feed(),
        ),
        diffs matches Some(d) ==> accounts_for(
            segment_views(d@),
            current@,
            desired@,
            line_feed(),
        ),
        diffs matches Some(d) ==> gathered(segment_views(d@)),
        diffs matches Some(d) ==> (current@ == desired@ ==> unchanged(segment_views(d@))),
{
    if can_compare(current, desired) {
        proof {
            reveal_strlit("\n");
        }
        Some(changeset(current, desired, "\n"))
    } else {
        None
    }
}

/// A segment as the operator sees it: shared lines as they are, added lines
/// behind a `+`, removed lines behind a `-`.
pub open spec fn rendered(segment: DiffSegmentView) -> Seq<char> {
    match segment {
        DiffSegmentView::Same(s) => s,
        DiffSegmentView::Add(s) => seq!['+'] + s,
        DiffSegmentView::Rem(s) => seq!['-'] + s,
    }
}

impl DiffSegment {
    /// The segment as the operator sees it.
    pub fn render(&self) -> (out: String)
        ensures
            out@ == rendered(self@),
    {
        match self {
            DiffSegment::Same(s) => s.clone(),
            DiffSegment::Add(s) => {
                let mut out = String::from_str("+");
                out.append(s.as_str());
                proof {
                    reveal_strlit("+");
                }
                out
            },
            DiffSegment::Rem(s) => {
                let mut out = String::from_str("-");
                out.append(s.as_str());
                proof {
                    reveal_strlit("-");
                }
                out
            },
        }
    }

    /// Whether the segment shows lines that both texts hold.
    pub fn is_same(&self) -> (same: bool)
        ensures
            same == (self@ is Same),
    {
        match self {
            DiffSegment::Same(_) => true,
            _ => false,
        }
    }
}

} // verus!
