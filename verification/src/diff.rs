//! Comparing chapter texts: a line diff (computed by `similar` with the
//! patience algorithm) with inline highlights, character counts of what was
//! inserted and deleted, a short summary, and the preview of a revision.
use vstd::prelude::*;
use crate::text::{
    append_chars, append_str, chars_of, decimal, decimal_chars, join, join_chars, split_words,
    string_of, words, slice_to_vec,
};

verus! {

/// Number of characters a preview keeps.
pub const PREVIEW_CHARS: usize = 48;

/// Whether a piece of a diff is unchanged, deleted or inserted.
#[derive(Debug, Clone, Copy, PartialEq, Eq, Structural)]
pub enum DiffChangeTag {
    Equal,
    Delete,
    Insert,
}

/// A highlighted piece of a diff line.
#[derive(Debug, Clone, PartialEq)]
pub struct DiffSpan {
    pub tag: DiffChangeTag,
    pub text: String,
}

/// One line of a diff. `spans` carries the inline highlights.
#[derive(Debug, Clone, PartialEq)]
pub struct DiffLine {
    pub tag: DiffChangeTag,
    pub old_index: Option<u32>,
    pub new_index: Option<u32>,
    pub text: String,
    pub spans: Vec<DiffSpan>,
}

/// The content of a diff line.
pub struct DiffLineView {
    pub tag: DiffChangeTag,
    pub old_index: Option<u32>,
    pub new_index: Option<u32>,
    pub text: Seq<char>,
    pub spans: Seq<(DiffChangeTag, Seq<char>)>,
}

impl View for DiffLine {
    type V = DiffLineView;

    open spec fn view(&self) -> DiffLineView {
        DiffLineView {
            tag: self.tag,
            old_index: self.old_index,
            new_index: self.new_index,
            text: self.text@,
            spans: self.spans@.map_values(|s: DiffSpan| (s.tag, s.text@)),
        }
    }
}

/// One changed line as the diff library reports it: its tag, its line
/// numbers in the old and the new text, and its pieces with a flag telling
/// whether each piece is highlighted.
pub struct LineChange {
    pub tag: DiffChangeTag,
    pub old_index: Option<usize>,
    pub new_index: Option<usize>,
    pub pieces: Vec<(bool, String)>,
}

/// The content of a reported line change.
pub struct LineChangeView {
    pub tag: DiffChangeTag,
    pub old_index: Option<usize>,
    pub new_index: Option<usize>,
    pub pieces: Seq<(bool, Seq<char>)>,
}

impl View for LineChange {
    type V = LineChangeView;

    open spec fn view(&self) -> LineChangeView {
        LineChangeView {
            tag: self.tag,
            old_index: self.old_index,
            new_index: self.new_index,
            pieces: self.pieces@.map_values(|p: (bool, String)| (p.0, p.1@)),
        }
    }
}

/// The views of reported line changes.
pub open spec fn change_views(v: Seq<LineChange>) -> Seq<LineChangeView> {
    v.map_values(|c: LineChange| c@)
}

/// The lines that `similar`'s patience line diff of two texts reports, each
/// as its tag, its line numbers in the old and the new text, and its text.
pub uninterp spec fn patience_lines(old: Seq<char>, new: Seq<char>) -> Seq<
    (DiffChangeTag, Option<usize>, Option<usize>, Seq<char>),
>;

/// The tag, line numbers and text (its pieces concatenated) of a reported change.
pub open spec fn change_shape(c: LineChangeView) -> (DiffChangeTag, Option<usize>, Option<usize>, Seq<char>) {
    (c.tag, c.old_index, c.new_index, pieces_text(c.pieces))
}

/// The texts of the lines not tagged `skip`, concatenated in order.
pub open spec fn side_text(
    lines: Seq<(DiffChangeTag, Option<usize>, Option<usize>, Seq<char>)>,
    skip: DiffChangeTag,
) -> Seq<char>
    decreases lines.len(),
{
    if lines.len() == 0 {
        seq![]
    } else {
        side_text(lines.drop_last(), skip) + if lines.last().0 == skip {
            Seq::<char>::empty()
        } else {
            lines.last().3
        }
    }
}

/// Calls `similar::TextDiff::configure().algorithm(Patience).diff_lines` and
/// lists `iter_all_inline_changes`, each piece decoded with
/// `iter_strings_lossy`. Claimed: the changes reported, each taken as its
/// tag, line numbers and text, are the named lines of the two texts; as
/// every diff does, they rebuild both texts (the lines not inserted give
/// the old text, the lines not deleted the new one); and two equal texts
/// differ on no line. How a changed line is cut into highlighted pieces is
/// not claimed: that refinement runs under a 500 ms deadline, so it may
/// differ between calls.
#[verifier::external_body]
fn line_changes(old: &str, new: &str) -> (r: Vec<LineChange>)
    ensures
        r@.map_values(|c: LineChange| change_shape(c@)) == patience_lines(old@, new@),
        side_text(r@.map_values(|c: LineChange| change_shape(c@)), DiffChangeTag::Insert) == old@,
        side_text(r@.map_values(|c: LineChange| change_shape(c@)), DiffChangeTag::Delete) == new@,
        old@ == new@ ==> forall|i: int| 0 <= i < r@.len() ==> (#[trigger] r@[i]).tag == DiffChangeTag::Equal,
{
    let diff = similar::TextDiff::configure().algorithm(similar::Algorithm::Patience).diff_lines(
        old,
        new,
    );
    diff.iter_all_inline_changes().map(|change| LineChange {
        tag: match change.tag() {
            similar::ChangeTag::Equal => DiffChangeTag::Equal,
            similar::ChangeTag::Delete => DiffChangeTag::Delete,
            similar::ChangeTag::Insert => DiffChangeTag::Insert,
        },
        old_index: change.old_index(),
        new_index: change.new_index(),
        pieces: change.iter_strings_lossy().map(|(e, v)| (e, v.into_owned())).collect(),
    }).collect()
}

/// The text of a line: its pieces, concatenated.
pub open spec fn pieces_text(p: Seq<(bool, Seq<char>)>) -> Seq<char>
    decreases p.len(),
{
    if p.len() == 0 {
        seq![]
    } else {
        pieces_text(p.drop_last()) + p.last().1
    }
}

/// The highlight of a piece: the line's tag if the piece is highlighted,
/// else `Equal`.
pub open spec fn span_of(tag: DiffChangeTag, piece: (bool, Seq<char>)) -> (DiffChangeTag, Seq<char>) {
    (if piece.0 { tag } else { DiffChangeTag::Equal }, piece.1)
}

/// The diff line made from a reported change; line numbers are narrowed to `u32`.
pub open spec fn line_of(c: LineChangeView) -> DiffLineView {
    DiffLineView {
        tag: c.tag,
        old_index: match c.old_index {
            Some(i) => Some(i as u32),
            None => None,
        },
        new_index: match c.new_index {
            Some(i) => Some(i as u32),
            None => None,
        },
        text: pieces_text(c.pieces),
        spans: c.pieces.map_values(|p: (bool, Seq<char>)| span_of(c.tag, p)),
    }
}

/// The diff line of a change keeps its tag and has one span per piece, with
/// the piece's text: a highlighted piece carries the line's tag, any other
/// piece `Equal`.
pub proof fn lemma_line_spans(c: LineChangeView)
    ensures
        line_of(c).tag == c.tag,
        line_of(c).spans.len() == c.pieces.len(),
        forall|j: int|
            0 <= j < c.pieces.len() ==> {
                &&& (#[trigger] line_of(c).spans[j]).1 == c.pieces[j].1
                &&& c.pieces[j].0 ==> line_of(c).spans[j].0 == c.tag
                &&& !c.pieces[j].0 ==> line_of(c).spans[j].0 == DiffChangeTag::Equal
            },
{
}

/// The number of characters on the lines of `cs` tagged `tag`.
pub open spec fn tagged_chars(cs: Seq<LineChangeView>, tag: DiffChangeTag) -> nat
    decreases cs.len(),
{
    if cs.len() == 0 {
        0
    } else {
        tagged_chars(cs.drop_last(), tag) + if cs.last().tag == tag {
            pieces_text(cs.last().pieces).len()
        } else {
            0
        }
    }
}

/// The summary of a diff: no change, characters added, removed, or both.
pub open spec fn summary_text(inserted: nat, deleted: nat, identical: bool) -> Seq<char> {
    if identical || (inserted == 0 && deleted == 0) {
        "无改动"@
    } else if deleted == 0 {
        "+"@ + decimal(inserted) + " 字"@
    } else if inserted == 0 {
        "-"@ + decimal(deleted) + " 字"@
    } else {
        "+"@ + decimal(inserted) + " 字，-"@ + decimal(deleted) + " 字"@
    }
}

/// The summary of a diff.
pub fn format_summary(inserted: u32, deleted: u32, identical: bool) -> (r: String)
    ensures
        r@ == summary_text(inserted as nat, deleted as nat, identical),
{
    if identical || (inserted == 0 && deleted == 0) {
        return "无改动".to_owned();
    }
    let mut v: Vec<char> = Vec::new();
    if deleted == 0 {
        append_str(&mut v, "+");
        append_chars(&mut v, decimal_chars(inserted as u64).as_slice());
        append_str(&mut v, " 字");
    } else if inserted == 0 {
        append_str(&mut v, "-");
        append_chars(&mut v, decimal_chars(deleted as u64).as_slice());
        append_str(&mut v, " 字");
    } else {
        append_str(&mut v, "+");
        append_chars(&mut v, decimal_chars(inserted as u64).as_slice());
        append_str(&mut v, " 字，-");
        append_chars(&mut v, decimal_chars(deleted as u64).as_slice());
        append_str(&mut v, " 字");
    }
    string_of(v.as_slice())
}

/// A line diff with its character counts and summary.
#[derive(Debug, Clone, PartialEq)]
pub struct LineDiff {
    pub summary: String,
    pub inserted_chars: u32,
    pub deleted_chars: u32,
    pub lines: Vec<DiffLine>,
}

fn narrow_index(i: Option<usize>) -> (r: Option<u32>)
    ensures
        r == match i {
            Some(k) => Some(k as u32),
            None => None::<u32>,
        },
{
    match i {
        Some(k) => Some(k as u32),
        None => None,
    }
}

/// The diff line of one reported change.
fn diff_line(c: &LineChange) -> (r: DiffLine)
    ensures
        r@ == line_of(c@),
{
    let mut text: Vec<char> = Vec::new();
    let mut spans: Vec<DiffSpan> = Vec::new();
    let ghost pv = c@.pieces;
    let mut k: usize = 0;
    while k < c.pieces.len()
        invariant
            k <= c.pieces.len(),
            pv == c@.pieces,
            text@ == pieces_text(pv.take(k as int)),
            spans@.map_values(|s: DiffSpan| (s.tag, s.text@)) == pv.take(k as int).map_values(
                |p: (bool, Seq<char>)| span_of(c.tag, p),
            ),
        decreases c.pieces.len() - k,
    {
        proof {
            assert(pv.take(k + 1).drop_last() =~= pv.take(k as int));
        }
        let emphasized = c.pieces[k].0;
        let piece = chars_of(c.pieces[k].1.as_str());
        append_chars(&mut text, piece.as_slice());
        let ghost before = spans@;
        let span = DiffSpan {
            tag: if emphasized {
                c.tag
            } else {
                DiffChangeTag::Equal
            },
            text: string_of(piece.as_slice()),
        };
        spans.push(span);
        proof {
            assert(spans@.map_values(|s: DiffSpan| (s.tag, s.text@)) =~= before.map_values(
                |s: DiffSpan| (s.tag, s.text@),
            ).push(span_of(c.tag, pv[k as int])));
            assert(pv.take(k + 1).map_values(|p: (bool, Seq<char>)| span_of(c.tag, p))
                =~= pv.take(k as int).map_values(|p: (bool, Seq<char>)| span_of(c.tag, p)).push(
                span_of(c.tag, pv[k as int]),
            ));
        }
        k += 1;
    }
    proof {
        assert(pv.take(c.pieces.len() as int) =~= pv);
    }
    DiffLine {
        tag: c.tag,
        old_index: narrow_index(c.old_index),
        new_index: narrow_index(c.new_index),
        text: string_of(text.as_slice()),
        spans,
    }
}

proof fn lemma_tagged_chars_prefix(cs: Seq<LineChangeView>, tag: DiffChangeTag, i: int)
    requires
        0 <= i <= cs.len(),
    ensures
        tagged_chars(cs.take(i), tag) <= tagged_chars(cs, tag),
    decreases cs.len() - i,
{
    if i < cs.len() {
        lemma_tagged_chars_prefix(cs.drop_last(), tag, i);
        assert(cs.drop_last().take(i) =~= cs.take(i));
    } else {
        assert(cs.take(i) =~= cs);
    }
}

/// Builds the diff lines, counts and summary from reported line changes.
pub fn diff_from_changes(changes: &Vec<LineChange>, identical: bool) -> (r: LineDiff)
    requires
        tagged_chars(change_views(changes@), DiffChangeTag::Insert) <= u32::MAX,
        tagged_chars(change_views(changes@), DiffChangeTag::Delete) <= u32::MAX,
    ensures
        r.lines@.map_values(|l: DiffLine| l@) == change_views(changes@).map_values(
            |c: LineChangeView| line_of(c),
        ),
        r.inserted_chars == tagged_chars(change_views(changes@), DiffChangeTag::Insert),
        r.deleted_chars == tagged_chars(change_views(changes@), DiffChangeTag::Delete),
        r.summary@ == summary_text(r.inserted_chars as nat, r.deleted_chars as nat, identical),
        r.lines@.len() == changes@.len(),
        forall|i: int|
            0 <= i < changes@.len() ==> (#[trigger] r.lines@[i]).tag == changes@[i].tag
                && r.lines@[i].spans@.len() == changes@[i].pieces@.len(),
        forall|i: int, j: int|
            0 <= i < changes@.len() && 0 <= j < changes@[i].pieces@.len() ==> {
                let piece = #[trigger] changes@[i].pieces@[j];
                let span = r.lines@[i].spans@[j];
                &&& span.text@ == piece.1@
                &&& piece.0 ==> span.tag == changes@[i].tag
                &&& !piece.0 ==> span.tag == DiffChangeTag::Equal
            },
{
    let ghost cv = change_views(changes@);
    let mut lines: Vec<DiffLine> = Vec::new();
    let mut inserted: u32 = 0;
    let mut deleted: u32 = 0;
    let mut i: usize = 0;
    while i < changes.len()
        invariant
            i <= changes.len(),
            cv == change_views(changes@),
            tagged_chars(cv, DiffChangeTag::Insert) <= u32::MAX,
            tagged_chars(cv, DiffChangeTag::Delete) <= u32::MAX,
            lines@.map_values(|l: DiffLine| l@) == cv.take(i as int).map_values(
                |c: LineChangeView| line_of(c),
            ),
            inserted == tagged_chars(cv.take(i as int), DiffChangeTag::Insert),
            deleted == tagged_chars(cv.take(i as int), DiffChangeTag::Delete),
        decreases changes.len() - i,
    {
        proof {
            assert(cv.take(i + 1).drop_last() =~= cv.take(i as int));
            lemma_tagged_chars_prefix(cv, DiffChangeTag::Insert, i + 1);
            lemma_tagged_chars_prefix(cv, DiffChangeTag::Delete, i + 1);
        }
        let line = diff_line(&changes[i]);
        let n = line.text.as_str().unicode_len();
        match line.tag {
            DiffChangeTag::Insert => inserted = inserted + n as u32,
            DiffChangeTag::Delete => deleted = deleted + n as u32,
            DiffChangeTag::Equal => {},
        }
        let ghost before = lines@;
        lines.push(line);
        proof {
            assert(lines@.map_values(|l: DiffLine| l@) =~= before.map_values(|l: DiffLine| l@).push(
                line_of(cv[i as int]),
            ));
            assert(cv.take(i + 1).map_values(|c: LineChangeView| line_of(c)) =~= cv.take(
                i as int,
            ).map_values(|c: LineChangeView| line_of(c)).push(line_of(cv[i as int])));
        }
        i += 1;
    }
    proof {
        assert(cv.take(changes.len() as int) =~= cv);
        let lv = lines@.map_values(|l: DiffLine| l@);
        assert forall|i: int, j: int|
            0 <= i < changes@.len() && 0 <= j < changes@[i].pieces@.len() implies {
                let piece = #[trigger] changes@[i].pieces@[j];
                let span = lines@[i].spans@[j];
                &&& span.text@ == piece.1@
                &&& piece.0 ==> span.tag == changes@[i].tag
                &&& !piece.0 ==> span.tag == DiffChangeTag::Equal
            } by {
            assert(lv[i] == lines@[i]@);
            assert(cv[i] == changes@[i]@);
            lemma_line_spans(cv[i]);
            let sv = lines@[i]@.spans;
            assert(sv[j] == (lines@[i].spans@[j].tag, lines@[i].spans@[j].text@));
            assert(cv[i].pieces[j] == (changes@[i].pieces@[j].0, changes@[i].pieces@[j].1@));
        }
        assert forall|i: int| 0 <= i < changes@.len() implies (#[trigger] lines@[i]).tag
            == changes@[i].tag && lines@[i].spans@.len() == changes@[i].pieces@.len() by {
            assert(lv[i] == lines@[i]@);
            assert(cv[i] == changes@[i]@);
            lemma_line_spans(cv[i]);
        }
    }
    LineDiff { summary: format_summary(inserted, deleted, identical), inserted_chars: inserted, deleted_chars: deleted, lines }
}

/// The total of `tag` characters in `changes`, if it fits in a `u32`.
fn checked_total(changes: &Vec<LineChange>, tag: DiffChangeTag) -> (r: Option<u32>)
    ensures
        match r {
            Some(n) => n == tagged_chars(change_views(changes@), tag),
            None => tagged_chars(change_views(changes@), tag) > u32::MAX,
        },
{
    let ghost cv = change_views(changes@);
    let mut total: u32 = 0;
    let mut i: usize = 0;
    while i < changes.len()
        invariant
            i <= changes.len(),
            cv == change_views(changes@),
            total == tagged_chars(cv.take(i as int), tag),
        decreases changes.len() - i,
    {
        proof {
            assert(cv.take(i + 1).drop_last() =~= cv.take(i as int));
        }
        if changes[i].tag == tag {
            let line = diff_line(&changes[i]);
            let n = line.text.as_str().unicode_len();
            if n > u32::MAX as usize || total > u32::MAX - n as u32 {
                proof {
                    lemma_tagged_chars_prefix(cv, tag, i + 1);
                }
                return None;
            }
            total = total + n as u32;
        }
        i += 1;
    }
    proof {
        assert(cv.take(changes.len() as int) =~= cv);
    }
    Some(total)
}

/// The number of characters on the lines tagged `tag` among some lines.
pub open spec fn shape_chars(
    lines: Seq<(DiffChangeTag, Option<usize>, Option<usize>, Seq<char>)>,
    tag: DiffChangeTag,
) -> nat
    decreases lines.len(),
{
    if lines.len() == 0 {
        0
    } else {
        shape_chars(lines.drop_last(), tag) + if lines.last().0 == tag {
            lines.last().3.len()
        } else {
            0
        }
    }
}

proof fn lemma_shape_chars(cs: Seq<LineChangeView>, tag: DiffChangeTag)
    ensures
        shape_chars(cs.map_values(|c: LineChangeView| change_shape(c)), tag) == tagged_chars(cs, tag),
    decreases cs.len(),
{
    if cs.len() > 0 {
        lemma_shape_chars(cs.drop_last(), tag);
        assert(cs.map_values(|c: LineChangeView| change_shape(c)).drop_last() =~= cs.drop_last().map_values(
            |c: LineChangeView| change_shape(c),
        ));
    }
}

/// A line number narrowed to `u32`.
pub open spec fn narrowed(i: Option<usize>) -> Option<u32> {
    match i {
        Some(k) => Some(k as u32),
        None => None,
    }
}

/// The texts of the diff lines not tagged `skip`, concatenated in order.
pub open spec fn lines_side_text(lines: Seq<DiffLineView>, skip: DiffChangeTag) -> Seq<char>
    decreases lines.len(),
{
    if lines.len() == 0 {
        seq![]
    } else {
        lines_side_text(lines.drop_last(), skip) + if lines.last().tag == skip {
            Seq::<char>::empty()
        } else {
            lines.last().text
        }
    }
}

/// The texts of some highlighted pieces, concatenated.
pub open spec fn spans_text(spans: Seq<(DiffChangeTag, Seq<char>)>) -> Seq<char>
    decreases spans.len(),
{
    if spans.len() == 0 {
        seq![]
    } else {
        spans_text(spans.drop_last()) + spans.last().1
    }
}

proof fn lemma_spans_text(tag: DiffChangeTag, p: Seq<(bool, Seq<char>)>)
    ensures
        spans_text(p.map_values(|q: (bool, Seq<char>)| span_of(tag, q))) == pieces_text(p),
    decreases p.len(),
{
    if p.len() > 0 {
        lemma_spans_text(tag, p.drop_last());
        assert(p.map_values(|q: (bool, Seq<char>)| span_of(tag, q)).drop_last() =~= p.drop_last().map_values(
            |q: (bool, Seq<char>)| span_of(tag, q),
        ));
    }
}

/// The number of characters on the diff lines tagged `tag`.
pub open spec fn line_chars(lines: Seq<DiffLineView>, tag: DiffChangeTag) -> nat
    decreases lines.len(),
{
    if lines.len() == 0 {
        0
    } else {
        line_chars(lines.drop_last(), tag) + if lines.last().tag == tag {
            lines.last().text.len()
        } else {
            0
        }
    }
}

proof fn lemma_line_chars_agree(
    lines: Seq<DiffLineView>,
    pl: Seq<(DiffChangeTag, Option<usize>, Option<usize>, Seq<char>)>,
    tag: DiffChangeTag,
)
    requires
        lines.len() == pl.len(),
        forall|i: int| 0 <= i < pl.len() ==> #[trigger] lines[i].tag == pl[i].0 && lines[i].text == pl[i].3,
    ensures
        line_chars(lines, tag) == shape_chars(pl, tag),
    decreases pl.len(),
{
    if pl.len() > 0 {
        lemma_line_chars_agree(lines.drop_last(), pl.drop_last(), tag);
        assert(lines.last().tag == pl.last().0 && lines.last().text == pl.last().3) by {
            assert(lines[pl.len() - 1].tag == pl[pl.len() - 1].0);
        }
    }
}

proof fn lemma_side_texts_agree(
    lines: Seq<DiffLineView>,
    pl: Seq<(DiffChangeTag, Option<usize>, Option<usize>, Seq<char>)>,
    skip: DiffChangeTag,
)
    requires
        lines.len() == pl.len(),
        forall|i: int| 0 <= i < pl.len() ==> #[trigger] lines[i].tag == pl[i].0 && lines[i].text == pl[i].3,
    ensures
        lines_side_text(lines, skip) == side_text(pl, skip),
    decreases pl.len(),
{
    if pl.len() > 0 {
        lemma_side_texts_agree(lines.drop_last(), pl.drop_last(), skip);
        assert(lines.last().tag == pl.last().0 && lines.last().text == pl.last().3) by {
            assert(lines[pl.len() - 1].tag == pl[pl.len() - 1].0);
        }
    }
}

proof fn lemma_no_tagged_chars(
    pl: Seq<(DiffChangeTag, Option<usize>, Option<usize>, Seq<char>)>,
    tag: DiffChangeTag,
)
    requires
        tag != DiffChangeTag::Equal,
        forall|i: int| 0 <= i < pl.len() ==> (#[trigger] pl[i]).0 == DiffChangeTag::Equal,
    ensures
        shape_chars(pl, tag) == 0,
    decreases pl.len(),
{
    if pl.len() > 0 {
        lemma_no_tagged_chars(pl.drop_last(), tag);
        assert(pl.last() == pl[pl.len() - 1]);
    }
}

/// Diffs two texts line by line: the lines are those of the patience diff,
/// in order, each with its tag, line numbers and text (and inline
/// highlights); the counts are the characters of the inserted and the
/// deleted lines; identical texts are summarised as unchanged. `None`
/// exactly when a count does not fit in a `u32`.
pub fn diff_texts(old: &str, new: &str) -> (r: Option<LineDiff>)
    ensures
        ({
            let pl = patience_lines(old@, new@);
            let ins = shape_chars(pl, DiffChangeTag::Insert);
            let del = shape_chars(pl, DiffChangeTag::Delete);
            &&& (r is None <==> (ins > u32::MAX || del > u32::MAX))
            &&& r matches Some(d) ==> {
                &&& d.inserted_chars == ins
                &&& d.deleted_chars == del
                &&& d.summary@ == summary_text(ins, del, old@ == new@)
                &&& d.lines@.len() == pl.len()
                &&& forall|i: int|
                    0 <= i < pl.len() ==> {
                        let l = #[trigger] d.lines@[i]@;
                        &&& l.tag == pl[i].0
                        &&& l.old_index == narrowed(pl[i].1)
                        &&& l.new_index == narrowed(pl[i].2)
                        &&& l.text == pl[i].3
                        &&& spans_text(l.spans) == l.text
                        &&& forall|j: int|
                            0 <= j < l.spans.len() ==> (#[trigger] l.spans[j]).0 == DiffChangeTag::Equal
                                || l.spans[j].0 == l.tag
                    }
                &&& line_chars(d.lines@.map_values(|l: DiffLine| l@), DiffChangeTag::Insert) == ins
                &&& line_chars(d.lines@.map_values(|l: DiffLine| l@), DiffChangeTag::Delete) == del
                &&& lines_side_text(d.lines@.map_values(|l: DiffLine| l@), DiffChangeTag::Insert) == old@
                &&& lines_side_text(d.lines@.map_values(|l: DiffLine| l@), DiffChangeTag::Delete) == new@
                &&& old@ == new@ ==> {
                    &&& ins == 0
                    &&& del == 0
                    &&& forall|i: int| 0 <= i < d.lines@.len() ==> (#[trigger] d.lines@[i]).tag
                        == DiffChangeTag::Equal
                }
            }
        }),
{
    let changes = line_changes(old, new);
    proof {
        lemma_shape_chars(change_views(changes@), DiffChangeTag::Insert);
        lemma_shape_chars(change_views(changes@), DiffChangeTag::Delete);
        assert(change_views(changes@).map_values(|c: LineChangeView| change_shape(c))
            =~= changes@.map_values(|c: LineChange| change_shape(c@)));
    }
    let ins = checked_total(&changes, DiffChangeTag::Insert);
    let del = checked_total(&changes, DiffChangeTag::Delete);
    if ins.is_none() || del.is_none() {
        return None;
    }
    let identical = str_same(old, new);
    let d = diff_from_changes(&changes, identical);
    proof {
        let pl = patience_lines(old@, new@);
        let cv = change_views(changes@);
        assert(d.lines@.map_values(|l: DiffLine| l@).len() == cv.map_values(
            |c: LineChangeView| line_of(c),
        ).len());
        let lv = d.lines@.map_values(|l: DiffLine| l@);
        assert forall|i: int| 0 <= i < pl.len() implies {
            let l = #[trigger] d.lines@[i]@;
            &&& l.tag == pl[i].0
            &&& l.old_index == narrowed(pl[i].1)
            &&& l.new_index == narrowed(pl[i].2)
            &&& l.text == pl[i].3
            &&& spans_text(l.spans) == l.text
            &&& forall|j: int|
                0 <= j < l.spans.len() ==> (#[trigger] l.spans[j]).0 == DiffChangeTag::Equal
                    || l.spans[j].0 == l.tag
        } by {
            assert(lv[i] == cv.map_values(|c: LineChangeView| line_of(c))[i]);
            assert(pl[i] == changes@.map_values(|c: LineChange| change_shape(c@))[i]);
            lemma_spans_text(cv[i].tag, cv[i].pieces);
        }
        assert forall|i: int| 0 <= i < pl.len() implies #[trigger] lv[i].tag == pl[i].0 && lv[i].text
            == pl[i].3 by {
            assert(lv[i] == d.lines@[i]@);
        }
        lemma_line_chars_agree(lv, pl, DiffChangeTag::Insert);
        lemma_line_chars_agree(lv, pl, DiffChangeTag::Delete);
        lemma_side_texts_agree(lv, pl, DiffChangeTag::Insert);
        lemma_side_texts_agree(lv, pl, DiffChangeTag::Delete);
        if old@ == new@ {
            lemma_no_tagged_chars(pl, DiffChangeTag::Insert);
            lemma_no_tagged_chars(pl, DiffChangeTag::Delete);
            assert forall|i: int| 0 <= i < d.lines@.len() implies (#[trigger] d.lines@[i]).tag
                == DiffChangeTag::Equal by {
                assert(lv[i] == d.lines@[i]@);
            }
        }
    }
    Some(d)
}

/// The summary of the diff of two texts: `无改动` for identical texts, else
/// the inserted and deleted character counts. `None` exactly when a count
/// does not fit in a `u32`.
pub fn summarize_text_diff(old: &str, new: &str) -> (r: Option<String>)
    ensures
        ({
            let pl = patience_lines(old@, new@);
            let ins = shape_chars(pl, DiffChangeTag::Insert);
            let del = shape_chars(pl, DiffChangeTag::Delete);
            &&& (r is None <==> (ins > u32::MAX || del > u32::MAX))
            &&& r matches Some(s) ==> s@ == summary_text(ins, del, old@ == new@)
        }),
        old@ == new@ ==> (r matches Some(s) ==> s@ == "无改动"@),
{
    match diff_texts(old, new) {
        Some(d) => Some(d.summary),
        None => None,
    }
}

fn str_same(a: &str, b: &str) -> (r: bool)
    ensures
        r == (a@ == b@),
{
    crate::text::str_eq(a, b)
}

/// The preview of a text: its words joined by single spaces, cut to
/// `PREVIEW_CHARS` characters with `…` appended when longer.
pub open spec fn preview_of(text: Seq<char>) -> Seq<char> {
    let collapsed = join(words(text), seq![' ']);
    if collapsed.len() > PREVIEW_CHARS {
        collapsed.take(PREVIEW_CHARS as int).push('…')
    } else {
        collapsed
    }
}

/// The preview of a revision's text.
pub fn preview_text(text: &str) -> (r: String)
    ensures
        r@ == preview_of(text@),
{
    let v = chars_of(text);
    let ws = split_words(v.as_slice());
    let sp = [' '];
    let collapsed = join_chars(&ws, &sp);
    proof {
        assert(sp@ =~= seq![' ']);
    }
    if collapsed.len() > PREVIEW_CHARS {
        let mut p = slice_to_vec(collapsed.as_slice(), 0, PREVIEW_CHARS);
        p.push('…');
        proof {
            assert(collapsed@.subrange(0, PREVIEW_CHARS as int) =~= collapsed@.take(PREVIEW_CHARS as int));
        }
        string_of(p.as_slice())
    } else {
        string_of(collapsed.as_slice())
    }
}


/// The summary of a stored revision of a chapter, without its text: when it
/// was made (milliseconds since the epoch), how many characters the text
/// has, its preview and who made it.
#[derive(Debug, Clone, PartialEq)]
pub struct RevisionSummary {
    pub revision: u64,
    pub created_at_ms: i64,
    pub char_count: u32,
    pub preview: String,
    pub actor: String,
}

impl RevisionSummary {
    /// The summary of revision `revision` of a text.
    pub fn from_text(revision: u64, created_at_ms: i64, text: &str, actor: String) -> (r: RevisionSummary)
        requires
            text@.len() <= u32::MAX,
        ensures
            r.revision == revision,
            r.created_at_ms == created_at_ms,
            r.char_count == text@.len(),
            r.preview@ == preview_of(text@),
            r.actor@ == actor@,
    {
        let n = chars_of(text).len();
        RevisionSummary {
            revision,
            created_at_ms,
            char_count: n as u32,
            preview: preview_text(text),
            actor,
        }
    }
}

/// A preview is at most `PREVIEW_CHARS` characters and the ellipsis; it is
/// cut exactly when the text, blanks collapsed, is longer than that.
pub proof fn lemma_preview_bounded(text: Seq<char>)
    ensures
        preview_of(text).len() <= PREVIEW_CHARS + 1,
        (preview_of(text).len() == PREVIEW_CHARS + 1 && preview_of(text).last() == '…') <==> join(
            words(text),
            seq![' '],
        ).len() > PREVIEW_CHARS,
{
}
} // verus!
