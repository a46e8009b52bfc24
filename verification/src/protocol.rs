//! The writing protocol (version 2): a chapter's block sequence becomes
//! beat-level training examples, each graded for quality.
//!
//! The context of every example runs from the start of the chapter up to the
//! beat before it and keeps both thinking and body text.
use vstd::prelude::*;
use crate::content::{markup_summary, BlockKind, BlockView, ContentBlock, MarkupRef, MarkupView, block_views};
use crate::text::{
    append_chars, append_str, chars_eq_str, chars_of, contains_chars, contains_seq, copy_string,
    first_match, find_chars, in_trim_set, join, join_chars, lines, replace_char, replace_chars,
    split_lines, starts_with, is_white_space, lemma_trim_start_by, lemma_trim_end_by, starts_with_chars, str_eq, string_of, to_ascii_lowercase, trim,
    trim_bounds, trim_end_by, trim_start_by, trimmed, ascii_lowercase, TrimSet,
};

verus! {

/// Protocol version carried by exported files.
pub const WRITING_PROTOCOL_VERSION: u32 = 2;

/// The fixed system instruction written into ShareGPT / Alpaca exports.
pub const WRITING_PROTOCOL_SYSTEM: &'static str = "你按墨枢写作协议写网文：先思考本拍决策，再写读者可见正文。思考不是人物内心独白，正文不含作者备注。思考里的 @人物/@伏笔 是写作标签，不必当成数据库实体。";

/// Minimum thinking length (in characters) of a gold example.
pub const GOLD_THINKING_MIN: usize = 16;

/// Minimum body length (in characters) of a gold example.
pub const GOLD_BODY_MIN: usize = 40;

/// Minimum thinking length of a usable example.
pub const USABLE_THINKING_MIN: usize = 8;

/// Minimum body length of a usable example.
pub const USABLE_BODY_MIN: usize = 24;

/// Length from which thinking copied into the body (or back) is detected.
pub const COPY_DETECT_MIN: usize = 16;

/// Quality of a training example, ordered `Skip < Usable < Gold`. Gold and
/// usable examples are exported by default.
#[derive(Debug, Clone, Copy, PartialEq, Eq, Structural, PartialOrd, Ord)]
pub enum ExampleQuality {
    Skip,
    Usable,
    Gold,
}

/// The position of a quality in the order `Skip < Usable < Gold`.
pub open spec fn quality_rank(q: ExampleQuality) -> int {
    match q {
        ExampleQuality::Skip => 0,
        ExampleQuality::Usable => 1,
        ExampleQuality::Gold => 2,
    }
}

/// The name of a quality in exported files.
pub open spec fn quality_name(q: ExampleQuality) -> Seq<char> {
    match q {
        ExampleQuality::Skip => "skip"@,
        ExampleQuality::Usable => "usable"@,
        ExampleQuality::Gold => "gold"@,
    }
}

/// The quality a name stands for.
pub open spec fn quality_from_name(s: Seq<char>) -> Option<ExampleQuality> {
    if s == "skip"@ {
        Some(ExampleQuality::Skip)
    } else if s == "usable"@ {
        Some(ExampleQuality::Usable)
    } else if s == "gold"@ {
        Some(ExampleQuality::Gold)
    } else {
        None
    }
}

impl ExampleQuality {
    /// The name of the quality.
    pub fn as_str(self) -> (r: &'static str)
        ensures
            r@ == quality_name(self),
    {
        match self {
            ExampleQuality::Skip => "skip",
            ExampleQuality::Usable => "usable",
            ExampleQuality::Gold => "gold",
        }
    }

    /// The quality with this name, if any.
    pub fn parse(value: &str) -> (r: Option<ExampleQuality>)
        ensures
            r == quality_from_name(value@),
    {
        if str_eq(value, "skip") {
            Some(ExampleQuality::Skip)
        } else if str_eq(value, "usable") {
            Some(ExampleQuality::Usable)
        } else if str_eq(value, "gold") {
            Some(ExampleQuality::Gold)
        } else {
            None
        }
    }

    /// The position of the quality in the order `Skip < Usable < Gold`.
    pub fn rank(self) -> (r: u8)
        ensures
            r == quality_rank(self),
    {
        match self {
            ExampleQuality::Skip => 0,
            ExampleQuality::Usable => 1,
            ExampleQuality::Gold => 2,
        }
    }
}

/// The labelled slots of a thinking block; lines without a known label
/// are kept in `notes`.
#[derive(Debug, Clone, Default, PartialEq, Eq)]
pub struct ThinkingSlots {
    pub intent: Option<String>,
    pub constraints: Option<String>,
    pub technique: Option<String>,
    pub must_show: Option<String>,
    pub must_not: Option<String>,
    pub notes: String,
}

/// The text content of thinking slots.
pub struct SlotsView {
    pub intent: Option<Seq<char>>,
    pub constraints: Option<Seq<char>>,
    pub technique: Option<Seq<char>>,
    pub must_show: Option<Seq<char>>,
    pub must_not: Option<Seq<char>>,
    pub notes: Seq<char>,
}

/// The view of an optional string.
pub open spec fn opt_view(o: Option<String>) -> Option<Seq<char>> {
    match o {
        Some(s) => Some(s@),
        None => None,
    }
}

impl View for ThinkingSlots {
    type V = SlotsView;

    open spec fn view(&self) -> SlotsView {
        SlotsView {
            intent: opt_view(self.intent),
            constraints: opt_view(self.constraints),
            technique: opt_view(self.technique),
            must_show: opt_view(self.must_show),
            must_not: opt_view(self.must_not),
            notes: self.notes@,
        }
    }
}

/// Whether the slots carry a non-empty intent.
pub open spec fn slots_have_intent(s: SlotsView) -> bool {
    match s.intent {
        Some(t) => t.len() > 0,
        None => false,
    }
}

/// No slot filled, no notes.
pub open spec fn empty_slots() -> SlotsView {
    SlotsView {
        intent: None,
        constraints: None,
        technique: None,
        must_show: None,
        must_not: None,
        notes: seq![],
    }
}

fn copy_opt(o: &Option<String>) -> (r: Option<String>)
    ensures
        opt_view(r) == opt_view(*o),
{
    match o {
        Some(s) => Some(copy_string(s)),
        None => None,
    }
}

impl ThinkingSlots {
    /// Whether an intent is set and non-empty.
    pub fn has_intent(&self) -> (r: bool)
        ensures
            r == slots_have_intent(self@),
    {
        match &self.intent {
            Some(value) => value.as_str().unicode_len() > 0,
            None => false,
        }
    }

    /// A copy with the same content.
    pub fn copy(&self) -> (r: ThinkingSlots)
        ensures
            r@ == self@,
    {
        ThinkingSlots {
            intent: copy_opt(&self.intent),
            constraints: copy_opt(&self.constraints),
            technique: copy_opt(&self.technique),
            must_show: copy_opt(&self.must_show),
            must_not: copy_opt(&self.must_not),
            notes: copy_string(&self.notes),
        }
    }

    /// No slot filled, no notes.
    pub fn empty() -> (r: ThinkingSlots)
        ensures
            r@ == empty_slots(),
    {
        ThinkingSlots {
            intent: None,
            constraints: None,
            technique: None,
            must_show: None,
            must_not: None,
            notes: String::new(),
        }
    }
}

/// Which slot a labelled thinking line fills.
#[derive(Debug, Clone, Copy, PartialEq, Eq, Structural)]
pub enum SlotKind {
    Intent,
    Constraints,
    Technique,
    MustShow,
    MustNot,
}

/// The slot that a normalised label names.
#[verifier::opaque]
pub open spec fn label_kind(label: Seq<char>) -> Option<SlotKind> {
    if label == "意图"@ || label == "目标"@ || label == "目的"@ {
        Some(SlotKind::Intent)
    } else if label == "约束"@ || label == "限制"@ || label == "正史"@ {
        Some(SlotKind::Constraints)
    } else if label == "手法"@ || label == "写法"@ || label == "节奏"@ {
        Some(SlotKind::Technique)
    } else if label == "兑现"@ || label == "必须"@ || label == "出场"@ {
        Some(SlotKind::MustShow)
    } else if label == "禁止"@ || label == "勿"@ || label == "不能"@ {
        Some(SlotKind::MustNot)
    } else {
        None
    }
}

/// A label trimmed of white space, then of opening and closing brackets,
/// spaces and tabs.
pub open spec fn normalized_label(label: Seq<char>) -> Seq<char> {
    trim_end_by(
        trim_start_by(trim(label), |c: char| in_trim_set(TrimSet::LabelOpen, c)),
        |c: char| in_trim_set(TrimSet::LabelClose, c),
    )
}

/// The index of the separator of a `label：text` line: the first full-width
/// colon if there is one, else the first ASCII colon, else -1.
#[verifier::opaque]
pub open spec fn label_separator(line: Seq<char>) -> int {
    let wide = first_match(line, seq!['：']);
    if wide >= 0 {
        wide
    } else {
        first_match(line, seq![':'])
    }
}

/// The slot and trimmed text of a labelled line, if the line has a known label.
pub open spec fn split_slot(line: Seq<char>) -> Option<(SlotKind, Seq<char>)> {
    let k = label_separator(line);
    if k < 0 {
        None
    } else {
        match label_kind(normalized_label(line.take(k))) {
            Some(kind) => Some((kind, trim(line.skip(k + 1)))),
            None => None,
        }
    }
}

/// The content of one slot.
pub open spec fn slot_of(s: SlotsView, kind: SlotKind) -> Option<Seq<char>> {
    match kind {
        SlotKind::Intent => s.intent,
        SlotKind::Constraints => s.constraints,
        SlotKind::Technique => s.technique,
        SlotKind::MustShow => s.must_show,
        SlotKind::MustNot => s.must_not,
    }
}

/// The slots with one slot replaced.
pub open spec fn with_slot(s: SlotsView, kind: SlotKind, v: Option<Seq<char>>) -> SlotsView {
    match kind {
        SlotKind::Intent => SlotsView { intent: v, ..s },
        SlotKind::Constraints => SlotsView { constraints: v, ..s },
        SlotKind::Technique => SlotsView { technique: v, ..s },
        SlotKind::MustShow => SlotsView { must_show: v, ..s },
        SlotKind::MustNot => SlotsView { must_not: v, ..s },
    }
}

/// The slots after appending `text` to a slot as a new line; empty text changes nothing.
pub open spec fn slot_appended(s: SlotsView, kind: SlotKind, text: Seq<char>) -> SlotsView {
    if text.len() == 0 {
        s
    } else {
        match slot_of(s, kind) {
            Some(e) => with_slot(s, kind, Some(e.push('\n') + text)),
            None => with_slot(s, kind, Some(text)),
        }
    }
}

/// The state of slot parsing after some lines.
pub struct SlotScan {
    pub slots: SlotsView,
    pub current: Option<SlotKind>,
    pub notes: Seq<Seq<char>>,
}

/// Slot parsing over the lines `ls`: blank lines are skipped, a labelled line
/// opens its slot, an unlabelled line continues the open slot or, before any
/// slot, becomes a note.
pub open spec fn slot_scan(ls: Seq<Seq<char>>) -> SlotScan
    decreases ls.len(),
{
    if ls.len() == 0 {
        SlotScan { slots: empty_slots(), current: None, notes: seq![] }
    } else {
        let st = slot_scan(ls.drop_last());
        let line = trim(ls.last());
        if line.len() == 0 {
            st
        } else {
            match split_slot(line) {
                Some((kind, rest)) => SlotScan {
                    slots: slot_appended(st.slots, kind, rest),
                    current: Some(kind),
                    notes: st.notes,
                },
                None => match st.current {
                    Some(kind) => SlotScan {
                        slots: slot_appended(st.slots, kind, line),
                        current: st.current,
                        notes: st.notes,
                    },
                    None => SlotScan {
                        slots: st.slots,
                        current: st.current,
                        notes: st.notes.push(line),
                    },
                },
            }
        }
    }
}

/// The slots of a thinking text; notes are joined by newlines.
pub open spec fn parsed_slots(thinking: Seq<char>) -> SlotsView {
    let st = slot_scan(lines(thinking));
    SlotsView { notes: join(st.notes, seq!['\n']), ..st.slots }
}

/// Trims `label` as slot labels are normalised.
fn normalize_label(label: &[char]) -> (r: Vec<char>)
    ensures
        r@ == normalized_label(label@),
{
    let t = trimmed(label);
    let (a, b) = trim_bounds(t.as_slice(), 0, t.len(), TrimSet::LabelOpen, true, false);
    let (c, d) = trim_bounds(t.as_slice(), a, b, TrimSet::LabelClose, false, true);
    proof {
        assert(t@.subrange(0, t@.len() as int) =~= t@);
        assert(t@.subrange(a as int, b as int) =~= t@.subrange(a as int, t@.len() as int));
    }
    crate::text::slice_to_vec(t.as_slice(), c, d)
}

fn label_kind_of(label: &[char]) -> (r: Option<SlotKind>)
    ensures
        r == label_kind(label@),
{
    reveal(label_kind);
    if chars_eq_str(label, "意图") || chars_eq_str(label, "目标") || chars_eq_str(label, "目的") {
        Some(SlotKind::Intent)
    } else if chars_eq_str(label, "约束") || chars_eq_str(label, "限制") || chars_eq_str(label, "正史") {
        Some(SlotKind::Constraints)
    } else if chars_eq_str(label, "手法") || chars_eq_str(label, "写法") || chars_eq_str(label, "节奏") {
        Some(SlotKind::Technique)
    } else if chars_eq_str(label, "兑现") || chars_eq_str(label, "必须") || chars_eq_str(label, "出场") {
        Some(SlotKind::MustShow)
    } else if chars_eq_str(label, "禁止") || chars_eq_str(label, "勿") || chars_eq_str(label, "不能") {
        Some(SlotKind::MustNot)
    } else {
        None
    }
}

/// The index of the separator of a labelled line.
fn find_label_separator(line: &[char]) -> (r: Option<usize>)
    ensures
        match r {
            Some(k) => k as int == label_separator(line@) && k < line@.len(),
            None => label_separator(line@) < 0,
        },
{
    reveal(label_separator);
    let wide = ['：'];
    let narrow = [':'];
    proof {
        assert(wide@ =~= seq!['：']);
        assert(narrow@ =~= seq![':']);
    }
    match find_chars(line, &wide) {
        Some(k) => Some(k),
        None => find_chars(line, &narrow),
    }
}

/// Splits a labelled line into its slot and trimmed text.
fn split_slot_line(line: &[char]) -> (r: Option<(SlotKind, Vec<char>)>)
    ensures
        match split_slot(line@) {
            Some((kind, rest)) => r matches Some((k, t)) && k == kind && t@ == rest,
            None => r is None,
        },
{
    let k = match find_label_separator(line) {
        Some(k) => k,
        None => {
            return None;
        },
    };
    assert(k < line.len());
    let label = crate::text::slice_to_vec(line, 0, k);
    let rest = crate::text::slice_to_vec(line, k + 1, line.len());
    proof {
        assert(label@ =~= line@.take(k as int));
        assert(rest@ =~= line@.skip(k + 1));
    }
    let norm = normalize_label(label.as_slice());
    let kind = label_kind_of(norm.as_slice());
    assert(kind == label_kind(normalized_label(line@.take(k as int))));
    match kind {
        Some(kind) => {
            let t = trimmed(rest.as_slice());
            assert(t@ == trim(line@.skip(k + 1)));
            Some((kind, t))
        },
        None => None,
    }
}

impl ThinkingSlots {
    fn slot(&self, kind: SlotKind) -> (r: &Option<String>)
        ensures
            opt_view(*r) == slot_of(self@, kind),
    {
        match kind {
            SlotKind::Intent => &self.intent,
            SlotKind::Constraints => &self.constraints,
            SlotKind::Technique => &self.technique,
            SlotKind::MustShow => &self.must_show,
            SlotKind::MustNot => &self.must_not,
        }
    }

    fn set_slot(&mut self, kind: SlotKind, v: Option<String>)
        ensures
            final(self)@ == with_slot(old(self)@, kind, opt_view(v)),
    {
        match kind {
            SlotKind::Intent => self.intent = v,
            SlotKind::Constraints => self.constraints = v,
            SlotKind::Technique => self.technique = v,
            SlotKind::MustShow => self.must_show = v,
            SlotKind::MustNot => self.must_not = v,
        }
    }

    /// Appends `text` to a slot as a new line.
    fn append_slot(&mut self, kind: SlotKind, text: &[char])
        ensures
            final(self)@ == slot_appended(old(self)@, kind, text@),
    {
        if text.len() == 0 {
            return;
        }
        let next = match self.slot(kind) {
            Some(existing) => {
                let mut v = chars_of(existing.as_str());
                v.push('\n');
                append_chars(&mut v, text);
                v
            },
            None => crate::text::slice_to_vec(text, 0, text.len()),
        };
        proof {
            assert(text@.subrange(0, text@.len() as int) =~= text@);
        }
        let s = string_of(next.as_slice());
        self.set_slot(kind, Some(s));
    }
}

/// Parses the labelled slots of a thinking text. A line `label：text` (or
/// `label:text`) opens a slot; following unlabelled lines continue it;
/// unlabelled lines before any slot go to `notes`.
pub fn parse_thinking_slots(thinking: &str) -> (r: ThinkingSlots)
    ensures
        r@ == parsed_slots(thinking@),
{
    let v = chars_of(thinking);
    parse_slot_chars(v.as_slice())
}

fn parse_slot_chars(thinking: &[char]) -> (r: ThinkingSlots)
    ensures
        r@ == parsed_slots(thinking@),
{
    let ls = split_lines(thinking);
    let ghost lv = lines(thinking@);
    let mut slots = ThinkingSlots::empty();
    let mut current: Option<SlotKind> = None;
    let mut notes: Vec<Vec<char>> = Vec::new();
    let mut i: usize = 0;
    while i < ls.len()
        invariant
            i <= ls.len(),
            lv == lines(thinking@),
            ls@.len() == lv.len(),
            forall|k: int| 0 <= k < ls@.len() ==> #[trigger] ls@[k]@ == lv[k],
            slots@ == slot_scan(lv.take(i as int)).slots,
            current == slot_scan(lv.take(i as int)).current,
            notes@.map_values(|n: Vec<char>| n@) == slot_scan(lv.take(i as int)).notes,
        decreases ls.len() - i,
    {
        proof {
            assert(lv.take(i + 1).drop_last() =~= lv.take(i as int));
            assert(lv.take(i + 1).last() == lv[i as int]);
        }
        let line = trimmed(ls[i].as_slice());
        if line.len() > 0 {
            match split_slot_line(line.as_slice()) {
                Some((kind, rest)) => {
                    current = Some(kind);
                    slots.append_slot(kind, rest.as_slice());
                },
                None => match current {
                    Some(kind) => {
                        slots.append_slot(kind, line.as_slice());
                    },
                    None => {
                        let ghost before = notes@;
                        notes.push(line);
                        proof {
                            assert(notes@.map_values(|n: Vec<char>| n@) =~= before.map_values(
                                |n: Vec<char>| n@,
                            ).push(trim(lv[i as int])));
                        }
                    },
                },
            }
        }
        i += 1;
    }
    proof {
        assert(lv.take(ls.len() as int) =~= lv);
    }
    let nl = ['\n'];
    let joined = join_chars(&notes, &nl);
    proof {
        assert(nl@ =~= seq!['\n']);
    }
    slots.notes = string_of(joined.as_slice());
    slots
}


/// Whether thinking and body copy each other: once either side has at least
/// `COPY_DETECT_MIN` characters, that side occurring inside the other.
pub open spec fn copied_across_layers(thinking: Seq<char>, content: Seq<char>) -> bool {
    let t = trim(thinking);
    let c = trim(content);
    if t.len() < COPY_DETECT_MIN && c.len() < COPY_DETECT_MIN {
        false
    } else if t.len() >= COPY_DETECT_MIN && contains_seq(c, t) {
        true
    } else {
        c.len() >= COPY_DETECT_MIN && contains_seq(t, c)
    }
}

/// A trimmed body line that reads like a note to the author.
pub open spec fn note_line(t: Seq<char>) -> bool {
    ||| starts_with(t, ">> "@)
    ||| starts_with(t, "意图："@)
    ||| starts_with(t, "意图:"@)
    ||| starts_with(t, "约束："@)
    ||| starts_with(t, "约束:"@)
    ||| starts_with(t, "伏笔："@)
    ||| starts_with(t, "伏笔:"@)
}

/// Whether body text reads like notes rather than prose: a to-do marker
/// (any ASCII case), an author's aside, a placeholder, or a note line.
pub open spec fn looks_like_notes(content: Seq<char>) -> bool {
    let lower = ascii_lowercase(content);
    ||| contains_seq(lower, "todo"@)
    ||| contains_seq(lower, "fixme"@)
    ||| contains_seq(content, "（作者"@)
    ||| contains_seq(content, "(作者"@)
    ||| contains_seq(content, "【作者"@)
    ||| contains_seq(content, "此处待"@)
    ||| exists|i: int| 0 <= i < lines(content).len() && note_line(trim(#[trigger] lines(content)[i]))
}

/// The reasons for which an example is skipped, in the order they are checked.
pub open spec fn skip_reasons(thinking: Seq<char>, content: Seq<char>) -> Seq<Seq<char>> {
    let r1: Seq<Seq<char>> = if thinking.len() == 0 {
        seq!["emptyThinking"@]
    } else if thinking.len() < USABLE_THINKING_MIN {
        seq!["thinkingTooShort"@]
    } else {
        seq![]
    };
    let r2: Seq<Seq<char>> = if content.len() < USABLE_BODY_MIN {
        seq!["bodyTooShort"@]
    } else {
        seq![]
    };
    let r3: Seq<Seq<char>> = if copied_across_layers(thinking, content) {
        seq!["thinkingCopiedToBody"@]
    } else {
        seq![]
    };
    let r4: Seq<Seq<char>> = if looks_like_notes(content) {
        seq!["bodyLooksLikeNotes"@]
    } else {
        seq![]
    };
    r1 + r2 + r3 + r4
}

/// The grade of an example: skipped with its reasons if there are any, else
/// gold when an intent is set and both layers are long enough, else usable.
pub open spec fn graded(thinking: Seq<char>, content: Seq<char>, slots: SlotsView) -> (
    ExampleQuality,
    Seq<Seq<char>>,
) {
    let reasons = skip_reasons(thinking, content);
    if reasons.len() > 0 {
        (ExampleQuality::Skip, reasons)
    } else if slots_have_intent(slots) && thinking.len() >= GOLD_THINKING_MIN && content.len()
        >= GOLD_BODY_MIN {
        (ExampleQuality::Gold, seq![])
    } else {
        (ExampleQuality::Usable, seq![])
    }
}

/// The views of a list of strings.
pub open spec fn string_views(v: Seq<String>) -> Seq<Seq<char>> {
    v.map_values(|s: String| s@)
}

fn is_copied_across_layers(thinking: &[char], content: &[char]) -> (r: bool)
    ensures
        r == copied_across_layers(thinking@, content@),
{
    let t = trimmed(thinking);
    let c = trimmed(content);
    if t.len() < COPY_DETECT_MIN && c.len() < COPY_DETECT_MIN {
        return false;
    }
    if t.len() >= COPY_DETECT_MIN && contains_chars(c.as_slice(), t.as_slice()) {
        return true;
    }
    c.len() >= COPY_DETECT_MIN && contains_chars(t.as_slice(), c.as_slice())
}

fn contains_str(v: &[char], s: &str) -> (r: bool)
    ensures
        r == contains_seq(v@, s@),
{
    let w = chars_of(s);
    contains_chars(v, w.as_slice())
}

fn starts_with_str(v: &[char], s: &str) -> (r: bool)
    ensures
        r == starts_with(v@, s@),
{
    let w = chars_of(s);
    starts_with_chars(v, w.as_slice())
}

fn is_note_line(t: &[char]) -> (r: bool)
    ensures
        r == note_line(t@),
{
    starts_with_str(t, ">> ") || starts_with_str(t, "意图：") || starts_with_str(t, "意图:")
        || starts_with_str(t, "约束：") || starts_with_str(t, "约束:") || starts_with_str(t, "伏笔：")
        || starts_with_str(t, "伏笔:")
}

fn body_looks_like_notes(content: &[char]) -> (r: bool)
    ensures
        r == looks_like_notes(content@),
{
    let lower = to_ascii_lowercase(content);
    if contains_str(lower.as_slice(), "todo") || contains_str(lower.as_slice(), "fixme") {
        return true;
    }
    if contains_str(content, "（作者") || contains_str(content, "(作者") || contains_str(content, "【作者") {
        return true;
    }
    if contains_str(content, "此处待") {
        return true;
    }
    let ls = split_lines(content);
    let ghost lv = lines(content@);
    let mut i: usize = 0;
    while i < ls.len()
        invariant
            i <= ls.len(),
            lv == lines(content@),
            ls@.len() == lv.len(),
            forall|k: int| 0 <= k < ls@.len() ==> #[trigger] ls@[k]@ == lv[k],
            forall|k: int| 0 <= k < i ==> !note_line(trim(#[trigger] lv[k])),
        decreases ls.len() - i,
    {
        let t = trimmed(ls[i].as_slice());
        if is_note_line(t.as_slice()) {
            assert(note_line(trim(lv[i as int])));
            return true;
        }
        i += 1;
    }
    false
}

fn push_reason(reasons: &mut Vec<String>, reason: &str)
    ensures
        string_views(final(reasons)@) == string_views(old(reasons)@).push(reason@),
{
    let ghost before = reasons@;
    reasons.push(reason.to_owned());
    assert(string_views(reasons@) =~= string_views(before).push(reason@));
}

/// Grades an example from its trimmed thinking, trimmed body and slots.
pub fn grade_example(thinking: &str, content: &str, slots: &ThinkingSlots) -> (r: (
    ExampleQuality,
    Vec<String>,
))
    ensures
        (r.0, string_views(r.1@)) == graded(thinking@, content@, slots@),
        (trim(content@).len() >= COPY_DETECT_MIN && contains_seq(trim(thinking@), trim(content@)))
            || (trim(thinking@).len() >= COPY_DETECT_MIN && contains_seq(
            trim(content@),
            trim(thinking@),
        )) ==> r.0 == ExampleQuality::Skip && string_views(r.1@).contains("thinkingCopiedToBody"@),
{
    proof {
        lemma_copy_detected(thinking@, content@, slots@);
    }
    let t = chars_of(thinking);
    let c = chars_of(content);
    grade_chars(t.as_slice(), c.as_slice(), slots)
}

fn grade_chars(thinking: &[char], content: &[char], slots: &ThinkingSlots) -> (r: (
    ExampleQuality,
    Vec<String>,
))
    ensures
        (r.0, string_views(r.1@)) == graded(thinking@, content@, slots@),
{
    let thinking_len = thinking.len();
    let content_len = content.len();
    let mut reasons: Vec<String> = Vec::new();
    let ghost r0 = string_views(reasons@);
    assert(r0 =~= seq![]);
    if thinking_len == 0 {
        push_reason(&mut reasons, "emptyThinking");
    } else if thinking_len < USABLE_THINKING_MIN {
        push_reason(&mut reasons, "thinkingTooShort");
    }
    let ghost r1 = string_views(reasons@);
    if content_len < USABLE_BODY_MIN {
        push_reason(&mut reasons, "bodyTooShort");
    }
    let ghost r2 = string_views(reasons@);
    if is_copied_across_layers(thinking, content) {
        push_reason(&mut reasons, "thinkingCopiedToBody");
    }
    let ghost r3 = string_views(reasons@);
    if body_looks_like_notes(content) {
        push_reason(&mut reasons, "bodyLooksLikeNotes");
    }
    proof {
        let e: Seq<Seq<char>> = seq![];
        assert(skip_reasons(thinking@, content@) =~= string_views(reasons@));
    }
    if reasons.len() > 0 {
        return (ExampleQuality::Skip, reasons);
    }
    let gold = slots.has_intent() && thinking_len >= GOLD_THINKING_MIN && content_len
        >= GOLD_BODY_MIN;
    let empty: Vec<String> = Vec::new();
    assert(string_views(empty@) =~= seq![]);
    if gold {
        (ExampleQuality::Gold, empty)
    } else {
        (ExampleQuality::Usable, empty)
    }
}


/// One beat-level training example.
#[derive(Debug, Clone, PartialEq)]
pub struct TrainingExample {
    pub protocol_version: u32,
    pub beat_index: u32,
    pub quality: ExampleQuality,
    pub skip_reasons: Vec<String>,
    /// Everything from the start of the chapter up to this beat (thinking
    /// and body); empty for the opening beat.
    pub context: String,
    /// A short task sentence, without this beat's thinking.
    pub instruction: String,
    pub thinking: String,
    pub content: String,
    pub slots: ThinkingSlots,
}

/// The content of a training example.
pub struct ExampleView {
    pub protocol_version: u32,
    pub beat_index: u32,
    pub quality: ExampleQuality,
    pub skip_reasons: Seq<Seq<char>>,
    pub context: Seq<char>,
    pub instruction: Seq<char>,
    pub thinking: Seq<char>,
    pub content: Seq<char>,
    pub slots: SlotsView,
}

impl View for TrainingExample {
    type V = ExampleView;

    open spec fn view(&self) -> ExampleView {
        ExampleView {
            protocol_version: self.protocol_version,
            beat_index: self.beat_index,
            quality: self.quality,
            skip_reasons: string_views(self.skip_reasons@),
            context: self.context@,
            instruction: self.instruction@,
            thinking: self.thinking@,
            content: self.content@,
            slots: self.slots@,
        }
    }
}

/// The views of a list of examples.
pub open spec fn example_views(v: Seq<TrainingExample>) -> Seq<ExampleView> {
    v.map_values(|e: TrainingExample| e@)
}

/// The assistant turn in R1 style: thinking wrapped in `<think>` before the
/// body, or the body alone when the trimmed thinking is empty.
pub open spec fn assistant_r1_text(thinking: Seq<char>, content: Seq<char>) -> Seq<char> {
    let t = trim(thinking);
    if t.len() == 0 {
        content
    } else {
        "<think>\n"@ + t + "\n</think>\n\n"@ + content
    }
}

/// The human turn: the context, a blank line and the instruction; the
/// instruction alone when the context is empty.
pub open spec fn human_prompt_text(context: Seq<char>, instruction: Seq<char>) -> Seq<char> {
    if context.len() == 0 {
        instruction
    } else {
        context + "\n\n"@ + instruction
    }
}

fn copy_strings(v: &Vec<String>) -> (r: Vec<String>)
    ensures
        string_views(r@) == string_views(v@),
{
    let mut r: Vec<String> = Vec::new();
    let mut i: usize = 0;
    while i < v.len()
        invariant
            i <= v.len(),
            string_views(r@) == string_views(v@.take(i as int)),
        decreases v.len() - i,
    {
        let ghost before = r@;
        r.push(copy_string(&v[i]));
        proof {
            assert(string_views(r@) =~= string_views(before).push(v@[i as int]@));
            assert(string_views(v@.take(i + 1)) =~= string_views(v@.take(i as int)).push(
                v@[i as int]@,
            ));
        }
        i += 1;
    }
    assert(v@.take(v.len() as int) =~= v@);
    r
}

impl TrainingExample {
    /// The assistant turn in R1 style.
    pub fn assistant_r1(&self) -> (r: String)
        ensures
            r@ == assistant_r1_text(self.thinking@, self.content@),
    {
        let t = trimmed(chars_of(self.thinking.as_str()).as_slice());
        if t.len() == 0 {
            copy_string(&self.content)
        } else {
            let mut v: Vec<char> = Vec::new();
            append_str(&mut v, "<think>\n");
            append_chars(&mut v, t.as_slice());
            append_str(&mut v, "\n</think>\n\n");
            append_str(&mut v, self.content.as_str());
            string_of(v.as_slice())
        }
    }

    /// The human turn.
    pub fn human_prompt(&self) -> (r: String)
        ensures
            r@ == human_prompt_text(self.context@, self.instruction@),
    {
        if self.context.as_str().unicode_len() == 0 {
            copy_string(&self.instruction)
        } else {
            let mut v = chars_of(self.context.as_str());
            append_str(&mut v, "\n\n");
            append_str(&mut v, self.instruction.as_str());
            string_of(v.as_slice())
        }
    }

    /// A copy with the same content.
    pub fn copy(&self) -> (r: TrainingExample)
        ensures
            r@ == self@,
    {
        TrainingExample {
            protocol_version: self.protocol_version,
            beat_index: self.beat_index,
            quality: self.quality,
            skip_reasons: copy_strings(&self.skip_reasons),
            context: copy_string(&self.context),
            instruction: copy_string(&self.instruction),
            thinking: copy_string(&self.thinking),
            content: copy_string(&self.content),
            slots: self.slots.copy(),
        }
    }
}

/// The view of an optional chapter title.
pub open spec fn title_view(t: Option<&str>) -> Option<Seq<char>> {
    match t {
        Some(s) => Some(s@),
        None => None,
    }
}

/// Thinking with full-width colons folded to ASCII ones.
pub open spec fn colons_folded(t: Seq<char>) -> Seq<char> {
    replace_char(t, '：', ':')
}

/// `t` followed by a newline, unless `t` is empty.
pub open spec fn line_break(t: Seq<char>) -> Seq<char> {
    if t.len() > 0 {
        t.push('\n')
    } else {
        t
    }
}

/// Thinking with the summary of each markup reference appended in brackets,
/// on its own line, unless the thinking already contains it (colons folded).
pub open spec fn with_markup(thinking: Seq<char>, markup: Seq<MarkupView>) -> Seq<char>
    decreases markup.len(),
{
    if markup.len() == 0 {
        thinking
    } else {
        let t = with_markup(thinking, markup.drop_last());
        let summary = markup_summary(markup.last());
        if contains_seq(colons_folded(t), colons_folded(summary)) {
            t
        } else {
            line_break(t) + seq!['['] + summary + seq![']']
        }
    }
}

/// The transcript after one more beat: the trimmed thinking prefixed with
/// `【思考】`, then the trimmed body, each on its own line and only if non-empty.
pub open spec fn transcript_with(out: Seq<char>, thinking: Seq<char>, content: Seq<char>) -> Seq<
    char,
> {
    let t = trim(thinking);
    let c = trim(content);
    let o = if t.len() > 0 {
        line_break(out) + "【思考】"@ + t
    } else {
        out
    };
    if c.len() > 0 {
        line_break(o) + c
    } else {
        o
    }
}

/// The instruction of a beat: the opening of the titled chapter, the opening
/// of an untitled one, or a plain continuation once there is context.
pub open spec fn beat_instruction_text(context: Seq<char>, title: Option<Seq<char>>) -> Seq<char> {
    if context.len() == 0 {
        match title {
            Some(t) => if trim(t).len() > 0 {
                "写下《"@ + trim(t) + "》的开篇。"@
            } else {
                "写下本章开篇。"@
            },
            None => "写下本章开篇。"@,
        }
    } else {
        "续写下一段。"@
    }
}

/// The example of one beat.
pub open spec fn example_of(
    thinking: Seq<char>,
    content: Seq<char>,
    preceding: Seq<char>,
    title: Option<Seq<char>>,
    beat_index: u32,
) -> ExampleView {
    let t = trim(thinking);
    let c = trim(content);
    let slots = parsed_slots(t);
    let (quality, reasons) = graded(t, c, slots);
    let context = trim(preceding);
    ExampleView {
        protocol_version: WRITING_PROTOCOL_VERSION,
        beat_index,
        quality,
        skip_reasons: reasons,
        context,
        instruction: beat_instruction_text(context, title),
        thinking: t,
        content: c,
        slots,
    }
}

/// The state of the beat scan: finished examples, the open beat's thinking
/// and body, and the transcript of the finished beats.
pub struct BuildState {
    pub examples: Seq<ExampleView>,
    pub thinking: Seq<char>,
    pub content: Seq<char>,
    pub preceding: Seq<char>,
}

/// The beat scan over blocks: a thinking block after body text closes the
/// open beat; thinking and body texts accumulate line by line.
pub open spec fn build_scan(blocks: Seq<BlockView>, include_markup: bool, title: Option<Seq<char>>) -> BuildState
    decreases blocks.len(),
{
    if blocks.len() == 0 {
        BuildState { examples: seq![], thinking: seq![], content: seq![], preceding: seq![] }
    } else {
        let st = build_scan(blocks.drop_last(), include_markup, title);
        let b = blocks.last();
        match b.kind {
            BlockKind::Thinking => {
                let closed = st.content.len() > 0;
                let examples = if closed {
                    st.examples.push(
                        example_of(
                            st.thinking,
                            st.content,
                            st.preceding,
                            title,
                            st.examples.len() as u32,
                        ),
                    )
                } else {
                    st.examples
                };
                let thinking: Seq<char> = if closed {
                    seq![]
                } else {
                    st.thinking
                };
                let content: Seq<char> = if closed {
                    seq![]
                } else {
                    st.content
                };
                let preceding = if closed {
                    transcript_with(st.preceding, st.thinking, st.content)
                } else {
                    st.preceding
                };
                let joined = line_break(thinking) + b.text;
                BuildState {
                    examples,
                    thinking: if include_markup {
                        with_markup(joined, b.markup)
                    } else {
                        joined
                    },
                    content,
                    preceding,
                }
            },
            BlockKind::Body => BuildState {
                examples: st.examples,
                thinking: st.thinking,
                content: line_break(st.content) + b.text,
                preceding: st.preceding,
            },
        }
    }
}

/// The examples of a block sequence: the scan's examples, plus the open beat
/// if it has body text.
pub open spec fn built_examples(blocks: Seq<BlockView>, include_markup: bool, title: Option<Seq<char>>) -> Seq<ExampleView> {
    let st = build_scan(blocks, include_markup, title);
    if st.content.len() > 0 {
        st.examples.push(
            example_of(st.thinking, st.content, st.preceding, title, st.examples.len() as u32),
        )
    } else {
        st.examples
    }
}

fn push_line_break(v: &mut Vec<char>)
    ensures
        final(v)@ == line_break(old(v)@),
{
    if v.len() > 0 {
        v.push('\n');
    }
}

/// Appends to `thinking` the summary of each markup reference it does not
/// already contain.
fn append_markup_if_missing(thinking: &mut Vec<char>, markup: &Vec<MarkupRef>)
    ensures
        final(thinking)@ == with_markup(old(thinking)@, markup@.map_values(|m: MarkupRef| m@)),
{
    let ghost mv = markup@.map_values(|m: MarkupRef| m@);
    let ghost start = thinking@;
    let mut i: usize = 0;
    while i < markup.len()
        invariant
            i <= markup.len(),
            mv == markup@.map_values(|m: MarkupRef| m@),
            thinking@ == with_markup(start, mv.take(i as int)),
        decreases markup.len() - i,
    {
        proof {
            assert(mv.take(i + 1).drop_last() =~= mv.take(i as int));
        }
        let summary = markup[i].summary_chars();
        let folded_thinking = replace_chars(thinking.as_slice(), '：', ':');
        let folded_summary = replace_chars(summary.as_slice(), '：', ':');
        if !contains_chars(folded_thinking.as_slice(), folded_summary.as_slice()) {
            push_line_break(thinking);
            thinking.push('[');
            append_chars(thinking, summary.as_slice());
            thinking.push(']');
            proof {
                assert(thinking@ =~= line_break(with_markup(start, mv.take(i as int))) + seq!['[']
                    + markup_summary(mv[i as int]) + seq![']']);
            }
        }
        i += 1;
    }
    proof {
        assert(mv.take(markup.len() as int) =~= mv);
    }
}

/// Appends one finished beat to the transcript.
fn append_beat_to_transcript(out: &mut Vec<char>, thinking: &[char], content: &[char])
    ensures
        final(out)@ == transcript_with(old(out)@, thinking@, content@),
{
    let t = trimmed(thinking);
    let c = trimmed(content);
    if t.len() > 0 {
        push_line_break(out);
        append_str(out, "【思考】");
        append_chars(out, t.as_slice());
    }
    if c.len() > 0 {
        push_line_break(out);
        append_chars(out, c.as_slice());
    }
}

/// The instruction of a beat.
fn beat_instruction(context: &[char], chapter_title: Option<&str>) -> (r: String)
    ensures
        r@ == beat_instruction_text(context@, title_view(chapter_title)),
{
    if context.len() == 0 {
        match chapter_title {
            Some(title) => {
                let t = trimmed(chars_of(title).as_slice());
                if t.len() > 0 {
                    let mut v: Vec<char> = Vec::new();
                    append_str(&mut v, "写下《");
                    append_chars(&mut v, t.as_slice());
                    append_str(&mut v, "》的开篇。");
                    string_of(v.as_slice())
                } else {
                    "写下本章开篇。".to_owned()
                }
            },
            None => "写下本章开篇。".to_owned(),
        }
    } else {
        "续写下一段。".to_owned()
    }
}

/// Closes one beat into an example.
fn finish_example(
    thinking: &[char],
    content: &[char],
    preceding: &[char],
    chapter_title: Option<&str>,
    beat_index: u32,
) -> (r: TrainingExample)
    ensures
        r@ == example_of(thinking@, content@, preceding@, title_view(chapter_title), beat_index),
{
    let t = trimmed(thinking);
    let c = trimmed(content);
    let slots = parse_slot_chars(t.as_slice());
    let (quality, skip_reasons) = grade_chars(t.as_slice(), c.as_slice(), &slots);
    let context = trimmed(preceding);
    let instruction = beat_instruction(context.as_slice(), chapter_title);
    TrainingExample {
        protocol_version: WRITING_PROTOCOL_VERSION,
        beat_index,
        quality,
        skip_reasons,
        context: string_of(context.as_slice()),
        instruction,
        thinking: string_of(t.as_slice()),
        content: string_of(c.as_slice()),
        slots,
    }
}

/// Cuts a block sequence into beats and grades each. A beat is the thinking
/// before a run of body blocks together with that run; `chapter_title` only
/// shapes the opening instruction.
pub fn build_training_examples_from_blocks(
    blocks: &Vec<ContentBlock>,
    include_markup: bool,
    chapter_title: Option<&str>,
) -> (r: Vec<TrainingExample>)
    ensures
        example_views(r@) == built_examples(
            block_views(blocks@),
            include_markup,
            title_view(chapter_title),
        ),
{
    let ghost bv = block_views(blocks@);
    let ghost title = title_view(chapter_title);
    let mut examples: Vec<TrainingExample> = Vec::new();
    let mut thinking: Vec<char> = Vec::new();
    let mut content: Vec<char> = Vec::new();
    let mut preceding: Vec<char> = Vec::new();
    let mut i: usize = 0;
    while i < blocks.len()
        invariant
            i <= blocks.len(),
            bv == block_views(blocks@),
            title == title_view(chapter_title),
            example_views(examples@) == build_scan(bv.take(i as int), include_markup, title).examples,
            thinking@ == build_scan(bv.take(i as int), include_markup, title).thinking,
            content@ == build_scan(bv.take(i as int), include_markup, title).content,
            preceding@ == build_scan(bv.take(i as int), include_markup, title).preceding,
        decreases blocks.len() - i,
    {
        proof {
            assert(bv.take(i + 1).drop_last() =~= bv.take(i as int));
        }
        let block = &blocks[i];
        match block.kind {
            BlockKind::Thinking => {
                if content.len() > 0 {
                    let ghost before = examples@;
                    let ex = finish_example(
                        thinking.as_slice(),
                        content.as_slice(),
                        preceding.as_slice(),
                        chapter_title,
                        examples.len() as u32,
                    );
                    examples.push(ex);
                    proof {
                        assert(example_views(examples@) =~= example_views(before).push(ex@));
                    }
                    append_beat_to_transcript(&mut preceding, thinking.as_slice(), content.as_slice());
                    thinking = Vec::new();
                    content = Vec::new();
                }
                push_line_break(&mut thinking);
                append_str(&mut thinking, block.text.as_str());
                if include_markup {
                    append_markup_if_missing(&mut thinking, &block.markup);
                }
            },
            BlockKind::Body => {
                push_line_break(&mut content);
                append_str(&mut content, block.text.as_str());
            },
        }
        i += 1;
    }
    proof {
        assert(bv.take(blocks.len() as int) =~= bv);
    }
    if content.len() > 0 {
        let ghost before = examples@;
        let ex = finish_example(
            thinking.as_slice(),
            content.as_slice(),
            preceding.as_slice(),
            chapter_title,
            examples.len() as u32,
        );
        examples.push(ex);
        proof {
            assert(example_views(examples@) =~= example_views(before).push(ex@));
        }
    }
    examples
}


/// Whether an example reaches a minimum quality.
pub open spec fn reaches(e: ExampleView, min_quality: ExampleQuality) -> bool {
    quality_rank(e.quality) >= quality_rank(min_quality)
}

/// Cuts a block sequence into graded beat examples.
pub fn build_training_examples(
    sequence: &crate::content::BlockSequence,
    include_markup: bool,
    chapter_title: Option<&str>,
) -> (r: Vec<TrainingExample>)
    ensures
        example_views(r@) == built_examples(
            block_views(sequence.blocks@),
            include_markup,
            title_view(chapter_title),
        ),
{
    build_training_examples_from_blocks(&sequence.blocks, include_markup, chapter_title)
}

/// The examples of at least `min_quality`, in their order.
pub fn filter_examples(examples: &[TrainingExample], min_quality: ExampleQuality) -> (r: Vec<
    TrainingExample,
>)
    ensures
        example_views(r@) == example_views(examples@).filter(
            |e: ExampleView| reaches(e, min_quality),
        ),
{
    let ghost ev = example_views(examples@);
    let ghost pred = |e: ExampleView| reaches(e, min_quality);
    let mut r: Vec<TrainingExample> = Vec::new();
    let mut i: usize = 0;
    while i < examples.len()
        invariant
            i <= examples.len(),
            ev == example_views(examples@),
            pred == (|e: ExampleView| reaches(e, min_quality)),
            example_views(r@) == ev.take(i as int).filter(pred),
        decreases examples.len() - i,
    {
        proof {
            reveal(Seq::filter);
            assert(ev.take(i + 1).drop_last() =~= ev.take(i as int));
            assert(ev.take(i + 1).last() == examples@[i as int]@);
        }
        if examples[i].quality.rank() >= min_quality.rank() {
            let ghost before = r@;
            let c = examples[i].copy();
            r.push(c);
            proof {
                assert(example_views(r@) =~= example_views(before).push(c@));
            }
        }
        i += 1;
    }
    proof {
        assert(ev.take(examples.len() as int) =~= ev);
    }
    r
}

/// The number of examples of each quality.
#[derive(Debug, Clone, Copy, Default, PartialEq, Eq, Structural)]
pub struct QualityCounts {
    pub gold: usize,
    pub usable: usize,
    pub skip: usize,
}

/// The number of examples of quality `q` among `s`.
pub open spec fn count_quality(s: Seq<ExampleView>, q: ExampleQuality) -> nat
    decreases s.len(),
{
    if s.len() == 0 {
        0
    } else {
        count_quality(s.drop_last(), q) + if s.last().quality == q {
            1nat
        } else {
            0nat
        }
    }
}

proof fn lemma_count_quality_bound(s: Seq<ExampleView>, q: ExampleQuality)
    ensures
        count_quality(s, q) <= s.len(),
    decreases s.len(),
{
    if s.len() > 0 {
        lemma_count_quality_bound(s.drop_last(), q);
    }
}

/// Counts the examples of each quality.
pub fn quality_counts(examples: &[TrainingExample]) -> (r: QualityCounts)
    ensures
        r.gold == count_quality(example_views(examples@), ExampleQuality::Gold),
        r.usable == count_quality(example_views(examples@), ExampleQuality::Usable),
        r.skip == count_quality(example_views(examples@), ExampleQuality::Skip),
{
    let ghost ev = example_views(examples@);
    let mut counts = QualityCounts { gold: 0, usable: 0, skip: 0 };
    let mut i: usize = 0;
    while i < examples.len()
        invariant
            i <= examples.len(),
            ev == example_views(examples@),
            counts.gold == count_quality(ev.take(i as int), ExampleQuality::Gold),
            counts.usable == count_quality(ev.take(i as int), ExampleQuality::Usable),
            counts.skip == count_quality(ev.take(i as int), ExampleQuality::Skip),
        decreases examples.len() - i,
    {
        proof {
            assert(ev.take(i + 1).drop_last() =~= ev.take(i as int));
            lemma_count_quality_bound(ev.take(i as int), ExampleQuality::Gold);
            lemma_count_quality_bound(ev.take(i as int), ExampleQuality::Usable);
            lemma_count_quality_bound(ev.take(i as int), ExampleQuality::Skip);
        }
        match examples[i].quality {
            ExampleQuality::Gold => counts.gold = counts.gold + 1,
            ExampleQuality::Usable => counts.usable = counts.usable + 1,
            ExampleQuality::Skip => counts.skip = counts.skip + 1,
        }
        i += 1;
    }
    proof {
        assert(ev.take(examples.len() as int) =~= ev);
    }
    counts
}

/// The R1 export: each example's assistant turn, separated by `---` lines.
pub open spec fn r1_export(examples: Seq<ExampleView>) -> Seq<char> {
    join(
        examples.map_values(|e: ExampleView| assistant_r1_text(e.thinking, e.content)),
        "\n\n---\n\n"@,
    )
}

/// The export formats of training data.
#[derive(Debug, Clone, Copy, PartialEq, Eq, Structural)]
pub enum ExportFormat {
    /// One JSON object per line, with the example's own fields.
    Jsonl,
    /// System, human and assistant turns.
    ShareGpt,
    /// Instruction, input and output.
    Alpaca,
    /// `<think>` texts separated by `---`.
    R1,
}

/// The export format a name stands for.
pub open spec fn format_from_name(s: Seq<char>) -> Option<ExportFormat> {
    if s == "jsonl"@ {
        Some(ExportFormat::Jsonl)
    } else if s == "sharegpt"@ {
        Some(ExportFormat::ShareGpt)
    } else if s == "alpaca"@ {
        Some(ExportFormat::Alpaca)
    } else if s == "r1"@ {
        Some(ExportFormat::R1)
    } else {
        None
    }
}

/// The message for an unknown export format.
pub open spec fn unknown_format_message(s: Seq<char>) -> Seq<char> {
    "未知导出格式: "@ + s + "（支持 jsonl/sharegpt/alpaca/r1）"@
}

/// Reads an export format name; an unknown name is an error with a message.
pub fn parse_export_format(format: &str) -> (r: Result<ExportFormat, String>)
    ensures
        match format_from_name(format@) {
            Some(f) => r == Ok::<ExportFormat, String>(f),
            None => r matches Err(m) && m@ == unknown_format_message(format@),
        },
{
    if str_eq(format, "jsonl") {
        Ok(ExportFormat::Jsonl)
    } else if str_eq(format, "sharegpt") {
        Ok(ExportFormat::ShareGpt)
    } else if str_eq(format, "alpaca") {
        Ok(ExportFormat::Alpaca)
    } else if str_eq(format, "r1") {
        Ok(ExportFormat::R1)
    } else {
        let mut v: Vec<char> = Vec::new();
        append_str(&mut v, "未知导出格式: ");
        append_str(&mut v, format);
        append_str(&mut v, "（支持 jsonl/sharegpt/alpaca/r1）");
        Err(string_of(v.as_slice()))
    }
}

/// The R1 export of the examples.
pub fn serialize_r1(examples: &[TrainingExample]) -> (r: String)
    ensures
        r@ == r1_export(example_views(examples@)),
{
    let ghost ev = example_views(examples@);
    let mut parts: Vec<Vec<char>> = Vec::new();
    let mut i: usize = 0;
    while i < examples.len()
        invariant
            i <= examples.len(),
            ev == example_views(examples@),
            parts@.map_values(|p: Vec<char>| p@) == ev.take(i as int).map_values(
                |e: ExampleView| assistant_r1_text(e.thinking, e.content),
            ),
        decreases examples.len() - i,
    {
        let ghost before = parts@;
        let a = examples[i].assistant_r1();
        parts.push(chars_of(a.as_str()));
        proof {
            assert(parts@.map_values(|p: Vec<char>| p@) =~= before.map_values(|p: Vec<char>| p@).push(a@));
            assert(ev.take(i + 1).map_values(|e: ExampleView| assistant_r1_text(e.thinking, e.content))
                =~= ev.take(i as int).map_values(
                |e: ExampleView| assistant_r1_text(e.thinking, e.content),
            ).push(a@));
        }
        i += 1;
    }
    proof {
        assert(ev.take(examples.len() as int) =~= ev);
    }
    let sep = chars_of("\n\n---\n\n");
    let joined = join_chars(&parts, sep.as_slice());
    string_of(joined.as_slice())
}


// ---------------------------------------------------------------------------
// Training export
// ---------------------------------------------------------------------------

/// How a training export is asked for.
#[derive(Debug, Clone, PartialEq, Eq)]
pub struct ExportOptions {
    pub format: String,
    pub include_markup: bool,
    pub min_quality: ExampleQuality,
}

/// The options of an export request: the format defaults to `jsonl`,
/// markup is included unless refused, and the minimum quality defaults to
/// usable when absent or unknown.
pub fn export_options(format: Option<&str>, include_markup: Option<bool>, min_quality: Option<&str>) -> (r:
    ExportOptions)
    ensures
        r.format@ == match format {
            Some(f) => f@,
            None => "jsonl"@,
        },
        r.include_markup == match include_markup {
            Some(b) => b,
            None => true,
        },
        r.min_quality == match min_quality {
            Some(q) => match quality_from_name(q@) {
                Some(x) => x,
                None => ExampleQuality::Usable,
            },
            None => ExampleQuality::Usable,
        },
{
    let format = match format {
        Some(f) => string_of(chars_of(f).as_slice()),
        None => string_of(chars_of("jsonl").as_slice()),
    };
    let include_markup = match include_markup {
        Some(b) => b,
        None => true,
    };
    let min_quality = match min_quality {
        Some(q) => match ExampleQuality::parse(q) {
            Some(x) => x,
            None => ExampleQuality::Usable,
        },
        None => ExampleQuality::Usable,
    };
    ExportOptions { format, include_markup, min_quality }
}

/// What an export of a chapter yields: the examples kept, the counts of
/// every quality before filtering, how many were dropped, and the revision
/// exported (none when the chapter has no block sequence).
pub struct ExportSummary {
    pub examples: Vec<TrainingExample>,
    pub counts: QualityCounts,
    pub dropped: usize,
    pub revision: Option<u64>,
}

/// Exports a chapter's block sequence: all its examples are graded and
/// counted, those below the minimum quality are dropped.
pub fn export_summary(
    sequence: Option<&crate::content::BlockSequence>,
    include_markup: bool,
    chapter_title: Option<&str>,
    min_quality: ExampleQuality,
) -> (r: ExportSummary)
    ensures
        match sequence {
            None => r.examples@.len() == 0 && r.counts == (QualityCounts { gold: 0, usable: 0, skip: 0 })
                && r.dropped == 0 && r.revision is None,
            Some(seq) => {
                let all = built_examples(block_views(seq.blocks@), include_markup, title_view(chapter_title));
                &&& example_views(r.examples@) == all.filter(|e: ExampleView| reaches(e, min_quality))
                &&& r.counts.gold == count_quality(all, ExampleQuality::Gold)
                &&& r.counts.usable == count_quality(all, ExampleQuality::Usable)
                &&& r.counts.skip == count_quality(all, ExampleQuality::Skip)
                &&& r.dropped == all.len() - r.examples@.len()
                &&& r.revision == Some(seq.revision.0)
            },
        },
{
    match sequence {
        None => ExportSummary {
            examples: Vec::new(),
            counts: QualityCounts { gold: 0, usable: 0, skip: 0 },
            dropped: 0,
            revision: None,
        },
        Some(seq) => {
            let all = build_training_examples(seq, include_markup, chapter_title);
            let counts = quality_counts(all.as_slice());
            let examples = filter_examples(all.as_slice(), min_quality);
            proof {
                let ev = example_views(all@);
                lemma_filter_len(ev, min_quality);
            }
            let dropped = all.len() - examples.len();
            ExportSummary { examples, counts, dropped, revision: Some(seq.revision.0) }
        },
    }
}

proof fn lemma_filter_len(s: Seq<ExampleView>, min_quality: ExampleQuality)
    ensures
        s.filter(|e: ExampleView| reaches(e, min_quality)).len() <= s.len(),
    decreases s.len(),
{
    reveal(Seq::filter);
    if s.len() > 0 {
        lemma_filter_len(s.drop_last(), min_quality);
    }
}

// ---------------------------------------------------------------------------
// Laws
// ---------------------------------------------------------------------------

/// Every quality's exported name reads back as that quality.
pub proof fn lemma_quality_name_round_trip(q: ExampleQuality)
    ensures
        quality_from_name(quality_name(q)) == Some(q),
{
    reveal_strlit("skip");
    reveal_strlit("usable");
    reveal_strlit("gold");
    assert("skip"@.len() == 4 && "usable"@.len() == 6 && "gold"@.len() == 4);
    assert("gold"@[0] != "skip"@[0]);
}

/// A beat's grade is skip exactly when there are reasons to skip it, and
/// only a skipped beat carries reasons; a gold beat has an intent, at least
/// `GOLD_THINKING_MIN` characters of thinking and `GOLD_BODY_MIN` of body.
pub proof fn lemma_grade_consistent(thinking: Seq<char>, content: Seq<char>, slots: SlotsView)
    ensures
        (graded(thinking, content, slots).0 == ExampleQuality::Skip) <==> (graded(
            thinking,
            content,
            slots,
        ).1.len() > 0),
        graded(thinking, content, slots).0 != ExampleQuality::Skip ==> skip_reasons(
            thinking,
            content,
        ).len() == 0,
        graded(thinking, content, slots).0 == ExampleQuality::Gold ==> slots_have_intent(slots)
            && thinking.len() >= GOLD_THINKING_MIN && content.len() >= GOLD_BODY_MIN,
        thinking.len() == 0 ==> graded(thinking, content, slots).0 == ExampleQuality::Skip,
{
}

/// Copying across the layers is caught: when the trimmed body, at least
/// `COPY_DETECT_MIN` characters long, occurs inside the trimmed thinking, or
/// the trimmed thinking, at least that long, occurs inside the trimmed body,
/// the example is skipped and its reasons name the copy. When neither side
/// is that long, no copy is reported.
pub proof fn lemma_copy_detected(thinking: Seq<char>, content: Seq<char>, slots: SlotsView)
    ensures
        (trim(content).len() >= COPY_DETECT_MIN && contains_seq(trim(thinking), trim(content))) || (
        trim(thinking).len() >= COPY_DETECT_MIN && contains_seq(trim(content), trim(thinking)))
            ==> graded(thinking, content, slots).0 == ExampleQuality::Skip && graded(
            thinking,
            content,
            slots,
        ).1.contains("thinkingCopiedToBody"@),
        trim(content).len() < COPY_DETECT_MIN && trim(thinking).len() < COPY_DETECT_MIN
            ==> !skip_reasons(thinking, content).contains("thinkingCopiedToBody"@),
{
    let t = trim(thinking);
    let c = trim(content);
    let r = skip_reasons(thinking, content);
    if (c.len() >= COPY_DETECT_MIN && contains_seq(t, c)) || (t.len() >= COPY_DETECT_MIN
        && contains_seq(c, t)) {
        assert(copied_across_layers(thinking, content));
        let r1: Seq<Seq<char>> = if thinking.len() == 0 {
            seq!["emptyThinking"@]
        } else if thinking.len() < USABLE_THINKING_MIN {
            seq!["thinkingTooShort"@]
        } else {
            seq![]
        };
        let r2: Seq<Seq<char>> = if content.len() < USABLE_BODY_MIN {
            seq!["bodyTooShort"@]
        } else {
            seq![]
        };
        let k: int = (r1.len() + r2.len()) as int;
        assert(r[k] == "thinkingCopiedToBody"@);
    }
    if c.len() < COPY_DETECT_MIN && t.len() < COPY_DETECT_MIN {
        reveal_strlit("emptyThinking");
        reveal_strlit("thinkingTooShort");
        reveal_strlit("bodyTooShort");
        reveal_strlit("bodyLooksLikeNotes");
        reveal_strlit("thinkingCopiedToBody");
        assert("emptyThinking"@ != "thinkingCopiedToBody"@) by {
            assert("emptyThinking"@[0] != "thinkingCopiedToBody"@[0]);
        }
        assert("thinkingTooShort"@ != "thinkingCopiedToBody"@) by {
            assert("thinkingTooShort"@[8] != "thinkingCopiedToBody"@[8]);
        }
        assert("bodyTooShort"@ != "thinkingCopiedToBody"@) by {
            assert("bodyTooShort"@[0] != "thinkingCopiedToBody"@[0]);
        }
        assert("bodyLooksLikeNotes"@ != "thinkingCopiedToBody"@) by {
            assert("bodyLooksLikeNotes"@[0] != "thinkingCopiedToBody"@[0]);
        }
        assert forall|k: int| 0 <= k < r.len() implies r[k] != "thinkingCopiedToBody"@ by {
        }
    }
}

proof fn lemma_scan_indices(blocks: Seq<BlockView>, include_markup: bool, title: Option<Seq<char>>)
    requires
        blocks.len() <= u32::MAX,
    ensures
        build_scan(blocks, include_markup, title).examples.len() <= blocks.len(),
        forall|i: int|
            0 <= i < build_scan(blocks, include_markup, title).examples.len() ==> {
                let e = #[trigger] build_scan(blocks, include_markup, title).examples[i];
                &&& e.beat_index == i
                &&& e.protocol_version == WRITING_PROTOCOL_VERSION
                &&& (e.quality == ExampleQuality::Skip <==> e.skip_reasons.len() > 0)
                &&& e.instruction == beat_instruction_text(e.context, title)
            },
        build_scan(blocks, include_markup, title).content.len() > 0 ==> build_scan(
            blocks,
            include_markup,
            title,
        ).examples.len() < blocks.len(),
    decreases blocks.len(),
{
    if blocks.len() > 0 {
        lemma_scan_indices(blocks.drop_last(), include_markup, title);
        let st = build_scan(blocks.drop_last(), include_markup, title);
        if blocks.last().kind == BlockKind::Thinking && st.content.len() > 0 {
            let e = example_of(st.thinking, st.content, st.preceding, title, st.examples.len() as u32);
            lemma_grade_consistent(trim(st.thinking), trim(st.content), parsed_slots(trim(st.thinking)));
        }
    }
}

/// The examples of a chapter are numbered by their place: the `i`-th
/// example is beat `i`. Each carries the protocol version; it is skipped
/// exactly when it has skip reasons; its instruction is the chapter opening
/// when it has no context and a plain continuation otherwise.
pub proof fn lemma_examples_numbered(blocks: Seq<BlockView>, include_markup: bool, title: Option<Seq<char>>)
    requires
        blocks.len() <= u32::MAX,
    ensures
        built_examples(blocks, include_markup, title).len() <= blocks.len(),
        forall|i: int|
            0 <= i < built_examples(blocks, include_markup, title).len() ==> {
                let e = #[trigger] built_examples(blocks, include_markup, title)[i];
                &&& e.beat_index == i
                &&& e.protocol_version == WRITING_PROTOCOL_VERSION
                &&& (e.quality == ExampleQuality::Skip <==> e.skip_reasons.len() > 0)
                &&& e.instruction == beat_instruction_text(e.context, title)
            },
{
    lemma_scan_indices(blocks, include_markup, title);
    let st = build_scan(blocks, include_markup, title);
    if st.content.len() > 0 {
        lemma_grade_consistent(trim(st.thinking), trim(st.content), parsed_slots(trim(st.thinking)));
    }
}

/// Every example is counted under exactly one quality: the three counts add
/// up to the number of examples.
pub proof fn lemma_counts_partition(s: Seq<ExampleView>)
    ensures
        count_quality(s, ExampleQuality::Gold) + count_quality(s, ExampleQuality::Usable)
            + count_quality(s, ExampleQuality::Skip) == s.len(),
    decreases s.len(),
{
    if s.len() > 0 {
        lemma_counts_partition(s.drop_last());
    }
}

/// Filtering keeps exactly the examples that reach the minimum quality, in
/// their order: nothing at the lowest minimum is dropped, and as many are
/// kept at the highest minimum as there are gold examples.
pub proof fn lemma_filter_levels(s: Seq<ExampleView>)
    ensures
        s.filter(|e: ExampleView| reaches(e, ExampleQuality::Skip)) == s,
        s.filter(|e: ExampleView| reaches(e, ExampleQuality::Gold)).len() == count_quality(
            s,
            ExampleQuality::Gold,
        ),
    decreases s.len(),
{
    reveal(Seq::filter);
    if s.len() == 0 {
        assert(s.filter(|e: ExampleView| reaches(e, ExampleQuality::Skip)) =~= s);
    } else {
        lemma_filter_levels(s.drop_last());
        assert(s.drop_last().push(s.last()) =~= s);
    }
}

/// The maximal runs of consecutive body blocks, in order, each as the texts
/// of its blocks.
pub open spec fn body_runs(blocks: Seq<BlockView>) -> Seq<Seq<Seq<char>>>
    decreases blocks.len(),
{
    if blocks.len() == 0 {
        seq![]
    } else {
        let r = body_runs(blocks.drop_last());
        let b = blocks.last();
        match b.kind {
            BlockKind::Thinking => r,
            BlockKind::Body => if blocks.len() >= 2 && blocks[blocks.len() - 2].kind == BlockKind::Body {
                r.update(r.len() - 1, r.last().push(b.text))
            } else {
                r.push(seq![b.text])
            },
        }
    }
}

proof fn lemma_scan_runs(blocks: Seq<BlockView>, include_markup: bool, title: Option<Seq<char>>)
    requires
        forall|i: int|
            0 <= i < blocks.len() && (#[trigger] blocks[i]).kind == BlockKind::Body ==> blocks[i].text.len()
                > 0,
    ensures
        ({
            let st = build_scan(blocks, include_markup, title);
            let r = body_runs(blocks);
            let open = blocks.len() > 0 && blocks.last().kind == BlockKind::Body;
            &&& (st.content.len() > 0) == open
            &&& open ==> r.len() > 0 && r.last().len() > 0 && st.content == crate::text::join(
                r.last(),
                seq!['\n'],
            )
            &&& st.examples.len() + (if open { 1int } else { 0int }) == r.len()
            &&& forall|i: int|
                0 <= i < st.examples.len() ==> (#[trigger] st.examples[i]).content == trim(
                    crate::text::join(r[i], seq!['\n']),
                )
        }),
    decreases blocks.len(),
{
    if blocks.len() > 0 {
        let p = blocks.drop_last();
        assert forall|i: int|
            0 <= i < p.len() && (#[trigger] p[i]).kind == BlockKind::Body implies p[i].text.len() > 0 by {
            assert(p[i] == blocks[i]);
        }
        lemma_scan_runs(p, include_markup, title);
        let st = build_scan(p, include_markup, title);
        let r = body_runs(p);
        let b = blocks.last();
        assert(b == blocks[blocks.len() - 1]);
        let prev_open = p.len() > 0 && p.last().kind == BlockKind::Body;
        if p.len() > 0 {
            assert(p.last() == blocks[blocks.len() - 2]);
        }
        match b.kind {
            BlockKind::Thinking => {
                if prev_open {
                    let ns = build_scan(blocks, include_markup, title);
                    assert(ns.examples == st.examples.push(
                        example_of(st.thinking, st.content, st.preceding, title, st.examples.len() as u32),
                    ));
                    assert forall|i: int| 0 <= i < ns.examples.len() implies (#[trigger] ns.examples[i]).content
                        == trim(crate::text::join(r[i], seq!['\n'])) by {
                        if i < st.examples.len() {
                            assert(ns.examples[i] == st.examples[i]);
                        }
                    }
                }
            },
            BlockKind::Body => {
                if prev_open {
                    let x = r.last();
                    assert(x.push(b.text).drop_last() =~= x);
                    let nr = r.update(r.len() - 1, x.push(b.text));
                    assert(nr.last() == x.push(b.text));
                    assert forall|i: int| 0 <= i < st.examples.len() implies nr[i] == r[i] by {}
                } else {
                    let nr = r.push(seq![b.text]);
                    assert(nr.last() == seq![b.text]);
                    assert(crate::text::join(seq![b.text], seq!['\n']) == b.text);
                    assert forall|i: int| 0 <= i < st.examples.len() implies nr[i] == r[i] by {}
                }
            },
        }
    }
}

/// When every body block has text, the examples of a chapter are its beats:
/// one for each maximal run of consecutive body blocks, in order, whose
/// content is the run's texts joined by line breaks and trimmed.
pub proof fn lemma_beats_are_body_runs(blocks: Seq<BlockView>, include_markup: bool, title: Option<Seq<char>>)
    requires
        forall|i: int|
            0 <= i < blocks.len() && (#[trigger] blocks[i]).kind == BlockKind::Body ==> blocks[i].text.len()
                > 0,
    ensures
        built_examples(blocks, include_markup, title).len() == body_runs(blocks).len(),
        forall|i: int|
            0 <= i < body_runs(blocks).len() ==> (#[trigger] built_examples(blocks, include_markup, title)[i]).content
                == trim(crate::text::join(body_runs(blocks)[i], seq!['\n'])),
{
    lemma_scan_runs(blocks, include_markup, title);
    let st = build_scan(blocks, include_markup, title);
    let out = built_examples(blocks, include_markup, title);
    assert forall|i: int| 0 <= i < body_runs(blocks).len() implies (#[trigger] out[i]).content == trim(
        crate::text::join(body_runs(blocks)[i], seq!['\n']),
    ) by {
        if i < st.examples.len() {
            assert(out[i] == st.examples[i]);
        }
    }
}

/// Filtering by a minimum quality twice keeps what filtering once keeps.
pub proof fn lemma_filter_idempotent(s: Seq<ExampleView>, q: ExampleQuality)
    ensures
        s.filter(|e: ExampleView| reaches(e, q)).filter(|e: ExampleView| reaches(e, q)) == s.filter(
            |e: ExampleView| reaches(e, q),
        ),
    decreases s.len(),
{
    reveal(Seq::filter);
    let p = |e: ExampleView| reaches(e, q);
    if s.len() > 0 {
        lemma_filter_idempotent(s.drop_last(), q);
        let sub = s.drop_last().filter(p);
        if p(s.last()) {
            assert(sub.push(s.last()).drop_last() =~= sub);
            assert(sub.push(s.last()).last() == s.last());
        }
    } else {
        assert(s.filter(p) =~= s);
        assert(s.filter(p).filter(p) =~= s);
    }
}

/// Whether a text neither starts nor ends with white space.
pub open spec fn no_edge_blank(s: Seq<char>) -> bool {
    s.len() == 0 || (!is_white_space(s[0]) && !is_white_space(s.last()))
}

proof fn lemma_trim_start_edges(s: Seq<char>)
    ensures
        ({
            let t = trim_start_by(s, |c: char| is_white_space(c));
            t.len() == 0 || !is_white_space(t[0])
        }),
        trim_start_by(s, |c: char| is_white_space(c)).len() <= s.len(),
    decreases s.len(),
{
    if s.len() > 0 && is_white_space(s[0]) {
        lemma_trim_start_edges(s.drop_first());
    }
}

proof fn lemma_trim_end_edges(s: Seq<char>)
    ensures
        ({
            let t = trim_end_by(s, |c: char| is_white_space(c));
            &&& t.len() == 0 || !is_white_space(t.last())
            &&& t.len() <= s.len()
            &&& t == s.take(t.len() as int)
        }),
    decreases s.len(),
{
    if s.len() > 0 && is_white_space(s.last()) {
        lemma_trim_end_edges(s.drop_last());
        let t = trim_end_by(s.drop_last(), |c: char| is_white_space(c));
        assert(s.drop_last().take(t.len() as int) =~= s.take(t.len() as int));
    } else {
        assert(s.take(s.len() as int) =~= s);
    }
}

/// A trimmed text has no blank at either end.
pub proof fn lemma_trim_edges(s: Seq<char>)
    ensures
        no_edge_blank(trim(s)),
{
    let a = trim_start_by(s, |c: char| is_white_space(c));
    lemma_trim_start_edges(s);
    lemma_trim_end_edges(a);
    let t = trim(s);
    if t.len() > 0 {
        assert(t[0] == a[0]);
    }
}

/// Trimming a text without a blank at either end leaves it as it is.
pub proof fn lemma_trim_noop(s: Seq<char>)
    requires
        no_edge_blank(s),
    ensures
        trim(s) == s,
{
    let p = |c: char| is_white_space(c);
    lemma_trim_start_by(s, p, 0);
    assert(s.skip(0) =~= s);
    lemma_trim_end_by(s, p, s.len() as int);
    assert(s.take(s.len() as int) =~= s);
}

/// Trimming twice is trimming once.
pub proof fn lemma_trim_idempotent(s: Seq<char>)
    ensures
        trim(trim(s)) == trim(s),
{
    lemma_trim_edges(s);
    lemma_trim_noop(trim(s));
}

proof fn lemma_transcript_edges(out: Seq<char>, thinking: Seq<char>, content: Seq<char>)
    requires
        no_edge_blank(out),
    ensures
        no_edge_blank(transcript_with(out, thinking, content)),
        transcript_with(out, thinking, content) == transcript_with(out, trim(thinking), trim(content)),
{
    lemma_trim_idempotent(thinking);
    lemma_trim_idempotent(content);
    lemma_trim_edges(thinking);
    lemma_trim_edges(content);
    reveal_strlit("【思考】");
    let t = trim(thinking);
    let c = trim(content);
    let o = if t.len() > 0 {
        line_break(out) + "【思考】"@ + t
    } else {
        out
    };
    if t.len() > 0 {
        assert(o.last() == t.last());
        if out.len() > 0 {
            assert(o[0] == out[0]);
        } else {
            assert(o[0] == '【');
        }
    }
    if c.len() > 0 {
        let r = line_break(o) + c;
        assert(r.last() == c.last());
        if o.len() > 0 {
            assert(r[0] == o[0]);
        } else {
            assert(r[0] == c[0]);
        }
    }
}

proof fn lemma_scan_context(blocks: Seq<BlockView>, include_markup: bool, title: Option<Seq<char>>)
    ensures
        ({
            let st = build_scan(blocks, include_markup, title);
            &&& no_edge_blank(st.preceding)
            &&& st.examples.len() == 0 ==> st.preceding.len() == 0
            &&& st.examples.len() > 0 ==> st.preceding == transcript_with(
                st.examples.last().context,
                st.examples.last().thinking,
                st.examples.last().content,
            )
            &&& st.examples.len() > 0 ==> st.examples[0].context.len() == 0
            &&& forall|i: int|
                0 <= i < st.examples.len() - 1 ==> #[trigger] st.examples[i + 1].context
                    == transcript_with(
                    st.examples[i].context,
                    st.examples[i].thinking,
                    st.examples[i].content,
                )
        }),
    decreases blocks.len(),
{
    if blocks.len() > 0 {
        lemma_scan_context(blocks.drop_last(), include_markup, title);
        let st = build_scan(blocks.drop_last(), include_markup, title);
        if blocks.last().kind == BlockKind::Thinking && st.content.len() > 0 {
            let e = example_of(st.thinking, st.content, st.preceding, title, st.examples.len() as u32);
            lemma_trim_noop(st.preceding);
            assert(e.context == st.preceding);
            lemma_transcript_edges(st.preceding, st.thinking, st.content);
            let ex = st.examples.push(e);
            assert forall|i: int| 0 <= i < ex.len() - 1 implies #[trigger] ex[i + 1].context
                == transcript_with(ex[i].context, ex[i].thinking, ex[i].content) by {
                if i + 1 < st.examples.len() {
                    assert(ex[i + 1] == st.examples[i + 1] && ex[i] == st.examples[i]);
                } else {
                    assert(ex[i + 1] == e);
                    assert(ex[i] == st.examples.last());
                }
            }
            if st.examples.len() == 0 {
                assert(ex[0] == e);
            } else {
                assert(ex[0] == st.examples[0]);
            }
        }
    } else {
    }
}

/// The context of a beat is the chapter from its start: the first example
/// has none, and each next example's context is the previous one's with
/// that beat's thinking (marked `【思考】`) and body appended, each on a
/// line of its own.
pub proof fn lemma_context_accumulates(blocks: Seq<BlockView>, include_markup: bool, title: Option<Seq<char>>)
    ensures
        ({
            let ex = built_examples(blocks, include_markup, title);
            &&& ex.len() > 0 ==> ex[0].context.len() == 0
            &&& forall|i: int|
                0 <= i < ex.len() - 1 ==> #[trigger] ex[i + 1].context == transcript_with(
                    ex[i].context,
                    ex[i].thinking,
                    ex[i].content,
                )
        }),
{
    lemma_scan_context(blocks, include_markup, title);
    let st = build_scan(blocks, include_markup, title);
    if st.content.len() > 0 {
        let e = example_of(st.thinking, st.content, st.preceding, title, st.examples.len() as u32);
        lemma_trim_noop(st.preceding);
        let ex = st.examples.push(e);
        assert forall|i: int| 0 <= i < ex.len() - 1 implies #[trigger] ex[i + 1].context
            == transcript_with(ex[i].context, ex[i].thinking, ex[i].content) by {
            if i + 1 < st.examples.len() {
                assert(ex[i + 1] == st.examples[i + 1] && ex[i] == st.examples[i]);
            } else {
                assert(ex[i + 1] == e);
                assert(ex[i] == st.examples.last());
            }
        }
        if st.examples.len() == 0 {
            assert(ex[0] == e);
        } else {
            assert(ex[0] == st.examples[0]);
        }
    }
}

proof fn lemma_scan_trimmed(blocks: Seq<BlockView>, include_markup: bool, title: Option<Seq<char>>)
    ensures
        forall|i: int|
            0 <= i < build_scan(blocks, include_markup, title).examples.len() ==> {
                let e = #[trigger] build_scan(blocks, include_markup, title).examples[i];
                no_edge_blank(e.thinking) && no_edge_blank(e.content)
            },
    decreases blocks.len(),
{
    if blocks.len() > 0 {
        lemma_scan_trimmed(blocks.drop_last(), include_markup, title);
        let st = build_scan(blocks.drop_last(), include_markup, title);
        lemma_trim_edges(st.thinking);
        lemma_trim_edges(st.content);
        let ns = build_scan(blocks, include_markup, title);
        assert forall|i: int| 0 <= i < ns.examples.len() implies {
            let e = #[trigger] ns.examples[i];
            no_edge_blank(e.thinking) && no_edge_blank(e.content)
        } by {
            if i < st.examples.len() {
                assert(ns.examples[i] == st.examples[i]);
            }
        }
    }
}

proof fn lemma_prefix_contains(s: Seq<char>, p: Seq<char>, t: Seq<char>)
    requires
        p.is_prefix_of(s),
        contains_seq(p, t),
    ensures
        contains_seq(s, t),
{
    let i = choose|i: int| crate::text::matches_at(p, t, i);
    assert(s.subrange(i, i + t.len()) =~= p.subrange(i, i + t.len()));
    assert(crate::text::matches_at(s, t, i));
}

proof fn lemma_transcript_extends(out: Seq<char>, thinking: Seq<char>, content: Seq<char>)
    ensures
        out.is_prefix_of(transcript_with(out, thinking, content)),
        trim(content).len() > 0 ==> contains_seq(transcript_with(out, thinking, content), trim(content)),
        trim(thinking).len() > 0 ==> contains_seq(
            transcript_with(out, thinking, content),
            "【思考】"@ + trim(thinking),
        ),
{
    let t = trim(thinking);
    let c = trim(content);
    let lb = line_break(out);
    assert(out.is_prefix_of(lb));
    let m = "【思考】"@ + t;
    let o = if t.len() > 0 {
        lb + "【思考】"@ + t
    } else {
        out
    };
    if t.len() > 0 {
        assert(lb + "【思考】"@ + t =~= lb + m);
        assert((lb + m).subrange(lb.len() as int, (lb.len() + m.len()) as int) =~= m);
        assert(crate::text::matches_at(o, m, lb.len() as int));
        assert(out.is_prefix_of(o)) by {
            assert(o.take(out.len() as int) =~= lb.take(out.len() as int));
        }
    }
    let f = transcript_with(out, thinking, content);
    assert(o.is_prefix_of(f)) by {
        if c.len() > 0 {
            let lo = line_break(o);
            assert(f.take(o.len() as int) =~= o);
        }
    }
    assert(out.is_prefix_of(f)) by {
        assert(f.take(out.len() as int) =~= o.take(out.len() as int));
    }
    if c.len() > 0 {
        let lo = line_break(o);
        assert(f.subrange(lo.len() as int, (lo.len() + c.len()) as int) =~= c);
        assert(crate::text::matches_at(f, c, lo.len() as int));
    }
    if t.len() > 0 {
        lemma_prefix_contains(f, o, m);
    }
}

/// Every beat's context holds what came before it: for each earlier beat,
/// its body and, when it has thinking, its thinking marked `【思考】`.
pub proof fn lemma_context_holds_earlier_beats(
    blocks: Seq<BlockView>,
    include_markup: bool,
    title: Option<Seq<char>>,
    i: int,
    j: int,
)
    requires
        0 <= j < i < built_examples(blocks, include_markup, title).len(),
    ensures
        ({
            let ex = built_examples(blocks, include_markup, title);
            &&& contains_seq(ex[i].context, ex[j].content)
            &&& ex[j].thinking.len() > 0 ==> contains_seq(ex[i].context, "【思考】"@ + ex[j].thinking)
        }),
    decreases i - j,
{
    let ex = built_examples(blocks, include_markup, title);
    lemma_context_accumulates(blocks, include_markup, title);
    lemma_scan_trimmed(blocks, include_markup, title);
    let st = build_scan(blocks, include_markup, title);
    assert(no_edge_blank(ex[j].thinking) && no_edge_blank(ex[j].content)) by {
        if j < st.examples.len() {
            assert(ex[j] == st.examples[j]);
        } else {
            lemma_trim_edges(st.thinking);
            lemma_trim_edges(st.content);
        }
    }
    lemma_trim_noop(ex[j].thinking);
    lemma_trim_noop(ex[j].content);
    if i == j + 1 {
        assert(ex[j + 1].context == transcript_with(ex[j].context, ex[j].thinking, ex[j].content));
        lemma_transcript_extends(ex[j].context, ex[j].thinking, ex[j].content);
        if ex[j].content.len() == 0 {
            assert(ex[i].context.subrange(0, 0) =~= ex[j].content);
            assert(crate::text::matches_at(ex[i].context, ex[j].content, 0));
        }
    } else {
        lemma_context_holds_earlier_beats(blocks, include_markup, title, i - 1, j);
        let k = i - 1;
        assert(ex[k + 1].context == transcript_with(ex[k].context, ex[k].thinking, ex[k].content));
        assert(k + 1 == i);
        lemma_transcript_extends(ex[i - 1].context, ex[i - 1].thinking, ex[i - 1].content);
        lemma_prefix_contains(ex[i].context, ex[i - 1].context, ex[j].content);
        if ex[j].thinking.len() > 0 {
            lemma_prefix_contains(ex[i].context, ex[i - 1].context, "【思考】"@ + ex[j].thinking);
        }
    }
}
} // verus!
