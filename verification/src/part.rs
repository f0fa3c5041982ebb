//! A part: a top-level grouping of chapters, with a preface, a byte range
//! bounding its source span, and named directive flags.  This module also
//! holds the chapter scanner: the per-part forward pass that discovers
//! chapter markers and classifies every intervening line.

use vstd::prelude::*;
use vstd::string::StrSliceExecFns;
use vstd::string::StringExecFns;

use crate::chapter::{Chapter, ChapterView, ItemView, Line, LineType};
use crate::cursor::{is_line_boundary, lemma_line_order, lines_wf, LineCursor, LineView};
use crate::novel_options::{spec_of_token, NovelOptions};
use crate::options::{CfgView, ParseOptions};
use crate::pattern::regex_captures;
use crate::text::{str_eq, trim_spec, trim_str};

verus! {

/// A part as mathematics.
#[verifier::ext_equal]
pub struct PartView {
    pub no: int,
    pub title: Seq<char>,
    pub raw_title: Seq<char>,
    pub chapters: Seq<ChapterView>,
    pub preface: Seq<Seq<char>>,
    pub start: int,
    pub end: int,
    pub current_chapter_no: int,
    pub options: Seq<(NovelOptions, bool)>,
}

/// A part.  `no` 0 means the part is synthetic: the only one of a document
/// without explicit part markers.  `[start, end)` bounds the part's source
/// span and only serves the chapter scanner's re-seek.
#[derive(Debug, PartialEq, Eq)]
pub struct Part {
    pub no: usize,
    pub title: String,
    pub raw_title: String,
    pub chapters: Vec<Chapter>,
    pub preface: Vec<String>,
    pub start: usize,
    pub end: usize,
    pub current_chapter_no: usize,
    pub options: Vec<(NovelOptions, bool)>,
}

impl View for Part {
    type V = PartView;

    open spec fn view(&self) -> PartView {
        PartView {
            no: self.no as int,
            title: self.title@,
            raw_title: self.raw_title@,
            chapters: self.chapters.deep_view(),
            preface: self.preface.deep_view(),
            start: self.start as int,
            end: self.end as int,
            current_chapter_no: self.current_chapter_no as int,
            options: self.options@,
        }
    }
}

impl DeepView for Part {
    type V = PartView;

    open spec fn deep_view(&self) -> PartView {
        self.view()
    }
}

/// Exact equality against one divider literal.
pub fn is_divider(trimed_line: &str, d: &str) -> (r: bool)
    ensures
        r == (d@ == trimed_line@),
{
    str_eq(d, trimed_line)
}

/// Whether trimmed text equals one of the configured divider literals.
pub open spec fn is_divider_text(t: Seq<char>, divs: Seq<Seq<char>>) -> bool {
    exists|i: int| 0 <= i < divs.len() && divs[i] == t
}

/// Test trimmed text against every configured divider literal.
pub fn any_divider(divider: &Vec<String>, t: &str) -> (r: bool)
    ensures
        r == is_divider_text(t@, divider.deep_view()),
{
    let ghost divs = divider.deep_view();
    let n = divider.len();
    let mut i: usize = 0;
    while i < n
        invariant
            0 <= i <= n == divider@.len(),
            divs == divider.deep_view(),
            forall|k: int| 0 <= k < i ==> divs[k] != t@,
        decreases n - i,
    {
        if is_divider(t, divider[i].as_str()) {
            assert(divs[i as int] == t@);
            return true;
        }
        i = i + 1;
    }
    false
}

/// Set one named directive flag to true, keeping the others.
pub open spec fn set_option_spec(
    opts: Seq<(NovelOptions, bool)>,
    o: NovelOptions,
) -> Seq<(NovelOptions, bool)> {
    opts.map_values(
        |p: (NovelOptions, bool)|
            if p.0 == o {
                (o, true)
            } else {
                p
            },
    )
}

/// Whether a named directive flag is present and set.
pub open spec fn option_set(opts: Seq<(NovelOptions, bool)>, o: NovelOptions) -> bool {
    exists|i: int| 0 <= i < opts.len() && opts[i].0 == o && opts[i].1
}

/// Close the most recently opened chapter's range, if one is open.
pub open spec fn close_last_chapter(cs: Seq<ChapterView>, end: int) -> Seq<ChapterView> {
    if cs.len() == 0 {
        cs
    } else {
        cs.update(
            cs.len() - 1,
            ChapterView { end, ..cs[cs.len() - 1] },
        )
    }
}

/// Append a classified line to the most recently opened chapter.
pub open spec fn push_content(cs: Seq<ChapterView>, item: ItemView) -> Seq<ChapterView> {
    if cs.len() == 0 {
        cs
    } else {
        cs.update(
            cs.len() - 1,
            ChapterView {
                content: cs[cs.len() - 1].content.push(item),
                ..cs[cs.len() - 1]
            },
        )
    }
}

/// The chapter scanner's running state: the chapters found so far, the
/// preface lines gathered before the first marker, the two counters, whether
/// a chapter has opened in this part, and the read position.
#[verifier::ext_equal]
pub struct ChapterScanState {
    pub chapters: Seq<ChapterView>,
    pub preface: Seq<Seq<char>>,
    pub local_no: int,
    pub global: int,
    pub opened: bool,
    pub pos: int,
}

/// How one line moves the chapter scanner: a directive line is skipped; a
/// chapter marker closes the open chapter and opens the next, numbering it;
/// other non-blank lines join the preface before the first marker and the
/// open chapter's content after it, classified as divider or content; blank
/// lines contribute to nothing.
pub open spec fn chapter_step(
    cfg: CfgView,
    l: LineView,
    part_no: int,
    st: ChapterScanState,
) -> ChapterScanState {
    let t = trim_spec(l.text);
    if spec_of_token(t) != NovelOptions::Unknown {
        ChapterScanState { pos: l.end, ..st }
    } else if regex_captures(cfg.chapter_src, t) is Some {
        ChapterScanState {
            chapters: close_last_chapter(st.chapters, l.start).push(
                ChapterView {
                    id: st.global + 1,
                    part_no,
                    no: st.local_no,
                    title: regex_captures(cfg.chapter_src, t)->0,
                    raw_title: l.text,
                    content: Seq::empty(),
                    start: l.end,
                    end: 0,
                },
            ),
            preface: st.preface,
            local_no: st.local_no + 1,
            global: st.global + 1,
            opened: true,
            pos: l.end,
        }
    } else if !st.opened && t.len() > 0 {
        ChapterScanState { preface: st.preface.push(t), pos: l.end, ..st }
    } else if t.len() > 0 {
        ChapterScanState {
            chapters: push_content(
                st.chapters,
                ItemView { divider: is_divider_text(t, cfg.divider), text: t },
            ),
            pos: l.end,
            ..st
        }
    } else {
        ChapterScanState { pos: l.end, ..st }
    }
}

/// Fold of `chapter_step` over the lines of one part's span: lines are
/// processed from index `i` while they start before `part_end`, and the pass
/// stops once the read position reaches `part_end` or the stream ends.
pub open spec fn scan_chapters_from(
    cfg: CfgView,
    ls: Seq<LineView>,
    i: int,
    part_end: int,
    part_no: int,
    st: ChapterScanState,
) -> ChapterScanState
    decreases ls.len() - i,
{
    if i < 0 || i >= ls.len() || ls[i].start >= part_end {
        st
    } else {
        let st2 = chapter_step(cfg, ls[i], part_no, st);
        if ls[i].end >= part_end {
            st2
        } else {
            scan_chapters_from(cfg, ls, i + 1, part_end, part_no, st2)
        }
    }
}

/// Index of the first line starting at or after `off`, or the line count.
pub open spec fn boundary_idx(ls: Seq<LineView>, off: int, i: int) -> int
    decreases ls.len() - i,
{
    if i < 0 || i >= ls.len() {
        ls.len() as int
    } else if ls[i].start >= off {
        i
    } else {
        boundary_idx(ls, off, i + 1)
    }
}

/// What scanning one part's chapters yields: the part with its chapters,
/// preface and chapter counter filled in, and the new global chapter count.
pub open spec fn spec_scan_chapters(
    cfg: CfgView,
    ls: Seq<LineView>,
    part: PartView,
    global: int,
) -> (PartView, int) {
    let st0 = ChapterScanState {
        chapters: part.chapters,
        preface: Seq::empty(),
        local_no: part.current_chapter_no,
        global,
        opened: false,
        pos: part.start,
    };
    let st = scan_chapters_from(cfg, ls, boundary_idx(ls, part.start, 0), part.end, part.no, st0);
    (
        PartView {
            chapters: close_last_chapter(st.chapters, st.pos),
            preface: st.preface,
            current_chapter_no: st.local_no,
            ..part
        },
        st.global,
    )
}

impl Part {
    /// A freshly opened part: no chapters yet, range still open, every
    /// directive flag off.
    pub fn new(no: usize, title: String, raw_title: String, start: usize) -> (p: Part)
        ensures
            p@ == (PartView {
                no: no as int,
                title: title@,
                raw_title: raw_title@,
                chapters: Seq::empty(),
                preface: Seq::empty(),
                start: start as int,
                end: 0,
                current_chapter_no: 1,
                options: seq![(NovelOptions::LongPreface, false)],
            }),
    {
        let p = Part {
            no,
            title,
            raw_title,
            chapters: Vec::new(),
            preface: Vec::new(),
            start,
            end: 0,
            current_chapter_no: 1,
            options: NovelOptions::default_options(),
        };
        proof {
            assert(p.chapters.deep_view() =~= Seq::<ChapterView>::empty());
            assert(p.preface.deep_view() =~= Seq::<Seq<char>>::empty());
        }
        p
    }

    /// Set one named directive flag on this part.
    pub fn set_option(&mut self, o: NovelOptions)
        ensures
            final(self)@ == (PartView {
                options: set_option_spec(old(self)@.options, o),
                ..old(self)@
            }),
    {
        let n = self.options.len();
        let mut i: usize = 0;
        while i < n
            invariant
                0 <= i <= n == self.options@.len(),
                self.options@.len() == old(self).options@.len(),
                forall|k: int|
                    0 <= k < i ==> self.options@[k] == (if old(self).options@[k].0 == o {
                        (o, true)
                    } else {
                        old(self).options@[k]
                    }),
                forall|k: int| i <= k < n ==> self.options@[k] == old(self).options@[k],
                self.no == old(self).no,
                self.title == old(self).title,
                self.raw_title == old(self).raw_title,
                self.chapters == old(self).chapters,
                self.preface == old(self).preface,
                self.start == old(self).start,
                self.end == old(self).end,
                self.current_chapter_no == old(self).current_chapter_no,
            decreases n - i,
        {
            if self.options[i].0 == o {
                self.options[i] = (o, true);
            }
            i = i + 1;
        }
        proof {
            assert(self.options@ =~= set_option_spec(old(self)@.options, o));
            assert(final(self)@ =~= (PartView {
                options: set_option_spec(old(self)@.options, o),
                ..old(self)@
            }));
        }
    }

    /// Whether a named directive flag is set on this part.
    pub fn has_option(&self, o: NovelOptions) -> (r: bool)
        ensures
            r == option_set(self@.options, o),
    {
        let n = self.options.len();
        let mut i: usize = 0;
        while i < n
            invariant
                0 <= i <= n == self.options@.len(),
                forall|k: int|
                    0 <= k < i ==> !((#[trigger] self.options@[k]).0 == o && self.options@[k].1),
            decreases n - i,
        {
            if self.options[i].0 == o && self.options[i].1 {
                return true;
            }
            i = i + 1;
        }
        false
    }

    /// Close the most recently opened chapter's range, if one is open.
    pub fn patch_current_end(&mut self, end: usize)
        ensures
            final(self)@ == (PartView {
                chapters: close_last_chapter(old(self)@.chapters, end as int),
                ..old(self)@
            }),
    {
        let n = self.chapters.len();
        if n > 0 {
            self.chapters[n - 1].end = end;
        }
        proof {
            assert(self.chapters.deep_view() =~= close_last_chapter(
                old(self)@.chapters,
                end as int,
            ));
            assert(final(self)@ =~= (PartView {
                chapters: close_last_chapter(old(self)@.chapters, end as int),
                ..old(self)@
            }));
        }
    }

    /// The chapter currently open: the one the part-local counter points at.
    pub fn current_chapter_mut(&mut self) -> (c: &mut Chapter)
        requires
            2 <= old(self).current_chapter_no,
            old(self).current_chapter_no - 2 < old(self).chapters@.len(),
        ensures
            *c == old(self).chapters@[old(self).current_chapter_no - 2],
            final(self).chapters@ == old(self).chapters@.update(
                old(self).current_chapter_no - 2,
                *final(c),
            ),
            final(self).no == old(self).no,
            final(self).title == old(self).title,
            final(self).raw_title == old(self).raw_title,
            final(self).preface == old(self).preface,
            final(self).start == old(self).start,
            final(self).end == old(self).end,
            final(self).current_chapter_no == old(self).current_chapter_no,
            final(self).options == old(self).options,
    {
        let idx = self.current_chapter_no - 2;
        &mut self.chapters[idx]
    }

    /// The serializable projection: the part's number, title, preface and
    /// long-preface flag beside its chapters, ready for rendering.
    pub fn into_serialized(self) -> (r: (SerPart, Vec<Chapter>))
        ensures
            r.0.no == self.no,
            r.0.title == self.title,
            r.0.preface == self.preface,
            r.0.is_long_preface == option_set(self@.options, NovelOptions::LongPreface),
            r.1 == self.chapters,
    {
        let is_long_preface = self.has_option(NovelOptions::LongPreface);
        let Part { no, title, preface, chapters, .. } = self;
        (SerPart { no, title, preface, is_long_preface }, chapters)
    }
}

/// How many lines lie in the byte span `[start, end)`: an upper bound on the
/// chapters a scan of that span can add to the global counter.
pub open spec fn part_line_span(ls: Seq<LineView>, start: int, end: int) -> int {
    let a = boundary_idx(ls, start, 0);
    let b = boundary_idx(ls, end, 0);
    if b >= a {
        b - a
    } else {
        0
    }
}

pub proof fn lemma_boundary_idx_props(ls: Seq<LineView>, off: int, i: int)
    requires
        0 <= i <= ls.len(),
    ensures
        i <= boundary_idx(ls, off, i) <= ls.len(),
        forall|k: int| i <= k < boundary_idx(ls, off, i) ==> (#[trigger] ls[k]).start < off,
        boundary_idx(ls, off, i) < ls.len() ==> ls[boundary_idx(ls, off, i)].start >= off,
    decreases ls.len() - i,
{
    if i < ls.len() && ls[i].start < off {
        lemma_boundary_idx_props(ls, off, i + 1);
    }
}

pub proof fn lemma_boundary_idx_monotone(ls: Seq<LineView>, off1: int, off2: int, i: int)
    requires
        0 <= i <= ls.len(),
        off1 <= off2,
    ensures
        boundary_idx(ls, off1, i) <= boundary_idx(ls, off2, i),
    decreases ls.len() - i,
{
    if i < ls.len() && ls[i].start < off2 {
        lemma_boundary_idx_monotone(ls, off1, off2, i + 1);
        if ls[i].start >= off1 {
            lemma_boundary_idx_props(ls, off2, i + 1);
        }
    }
}

/// A line that starts before `off` lies before `boundary_idx(ls, off, 0)`.
pub proof fn lemma_lt_boundary(ls: Seq<LineView>, total: int, off: int, i: int)
    requires
        lines_wf(ls, total),
        0 <= i < ls.len(),
        ls[i].start < off,
    ensures
        i < boundary_idx(ls, off, 0),
{
    lemma_boundary_idx_props(ls, off, 0);
    let r = boundary_idx(ls, off, 0);
    if i >= r {
        assert(ls[r].start >= off);
        lemma_line_order(ls, total, r, i);
        assert(ls[r].start <= ls[i].start);
    }
}

/// Every line of a well-formed decomposition ends past its own index, so
/// there are at most `total` lines.
pub proof fn lemma_lines_len_le_total(ls: Seq<LineView>, total: int, k: int)
    requires
        lines_wf(ls, total),
        0 <= k < ls.len(),
    ensures
        ls[k].end >= k + 1,
    decreases k,
{
    if k > 0 {
        lemma_lines_len_le_total(ls, total, k - 1);
        assert(ls[k].start == ls[k - 1].end);
    }
}

/// A well-formed decomposition has at most `total` lines.
pub proof fn lemma_line_count(ls: Seq<LineView>, total: int)
    requires
        lines_wf(ls, total),
    ensures
        ls.len() <= total,
{
    if ls.len() > 0 {
        lemma_lines_len_le_total(ls, total, ls.len() - 1);
    }
}

/// `boundary_idx` lands exactly on a line known to start at `off` (or at the
/// line count when `off` is the stream end), in a well-formed decomposition.
proof fn lemma_boundary_idx_from(ls: Seq<LineView>, off: int, i: int, j: int)
    requires
        0 <= i <= j <= ls.len(),
        forall|k: int| i <= k < j ==> (#[trigger] ls[k]).start < off,
        j < ls.len() ==> ls[j].start >= off,
    ensures
        boundary_idx(ls, off, i) == j,
    decreases j - i,
{
    if i < j {
        lemma_boundary_idx_from(ls, off, i + 1, j);
    }
}

impl Part {
    /// Scan this part's span for chapters: re-seek the cursor to the part's
    /// start, then one forward pass to the part's end, discovering chapter
    /// markers, numbering each chapter globally and part-locally, gathering
    /// the preface, and classifying content lines, as `spec_scan_chapters`
    /// describes.
    pub fn scan_chapters(
        &mut self,
        cursor: &mut LineCursor,
        global_chapter_num: &mut usize,
        options: &ParseOptions,
    )
        requires
            old(cursor).wf(),
            is_line_boundary(old(cursor).lines(), old(cursor).total(), old(self).start as int),
            old(self).current_chapter_no as int == old(self)@.chapters.len() + 1,
            *old(global_chapter_num) as int + part_line_span(
                old(cursor).lines(),
                old(self).start as int,
                old(self).end as int,
            ) <= usize::MAX,
            old(self).current_chapter_no as int + part_line_span(
                old(cursor).lines(),
                old(self).start as int,
                old(self).end as int,
            ) <= usize::MAX,
        ensures
            final(cursor).wf(),
            final(cursor).lines() == old(cursor).lines(),
            final(cursor).total() == old(cursor).total(),
            *old(global_chapter_num) <= *final(global_chapter_num),
            *final(global_chapter_num) as int <= *old(global_chapter_num) as int + part_line_span(
                old(cursor).lines(),
                old(self).start as int,
                old(self).end as int,
            ),
            ({
                let (pv, g) = spec_scan_chapters(
                    options@,
                    old(cursor).lines(),
                    old(self)@,
                    *old(global_chapter_num) as int,
                );
                final(self)@ == pv && *final(global_chapter_num) as int == g
            }),
    {
        let ghost cfg = options@;
        let ghost ls = old(cursor).lines();
        let ghost total = old(cursor).total();
        let ghost part0 = old(self)@;
        let ghost g0 = *old(global_chapter_num) as int;

        cursor.seek(self.start);
        proof {
            if cursor.at() < ls.len() {
                assert forall|k: int| 0 <= k < cursor.at() implies (#[trigger] ls[k]).start
                    < part0.start by {
                    lemma_line_order(ls, total, k, cursor.at());
                }
                lemma_boundary_idx_from(ls, part0.start, 0, cursor.at());
            } else {
                assert forall|k: int| 0 <= k < ls.len() implies (#[trigger] ls[k]).start
                    < part0.start by {
                    assert(ls[k].start < ls[k].end <= total);
                }
                lemma_boundary_idx_from(ls, part0.start, 0, ls.len() as int);
            }
        }
        let ghost at0 = boundary_idx(ls, part0.start, 0);
        let ghost bend = boundary_idx(ls, part0.end, 0);
        let ghost cap = if bend >= at0 {
            bend
        } else {
            at0
        };
        proof {
            assert(cursor.at() == at0);
            lemma_boundary_idx_props(ls, part0.end, 0);
        }
        let mut preface: Vec<String> = Vec::new();
        let mut chapter_start = false;
        let ghost st0 = ChapterScanState {
            chapters: part0.chapters,
            preface: Seq::empty(),
            local_no: part0.current_chapter_no,
            global: g0,
            opened: false,
            pos: part0.start,
        };
        let ghost target = scan_chapters_from(
            cfg,
            ls,
            boundary_idx(ls, part0.start, 0),
            part0.end,
            part0.no,
            st0,
        );
        proof {
            assert(preface.deep_view() =~= Seq::<Seq<char>>::empty());
        }
        loop
            invariant
                cursor.wf(),
                cursor.lines() == ls,
                cursor.total() == total,
                options@ == cfg,
                0 <= cursor.at() <= ls.len(),
                self.no as int == part0.no,
                self.title@ == part0.title,
                self.raw_title@ == part0.raw_title,
                self.start as int == part0.start,
                self.end as int == part0.end,
                self.options@ == part0.options,
                self.current_chapter_no as int == self.chapters.deep_view().len() + 1,
                chapter_start ==> self.current_chapter_no >= 2,
                at0 == boundary_idx(ls, part0.start, 0),
                bend == boundary_idx(ls, part0.end, 0),
                cap == (if bend >= at0 {
                    bend
                } else {
                    at0
                }),
                g0 + part_line_span(ls, part0.start, part0.end) <= usize::MAX,
                part0.current_chapter_no + part_line_span(ls, part0.start, part0.end)
                    <= usize::MAX,
                part0.current_chapter_no >= 1,
                at0 <= cursor.at() <= cap,
                *global_chapter_num as int <= g0 + (cursor.at() - at0),
                g0 <= *global_chapter_num as int,
                self.current_chapter_no as int <= part0.current_chapter_no + (cursor.at() - at0),
                scan_chapters_from(
                    cfg,
                    ls,
                    cursor.at(),
                    part0.end,
                    part0.no,
                    ChapterScanState {
                        chapters: self.chapters.deep_view(),
                        preface: preface.deep_view(),
                        local_no: self.current_chapter_no as int,
                        global: *global_chapter_num as int,
                        opened: chapter_start,
                        pos: cursor.pos(),
                    },
                ) == target,
            ensures
                cursor.wf(),
                cursor.lines() == ls,
                cursor.total() == total,
                self.no as int == part0.no,
                self.title@ == part0.title,
                self.raw_title@ == part0.raw_title,
                self.start as int == part0.start,
                self.end as int == part0.end,
                self.options@ == part0.options,
                g0 <= *global_chapter_num as int,
                *global_chapter_num as int <= g0 + part_line_span(ls, part0.start, part0.end),
                target == (ChapterScanState {
                    chapters: self.chapters.deep_view(),
                    preface: preface.deep_view(),
                    local_no: self.current_chapter_no as int,
                    global: *global_chapter_num as int,
                    opened: chapter_start,
                    pos: cursor.pos(),
                }),
            decreases ls.len() - cursor.at(),
        {
            let p = cursor.position();
            if p >= self.end {
                break ;
            }
            let ghost i = cursor.at();
            let ghost st_in = ChapterScanState {
                chapters: self.chapters.deep_view(),
                preface: preface.deep_view(),
                local_no: self.current_chapter_no as int,
                global: *global_chapter_num as int,
                opened: chapter_start,
                pos: cursor.pos(),
            };
            match cursor.read_line() {
                None => {
                    break ;
                },
                Some(line) => {
                    proof {
                        assert(line@ == ls[i].text);
                        assert(cursor.pos() == ls[i].end);
                        crate::text::lemma_trim_idempotent(ls[i].text);
                        lemma_lt_boundary(ls, total, part0.end, i);
                    }
                    let trimed = trim_str(line.as_str());
                    if NovelOptions::is_options_string(trimed) {
                        // a directive never counts as a marker nor as text
                    } else {
                        match options.chapter_pattern.captures(trimed) {
                            Some(cap) => {
                                chapter_start = true;
                                let p_after = cursor.position();
                                proof {
                                    assert(vstd::utf8::encode_utf8(ls[i].text).len() == ls[i].end
                                        - ls[i].start);
                                }
                                let lstart = p_after - line.as_str().len();
                                self.patch_current_end(lstart);
                                let ch = Chapter::new(
                                    *global_chapter_num + 1,
                                    self.current_chapter_no,
                                    self.no,
                                    cap,
                                    line.clone(),
                                    p_after,
                                );
                                let ghost chv = ch@;
                                self.chapters.push(ch);
                                *global_chapter_num = *global_chapter_num + 1;
                                self.current_chapter_no = self.current_chapter_no + 1;
                                proof {
                                    assert(self.chapters.deep_view() =~= close_last_chapter(
                                        st_in.chapters,
                                        ls[i].start,
                                    ).push(chv));
                                }
                            },
                            None => {
                                let n = trimed.unicode_len();
                                if !chapter_start {
                                    if n > 0 {
                                        preface.push(trimed.to_owned());
                                        proof {
                                            assert(preface.deep_view() =~= st_in.preface.push(
                                                trim_spec(ls[i].text),
                                            ));
                                        }
                                    }
                                } else if n > 0 {
                                    let lt = if any_divider(&options.divider, trimed) {
                                        LineType::Divider
                                    } else {
                                        LineType::Line
                                    };
                                    let item = Line { line_type: lt, content: trimed.to_owned() };
                                    let ghost itemv = item@;
                                    let ghost chs_in = self.chapters.deep_view();
                                    let c = self.current_chapter_mut();
                                    let ghost c_in = *c;
                                    c.content.push(item);
                                    proof {
                                        assert(final(c).content.deep_view() =~= c_in
                                            .content.deep_view().push(itemv));
                                        assert(final(c)@ == (ChapterView {
                                            content: c_in@.content.push(itemv),
                                            ..c_in@
                                        }));
                                        assert(self.chapters.deep_view() =~= push_content(
                                            chs_in,
                                            itemv,
                                        ));
                                    }
                                }
                            },
                        }
                    }
                    proof {
                        let st_out = ChapterScanState {
                            chapters: self.chapters.deep_view(),
                            preface: preface.deep_view(),
                            local_no: self.current_chapter_no as int,
                            global: *global_chapter_num as int,
                            opened: chapter_start,
                            pos: cursor.pos(),
                        };
                        assert(chapter_step(cfg, ls[i], part0.no, st_in) =~= st_out);
                        if ls[i].end >= part0.end {
                            assert(scan_chapters_from(cfg, ls, i, part0.end, part0.no, st_in)
                                == st_out);
                            if i + 1 < ls.len() {
                                assert(ls[i + 1].start == ls[i].end);
                            }
                            assert(scan_chapters_from(cfg, ls, i + 1, part0.end, part0.no, st_out)
                                == st_out);
                        } else {
                            assert(scan_chapters_from(cfg, ls, i, part0.end, part0.no, st_in)
                                == scan_chapters_from(cfg, ls, i + 1, part0.end, part0.no, st_out));
                        }
                    }
                },
            }
        }
        let p_final = cursor.position();
        self.patch_current_end(p_final);
        self.preface = preface;
        proof {
            let (pv, g) = spec_scan_chapters(cfg, ls, part0, g0);
            assert(final(self)@ =~= pv);
        }
    }
}

/// The serializable projection of a part.
#[derive(Debug, PartialEq, Eq)]
pub struct SerPart {
    pub no: usize,
    pub title: String,
    pub preface: Vec<String>,
    pub is_long_preface: bool,
}

} // verus!
