//! The document (a novel): its metadata, its ordered parts, and the flag
//! saying whether explicit part markers were found.  This module holds the
//! first two scanning passes — metadata extraction and part boundary
//! detection — the synthesis of the implicit part, and the driver that runs
//! the per-part chapter scans.

use vstd::prelude::*;
use vstd::string::StrSliceExecFns;
use vstd::string::StringExecFns;

use crate::cursor::{is_line_boundary, lines_wf, LineCursor, LineView};
use crate::metadata::{spec_parse_metadata, MetaView, Metadata};
use crate::novel_options::{spec_of_token, NovelOptions};
use crate::options::{CfgView, ParseOptions};
use crate::part::{
    boundary_idx, lemma_boundary_idx_monotone, lemma_boundary_idx_props, lemma_line_count,
    part_line_span, set_option_spec, spec_scan_chapters, Part, PartView,
};
use crate::pattern::regex_captures;
use crate::text::{trim_spec, trim_str};
use crate::ParseError;

verus! {

/// A document as mathematics: the parsed tree the renderer consumes.
#[verifier::ext_equal]
pub struct NovelView {
    pub metadata: Option<MetaView>,
    pub parts: Seq<PartView>,
    pub has_sections: bool,
}

/// A parsed document.  `has_sections` records whether explicit part markers
/// were found; without them the single part is synthetic and no per-part
/// navigation should be rendered.
#[derive(Debug, PartialEq, Eq)]
pub struct Novel {
    pub parts: Vec<Part>,
    pub metadata: Option<Metadata>,
    pub has_sections: bool,
    current_part_no: usize,
    meta_end: usize,
}

impl View for Novel {
    type V = NovelView;

    closed spec fn view(&self) -> NovelView {
        NovelView {
            metadata: match &self.metadata {
                Some(m) => Some(m@),
                None => None,
            },
            parts: self.parts.deep_view(),
            has_sections: self.has_sections,
        }
    }
}

impl Novel {
    /// The number the next explicit part will get.
    pub closed spec fn spec_part_no(&self) -> int {
        self.current_part_no as int
    }

    /// The stream position right after metadata extraction.
    pub closed spec fn spec_meta_end(&self) -> int {
        self.meta_end as int
    }

    /// An empty document, ready to scan: no parts, no metadata, explicit
    /// sections assumed until the part pass says otherwise.
    pub fn new() -> (n: Novel)
        ensures
            n@ == (NovelView { metadata: None, parts: Seq::empty(), has_sections: true }),
            n.spec_part_no() == 1,
            n.spec_meta_end() == 0,
    {
        let n = Novel {
            parts: Vec::new(),
            metadata: None,
            has_sections: true,
            current_part_no: 1,
            meta_end: 0,
        };
        proof {
            assert(n.parts.deep_view() =~= Seq::<PartView>::empty());
            assert(n@ =~= (NovelView {
                metadata: None,
                parts: Seq::empty(),
                has_sections: true,
            }));
        }
        n
    }
}

impl Novel {
    /// Pass one: rewind, accumulate the raw lines before the first part or
    /// chapter marker, and parse them as the metadata record.  On success
    /// the document owns the record (none for an all-blank block); a
    /// malformed block is a metadata parse error naming the offending line,
    /// fatal for this document.
    pub fn scan_metadata(&mut self, cursor: &mut LineCursor, options: &ParseOptions) -> (r: Result<
        (),
        ParseError,
    >)
        requires
            old(cursor).wf(),
        ensures
            final(cursor).wf(),
            final(cursor).lines() == old(cursor).lines(),
            final(cursor).total() == old(cursor).total(),
            final(self).spec_part_no() == old(self).spec_part_no(),
            final(self)@.parts == old(self)@.parts,
            final(self)@.has_sections == old(self)@.has_sections,
            final(self).spec_meta_end() == meta_end_pos(
                old(cursor).lines(),
                meta_end_idx(options@, old(cursor).lines(), 0),
                old(cursor).total(),
            ),
            is_line_boundary(
                old(cursor).lines(),
                old(cursor).total(),
                final(self).spec_meta_end(),
            ),
            ({
                let blk = meta_block(
                    old(cursor).lines(),
                    meta_end_idx(options@, old(cursor).lines(), 0),
                );
                &&& (r is Ok <==> spec_parse_metadata(blk) is Ok)
                &&& (r is Ok ==> Ok::<Option<MetaView>, int>(final(self)@.metadata)
                    == spec_parse_metadata(blk))
                &&& (r matches Err(e) ==> e matches ParseError::MetadataParse { line }
                    && spec_parse_metadata(blk) == Err::<Option<MetaView>, int>(line as int)
                    && final(self)@.metadata == old(self)@.metadata)
            }),
    {
        let ghost cfg = options@;
        let ghost ls = old(cursor).lines();
        let ghost total = old(cursor).total();
        cursor.rewind();
        let mut block: Vec<String> = Vec::new();
        proof {
            assert(block.deep_view() =~= meta_block(ls, 0));
        }
        loop
            invariant_except_break
                block.deep_view() == meta_block(ls, cursor.at()),
                meta_end_idx(cfg, ls, 0) == meta_end_idx(cfg, ls, cursor.at()),
            invariant
                cursor.wf(),
                cursor.lines() == ls,
                cursor.total() == total,
                options@ == cfg,
                0 <= cursor.at() <= ls.len(),
            ensures
                cursor.wf(),
                cursor.lines() == ls,
                cursor.total() == total,
                block.deep_view() == meta_block(ls, meta_end_idx(cfg, ls, 0)),
                cursor.pos() == meta_end_pos(ls, meta_end_idx(cfg, ls, 0), total),
            decreases ls.len() - cursor.at(),
        {
            let ghost i = cursor.at();
            match cursor.read_line() {
                None => {
                    proof {
                        assert(meta_end_idx(cfg, ls, i) == ls.len());
                        assert(cursor.pos() == total);
                    }
                    break ;
                },
                Some(line) => {
                    proof {
                        assert(line@ == ls[i].text);
                    }
                    let trimed = trim_str(line.as_str());
                    if options.part_pattern.is_match(trimed) || options.chapter_pattern.is_match(
                        trimed,
                    ) {
                        proof {
                            assert(meta_end_idx(cfg, ls, i) == i);
                            assert(cursor.pos() == ls[i].end);
                        }
                        break ;
                    }
                    let ghost old_block = block.deep_view();
                    block.push(line);
                    proof {
                        assert(block.deep_view() =~= old_block.push(ls[i].text));
                        assert(old_block.push(ls[i].text) =~= meta_block(ls, i + 1));
                    }
                },
            }
        }
        self.meta_end = cursor.position();
        let r = crate::metadata::parse_metadata_block(&block);
        match r {
            Ok(m) => {
                self.metadata = m;
                Ok(())
            },
            Err(e) => Err(e),
        }
    }
}

/// Whether a line, trimmed, matches the part pattern or the chapter pattern:
/// what ends the metadata block.
pub open spec fn line_is_marker(cfg: CfgView, l: LineView) -> bool {
    regex_captures(cfg.part_src, trim_spec(l.text)) is Some || regex_captures(
        cfg.chapter_src,
        trim_spec(l.text),
    ) is Some
}

/// Index of the first marker line at or after `i`, or the line count: the
/// metadata block is everything before it.
pub open spec fn meta_end_idx(cfg: CfgView, ls: Seq<LineView>, i: int) -> int
    decreases ls.len() - i,
{
    if i < 0 || i >= ls.len() {
        ls.len() as int
    } else if line_is_marker(cfg, ls[i]) {
        i
    } else {
        meta_end_idx(cfg, ls, i + 1)
    }
}

/// The raw lines of the metadata block: those before index `end`.
pub open spec fn meta_block(ls: Seq<LineView>, end: int) -> Seq<Seq<char>> {
    ls.subrange(0, end).map_values(|l: LineView| l.text)
}

/// The stream position after metadata extraction: just past the marker line
/// that ended the block, or the stream end.
pub open spec fn meta_end_pos(ls: Seq<LineView>, idx: int, total: int) -> int {
    if 0 <= idx < ls.len() {
        ls[idx].end
    } else {
        total
    }
}

/// Close the most recently opened part's range, if any part is open.
pub open spec fn close_last_part(ps: Seq<PartView>, end: int) -> Seq<PartView> {
    if ps.len() == 0 {
        ps
    } else {
        ps.update(ps.len() - 1, PartView { end, ..ps[ps.len() - 1] })
    }
}

/// Record a directive against the most recently opened part, if any.
pub open spec fn flag_last_part(ps: Seq<PartView>, o: NovelOptions) -> Seq<PartView> {
    if ps.len() == 0 {
        ps
    } else {
        ps.update(
            ps.len() - 1,
            PartView { options: set_option_spec(ps[ps.len() - 1].options, o), ..ps[ps.len() - 1] },
        )
    }
}

/// The directive flags a freshly opened part starts with: every flag off,
/// then the long-preface flag forced on where the configuration asks for it.
pub open spec fn init_options(cfg: CfgView) -> Seq<(NovelOptions, bool)> {
    if cfg.long_preface {
        set_option_spec(
            seq![(NovelOptions::LongPreface, false)],
            NovelOptions::LongPreface,
        )
    } else {
        seq![(NovelOptions::LongPreface, false)]
    }
}

/// The part a marker line opens: the captured title, the raw line, and a
/// source span starting just past the marker.
pub open spec fn new_part_view(cfg: CfgView, l: LineView, no: int) -> PartView {
    PartView {
        no,
        title: regex_captures(cfg.part_src, trim_spec(l.text))->0,
        raw_title: l.text,
        chapters: Seq::empty(),
        preface: Seq::empty(),
        start: l.end,
        end: 0,
        current_chapter_no: 1,
        options: init_options(cfg),
    }
}

/// The part boundary pass, from line `i` on: a directive line flags the last
/// opened part and never counts as a marker; a part marker closes the last
/// part at the marker's start and opens a new, numbered part; every other
/// line is passed over.  At the stream end the last part closes at `total`.
pub open spec fn scan_parts_from(
    cfg: CfgView,
    ls: Seq<LineView>,
    i: int,
    acc: Seq<PartView>,
    next_no: int,
    total: int,
) -> Seq<PartView>
    decreases ls.len() - i,
{
    if i < 0 || i >= ls.len() {
        close_last_part(acc, total)
    } else {
        let t = trim_spec(ls[i].text);
        if spec_of_token(t) != NovelOptions::Unknown {
            scan_parts_from(cfg, ls, i + 1, flag_last_part(acc, spec_of_token(t)), next_no, total)
        } else if regex_captures(cfg.part_src, t) is Some {
            scan_parts_from(
                cfg,
                ls,
                i + 1,
                close_last_part(acc, ls[i].start).push(new_part_view(cfg, ls[i], next_no)),
                next_no + 1,
                total,
            )
        } else {
            scan_parts_from(cfg, ls, i + 1, acc, next_no, total)
        }
    }
}

/// Index of the first line that is a chapter marker and not a directive, at
/// or after `i`; the line count where there is none.
#[verifier::opaque]
pub open spec fn first_chapter_idx(cfg: CfgView, ls: Seq<LineView>, i: int) -> int
    decreases ls.len() - i,
{
    if i < 0 || i >= ls.len() {
        ls.len() as int
    } else {
        let t = trim_spec(ls[i].text);
        if spec_of_token(t) != NovelOptions::Unknown {
            first_chapter_idx(cfg, ls, i + 1)
        } else if regex_captures(cfg.chapter_src, t) is Some {
            i
        } else {
            first_chapter_idx(cfg, ls, i + 1)
        }
    }
}

/// `first_chapter_idx` passes over a line that is a directive or matches no
/// chapter pattern, and stops on a chapter marker.
proof fn lemma_first_chapter_step(cfg: CfgView, ls: Seq<LineView>, i: int)
    requires
        0 <= i < ls.len(),
    ensures
        ({
            let t = trim_spec(ls[i].text);
            &&& (spec_of_token(t) != NovelOptions::Unknown ==> first_chapter_idx(cfg, ls, i)
                == first_chapter_idx(cfg, ls, i + 1))
            &&& (spec_of_token(t) == NovelOptions::Unknown && regex_captures(cfg.chapter_src, t)
                is Some ==> first_chapter_idx(cfg, ls, i) == i)
            &&& (spec_of_token(t) == NovelOptions::Unknown && regex_captures(cfg.chapter_src, t)
                is None ==> first_chapter_idx(cfg, ls, i) == first_chapter_idx(cfg, ls, i + 1))
        }),
{
    reveal(first_chapter_idx);
}

proof fn lemma_first_chapter_bounds(cfg: CfgView, ls: Seq<LineView>, i: int)
    requires
        0 <= i <= ls.len(),
    ensures
        i <= first_chapter_idx(cfg, ls, i) <= ls.len(),
    decreases ls.len() - i,
{
    reveal(first_chapter_idx);
    if i < ls.len() {
        lemma_first_chapter_bounds(cfg, ls, i + 1);
    }
}

proof fn lemma_first_chapter_end(cfg: CfgView, ls: Seq<LineView>, i: int)
    requires
        i >= ls.len(),
    ensures
        first_chapter_idx(cfg, ls, i) == ls.len(),
{
    reveal(first_chapter_idx);
}

/// The implicit part of a document without explicit part markers: number 0,
/// empty title, spanning from the first chapter marker (or, without one,
/// from the end of metadata extraction) to the stream end.
pub open spec fn synth_part(cfg: CfgView, ls: Seq<LineView>, meta_end: int, total: int) -> PartView {
    let j = first_chapter_idx(cfg, ls, 0);
    PartView {
        no: 0,
        title: Seq::empty(),
        raw_title: Seq::empty(),
        chapters: Seq::empty(),
        preface: Seq::empty(),
        start: if j < ls.len() {
            ls[j].start
        } else {
            meta_end
        },
        end: total,
        current_chapter_no: 1,
        options: init_options(cfg),
    }
}

/// The parts the boundary pass produces are fresh (no chapters, counter at
/// 1), start at line boundaries, and come in increasing, non-overlapping
/// order of span.
#[verifier::rlimit(50)]
pub proof fn lemma_scan_parts_props(
    cfg: CfgView,
    ls: Seq<LineView>,
    total: int,
    i: int,
    acc: Seq<PartView>,
    next_no: int,
)
    requires
        lines_wf(ls, total),
        0 <= i <= ls.len(),
        forall|j: int|
            0 <= j < acc.len() ==> (#[trigger] acc[j]).current_chapter_no == 1
                && acc[j].chapters.len() == 0 && is_line_boundary(ls, total, acc[j].start),
        forall|j: int| 0 < j < acc.len() ==> (#[trigger] acc[j]).start >= acc[j - 1].end,
        forall|j: int| 0 <= j < acc.len() - 1 ==> (#[trigger] acc[j]).start <= acc[j].end,
        acc.len() > 0 ==> acc[acc.len() - 1].start <= (if i < ls.len() {
            ls[i].start
        } else {
            total
        }),
        acc.len() > 0 ==> acc[acc.len() - 1].start <= total,
    ensures
        ({
            let r = scan_parts_from(cfg, ls, i, acc, next_no, total);
            &&& forall|j: int|
                0 <= j < r.len() ==> (#[trigger] r[j]).current_chapter_no == 1
                    && r[j].chapters.len() == 0 && is_line_boundary(ls, total, r[j].start)
                    && r[j].start <= r[j].end
            &&& forall|j: int| 0 < j < r.len() ==> (#[trigger] r[j]).start >= r[j - 1].end
        }),
    decreases ls.len() - i,
{
    if i < 0 || i >= ls.len() {
        let r = close_last_part(acc, total);
        assert forall|j: int| 0 <= j < r.len() implies (#[trigger] r[j]).current_chapter_no == 1
            && r[j].chapters.len() == 0 && is_line_boundary(ls, total, r[j].start) && r[j].start
            <= r[j].end by {
            assert(acc[j].current_chapter_no == 1);
            if j < r.len() - 1 {
                assert(r[j] == acc[j]);
            }
        }
        assert forall|j: int| 0 < j < r.len() implies (#[trigger] r[j]).start >= r[j - 1].end by {
            assert(r[j].start == acc[j].start);
            assert(r[j - 1].end == acc[j - 1].end);
        }
    } else {
        let nxt: int = if i + 1 < ls.len() {
            ls[i + 1].start
        } else {
            total
        };
        assert(ls[i].end == nxt || (i + 1 == ls.len() && ls[i].end == total));
        assert(ls[i].start < ls[i].end <= total);
        let t = trim_spec(ls[i].text);
        if spec_of_token(t) != NovelOptions::Unknown {
            let acc2 = flag_last_part(acc, spec_of_token(t));
            assert forall|j: int| 0 <= j < acc2.len() implies (
            #[trigger] acc2[j]).current_chapter_no == 1 && acc2[j].chapters.len() == 0
                && is_line_boundary(ls, total, acc2[j].start) by {
                assert(acc[j].current_chapter_no == 1);
                if j < acc2.len() - 1 {
                    assert(acc2[j] == acc[j]);
                }
            }
            assert(forall|j: int| 0 < j < acc2.len() ==> (#[trigger] acc2[j]).start == acc[j].start
                && acc2[j - 1].end == acc[j - 1].end);
            assert(forall|j: int|
                0 <= j < acc2.len() - 1 ==> (#[trigger] acc2[j]).start == acc[j].start && acc2[j].end
                    == acc[j].end);
            assert(acc2.len() > 0 ==> acc2[acc2.len() - 1].start == acc[acc.len() - 1].start);
            lemma_scan_parts_props(cfg, ls, total, i + 1, acc2, next_no);
            assert(scan_parts_from(cfg, ls, i, acc, next_no, total) == scan_parts_from(
                cfg,
                ls,
                i + 1,
                acc2,
                next_no,
                total,
            ));
        } else if regex_captures(cfg.part_src, t) is Some {
            let closed = close_last_part(acc, ls[i].start);
            let np = new_part_view(cfg, ls[i], next_no);
            let acc2 = closed.push(np);
            assert(np.start == ls[i].end);
            assert(is_line_boundary(ls, total, np.start));
            assert forall|j: int| 0 <= j < acc2.len() implies (
            #[trigger] acc2[j]).current_chapter_no == 1 && acc2[j].chapters.len() == 0
                && is_line_boundary(ls, total, acc2[j].start) by {
                if j < closed.len() {
                    assert(acc[j].current_chapter_no == 1);
                    if j < closed.len() - 1 {
                        assert(acc2[j] == acc[j]);
                    }
                } else {
                    assert(acc2[j] == np);
                    assert(np.chapters.len() == 0);
                }
            }
            assert forall|j: int| 0 < j < acc2.len() implies (#[trigger] acc2[j]).start >= acc2[j
                - 1].end by {
                if j < closed.len() {
                    assert(acc2[j].start == acc[j].start && acc2[j - 1].end == acc[j - 1].end);
                } else {
                    if closed.len() > 0 {
                        assert(acc2[j - 1].end == ls[i].start);
                        assert(np.start == ls[i].end >= ls[i].start);
                    }
                }
            }
            assert forall|j: int| 0 <= j < acc2.len() - 1 implies (#[trigger] acc2[j]).start
                <= acc2[j].end by {
                if j < closed.len() - 1 {
                    assert(acc2[j] == acc[j]);
                } else {
                    assert(acc2[j].start == acc[acc.len() - 1].start && acc2[j].end == ls[
                    i].start);
                }
            }
            assert(acc2[acc2.len() - 1].start == np.start <= nxt);
            lemma_scan_parts_props(cfg, ls, total, i + 1, acc2, next_no + 1);
            assert(scan_parts_from(cfg, ls, i, acc, next_no, total) == scan_parts_from(
                cfg,
                ls,
                i + 1,
                acc2,
                next_no + 1,
                total,
            ));
        } else {
            lemma_scan_parts_props(cfg, ls, total, i + 1, acc, next_no);
            assert(scan_parts_from(cfg, ls, i, acc, next_no, total) == scan_parts_from(
                cfg,
                ls,
                i + 1,
                acc,
                next_no,
                total,
            ));
        }
    }
}

/// Run the chapter scanner over the parts from index `k` on, threading the
/// global chapter counter through.
pub open spec fn spec_scan_all(
    cfg: CfgView,
    ls: Seq<LineView>,
    ps: Seq<PartView>,
    k: int,
    g: int,
) -> (Seq<PartView>, int)
    decreases ps.len() - k,
{
    if k < 0 || k >= ps.len() {
        (ps, g)
    } else {
        let (pv, g2) = spec_scan_chapters(cfg, ls, ps[k], g);
        spec_scan_all(cfg, ls, ps.update(k, pv), k + 1, g2)
    }
}

/// The part pass, the synthesis of the implicit part where no marker was
/// found, and the chapter scans, composed: what `scan_parts` yields.
pub open spec fn spec_scan_novel(
    cfg: CfgView,
    ls: Seq<LineView>,
    meta_end: int,
    total: int,
) -> (Seq<PartView>, bool) {
    let ps0 = scan_parts_from(cfg, ls, 0, Seq::empty(), 1, total);
    let (ps1, has) = if ps0.len() == 0 {
        (seq![synth_part(cfg, ls, meta_end, total)], false)
    } else {
        (ps0, true)
    };
    (spec_scan_all(cfg, ls, ps1, 0, 0).0, has)
}

impl Novel {
    /// Pass two: one forward pass over the whole stream recording every part
    /// marker, as `scan_parts_from` describes.  Directive lines are recorded
    /// against the last opened part and never count as markers; each marker
    /// closes the previous part's range at the marker's start and opens a
    /// numbered part just past it; the last part closes at the stream end.
    #[verifier::rlimit(100)]
    fn check_part_range(&mut self, cursor: &mut LineCursor, options: &ParseOptions)
        requires
            old(cursor).wf(),
            old(self)@.parts.len() == 0,
            old(self).spec_part_no() >= 1,
            old(self).spec_part_no() + old(cursor).lines().len() <= usize::MAX,
        ensures
            final(cursor).wf(),
            final(cursor).lines() == old(cursor).lines(),
            final(cursor).total() == old(cursor).total(),
            final(self)@.parts == scan_parts_from(
                options@,
                old(cursor).lines(),
                0,
                Seq::empty(),
                old(self).spec_part_no(),
                old(cursor).total(),
            ),
            final(self)@.metadata == old(self)@.metadata,
            final(self)@.has_sections == old(self)@.has_sections,
            final(self).spec_meta_end() == old(self).spec_meta_end(),
    {
        let ghost cfg = options@;
        let ghost ls = old(cursor).lines();
        let ghost total = old(cursor).total();
        let ghost no0 = old(self).spec_part_no();
        let ghost meta0 = old(self)@.metadata;
        let ghost hs0 = old(self)@.has_sections;
        let ghost me0 = old(self).spec_meta_end();
        cursor.rewind();
        let ghost target = scan_parts_from(cfg, ls, 0, Seq::empty(), no0, total);
        proof {
            assert(self.parts.deep_view() =~= Seq::<PartView>::empty());
        }
        loop
            invariant
                cursor.wf(),
                cursor.lines() == ls,
                cursor.total() == total,
                options@ == cfg,
                0 <= cursor.at() <= ls.len(),
                self@.metadata == meta0,
                self@.has_sections == hs0,
                self.spec_meta_end() == me0,
                no0 + ls.len() <= usize::MAX,
                no0 <= self.spec_part_no() <= no0 + cursor.at(),
                scan_parts_from(
                    cfg,
                    ls,
                    cursor.at(),
                    self.parts.deep_view(),
                    self.spec_part_no(),
                    total,
                ) == target,
            ensures
                cursor.wf(),
                cursor.lines() == ls,
                cursor.total() == total,
                self@.metadata == meta0,
                self@.has_sections == hs0,
                self.spec_meta_end() == me0,
                cursor.at() == ls.len(),
                close_last_part(self.parts.deep_view(), total) == target,
            decreases ls.len() - cursor.at(),
        {
            let ghost i = cursor.at();
            let ghost acc_in = self.parts.deep_view();
            let ghost no_in = self.spec_part_no();
            match cursor.read_line() {
                None => {
                    break ;
                },
                Some(line) => {
                    proof {
                        assert(line@ == ls[i].text);
                        assert(cursor.pos() == ls[i].end);
                        crate::text::lemma_trim_idempotent(ls[i].text);
                    }
                    let trimed = trim_str(line.as_str());
                    if NovelOptions::is_options_string(trimed) {
                        let o = NovelOptions::of_str(trimed);
                        let k = self.parts.len();
                        if k > 0 {
                            self.parts[k - 1].set_option(o);
                            proof {
                                assert(self.parts.deep_view() =~= flag_last_part(acc_in, o));
                            }
                        }
                        proof {
                            assert(self.parts.deep_view() =~= flag_last_part(acc_in, o));
                            assert(scan_parts_from(cfg, ls, i, acc_in, no_in, total)
                                == scan_parts_from(
                                cfg,
                                ls,
                                i + 1,
                                flag_last_part(acc_in, o),
                                no_in,
                                total,
                            ));
                        }
                    } else {
                        match options.part_pattern.captures(trimed) {
                            Some(cap) => {
                                let p_after = cursor.position();
                                proof {
                                    assert(vstd::utf8::encode_utf8(ls[i].text).len() == ls[i].end
                                        - ls[i].start);
                                }
                                let lstart = p_after - line.as_str().len();
                                let k = self.parts.len();
                                if k > 0 {
                                    self.parts[k - 1].end = lstart;
                                }
                                proof {
                                    assert(self.parts.deep_view() =~= close_last_part(
                                        acc_in,
                                        ls[i].start,
                                    ));
                                }
                                let mut np = Part::new(
                                    self.current_part_no,
                                    cap,
                                    line.clone(),
                                    p_after,
                                );
                                if options.long_preface {
                                    np.set_option(NovelOptions::LongPreface);
                                }
                                proof {
                                    assert(np@ =~= new_part_view(cfg, ls[i], no_in));
                                }
                                self.parts.push(np);
                                self.current_part_no = self.current_part_no + 1;
                                proof {
                                    assert(self.parts.deep_view() =~= close_last_part(
                                        acc_in,
                                        ls[i].start,
                                    ).push(new_part_view(cfg, ls[i], no_in)));
                                    assert(scan_parts_from(cfg, ls, i, acc_in, no_in, total)
                                        == scan_parts_from(
                                        cfg,
                                        ls,
                                        i + 1,
                                        self.parts.deep_view(),
                                        no_in + 1,
                                        total,
                                    ));
                                }
                            },
                            None => {
                                proof {
                                    assert(scan_parts_from(cfg, ls, i, acc_in, no_in, total)
                                        == scan_parts_from(cfg, ls, i + 1, acc_in, no_in, total));
                                }
                            },
                        }
                    }
                },
            }
        }
        let e = cursor.position();
        let k = self.parts.len();
        let ghost acc_fin = self.parts.deep_view();
        if k > 0 {
            self.parts[k - 1].end = e;
        }
        proof {
            assert(e as int == total);
            assert(self.parts.deep_view() =~= close_last_part(acc_fin, total));
        }
    }

    /// Synthesis of the implicit part: when no part marker was found, one
    /// part, numbered 0 with an empty title, spans from the first chapter
    /// marker (or, without one, from the end of metadata extraction) to the
    /// stream end, as `synth_part` describes.
    #[verifier::rlimit(100)]
    fn make_whole_chapter_as_a_part(&mut self, cursor: &mut LineCursor, options: &ParseOptions)
        requires
            old(cursor).wf(),
            old(self)@.parts.len() == 0,
        ensures
            final(cursor).wf(),
            final(cursor).lines() == old(cursor).lines(),
            final(cursor).total() == old(cursor).total(),
            final(self)@.parts == seq![
                synth_part(
                    options@,
                    old(cursor).lines(),
                    old(self).spec_meta_end(),
                    old(cursor).total(),
                ),
            ],
            final(self)@.metadata == old(self)@.metadata,
            final(self)@.has_sections == old(self)@.has_sections,
            final(self).spec_meta_end() == old(self).spec_meta_end(),
            final(self).spec_part_no() == old(self).spec_part_no(),
    {
        let ghost cfg = options@;
        let ghost ls = old(cursor).lines();
        let ghost total = old(cursor).total();
        let ghost me0 = old(self).spec_meta_end();
        cursor.rewind();
        let mut start_off: usize = self.meta_end;
        loop
            invariant_except_break
                start_off as int == me0,
                first_chapter_idx(cfg, ls, 0) == first_chapter_idx(cfg, ls, cursor.at()),
            invariant
                cursor.wf(),
                cursor.lines() == ls,
                cursor.total() == total,
                options@ == cfg,
                0 <= cursor.at() <= ls.len(),
            ensures
                cursor.wf(),
                cursor.lines() == ls,
                cursor.total() == total,
                start_off as int == ({
                    let j = first_chapter_idx(cfg, ls, 0);
                    if j < ls.len() {
                        ls[j].start
                    } else {
                        me0
                    }
                }),
            decreases ls.len() - cursor.at(),
        {
            let ghost i = cursor.at();
            match cursor.read_line() {
                None => {
                    proof {
                        lemma_first_chapter_end(cfg, ls, i);
                    }
                    break ;
                },
                Some(line) => {
                    proof {
                        assert(line@ == ls[i].text);
                        assert(cursor.pos() == ls[i].end);
                        crate::text::lemma_trim_idempotent(ls[i].text);
                        assert(vstd::utf8::encode_utf8(ls[i].text).len() == ls[i].end
                            - ls[i].start);
                    }
                    let trimed = trim_str(line.as_str());
                    proof {
                        lemma_first_chapter_step(cfg, ls, i);
                    }
                    if NovelOptions::is_options_string(trimed) {
                        // a directive never counts as a chapter marker
                    } else if options.chapter_pattern.is_match(trimed) {
                        let p_after = cursor.position();
                        start_off = p_after - line.as_str().len();
                        proof {
                            assert(first_chapter_idx(cfg, ls, i) == i);
                            assert(start_off as int == ls[i].start);
                        }
                        break ;
                    }
                },
            }
        }
        let mut np = Part::new(0, String::new(), String::new(), start_off);
        if options.long_preface {
            np.set_option(NovelOptions::LongPreface);
        }
        np.end = cursor.stream_len();
        proof {
            assert(np@ =~= synth_part(cfg, ls, old(self).spec_meta_end(), total));
        }
        self.parts.push(np);
        proof {
            assert(self.parts.deep_view() =~= seq![
                synth_part(cfg, ls, old(self).spec_meta_end(), total),
            ]);
        }
    }
}

impl Novel {
    /// Passes two to four: detect the part boundaries, synthesize the
    /// implicit part when no marker was found (recording that the document
    /// has no explicit sections), and scan each part's chapters in order,
    /// numbering chapters globally across the whole document, as
    /// `spec_scan_novel` describes.  Run `scan_metadata` first: the implicit
    /// part's fallback start is the position metadata extraction reached.
    pub fn scan_parts(&mut self, cursor: &mut LineCursor, options: &ParseOptions)
        requires
            old(cursor).wf(),
            old(cursor).total() < usize::MAX,
            old(self)@.parts.len() == 0,
            old(self).spec_part_no() == 1,
            is_line_boundary(
                old(cursor).lines(),
                old(cursor).total(),
                old(self).spec_meta_end(),
            ),
            0 <= old(self).spec_meta_end() <= old(cursor).total(),
        ensures
            final(cursor).wf(),
            final(cursor).lines() == old(cursor).lines(),
            final(cursor).total() == old(cursor).total(),
            final(self)@.metadata == old(self)@.metadata,
            final(self).spec_meta_end() == old(self).spec_meta_end(),
            ({
                let (ps, has) = spec_scan_novel(
                    options@,
                    old(cursor).lines(),
                    old(self).spec_meta_end(),
                    old(cursor).total(),
                );
                final(self)@.parts == ps && final(self)@.has_sections == has
            }),
    {
        let ghost cfg = options@;
        let ghost ls = old(cursor).lines();
        let ghost total = old(cursor).total();
        let ghost me0 = old(self).spec_meta_end();
        let ghost meta0 = old(self)@.metadata;
        proof {
            lemma_line_count(ls, total);
        }
        self.check_part_range(cursor, options);
        let ghost ps0 = scan_parts_from(cfg, ls, 0, Seq::empty(), 1, total);
        if self.parts.len() == 0 {
            self.has_sections = false;
            self.make_whole_chapter_as_a_part(cursor, options);
        } else {
            self.has_sections = true;
        }
        let ghost ps1 = self.parts.deep_view();
        proof {
            if ps0.len() == 0 {
                let sp = synth_part(cfg, ls, me0, total);
                assert(ps1 =~= seq![sp]);
                let j = first_chapter_idx(cfg, ls, 0);
                lemma_first_chapter_bounds(cfg, ls, 0);
                if j < ls.len() {
                    assert(ls[j].start == sp.start);
                    assert(is_line_boundary(ls, total, sp.start));
                    assert(sp.start < ls[j].end <= total);
                } else {
                    assert(sp.start == me0);
                }
                assert(forall|k: int|
                    0 <= k < ps1.len() ==> (#[trigger] ps1[k]).current_chapter_no == 1 && ps1[
                    k].chapters.len() == 0 && is_line_boundary(ls, total, ps1[k].start) && ps1[
                    k].start <= ps1[k].end);
            } else {
                lemma_scan_parts_props(cfg, ls, total, 0, Seq::empty(), 1);
            }
        }
        cursor.rewind();
        let mut global_chapter_number: usize = 0;
        let n = self.parts.len();
        let mut k: usize = 0;
        proof {
            assert(spec_scan_all(cfg, ls, self.parts.deep_view(), 0, 0) == spec_scan_all(
                cfg,
                ls,
                ps1,
                0,
                0,
            ));
            if n > 0 {
                lemma_boundary_idx_props(ls, ps1[0].start, 0);
            }
        }
        while k < n
            invariant
                cursor.wf(),
                cursor.lines() == ls,
                cursor.total() == total,
                options@ == cfg,
                total < usize::MAX,
                0 <= k <= n == self.parts@.len() == ps1.len(),
                self@.metadata == meta0,
                self@.has_sections == (ps0.len() > 0),
                self.spec_meta_end() == me0,
                lines_wf(ls, total),
                forall|j: int| k <= j < ps1.len() ==> self.parts.deep_view()[j] == ps1[j],
                forall|j: int|
                    0 <= j < ps1.len() ==> (#[trigger] ps1[j]).current_chapter_no == 1 && ps1[
                    j].chapters.len() == 0 && is_line_boundary(ls, total, ps1[j].start) && ps1[
                    j].start <= ps1[j].end,
                forall|j: int| 0 < j < ps1.len() ==> (#[trigger] ps1[j]).start >= ps1[j - 1].end,
                spec_scan_all(
                    cfg,
                    ls,
                    self.parts.deep_view(),
                    k as int,
                    global_chapter_number as int,
                ) == spec_scan_all(cfg, ls, ps1, 0, 0),
                k < n ==> global_chapter_number as int <= boundary_idx(ls, ps1[k as int].start, 0),
                global_chapter_number as int <= ls.len(),
            decreases n - k,
        {
            let ghost acc = self.parts.deep_view();
            let ghost g_in = global_chapter_number as int;
            proof {
                let p = ps1[k as int];
                lemma_boundary_idx_props(ls, p.start, 0);
                lemma_boundary_idx_props(ls, p.end, 0);
                lemma_boundary_idx_monotone(ls, p.start, p.end, 0);
                lemma_line_count(ls, total);
                assert(g_in + part_line_span(ls, p.start, p.end) <= boundary_idx(ls, p.end, 0));
                assert(1 + part_line_span(ls, p.start, p.end) <= ls.len() + 1);
            }
            let pr = &mut self.parts[k];
            pr.scan_chapters(cursor, &mut global_chapter_number, options);
            proof {
                let (pv, g2) = spec_scan_chapters(cfg, ls, acc[k as int], g_in);
                assert(self.parts.deep_view() =~= acc.update(k as int, pv));
                assert(spec_scan_all(cfg, ls, acc, k as int, g_in) == spec_scan_all(
                    cfg,
                    ls,
                    acc.update(k as int, pv),
                    k as int + 1,
                    g2,
                ));
                if k as int + 1 < n {
                    lemma_boundary_idx_monotone(ls, ps1[k as int].end, ps1[k as int + 1].start, 0);
                    lemma_boundary_idx_monotone(
                        ls,
                        ps1[k as int].start,
                        ps1[k as int].end,
                        0,
                    );
                }
                lemma_boundary_idx_props(ls, ps1[k as int].end, 0);
            }
            k = k + 1;
        }
        proof {
            assert(spec_scan_all(cfg, ls, self.parts.deep_view(), n as int, global_chapter_number as int).0
                == self.parts.deep_view());
        }
    }
}

} // verus!
