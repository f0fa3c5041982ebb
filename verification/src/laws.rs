//! The laws of the parser, stated over the scan model and proved once for
//! every document: numbering of chapters, classification of dividers, and
//! the treatment of directive lines.

use vstd::prelude::*;

use crate::chapter::{ChapterView, ItemView};
use crate::cursor::{stream_views, LineView};
use crate::novel::{
    meta_block, meta_end_idx, meta_end_pos, scan_parts_from, spec_scan_all, spec_scan_novel,
    synth_part,
};
use crate::novel_options::{spec_of_token, NovelOptions};
use crate::options::CfgView;
use crate::parse::spec_parse_result;
use crate::part::{
    chapter_step, close_last_chapter, is_divider_text, scan_chapters_from, spec_scan_chapters,
    ChapterScanState, PartView,
};
use crate::pattern::regex_captures;
use crate::text::{lemma_trim_idempotent, trim_spec};

verus! {

/// What holds of every line of chapter content: its divider mark agrees
/// exactly with the configured divider literals, it is not a directive
/// token, and it is non-blank, trimmed text.
pub open spec fn item_ok(item: ItemView, divs: Seq<Seq<char>>) -> bool {
    &&& item.divider == is_divider_text(item.text, divs)
    &&& spec_of_token(item.text) == NovelOptions::Unknown
    &&& item.text.len() > 0
    &&& trim_spec(item.text) == item.text
}

pub open spec fn chapter_content_ok(ch: ChapterView, divs: Seq<Seq<char>>) -> bool {
    forall|l: int| 0 <= l < ch.content.len() ==> item_ok(#[trigger] ch.content[l], divs)
}

pub open spec fn chapters_ok(cs: Seq<ChapterView>, divs: Seq<Seq<char>>) -> bool {
    forall|c: int| 0 <= c < cs.len() ==> chapter_content_ok(#[trigger] cs[c], divs)
}

/// Chapters numbered in discovery order: the part-local number counts from
/// 1 within the part, the global number continues from `g0` across parts.
pub open spec fn chapters_numbered(cs: Seq<ChapterView>, g0: int, pno: int) -> bool {
    forall|c: int|
        0 <= c < cs.len() ==> (#[trigger] cs[c]).no == c + 1 && cs[c].id == g0 + c + 1
            && cs[c].part_no == pno
}

/// What holds of every preface line: not a directive token, non-blank,
/// trimmed.
pub open spec fn preface_ok(pf: Seq<Seq<char>>) -> bool {
    forall|x: int|
        0 <= x < pf.len() ==> spec_of_token(#[trigger] pf[x]) == NovelOptions::Unknown && pf[
        x].len() > 0 && trim_spec(pf[x]) == pf[x]
}

/// One step of the chapter scanner preserves numbering, classification and
/// the exclusion of directives.
proof fn lemma_chapter_step_props(
    cfg: CfgView,
    l: LineView,
    pno: int,
    st: ChapterScanState,
    g0: int,
)
    requires
        st.local_no == st.chapters.len() + 1,
        st.global == g0 + st.chapters.len(),
        chapters_numbered(st.chapters, g0, pno),
        chapters_ok(st.chapters, cfg.divider),
        preface_ok(st.preface),
    ensures
        ({
            let r = chapter_step(cfg, l, pno, st);
            &&& r.local_no == r.chapters.len() + 1
            &&& r.global == g0 + r.chapters.len()
            &&& chapters_numbered(r.chapters, g0, pno)
            &&& chapters_ok(r.chapters, cfg.divider)
            &&& preface_ok(r.preface)
            &&& st.global <= r.global
        }),
{
    let t = trim_spec(l.text);
    lemma_trim_idempotent(l.text);
    let r = chapter_step(cfg, l, pno, st);
    let cs = st.chapters;
    if spec_of_token(t) != NovelOptions::Unknown {
    } else if regex_captures(cfg.chapter_src, t) is Some {
        let closed = close_last_chapter(cs, l.start);
        assert forall|c: int| 0 <= c < r.chapters.len() implies (#[trigger] r.chapters[c]).no == c
            + 1 && r.chapters[c].id == g0 + c + 1 && r.chapters[c].part_no == pno by {
            if c < cs.len() {
                assert(cs[c].no == c + 1);
                assert(r.chapters[c].no == cs[c].no && r.chapters[c].id == cs[c].id
                    && r.chapters[c].part_no == cs[c].part_no);
            }
        }
        assert forall|c: int| 0 <= c < r.chapters.len() implies chapter_content_ok(
            #[trigger] r.chapters[c],
            cfg.divider,
        ) by {
            if c < cs.len() {
                assert(chapter_content_ok(cs[c], cfg.divider));
                assert(r.chapters[c].content == cs[c].content);
            }
        }
    } else if !st.opened && t.len() > 0 {
        assert forall|x: int| 0 <= x < r.preface.len() implies spec_of_token(
            #[trigger] r.preface[x],
        ) == NovelOptions::Unknown && r.preface[x].len() > 0 && trim_spec(r.preface[x])
            == r.preface[x] by {
            if x < st.preface.len() {
                assert(spec_of_token(st.preface[x]) == NovelOptions::Unknown);
            }
        }
    } else if t.len() > 0 {
        let item = ItemView { divider: is_divider_text(t, cfg.divider), text: t };
        assert(item_ok(item, cfg.divider));
        assert forall|c: int| 0 <= c < r.chapters.len() implies (#[trigger] r.chapters[c]).no == c
            + 1 && r.chapters[c].id == g0 + c + 1 && r.chapters[c].part_no == pno by {
            assert(cs[c].no == c + 1);
        }
        assert forall|c: int| 0 <= c < r.chapters.len() implies chapter_content_ok(
            #[trigger] r.chapters[c],
            cfg.divider,
        ) by {
            assert(chapter_content_ok(cs[c], cfg.divider));
            if cs.len() > 0 && c == cs.len() - 1 {
                let newc = r.chapters[c];
                assert forall|x: int| 0 <= x < newc.content.len() implies item_ok(
                    #[trigger] newc.content[x],
                    cfg.divider,
                ) by {
                    if x < cs[c].content.len() {
                        assert(item_ok(cs[c].content[x], cfg.divider));
                    } else {
                        assert(newc.content[x] == item);
                    }
                }
            }
        }
    } else {
    }
}

/// The chapter scanner's fold preserves numbering, classification and the
/// exclusion of directives across a whole part span.
proof fn lemma_chapter_fold_props(
    cfg: CfgView,
    ls: Seq<LineView>,
    i: int,
    pend: int,
    pno: int,
    st: ChapterScanState,
    g0: int,
)
    requires
        st.local_no == st.chapters.len() + 1,
        st.global == g0 + st.chapters.len(),
        chapters_numbered(st.chapters, g0, pno),
        chapters_ok(st.chapters, cfg.divider),
        preface_ok(st.preface),
    ensures
        ({
            let r = scan_chapters_from(cfg, ls, i, pend, pno, st);
            &&& r.local_no == r.chapters.len() + 1
            &&& r.global == g0 + r.chapters.len()
            &&& chapters_numbered(r.chapters, g0, pno)
            &&& chapters_ok(r.chapters, cfg.divider)
            &&& preface_ok(r.preface)
        }),
    decreases ls.len() - i,
{
    if i < 0 || i >= ls.len() || ls[i].start >= pend {
    } else {
        let st2 = chapter_step(cfg, ls[i], pno, st);
        lemma_chapter_step_props(cfg, ls[i], pno, st, g0);
        if ls[i].end >= pend {
        } else {
            lemma_chapter_fold_props(cfg, ls, i + 1, pend, pno, st2, g0);
        }
    }
}

/// Scanning one fresh part yields chapters numbered from `g` on, contents
/// classified exactly, directives excluded, and the part's own identity
/// untouched.
proof fn lemma_scan_chapters_props(cfg: CfgView, ls: Seq<LineView>, part: PartView, g: int)
    requires
        part.current_chapter_no == 1,
        part.chapters.len() == 0,
    ensures
        ({
            let (pv, g2) = spec_scan_chapters(cfg, ls, part, g);
            &&& pv.no == part.no
            &&& pv.title == part.title
            &&& pv.raw_title == part.raw_title
            &&& pv.start == part.start
            &&& pv.end == part.end
            &&& pv.options == part.options
            &&& chapters_numbered(pv.chapters, g, pv.no)
            &&& chapters_ok(pv.chapters, cfg.divider)
            &&& preface_ok(pv.preface)
            &&& g2 == g + pv.chapters.len()
            &&& pv.current_chapter_no == pv.chapters.len() + 1
        }),
{
    let st0 = ChapterScanState {
        chapters: part.chapters,
        preface: Seq::empty(),
        local_no: part.current_chapter_no,
        global: g,
        opened: false,
        pos: part.start,
    };
    lemma_chapter_fold_props(
        cfg,
        ls,
        crate::part::boundary_idx(ls, part.start, 0),
        part.end,
        part.no,
        st0,
        g,
    );
    let st = scan_chapters_from(
        cfg,
        ls,
        crate::part::boundary_idx(ls, part.start, 0),
        part.end,
        part.no,
        st0,
    );
    let closed = close_last_chapter(st.chapters, st.pos);
    assert forall|c: int| 0 <= c < closed.len() implies (#[trigger] closed[c]).no == c + 1
        && closed[c].id == g + c + 1 && closed[c].part_no == part.no by {
        assert(st.chapters[c].no == c + 1);
    }
    assert forall|c: int| 0 <= c < closed.len() implies chapter_content_ok(
        #[trigger] closed[c],
        cfg.divider,
    ) by {
        assert(chapter_content_ok(st.chapters[c], cfg.divider));
        if st.chapters.len() > 0 && c == st.chapters.len() - 1 {
            assert(closed[c].content == st.chapters[c].content);
        }
    }
}

/// How many chapters stand before part `p` in discovery order.
pub open spec fn chapters_before(ps: Seq<PartView>, p: int) -> int
    decreases p,
{
    if p <= 0 {
        0
    } else {
        chapters_before(ps, p - 1) + ps[p - 1].chapters.len()
    }
}

proof fn lemma_chapters_before_prefix(ps1: Seq<PartView>, ps2: Seq<PartView>, p: int)
    requires
        0 <= p <= ps1.len(),
        p <= ps2.len(),
        forall|j: int| 0 <= j < p ==> (#[trigger] ps1[j]).chapters.len() == ps2[j].chapters.len(),
    ensures
        chapters_before(ps1, p) == chapters_before(ps2, p),
    decreases p,
{
    if p > 0 {
        lemma_chapters_before_prefix(ps1, ps2, p - 1);
    }
}

proof fn lemma_chapters_before_nonneg(ps: Seq<PartView>, p: int)
    ensures
        p <= 0 ==> chapters_before(ps, p) == 0,
        chapters_before(ps, p) >= 0,
    decreases p,
{
    if p > 0 {
        lemma_chapters_before_nonneg(ps, p - 1);
    }
}

/// Running the chapter scanner over all parts in order numbers the chapters
/// of part `j` from `chapters_before` on, keeps every part's identity,
/// classifies all content exactly, and excludes directives everywhere.
proof fn lemma_scan_all_props(cfg: CfgView, ls: Seq<LineView>, ps: Seq<PartView>, k: int, g: int)
    requires
        0 <= k <= ps.len(),
        forall|j: int|
            k <= j < ps.len() ==> (#[trigger] ps[j]).current_chapter_no == 1
                && ps[j].chapters.len() == 0,
        forall|j: int|
            0 <= j < k ==> chapters_numbered(
                (#[trigger] ps[j]).chapters,
                chapters_before(ps, j),
                ps[j].no,
            ) && chapters_ok(ps[j].chapters, cfg.divider) && preface_ok(ps[j].preface),
        g == chapters_before(ps, k),
    ensures
        ({
            let (rs, g2) = spec_scan_all(cfg, ls, ps, k, g);
            &&& rs.len() == ps.len()
            &&& forall|j: int| 0 <= j < k ==> rs[j] == ps[j]
            &&& forall|j: int|
                0 <= j < rs.len() ==> (#[trigger] rs[j]).no == ps[j].no && rs[j].options == ps[
                j].options && rs[j].start == ps[j].start && rs[j].end == ps[j].end && rs[j].title
                    == ps[j].title
            &&& forall|j: int|
                0 <= j < rs.len() ==> chapters_numbered(
                    (#[trigger] rs[j]).chapters,
                    chapters_before(rs, j),
                    rs[j].no,
                ) && chapters_ok(rs[j].chapters, cfg.divider) && preface_ok(rs[j].preface)
        }),
    decreases ps.len() - k,
{
    if k < 0 || k >= ps.len() {
    } else {
        let (pv, g2) = spec_scan_chapters(cfg, ls, ps[k], g);
        lemma_scan_chapters_props(cfg, ls, ps[k], g);
        let ps2 = ps.update(k, pv);
        assert forall|j: int| 0 <= j < k + 1 implies chapters_numbered(
            (#[trigger] ps2[j]).chapters,
            chapters_before(ps2, j),
            ps2[j].no,
        ) && chapters_ok(ps2[j].chapters, cfg.divider) && preface_ok(ps2[j].preface) by {
            lemma_chapters_before_prefix(ps2, ps, j);
            if j < k {
                assert(ps2[j] == ps[j]);
                assert(chapters_numbered(ps[j].chapters, chapters_before(ps, j), ps[j].no));
            } else {
                assert(ps2[j] == pv);
                assert(chapters_numbered(pv.chapters, g, pv.no));
            }
        }
        lemma_chapters_before_prefix(ps2, ps, k);
        assert(g2 == chapters_before(ps2, k + 1));
        lemma_scan_all_props(cfg, ls, ps2, k + 1, g2);
        let (rs, gf) = spec_scan_all(cfg, ls, ps2, k + 1, g2);
        assert(spec_scan_all(cfg, ls, ps, k, g) == spec_scan_all(cfg, ls, ps2, k + 1, g2));
        assert forall|j: int| 0 <= j < rs.len() implies (#[trigger] rs[j]).no == ps[j].no && rs[
        j].options == ps[j].options && rs[j].start == ps[j].start && rs[j].end == ps[j].end && rs[
        j].title == ps[j].title by {
            if j < k + 1 {
                assert(rs[j] == ps2[j]);
            } else {
                assert(rs[j].no == ps2[j].no && rs[j].options == ps2[j].options && rs[j].start
                    == ps2[j].start && rs[j].end == ps2[j].end && rs[j].title == ps2[j].title);
                assert(ps2[j] == ps[j]);
            }
        }
    }
}

/// The parts the whole scan yields are exactly the boundary pass's parts
/// (or the one synthetic part), each scanned: their chapters are numbered
/// globally and locally, contents classified, directives excluded.
proof fn lemma_scan_novel_props(cfg: CfgView, ls: Seq<LineView>, me: int, total: int)
    ensures
        ({
            let (ps, has) = spec_scan_novel(cfg, ls, me, total);
            &&& forall|j: int|
                0 <= j < ps.len() ==> chapters_numbered(
                    (#[trigger] ps[j]).chapters,
                    chapters_before(ps, j),
                    ps[j].no,
                ) && chapters_ok(ps[j].chapters, cfg.divider) && preface_ok(ps[j].preface)
            &&& (has == false ==> ps.len() == 1 && ps[0].no == 0)
        }),
{
    let ps0 = scan_parts_from(cfg, ls, 0, Seq::empty(), 1, total);
    if ps0.len() == 0 {
        let ps1 = seq![synth_part(cfg, ls, me, total)];
        assert(forall|j: int|
            0 <= j < ps1.len() ==> (#[trigger] ps1[j]).current_chapter_no == 1
                && ps1[j].chapters.len() == 0);
        lemma_chapters_before_nonneg(ps1, 0);
        lemma_scan_all_props(cfg, ls, ps1, 0, 0);
    } else {
        lemma_scan_parts_fresh(cfg, ls, 0, Seq::empty(), 1, total);
        lemma_chapters_before_nonneg(ps0, 0);
        lemma_scan_all_props(cfg, ls, ps0, 0, 0);
    }
}

/// Law: for every document, chapter global numbers form the strictly
/// increasing sequence 1..K in discovery order across all parts combined —
/// the chapter at position `c` of part `p` has global number
/// `chapters_before(parts, p) + c + 1` — and part-local numbers count
/// 1..N within each part.
pub proof fn lemma_chapter_numbering(b: Seq<u8>, cfg: CfgView)
    requires
        spec_parse_result(b, cfg) is Ok,
    ensures
        ({
            let n = spec_parse_result(b, cfg)->Ok_0;
            forall|p: int, c: int|
                0 <= p < n.parts.len() && 0 <= c < n.parts[p].chapters.len() ==> (#[trigger] n
                    .parts[p].chapters[c]).no == c + 1 && n.parts[p].chapters[c].id
                    == chapters_before(n.parts, p) + c + 1
        }),
{
    let ls = stream_views(b);
    let total = b.len() as int;
    let idx = meta_end_idx(cfg, ls, 0);
    let me = meta_end_pos(ls, idx, total);
    lemma_scan_novel_props(cfg, ls, me, total);
    let n = spec_parse_result(b, cfg)->Ok_0;
    assert forall|p: int, c: int|
        0 <= p < n.parts.len() && 0 <= c < n.parts[p].chapters.len() implies (#[trigger] n.parts[
    p].chapters[c]).no == c + 1 && n.parts[p].chapters[c].id == chapters_before(n.parts, p) + c
        + 1 by {
        assert(chapters_numbered(n.parts[p].chapters, chapters_before(n.parts, p), n.parts[p].no));
    }
}

/// Law: a line of chapter content is marked `Divider` exactly when its
/// trimmed text equals one of the configured divider literals; one
/// character of difference makes it content.
pub proof fn lemma_divider_classification(b: Seq<u8>, cfg: CfgView)
    requires
        spec_parse_result(b, cfg) is Ok,
    ensures
        ({
            let n = spec_parse_result(b, cfg)->Ok_0;
            forall|p: int, c: int, l: int|
                0 <= p < n.parts.len() && 0 <= c < n.parts[p].chapters.len() && 0 <= l < n.parts[p].chapters[c].content.len() ==> (#[trigger] n.parts[p].chapters[c].content[
                l]).divider == is_divider_text(
                    n.parts[p].chapters[c].content[l].text,
                    cfg.divider,
                )
        }),
{
    let ls = stream_views(b);
    let total = b.len() as int;
    let idx = meta_end_idx(cfg, ls, 0);
    let me = meta_end_pos(ls, idx, total);
    lemma_scan_novel_props(cfg, ls, me, total);
    let n = spec_parse_result(b, cfg)->Ok_0;
    assert forall|p: int, c: int, l: int|
        0 <= p < n.parts.len() && 0 <= c < n.parts[p].chapters.len() && 0 <= l < n.parts[p].chapters[c].content.len() implies (#[trigger] n.parts[p].chapters[c].content[l]).divider
        == is_divider_text(n.parts[p].chapters[c].content[l].text, cfg.divider) by {
        assert(chapters_ok(n.parts[p].chapters, cfg.divider));
        assert(chapter_content_ok(n.parts[p].chapters[c], cfg.divider));
        assert(item_ok(n.parts[p].chapters[c].content[l], cfg.divider));
    }
}

/// Law: a recognized directive token never appears, as its trimmed self, in
/// any part's preface nor in any chapter's content.
pub proof fn lemma_directive_excluded(b: Seq<u8>, cfg: CfgView)
    requires
        spec_parse_result(b, cfg) is Ok,
    ensures
        ({
            let n = spec_parse_result(b, cfg)->Ok_0;
            &&& forall|p: int, x: int|
                0 <= p < n.parts.len() && 0 <= x < n.parts[p].preface.len() ==> spec_of_token(
                    #[trigger] n.parts[p].preface[x],
                ) == NovelOptions::Unknown
            &&& forall|p: int, c: int, l: int|
                0 <= p < n.parts.len() && 0 <= c < n.parts[p].chapters.len() && 0 <= l < n.parts[p].chapters[c].content.len() ==> spec_of_token(
                    (#[trigger] n.parts[p].chapters[c].content[l]).text,
                ) == NovelOptions::Unknown
        }),
{
    let ls = stream_views(b);
    let total = b.len() as int;
    let idx = meta_end_idx(cfg, ls, 0);
    let me = meta_end_pos(ls, idx, total);
    lemma_scan_novel_props(cfg, ls, me, total);
    let n = spec_parse_result(b, cfg)->Ok_0;
    assert forall|p: int, x: int|
        0 <= p < n.parts.len() && 0 <= x < n.parts[p].preface.len() implies spec_of_token(
        #[trigger] n.parts[p].preface[x],
    ) == NovelOptions::Unknown by {
        assert(preface_ok(n.parts[p].preface));
    }
    assert forall|p: int, c: int, l: int|
        0 <= p < n.parts.len() && 0 <= c < n.parts[p].chapters.len() && 0 <= l < n.parts[p].chapters[c].content.len() implies spec_of_token(
        (#[trigger] n.parts[p].chapters[c].content[l]).text,
    ) == NovelOptions::Unknown by {
        assert(chapters_ok(n.parts[p].chapters, cfg.divider));
        assert(chapter_content_ok(n.parts[p].chapters[c], cfg.divider));
        assert(item_ok(n.parts[p].chapters[c].content[l], cfg.divider));
    }
}

/// The boundary pass yields only fresh parts: no chapters yet, the local
/// chapter counter at 1.
proof fn lemma_scan_parts_fresh(
    cfg: CfgView,
    ls: Seq<LineView>,
    i: int,
    acc: Seq<PartView>,
    no: int,
    total: int,
)
    requires
        0 <= i <= ls.len(),
        forall|j: int|
            0 <= j < acc.len() ==> (#[trigger] acc[j]).current_chapter_no == 1
                && acc[j].chapters.len() == 0,
    ensures
        ({
            let r = scan_parts_from(cfg, ls, i, acc, no, total);
            forall|j: int|
                0 <= j < r.len() ==> (#[trigger] r[j]).current_chapter_no == 1
                    && r[j].chapters.len() == 0
        }),
    decreases ls.len() - i,
{
    if i < 0 || i >= ls.len() {
        let r = crate::novel::close_last_part(acc, total);
        assert forall|j: int| 0 <= j < r.len() implies (#[trigger] r[j]).current_chapter_no == 1
            && r[j].chapters.len() == 0 by {
            assert(acc[j].current_chapter_no == 1);
        }
    } else {
        let t = trim_spec(ls[i].text);
        if spec_of_token(t) != NovelOptions::Unknown {
            let acc2 = crate::novel::flag_last_part(acc, spec_of_token(t));
            assert forall|j: int| 0 <= j < acc2.len() implies (
            #[trigger] acc2[j]).current_chapter_no == 1 && acc2[j].chapters.len() == 0 by {
                assert(acc[j].current_chapter_no == 1);
            }
            lemma_scan_parts_fresh(cfg, ls, i + 1, acc2, no, total);
            assert(scan_parts_from(cfg, ls, i, acc, no, total) == scan_parts_from(
                cfg,
                ls,
                i + 1,
                acc2,
                no,
                total,
            ));
        } else if regex_captures(cfg.part_src, t) is Some {
            let acc2 = crate::novel::close_last_part(acc, ls[i].start).push(
                crate::novel::new_part_view(cfg, ls[i], no),
            );
            assert forall|j: int| 0 <= j < acc2.len() implies (
            #[trigger] acc2[j]).current_chapter_no == 1 && acc2[j].chapters.len() == 0 by {
                if j < acc.len() {
                    assert(acc[j].current_chapter_no == 1);
                } else {
                    assert(acc2[j] == crate::novel::new_part_view(cfg, ls[i], no));
                    assert(acc2[j].chapters.len() == 0);
                }
            }
            lemma_scan_parts_fresh(cfg, ls, i + 1, acc2, no + 1, total);
            assert(scan_parts_from(cfg, ls, i, acc, no, total) == scan_parts_from(
                cfg,
                ls,
                i + 1,
                acc2,
                no + 1,
                total,
            ));
        } else {
            lemma_scan_parts_fresh(cfg, ls, i + 1, acc, no, total);
            assert(scan_parts_from(cfg, ls, i, acc, no, total) == scan_parts_from(
                cfg,
                ls,
                i + 1,
                acc,
                no,
                total,
            ));
        }
    }
}

proof fn lemma_scan_parts_len(
    cfg: CfgView,
    ls: Seq<LineView>,
    i: int,
    acc: Seq<PartView>,
    no: int,
    total: int,
)
    requires
        0 <= i <= ls.len(),
        forall|m: int|
            i <= m < ls.len() ==> regex_captures(
                cfg.part_src,
                trim_spec((#[trigger] ls[m]).text),
            ) is None,
    ensures
        scan_parts_from(cfg, ls, i, acc, no, total).len() == acc.len(),
    decreases ls.len() - i,
{
    if i < ls.len() {
        let t = trim_spec(ls[i].text);
        if spec_of_token(t) != NovelOptions::Unknown {
            lemma_scan_parts_len(
                cfg,
                ls,
                i + 1,
                crate::novel::flag_last_part(acc, spec_of_token(t)),
                no,
                total,
            );
        } else {
            lemma_scan_parts_len(cfg, ls, i + 1, acc, no, total);
        }
    }
}

/// Law: a document in which no line matches the part pattern has exactly
/// one part, numbered 0, and no explicit sections.
pub proof fn lemma_no_explicit_parts(b: Seq<u8>, cfg: CfgView)
    requires
        spec_parse_result(b, cfg) is Ok,
        forall|m: int|
            0 <= m < stream_views(b).len() ==> regex_captures(
                cfg.part_src,
                trim_spec((#[trigger] stream_views(b)[m]).text),
            ) is None,
    ensures
        ({
            let n = spec_parse_result(b, cfg)->Ok_0;
            n.parts.len() == 1 && n.parts[0].no == 0 && !n.has_sections
        }),
{
    let ls = stream_views(b);
    let total = b.len() as int;
    let idx = meta_end_idx(cfg, ls, 0);
    let me = meta_end_pos(ls, idx, total);
    lemma_scan_parts_len(cfg, ls, 0, Seq::empty(), 1, total);
    lemma_scan_novel_props(cfg, ls, me, total);
}

/// A stream whose every line decodes is a well-formed line decomposition:
/// contiguous ranges from 0 to the stream length, each re-encoding to its
/// own bytes.
proof fn lemma_views_from_wf(b: Seq<u8>, pos: int)
    requires
        0 <= pos <= b.len(),
        crate::cursor::encoding_check_from(b, pos) is None,
    ensures
        ({
            let vs = crate::cursor::line_views_from(b, pos);
            &&& (pos < b.len() ==> vs.len() > 0 && vs[0].start == pos && vs[vs.len() - 1].end
                == b.len())
            &&& (pos >= b.len() ==> vs.len() == 0)
            &&& forall|i: int| 0 <= i < vs.len() ==> 0 <= (#[trigger] vs[i]).start < vs[i].end
                <= b.len()
            &&& forall|i: int|
                0 <= i < vs.len() ==> (#[trigger] vs[i]).end - vs[i].start == vstd::utf8::encode_utf8(
                    vs[i].text,
                ).len()
            &&& forall|i: int, j: int|
                #![trigger vs[i], vs[j]]
                0 <= i < vs.len() && j == i + 1 && j < vs.len() ==> vs[j].start == vs[i].end
        }),
    decreases b.len() - pos,
{
    if pos < b.len() {
        let e = crate::cursor::line_end_from(b, pos);
        crate::cursor::lemma_line_end_bounds(b, pos);
        let sub = b.subrange(pos, e);
        assert(vstd::utf8::valid_utf8(sub));
        vstd::utf8::decode_utf8_encode_utf8(sub);
        assert(vstd::utf8::encode_utf8(vstd::utf8::decode_utf8(sub)) == sub);
        lemma_views_from_wf(b, e);
        let first = LineView { text: vstd::utf8::decode_utf8(sub), start: pos, end: e };
        let rest = crate::cursor::line_views_from(b, e);
        let vs = crate::cursor::line_views_from(b, pos);
        assert(vs =~= seq![first] + rest);
        assert(vs[0] == first);
        assert(forall|i: int| 1 <= i < vs.len() ==> vs[i] == rest[i - 1]);
        if e < b.len() {
            assert(rest.len() > 0);
            assert(vs[vs.len() - 1] == rest[rest.len() - 1]);
        }
        assert(first.end - first.start == sub.len());
    }
}

/// A stream that passes the encoding check decomposes into well-formed
/// lines.
proof fn lemma_stream_wf(b: Seq<u8>)
    requires
        crate::cursor::encoding_check_from(b, 0) is None,
    ensures
        crate::cursor::lines_wf(stream_views(b), b.len() as int),
{
    lemma_views_from_wf(b, 0);
}

/// Whether a line's trimmed text is exactly the long-preface directive.
pub open spec fn long_directive(l: LineView) -> bool {
    spec_of_token(trim_spec(l.text)) == NovelOptions::LongPreface
}

/// Every part's directive flags carry the long-preface key in front, so a
/// directive can always set it.
spec fn opts_keyed(ps: Seq<PartView>) -> bool {
    forall|j: int|
        0 <= j < ps.len() ==> (#[trigger] ps[j]).options.len() > 0 && ps[j].options[0].0
            == NovelOptions::LongPreface
}

proof fn lemma_set_option_sets(opts: Seq<(NovelOptions, bool)>, o: NovelOptions)
    requires
        opts.len() > 0,
        opts[0].0 == o,
    ensures
        crate::part::option_set(crate::part::set_option_spec(opts, o), o),
{
    let r = crate::part::set_option_spec(opts, o);
    assert(r[0] == (o, true));
}

proof fn lemma_set_option_keeps(opts: Seq<(NovelOptions, bool)>, o: NovelOptions, x: NovelOptions)
    requires
        crate::part::option_set(opts, x),
    ensures
        crate::part::option_set(crate::part::set_option_spec(opts, o), x),
{
    let w = choose|w: int| 0 <= w < opts.len() && opts[w].0 == x && opts[w].1;
    let r = crate::part::set_option_spec(opts, o);
    if opts[w].0 == o {
        assert(r[w] == (o, true));
    } else {
        assert(r[w] == opts[w]);
    }
}

/// Processed directives are recorded: within the lines already scanned, a
/// long-preface directive line lying at or after a part's start (and before
/// its end, for parts already closed) has set that part's flag.
spec fn flags_inv(ls: Seq<LineView>, acc: Seq<PartView>, upto: int) -> bool {
    forall|j: int, m: int|
        #![trigger acc[j], ls[m]]
        0 <= j < acc.len() && 0 <= m < upto && long_directive(ls[m]) && acc[j].start <= ls[m].start
            && (j < acc.len() - 1 ==> ls[m].start < acc[j].end) ==> crate::part::option_set(
            acc[j].options,
            NovelOptions::LongPreface,
        )
}

/// The part boundary pass records every long-preface directive on the part
/// whose span holds it.
proof fn lemma_scan_parts_flags(
    cfg: CfgView,
    ls: Seq<LineView>,
    i: int,
    acc: Seq<PartView>,
    no: int,
    total: int,
)
    requires
        crate::cursor::lines_wf(ls, total),
        0 <= i <= ls.len(),
        opts_keyed(acc),
        flags_inv(ls, acc, i),
        acc.len() > 0 ==> acc[acc.len() - 1].start <= (if i < ls.len() {
            ls[i].start
        } else {
            total
        }),
        forall|j: int| 0 <= j < acc.len() - 1 ==> (#[trigger] acc[j]).end <= acc[acc.len() - 1].start,
    ensures
        ({
            let r = scan_parts_from(cfg, ls, i, acc, no, total);
            forall|j: int, m: int|
                #![trigger r[j], ls[m]]
                0 <= j < r.len() && 0 <= m < ls.len() && long_directive(ls[m]) && r[j].start <= ls[
                m].start && ls[m].start < r[j].end ==> crate::part::option_set(
                    r[j].options,
                    NovelOptions::LongPreface,
                )
        }),
    decreases ls.len() - i,
{
    if i < 0 || i >= ls.len() {
        let r = crate::novel::close_last_part(acc, total);
        assert forall|j: int, m: int|
            0 <= j < r.len() && 0 <= m < ls.len() && long_directive(ls[m]) && (#[trigger] r[
        j]).start <= (#[trigger] ls[m]).start && ls[m].start < r[j].end implies crate::part::option_set(
            r[j].options,
            NovelOptions::LongPreface,
        ) by {
            assert(acc[j].options == r[j].options);
            assert(acc[j].start == r[j].start);
            if j < r.len() - 1 {
                assert(r[j].end == acc[j].end);
            }
            assert(flags_inv(ls, acc, i));
            assert(0 <= j < acc.len() && 0 <= m < i && long_directive(ls[m]) && acc[j].start <= ls[
            m].start && (j < acc.len() - 1 ==> ls[m].start < acc[j].end));
        }
    } else {
        let t = trim_spec(ls[i].text);
        if spec_of_token(t) != NovelOptions::Unknown {
            assert(spec_of_token(t) == NovelOptions::LongPreface);
            assert(long_directive(ls[i]));
            let acc2 = crate::novel::flag_last_part(acc, spec_of_token(t));
            assert(opts_keyed(acc2)) by {
                assert forall|j: int| 0 <= j < acc2.len() implies (#[trigger] acc2[j]).options.len()
                    > 0 && acc2[j].options[0].0 == NovelOptions::LongPreface by {
                    assert(acc[j].options.len() > 0 && acc[j].options[0].0
                        == NovelOptions::LongPreface);
                    if j == acc2.len() - 1 {
                        assert(acc2[j].options == crate::part::set_option_spec(
                            acc[j].options,
                            NovelOptions::LongPreface,
                        ));
                        assert(acc2[j].options[0] == (NovelOptions::LongPreface, true));
                    }
                }
            }
            assert(flags_inv(ls, acc2, i + 1)) by {
                assert forall|j: int, m: int|
                    0 <= j < acc2.len() && 0 <= m < i + 1 && long_directive(ls[m]) && (
                #[trigger] acc2[j]).start <= (#[trigger] ls[m]).start && (j < acc2.len() - 1
                    ==> ls[m].start < acc2[j].end) implies crate::part::option_set(
                    acc2[j].options,
                    NovelOptions::LongPreface,
                ) by {
                    if j == acc2.len() - 1 {
                        lemma_set_option_sets(acc[j].options, NovelOptions::LongPreface);
                    } else {
                        assert(acc2[j] == acc[j]);
                        if m < i {
                            assert(flags_inv(ls, acc, i));
                            assert(0 <= j < acc.len() && 0 <= m < i);
                        } else {
                            // the directive line at i lies at or past the last
                            // part's start, which closed parts end before
                            assert(acc[j].end <= acc[acc.len() - 1].start <= ls[i].start);
                            assert(false);
                        }
                    }
                }
            }
            lemma_scan_parts_flags(cfg, ls, i + 1, acc2, no, total);
            assert(scan_parts_from(cfg, ls, i, acc, no, total) == scan_parts_from(
                cfg,
                ls,
                i + 1,
                acc2,
                no,
                total,
            ));
        } else if regex_captures(cfg.part_src, t) is Some {
            let closed = crate::novel::close_last_part(acc, ls[i].start);
            let np = crate::novel::new_part_view(cfg, ls[i], no);
            let acc2 = closed.push(np);
            assert(opts_keyed(acc2)) by {
                assert forall|j: int| 0 <= j < acc2.len() implies (#[trigger] acc2[j]).options.len()
                    > 0 && acc2[j].options[0].0 == NovelOptions::LongPreface by {
                    if j < acc.len() {
                        assert(acc[j].options.len() > 0 && acc[j].options[0].0
                            == NovelOptions::LongPreface);
                        assert(acc2[j].options == acc[j].options);
                    } else {
                        assert(acc2[j] == np);
                        if cfg.long_preface {
                            assert(np.options[0] == (NovelOptions::LongPreface, true));
                        } else {
                            assert(np.options[0] == (NovelOptions::LongPreface, false));
                        }
                    }
                }
            }
            assert(flags_inv(ls, acc2, i + 1)) by {
                assert forall|j: int, m: int|
                    0 <= j < acc2.len() && 0 <= m < i + 1 && long_directive(ls[m]) && (
                #[trigger] acc2[j]).start <= (#[trigger] ls[m]).start && (j < acc2.len() - 1
                    ==> ls[m].start < acc2[j].end) implies crate::part::option_set(
                    acc2[j].options,
                    NovelOptions::LongPreface,
                ) by {
                    if j == acc2.len() - 1 {
                        // the new part starts past this line; no directive yet
                        assert(acc2[j] == np);
                        if m < i {
                            crate::cursor::lemma_line_order(ls, total, m, i);
                            assert(ls[m].start < ls[i].end == np.start);
                            assert(false);
                        } else {
                            assert(m == i);
                            assert(!long_directive(ls[i]));
                            assert(false);
                        }
                    } else if j == acc.len() - 1 {
                        // the part just closed at this marker's start
                        assert(acc2[j].end == ls[i].start);
                        assert(acc2[j].options == acc[j].options);
                        assert(acc2[j].start == acc[j].start);
                        if m < i {
                            assert(flags_inv(ls, acc, i));
                            assert(0 <= j < acc.len() && 0 <= m < i && acc[j].start <= ls[m].start
                                && (j < acc.len() - 1 ==> ls[m].start < acc[j].end));
                        } else {
                            assert(ls[m].start < acc2[j].end == ls[i].start);
                            assert(m == i);
                            assert(false);
                        }
                    } else {
                        assert(acc2[j] == acc[j]);
                        if m < i {
                            assert(flags_inv(ls, acc, i));
                            assert(0 <= j < acc.len() && 0 <= m < i);
                        } else {
                            assert(m == i);
                            assert(acc[j].end <= acc[acc.len() - 1].start <= ls[i].start);
                            assert(false);
                        }
                    }
                }
            }
            assert(acc2.len() > 0 && acc2[acc2.len() - 1].start == ls[i].end);
            assert(acc2[acc2.len() - 1].start <= (if i + 1 < ls.len() {
                ls[i + 1].start
            } else {
                total
            }));
            assert forall|j: int| 0 <= j < acc2.len() - 1 implies (#[trigger] acc2[j]).end <= acc2[
            acc2.len() - 1].start by {
                if j < acc.len() - 1 {
                    assert(acc2[j].end == acc[j].end <= acc[acc.len() - 1].start <= ls[i].start);
                } else {
                    assert(acc2[j].end == ls[i].start);
                }
                assert(ls[i].start <= ls[i].end == acc2[acc2.len() - 1].start);
            }
            lemma_scan_parts_flags(cfg, ls, i + 1, acc2, no + 1, total);
            assert(scan_parts_from(cfg, ls, i, acc, no, total) == scan_parts_from(
                cfg,
                ls,
                i + 1,
                acc2,
                no + 1,
                total,
            ));
        } else {
            assert(flags_inv(ls, acc, i + 1)) by {
                assert forall|j: int, m: int|
                    0 <= j < acc.len() && 0 <= m < i + 1 && long_directive(ls[m]) && (#[trigger] acc[
                j]).start <= (#[trigger] ls[m]).start && (j < acc.len() - 1 ==> ls[m].start < acc[
                j].end) implies crate::part::option_set(
                    acc[j].options,
                    NovelOptions::LongPreface,
                ) by {
                    if m < i {
                        assert(flags_inv(ls, acc, i));
                        assert(0 <= j < acc.len() && 0 <= m < i);
                    } else {
                        assert(m == i);
                        assert(!long_directive(ls[i]));
                        assert(false);
                    }
                }
            }
            lemma_scan_parts_flags(cfg, ls, i + 1, acc, no, total);
            assert(scan_parts_from(cfg, ls, i, acc, no, total) == scan_parts_from(
                cfg,
                ls,
                i + 1,
                acc,
                no,
                total,
            ));
        }
    }
}

/// Law: in a document with explicit parts, a long-preface directive line
/// inside a part's span sets that part's long-preface flag.  (Without
/// explicit parts no part is open while the boundary pass runs, so a
/// directive inside the synthetic part's span sets nothing.)
pub proof fn lemma_directive_sets_flag(b: Seq<u8>, cfg: CfgView)
    requires
        spec_parse_result(b, cfg) is Ok,
        spec_parse_result(b, cfg)->Ok_0.has_sections,
    ensures
        ({
            let n = spec_parse_result(b, cfg)->Ok_0;
            let ls = stream_views(b);
            forall|k: int, m: int|
                #![trigger n.parts[k], ls[m]]
                0 <= k < n.parts.len() && 0 <= m < ls.len() && long_directive(ls[m]) && n.parts[
                k].start <= ls[m].start && ls[m].start < n.parts[k].end
                    ==> crate::part::option_set(n.parts[k].options, NovelOptions::LongPreface)
        }),
{
    let ls = stream_views(b);
    let total = b.len() as int;
    let idx = meta_end_idx(cfg, ls, 0);
    let me = meta_end_pos(ls, idx, total);
    lemma_stream_wf(b);
    let ps0 = scan_parts_from(cfg, ls, 0, Seq::empty(), 1, total);
    lemma_scan_parts_flags(cfg, ls, 0, Seq::empty(), 1, total);
    lemma_scan_parts_fresh(cfg, ls, 0, Seq::empty(), 1, total);
    lemma_chapters_before_nonneg(ps0, 0);
    lemma_scan_all_props(cfg, ls, ps0, 0, 0);
    let n = spec_parse_result(b, cfg)->Ok_0;
    assert forall|k: int, m: int|
        0 <= k < n.parts.len() && 0 <= m < ls.len() && long_directive(ls[m]) && (#[trigger] n.parts[
    k]).start <= (#[trigger] ls[m]).start && ls[m].start < n.parts[k].end implies crate::part::option_set(
        n.parts[k].options,
        NovelOptions::LongPreface,
    ) by {
        assert(n.parts[k].options == ps0[k].options && n.parts[k].start == ps0[k].start && n.parts[
        k].end == ps0[k].end);
    }
}

} // verus!
