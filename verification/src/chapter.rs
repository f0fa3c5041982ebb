//! A chapter: an ordered run of classified content lines with a global and a
//! part-local sequence number, a title, and the byte range of its source.

use vstd::prelude::*;

verus! {

/// How a content line is classified: narrative text or a literal divider.
#[derive(Debug, Clone, Copy, PartialEq, Eq, Structural)]
pub enum LineType {
    Line,
    Divider,
}

/// One classified line of chapter content, trimmed.
#[derive(Debug, PartialEq, Eq)]
pub struct Line {
    pub line_type: LineType,
    pub content: String,
}

/// A content line as mathematics.
#[verifier::ext_equal]
pub struct ItemView {
    pub divider: bool,
    pub text: Seq<char>,
}

impl View for Line {
    type V = ItemView;

    open spec fn view(&self) -> ItemView {
        ItemView { divider: self.line_type is Divider, text: self.content@ }
    }
}

impl DeepView for Line {
    type V = ItemView;

    open spec fn deep_view(&self) -> ItemView {
        self.view()
    }
}

/// A chapter as mathematics.
#[verifier::ext_equal]
pub struct ChapterView {
    pub id: int,
    pub part_no: int,
    pub no: int,
    pub title: Seq<char>,
    pub raw_title: Seq<char>,
    pub content: Seq<ItemView>,
    pub start: int,
    pub end: int,
}

/// A chapter: `id` is the global number (monotonic across the whole
/// document), `no` the part-local number (starting at 1 in each part), and
/// `[start, end)` the byte range of its content in the source stream.
#[derive(Debug, PartialEq, Eq)]
pub struct Chapter {
    pub id: usize,
    pub part_no: usize,
    pub no: usize,
    pub title: String,
    pub raw_title: String,
    pub content: Vec<Line>,
    pub start: usize,
    pub end: usize,
}

impl View for Chapter {
    type V = ChapterView;

    open spec fn view(&self) -> ChapterView {
        ChapterView {
            id: self.id as int,
            part_no: self.part_no as int,
            no: self.no as int,
            title: self.title@,
            raw_title: self.raw_title@,
            content: self.content.deep_view(),
            start: self.start as int,
            end: self.end as int,
        }
    }
}

impl DeepView for Chapter {
    type V = ChapterView;

    open spec fn deep_view(&self) -> ChapterView {
        self.view()
    }
}

impl Chapter {
    /// A freshly opened chapter: no content yet, range still open.
    pub fn new(
        id: usize,
        no: usize,
        part_no: usize,
        title: String,
        raw_title: String,
        start: usize,
    ) -> (c: Chapter)
        ensures
            c@ == (ChapterView {
                id: id as int,
                part_no: part_no as int,
                no: no as int,
                title: title@,
                raw_title: raw_title@,
                content: Seq::empty(),
                start: start as int,
                end: 0,
            }),
    {
        let c = Chapter { id, part_no, no, title, raw_title, content: Vec::new(), start, end: 0 };
        proof {
            assert(c.content.deep_view() =~= Seq::<ItemView>::empty());
        }
        c
    }
}

} // verus!
