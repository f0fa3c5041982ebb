//! The line cursor: a sequential, seekable line reader over a source byte
//! stream.  A position is a byte offset; after reading a line the position is
//! the offset just past that line's terminator.  The stream is split at the
//! newline byte once, at construction, and every line is decoded as UTF-8
//! there; a malformed line aborts construction with an encoding error.

use vstd::prelude::*;
use vstd::slice::slice_subrange;
use vstd::string::StrSliceExecFns;
use vstd::string::StringSliceAdditionalSpecFns;
use vstd::string::StringExecFns;
use vstd::utf8::{decode_utf8, encode_utf8, encode_utf8_decode_utf8, valid_utf8};

use crate::ParseError;

verus! {

/// One line of the stream as the scanning passes see it: its decoded text
/// (terminator included) and the byte range `[start, end)` it occupies.
#[verifier::ext_equal]
pub struct LineView {
    pub text: Seq<char>,
    pub start: int,
    pub end: int,
}

/// The byte offset just past the line that starts at `pos`: one past the
/// first newline byte at or after `pos`, or the end of the stream.
pub open spec fn line_end_from(b: Seq<u8>, pos: int) -> int
    decreases b.len() - pos,
{
    if pos < 0 || pos >= b.len() {
        b.len() as int
    } else if b[pos] == 10u8 {
        pos + 1
    } else {
        line_end_from(b, pos + 1)
    }
}

pub proof fn lemma_line_end_bounds(b: Seq<u8>, pos: int)
    requires
        0 <= pos < b.len(),
    ensures
        pos < line_end_from(b, pos) <= b.len(),
    decreases b.len() - pos,
{
    if b[pos] == 10u8 {
    } else if pos + 1 < b.len() {
        lemma_line_end_bounds(b, pos + 1);
    } else {
        assert(line_end_from(b, pos + 1) == b.len());
    }
}

proof fn lemma_line_end_char(b: Seq<u8>, pos: int, e: int)
    requires
        0 <= pos <= e <= b.len(),
        forall|k: int| pos <= k < e ==> b[k] != 10u8,
        e == b.len() || b[e] == 10u8,
    ensures
        e == b.len() ==> line_end_from(b, pos) == b.len(),
        e < b.len() ==> line_end_from(b, pos) == e + 1,
    decreases e - pos,
{
    if pos < e {
        lemma_line_end_char(b, pos + 1, e);
    }
}

/// The decomposition of the byte stream into line views, from `pos` on.
pub open spec fn line_views_from(b: Seq<u8>, pos: int) -> Seq<LineView>
    decreases b.len() - pos,
{
    if pos < 0 || pos >= b.len() {
        Seq::empty()
    } else {
        let e = line_end_from(b, pos);
        if pos < e <= b.len() {
            seq![LineView { text: decode_utf8(b.subrange(pos, e)), start: pos, end: e }]
                + line_views_from(b, e)
        } else {
            Seq::empty()
        }
    }
}

/// All lines of the stream, in order.
pub open spec fn stream_views(b: Seq<u8>) -> Seq<LineView> {
    line_views_from(b, 0)
}

/// `None` where every line of the stream is well-formed UTF-8; otherwise the
/// byte offset at which the first malformed line starts.
pub open spec fn encoding_check_from(b: Seq<u8>, pos: int) -> Option<int>
    decreases b.len() - pos,
{
    if pos < 0 || pos >= b.len() {
        None
    } else {
        let e = line_end_from(b, pos);
        if pos < e <= b.len() {
            if !valid_utf8(b.subrange(pos, e)) {
                Some(pos)
            } else {
                encoding_check_from(b, e)
            }
        } else {
            None
        }
    }
}

/// Well-formedness of a line decomposition: ranges are non-empty, contiguous
/// from offset 0 to `total`, and each line's text re-encodes to exactly the
/// bytes of its range.
pub open spec fn lines_wf(ls: Seq<LineView>, total: int) -> bool {
    &&& total >= 0
    &&& forall|i: int| 0 <= i < ls.len() ==> 0 <= (#[trigger] ls[i]).start < ls[i].end <= total
    &&& forall|i: int|
        0 <= i < ls.len() ==> (#[trigger] ls[i]).end - ls[i].start == encode_utf8(
            ls[i].text,
        ).len()
    &&& forall|i: int, j: int|
        #![trigger ls[i], ls[j]]
        0 <= i < ls.len() && j == i + 1 && j < ls.len() ==> ls[j].start == ls[i].end
    &&& (ls.len() > 0 ==> ls[0].start == 0 && ls[ls.len() - 1].end == total)
    &&& (ls.len() == 0 ==> total == 0)
}

/// In a well-formed decomposition the ranges come in strictly increasing
/// order: an earlier line ends no later than a later one starts.
pub proof fn lemma_line_order(ls: Seq<LineView>, total: int, i: int, j: int)
    requires
        lines_wf(ls, total),
        0 <= i <= j < ls.len(),
    ensures
        ls[i].start <= ls[j].start,
        i < j ==> ls[i].end <= ls[j].start,
    decreases j - i,
{
    if i < j {
        lemma_line_order(ls, total, i + 1, j);
    }
}

/// An offset at which a read may start: the start of some line, or the end
/// of the stream.
pub open spec fn is_line_boundary(ls: Seq<LineView>, total: int, off: int) -> bool {
    off == total || exists|i: int| 0 <= i < ls.len() && (#[trigger] ls[i]).start == off
}

#[derive(Debug)]
struct LineRec {
    text: String,
    start: usize,
    end: usize,
}

/// Sequential, seekable line reader over one source byte stream.
#[derive(Debug)]
pub struct LineCursor {
    lines: Vec<LineRec>,
    idx: usize,
    total: usize,
}

impl LineCursor {
    /// The stream's lines, in order.
    pub closed spec fn lines(&self) -> Seq<LineView> {
        self.lines@.map_values(
            |r: LineRec| LineView { text: r.text@, start: r.start as int, end: r.end as int },
        )
    }

    /// Index of the next line a read would return.
    pub closed spec fn at(&self) -> int {
        self.idx as int
    }

    /// The stream length in bytes.
    pub closed spec fn total(&self) -> int {
        self.total as int
    }

    /// The current byte position: the start of the next unread line, or the
    /// stream end once every line is consumed.
    pub open spec fn pos(&self) -> int {
        if self.at() < self.lines().len() {
            self.lines()[self.at()].start
        } else {
            self.total()
        }
    }

    pub open spec fn wf(&self) -> bool {
        &&& lines_wf(self.lines(), self.total())
        &&& 0 <= self.at() <= self.lines().len()
    }

    /// Split a byte stream into lines, decoding each as UTF-8.  Fails with an
    /// encoding error, carrying the offset of the first malformed line, and
    /// succeeds exactly on streams whose every line is well-formed.
    pub fn new(bytes: &[u8]) -> (r: Result<LineCursor, ParseError>)
        ensures
            r is Ok <==> encoding_check_from(bytes@, 0) is None,
            r matches Ok(c) ==> c.lines() == stream_views(bytes@) && c.at() == 0 && c.total()
                == bytes@.len() && c.wf(),
            r matches Err(e) ==> e matches ParseError::Encoding { offset } && Some(offset as int)
                == encoding_check_from(bytes@, 0),
    {
        let ghost b = bytes@;
        let n = bytes.len();
        let mut recs: Vec<LineRec> = Vec::new();
        let mut pos: usize = 0;
        while pos < n
            invariant
                n == b.len(),
                bytes@ == b,
                0 <= pos <= n,
                pos as int == if recs@.len() == 0 {
                    0int
                } else {
                    recs@[recs@.len() - 1].end as int
                },
                Self::rec_views(recs@) + line_views_from(b, pos as int) =~= stream_views(b),
                encoding_check_from(b, 0) == encoding_check_from(b, pos as int),
                forall|i: int|
                    0 <= i < recs@.len() ==> (#[trigger] recs@[i]).start < recs@[i].end <= pos,
                forall|i: int|
                    0 <= i < recs@.len() ==> (#[trigger] recs@[i]).end - recs@[i].start
                        == encode_utf8(recs@[i].text@).len(),
                forall|i: int|
                    0 < i < recs@.len() ==> (#[trigger] recs@[i]).start == recs@[i - 1].end,
                recs@.len() > 0 ==> recs@[0].start == 0,
            decreases n - pos,
        {
            let start = pos;
            let mut e = pos;
            while e < n && bytes[e] != 10u8
                invariant
                    bytes@ == b,
                    start <= e <= n == b.len(),
                    forall|k: int| start <= k < e ==> b[k] != 10u8,
                decreases n - e,
            {
                e = e + 1;
            }
            let end = if e < n {
                e + 1
            } else {
                e
            };
            proof {
                lemma_line_end_char(b, start as int, e as int);
                assert(line_end_from(b, start as int) == end as int);
                lemma_line_end_bounds(b, start as int);
            }
            let sl = slice_subrange(bytes, start, end);
            match decode_line(sl) {
                Some(t) => {
                    let text = t.to_owned();
                    proof {
                        encode_utf8_decode_utf8(text@);
                        assert(text@ == decode_utf8(b.subrange(start as int, end as int)));
                    }
                    let ghost old_recs = recs@;
                    recs.push(LineRec { text, start, end });
                    proof {
                        assert(Self::rec_views(recs@) =~= Self::rec_views(old_recs) + seq![
                            LineView {
                                text: decode_utf8(b.subrange(start as int, end as int)),
                                start: start as int,
                                end: end as int,
                            },
                        ]);
                        assert(Self::rec_views(recs@) + line_views_from(b, end as int)
                            =~= stream_views(b));
                    }
                    pos = end;
                },
                None => {
                    return Err(ParseError::Encoding { offset: start });
                },
            }
        }
        proof {
            assert(line_views_from(b, pos as int) =~= Seq::<LineView>::empty());
            assert(Self::rec_views(recs@) =~= stream_views(b));
        }
        Ok(LineCursor { lines: recs, idx: 0, total: n })
    }

    spec fn rec_views(rs: Seq<LineRec>) -> Seq<LineView> {
        rs.map_values(
            |r: LineRec| LineView { text: r.text@, start: r.start as int, end: r.end as int },
        )
    }

    /// Read the next line; `None` at the end of the stream.
    pub fn read_line(&mut self) -> (r: Option<String>)
        requires
            old(self).wf(),
        ensures
            final(self).wf(),
            final(self).lines() == old(self).lines(),
            final(self).total() == old(self).total(),
            old(self).at() < old(self).lines().len() ==> final(self).at() == old(self).at() + 1 && (
            r matches Some(t) && t@ == old(self).lines()[old(self).at()].text),
            old(self).at() >= old(self).lines().len() ==> final(self).at() == old(self).at()
                && r is None,
    {
        if self.idx < self.lines.len() {
            let t = self.lines[self.idx].text.clone();
            self.idx = self.idx + 1;
            Some(t)
        } else {
            None
        }
    }

    /// The current byte position.
    pub fn position(&self) -> (p: usize)
        requires
            self.wf(),
        ensures
            p as int == self.pos(),
    {
        if self.idx < self.lines.len() {
            self.lines[self.idx].start
        } else {
            self.total
        }
    }

    /// The stream length in bytes.
    pub fn stream_len(&self) -> (n: usize)
        ensures
            n as int == self.total(),
    {
        self.total
    }

    /// Go back to the start of the stream.
    pub fn rewind(&mut self)
        ensures
            final(self).lines() == old(self).lines(),
            final(self).total() == old(self).total(),
            final(self).at() == 0,
            old(self).wf() ==> final(self).wf(),
    {
        self.idx = 0;
    }

    /// Seek to a byte offset at which a line starts (or to the stream end);
    /// the next read returns the line found there.
    pub fn seek(&mut self, offset: usize)
        requires
            old(self).wf(),
            is_line_boundary(old(self).lines(), old(self).total(), offset as int),
        ensures
            final(self).wf(),
            final(self).lines() == old(self).lines(),
            final(self).total() == old(self).total(),
            final(self).pos() == offset as int,
    {
        let ghost ls = self.lines();
        let n = self.lines.len();
        let mut i: usize = 0;
        while i < n && self.lines[i].start < offset
            invariant
                self == old(self),
                n == ls.len(),
                ls == self.lines(),
                0 <= i <= n,
                forall|k: int| 0 <= k < i ==> (#[trigger] ls[k]).start < offset as int,
            decreases n - i,
        {
            i = i + 1;
        }
        proof {
            if i < ls.len() {
                if ls[i as int].start != offset as int {
                    assert(ls[i as int].start >= offset as int);
                    if offset as int == self.total() {
                        assert(ls[i as int].start < self.total());
                        assert(false);
                    }
                    let w = choose|w: int|
                        0 <= w < ls.len() && (#[trigger] ls[w]).start == offset as int;
                    if w < i {
                        assert(ls[w].start < offset as int);
                    } else {
                        lemma_line_order(ls, self.total(), i as int, w);
                    }
                    assert(false);
                }
            } else {
                if offset as int != self.total() {
                    let w = choose|w: int|
                        0 <= w < ls.len() && (#[trigger] ls[w]).start == offset as int;
                    assert(ls[w].start < offset as int);
                    assert(false);
                }
            }
        }
        self.idx = i;
    }
}

/// Relies on `core::str::from_utf8`: it accepts exactly the byte slices that
/// hold well-formed UTF-8, and returns them as text, bytes unchanged.
#[verifier::external_body]
fn decode_line<'a>(v: &'a [u8]) -> (r: Option<&'a str>)
    ensures
        r is Some <==> valid_utf8(v@),
        r matches Some(s) ==> s.spec_bytes() == v@,
{
    core::str::from_utf8(v).ok()
}

} // verus!
