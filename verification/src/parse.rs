//! The whole parse of one document, composed: split the byte stream into
//! lines, extract the metadata block, detect part boundaries, synthesize the
//! implicit part where none is explicit, and scan every part's chapters.
//! The result is a function of the bytes and the configuration alone, so two
//! runs over the same stream yield identical trees.

use vstd::prelude::*;

use crate::cursor::{encoding_check_from, stream_views, LineCursor};
use crate::novel::{
    meta_block, meta_end_idx, meta_end_pos, spec_scan_novel, Novel, NovelView,
};
use crate::metadata::spec_parse_metadata;
use crate::options::{CfgView, ParseOptions};
use crate::ParseError;

verus! {

/// What parsing a byte stream under a configuration yields: the document
/// tree, or the error that aborts this document.
pub open spec fn spec_parse_result(b: Seq<u8>, cfg: CfgView) -> Result<NovelView, ParseError> {
    match encoding_check_from(b, 0) {
        Some(off) => Err(ParseError::Encoding { offset: off as usize }),
        None => {
            let ls = stream_views(b);
            let total = b.len() as int;
            let idx = meta_end_idx(cfg, ls, 0);
            match spec_parse_metadata(meta_block(ls, idx)) {
                Err(line) => Err(ParseError::MetadataParse { line: line as usize }),
                Ok(meta) => {
                    let me = meta_end_pos(ls, idx, total);
                    let (ps, has) = spec_scan_novel(cfg, ls, me, total);
                    Ok(NovelView { metadata: meta, parts: ps, has_sections: has })
                },
            }
        },
    }
}

/// Parse one document: all four passes over one in-memory byte stream, as
/// `spec_parse_result` describes.  Succeeds exactly when every line is
/// well-formed UTF-8 and the metadata block is a well-formed record; the
/// stream must leave one byte of headroom in `usize` for the scanning
/// counters.
pub fn parse_txt(bytes: &[u8], options: &ParseOptions) -> (r: Result<Novel, ParseError>)
    requires
        bytes@.len() < usize::MAX,
    ensures
        r is Ok <==> spec_parse_result(bytes@, options@) is Ok,
        r matches Ok(n) ==> spec_parse_result(bytes@, options@) == Ok::<NovelView, ParseError>(
            n@,
        ),
        r matches Err(e) ==> spec_parse_result(bytes@, options@) == Err::<NovelView, ParseError>(
            e,
        ),
{
    let mut cursor = match LineCursor::new(bytes) {
        Ok(c) => c,
        Err(e) => {
            return Err(e);
        },
    };
    let mut novel = Novel::new();
    match novel.scan_metadata(&mut cursor, options) {
        Ok(()) => {},
        Err(e) => {
            return Err(e);
        },
    }
    novel.scan_parts(&mut cursor, options);
    Ok(novel)
}

} // verus!
