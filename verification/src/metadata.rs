//! The document's leading metadata block: a key/value record naming the
//! book, the author, an optional cover reference and a description list.
//! The block is the run of lines before the first part or chapter marker;
//! this module parses those lines.  Keys are recognized in both their
//! Chinese and their English spelling, unrecognized keys are ignored, and a
//! line that fits no rule of the record grammar is a metadata parse error.

use vstd::prelude::*;
use vstd::string::StrSliceExecFns;
use vstd::string::StringExecFns;

use crate::text::{str_eq, trim_spec, trim_str};
use crate::ParseError;

verus! {

/// The metadata record as mathematics: every field a sequence of characters.
#[verifier::ext_equal]
pub struct MetaView {
    pub book_name: Seq<char>,
    pub author: Seq<char>,
    pub cover: Option<Seq<char>>,
    pub description: Seq<Seq<char>>,
}

/// The record every field of which is still unset.
pub open spec fn empty_meta() -> MetaView {
    MetaView { book_name: Seq::empty(), author: Seq::empty(), cover: None, description: Seq::empty() }
}

/// First index at or after `i` holding a colon, or `t.len()`.
pub open spec fn first_colon(t: Seq<char>, i: int) -> int
    decreases t.len() - i,
{
    if i < 0 || i >= t.len() {
        t.len() as int
    } else if t[i] == ':' {
        i
    } else {
        first_colon(t, i + 1)
    }
}

/// One step of the record grammar, from the trimmed text of one line.
/// `in_desc` says whether a description list is open, so that `- item` lines
/// extend it.  The result is the new record and list state, or `Err(())` for
/// a line that fits no rule.
pub open spec fn meta_step(t: Seq<char>, acc: MetaView, in_desc: bool) -> Result<
    (MetaView, bool),
    (),
> {
    if t.len() == 0 {
        Ok((acc, in_desc))
    } else if t[0] == '-' {
        if in_desc {
            Ok(
                (
                    MetaView {
                        book_name: acc.book_name,
                        author: acc.author,
                        cover: acc.cover,
                        description: acc.description.push(
                            trim_spec(t.subrange(1, t.len() as int)),
                        ),
                    },
                    true,
                ),
            )
        } else {
            Err(())
        }
    } else {
        let c = first_colon(t, 0);
        if c == t.len() {
            Err(())
        } else {
            let key = trim_spec(t.subrange(0, c));
            let val = trim_spec(t.subrange(c + 1, t.len() as int));
            if key == "book_name"@ || key == "书名"@ {
                Ok(
                    (
                        MetaView {
                            book_name: val,
                            author: acc.author,
                            cover: acc.cover,
                            description: acc.description,
                        },
                        false,
                    ),
                )
            } else if key == "author"@ || key == "作者"@ {
                Ok(
                    (
                        MetaView {
                            book_name: acc.book_name,
                            author: val,
                            cover: acc.cover,
                            description: acc.description,
                        },
                        false,
                    ),
                )
            } else if key == "cover"@ || key == "封面"@ {
                Ok(
                    (
                        MetaView {
                            book_name: acc.book_name,
                            author: acc.author,
                            cover: Some(val),
                            description: acc.description,
                        },
                        false,
                    ),
                )
            } else if key == "description"@ || key == "简介"@ {
                if val.len() == 0 {
                    Ok(
                        (
                            MetaView {
                                book_name: acc.book_name,
                                author: acc.author,
                                cover: acc.cover,
                                description: Seq::empty(),
                            },
                            true,
                        ),
                    )
                } else {
                    Err(())
                }
            } else {
                Ok((acc, false))
            }
        }
    }
}

/// Fold of `meta_step` over the block's lines from index `i` on; an error
/// carries the index of the offending line.
pub open spec fn meta_scan(lines: Seq<Seq<char>>, i: int, acc: MetaView, in_desc: bool) -> Result<
    MetaView,
    int,
>
    decreases lines.len() - i,
{
    if i < 0 || i >= lines.len() {
        Ok(acc)
    } else {
        match meta_step(trim_spec(lines[i]), acc, in_desc) {
            Ok((acc2, d2)) => meta_scan(lines, i + 1, acc2, d2),
            Err(()) => Err(i),
        }
    }
}

/// A block of nothing but blank lines carries no record at all.
pub open spec fn blank_block(lines: Seq<Seq<char>>) -> bool {
    forall|i: int| 0 <= i < lines.len() ==> trim_spec(#[trigger] lines[i]).len() == 0
}

/// What parsing a metadata block yields: no record for an all-blank block, a
/// record for a well-formed one, and the offending line's index otherwise.
pub open spec fn spec_parse_metadata(lines: Seq<Seq<char>>) -> Result<Option<MetaView>, int> {
    if blank_block(lines) {
        Ok(None)
    } else {
        match meta_scan(lines, 0, empty_meta(), false) {
            Ok(m) => Ok(Some(m)),
            Err(i) => Err(i),
        }
    }
}

/// The parsed metadata record, owned by the document.
#[derive(Debug, PartialEq, Eq)]
pub struct Metadata {
    pub book_name: String,
    pub author: String,
    pub cover: Option<String>,
    pub description: Vec<String>,
}

impl View for Metadata {
    type V = MetaView;

    open spec fn view(&self) -> MetaView {
        MetaView {
            book_name: self.book_name@,
            author: self.author@,
            cover: match self.cover {
                Some(c) => Some(c@),
                None => None,
            },
            description: self.description.deep_view(),
        }
    }
}

impl Default for Metadata {
    /// The record with every field unset.
    fn default() -> (r: Metadata)
        ensures
            r@ == empty_meta(),
    {
        let r = Metadata {
            book_name: String::new(),
            author: String::new(),
            cover: None,
            description: Vec::new(),
        };
        proof {
            assert(r@ =~= empty_meta());
        }
        r
    }
}

/// The serializable projection of the metadata: what the renderer consumes.
/// The cover reference is dropped; it is fetched separately.
#[derive(Debug, PartialEq, Eq)]
pub struct SerMetaData {
    pub book_name: String,
    pub author: String,
    pub description: Vec<String>,
}

impl SerMetaData {
    /// Project a metadata record for rendering, dropping the cover field.
    pub fn from_metadata(value: Metadata) -> (r: SerMetaData)
        ensures
            r.book_name@ == value@.book_name,
            r.author@ == value@.author,
            r.description.deep_view() == value@.description,
    {
        let Metadata { book_name, author, description, .. } = value;
        SerMetaData { book_name, author, description }
    }
}

proof fn lemma_first_colon_at(t: Seq<char>, i: int, j: int)
    requires
        0 <= i <= j <= t.len(),
        forall|k: int| i <= k < j ==> t[k] != ':',
        j == t.len() || t[j] == ':',
    ensures
        first_colon(t, i) == j,
    decreases j - i,
{
    if i < j {
        lemma_first_colon_at(t, i + 1, j);
    }
}

/// Find the first colon of a trimmed line, as `first_colon` describes.
fn find_colon(t: &str) -> (c: usize)
    ensures
        c as int == first_colon(t@, 0),
        c <= t@.len(),
{
    let n = t.unicode_len();
    let mut c: usize = 0;
    while c < n && t.get_char(c) != ':'
        invariant
            0 <= c <= n == t@.len(),
            forall|k: int| 0 <= k < c ==> t@[k] != ':',
        decreases n - c,
    {
        c = c + 1;
    }
    proof {
        lemma_first_colon_at(t@, 0, c as int);
    }
    c
}

/// Parse the metadata block, line by line, as `spec_parse_metadata`
/// describes: `Ok(None)` for an all-blank block, the record for a
/// well-formed one, and a `MetadataParse` error naming the first offending
/// line otherwise.
pub fn parse_metadata_block(block: &Vec<String>) -> (r: Result<Option<Metadata>, ParseError>)
    ensures
        r is Ok <==> spec_parse_metadata(block.deep_view()) is Ok,
        r matches Ok(None) ==> spec_parse_metadata(block.deep_view()) == Ok::<
            Option<MetaView>,
            int,
        >(None),
        r matches Ok(Some(m)) ==> spec_parse_metadata(block.deep_view()) == Ok::<
            Option<MetaView>,
            int,
        >(Some(m@)),
        r matches Err(e) ==> e matches ParseError::MetadataParse { line } && spec_parse_metadata(
            block.deep_view(),
        ) == Err::<Option<MetaView>, int>(line as int),
    {
        let ghost ls = block.deep_view();
        let mut book_name = String::new();
        let mut author = String::new();
        let mut cover: Option<String> = None;
        let mut description: Vec<String> = Vec::new();
        let mut in_desc = false;
        let mut seen_nonblank = false;
        let mut i: usize = 0;
        proof {
            assert(description.deep_view() =~= Seq::<Seq<char>>::empty());
        }
        while i < block.len()
            invariant
                ls == block.deep_view(),
                0 <= i <= block@.len() == ls.len(),
                seen_nonblank == !(forall|k: int|
                    0 <= k < i ==> trim_spec(#[trigger] ls[k]).len() == 0),
                meta_scan(ls, 0, empty_meta(), false) == meta_scan(
                    ls,
                    i as int,
                    MetaView {
                        book_name: book_name@,
                        author: author@,
                        cover: match &cover {
                            Some(c) => Some(c@),
                            None => None,
                        },
                        description: description.deep_view(),
                    },
                    in_desc,
                ),
            decreases block@.len() - i,
        {
            let ghost acc_in = MetaView {
                book_name: book_name@,
                author: author@,
                cover: match &cover {
                    Some(c) => Some(c@),
                    None => None,
                },
                description: description.deep_view(),
            };
            let ghost d_in = in_desc;
            let line: &String = &block[i];
            assert(line@ == ls[i as int]);
            let t = trim_str(line.as_str());
            let n = t.unicode_len();
            if n == 0 {
                // blank: contributes to nothing
            } else {
                seen_nonblank = true;
                if t.get_char(0) == '-' {
                    if in_desc {
                        let item = trim_str(t.substring_char(1, n));
                        description.push(item.to_owned());
                        proof {
                            assert(description.deep_view() =~= acc_in.description.push(item@));
                        }
                    } else {
                        proof {
                            assert(!blank_block(ls)) by {
                                assert(trim_spec(ls[i as int]).len() != 0);
                            }
                            assert(meta_scan(ls, i as int, acc_in, d_in) == Err::<MetaView, int>(
                                i as int,
                            ));
                        }
                        return Err(ParseError::MetadataParse { line: i });
                    }
                } else {
                    let c = find_colon(t);
                    if c == n {
                        proof {
                            assert(!blank_block(ls)) by {
                                assert(trim_spec(ls[i as int]).len() != 0);
                            }
                            assert(meta_scan(ls, i as int, acc_in, d_in) == Err::<MetaView, int>(
                                i as int,
                            ));
                        }
                        return Err(ParseError::MetadataParse { line: i });
                    }
                    let key = trim_str(t.substring_char(0, c));
                    let val = trim_str(t.substring_char(c + 1, n));
                    if str_eq(key, "book_name") || str_eq(key, "书名") {
                        book_name = val.to_owned();
                        in_desc = false;
                    } else if str_eq(key, "author") || str_eq(key, "作者") {
                        author = val.to_owned();
                        in_desc = false;
                    } else if str_eq(key, "cover") || str_eq(key, "封面") {
                        cover = Some(val.to_owned());
                        in_desc = false;
                    } else if str_eq(key, "description") || str_eq(key, "简介") {
                        if val.unicode_len() == 0 {
                            description = Vec::new();
                            in_desc = true;
                            proof {
                                assert(description.deep_view() =~= Seq::<Seq<char>>::empty());
                            }
                        } else {
                            proof {
                                assert(!blank_block(ls)) by {
                                    assert(trim_spec(ls[i as int]).len() != 0);
                                }
                                assert(meta_scan(ls, i as int, acc_in, d_in) == Err::<
                                    MetaView,
                                    int,
                                >(i as int));
                            }
                            return Err(ParseError::MetadataParse { line: i });
                        }
                    } else {
                        in_desc = false;
                    }
                }
            }
            i = i + 1;
        }
        if seen_nonblank {
            Ok(
                Some(
                    Metadata { book_name, author, cover, description },
                ),
            )
        } else {
            Ok(None)
        }
    }

} // verus!
