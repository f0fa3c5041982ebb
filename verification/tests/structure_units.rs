use txt2epub::chapter::{Chapter, Line, LineType};
use txt2epub::cursor::LineCursor;
use txt2epub::novel::Novel;
use txt2epub::novel_options::NovelOptions;
use txt2epub::part::{is_divider, Part};
use txt2epub::text::{str_eq, trim_str};
use txt2epub::ParseError;

#[test]
fn cursor_reads_lines_with_byte_positions() {
    let mut cursor = LineCursor::new("ab\ncd\nef".as_bytes()).unwrap();
    assert_eq!(cursor.position(), 0);
    assert_eq!(cursor.read_line().as_deref(), Some("ab\n"));
    assert_eq!(cursor.position(), 3);
    assert_eq!(cursor.read_line().as_deref(), Some("cd\n"));
    assert_eq!(cursor.position(), 6);
    assert_eq!(cursor.read_line().as_deref(), Some("ef"));
    assert_eq!(cursor.position(), 8);
    assert_eq!(cursor.read_line(), None);
    assert_eq!(cursor.position(), 8);
    cursor.rewind();
    assert_eq!(cursor.position(), 0);
    cursor.seek(3);
    assert_eq!(cursor.position(), 3);
    assert_eq!(cursor.read_line().as_deref(), Some("cd\n"));
    assert_eq!(cursor.stream_len(), 8);
}

#[test]
fn cursor_rejects_malformed_text() {
    let err = LineCursor::new(&[0x61, 0x0A, 0xC3, 0x28, 0x0A]).unwrap_err();
    assert_eq!(err, ParseError::Encoding { offset: 2 });
}

#[test]
fn trim_removes_unicode_whitespace() {
    assert_eq!(trim_str("  你好  "), "你好");
    assert_eq!(trim_str("\u{3000}全角\u{3000}"), "全角");
    assert_eq!(trim_str("a b"), "a b");
    assert_eq!(trim_str(" \t\r\n"), "");
    assert_eq!(trim_str(""), "");
}

#[test]
fn str_eq_is_exact() {
    assert!(str_eq("第1章", "第1章"));
    assert!(!str_eq("第1章", "第2章"));
    assert!(!str_eq("abc", "abcd"));
    assert!(str_eq("", ""));
}

#[test]
fn is_divider_is_exact_equality() {
    assert!(is_divider("---", "---"));
    assert!(!is_divider("---", "--"));
    assert!(!is_divider("--x", "---"));
}

#[test]
fn options_string_recognition() {
    assert!(NovelOptions::is_options_string("[LongPreface]"));
    assert!(NovelOptions::is_options_string("  [LongPreface]  "));
    assert!(!NovelOptions::is_options_string("[Unknown]"));
    assert!(!NovelOptions::is_options_string("正文"));
    assert_eq!(NovelOptions::of_str("[LongPreface]"), NovelOptions::LongPreface);
    assert_eq!(NovelOptions::of_str("x"), NovelOptions::Unknown);
    assert_eq!(NovelOptions::LongPreface.token_str(), "[LongPreface]");
}

#[test]
fn default_options_start_off() {
    assert_eq!(
        NovelOptions::default_options(),
        vec![(NovelOptions::LongPreface, false)]
    );
}

#[test]
fn chapter_new_starts_empty() {
    let c = Chapter::new(3, 2, 1, "题".to_string(), "第二章 题\n".to_string(), 40);
    assert_eq!(c.id, 3);
    assert_eq!(c.no, 2);
    assert_eq!(c.part_no, 1);
    assert_eq!(c.title, "题");
    assert_eq!(c.raw_title, "第二章 题\n");
    assert!(c.content.is_empty());
    assert_eq!(c.start, 40);
    assert_eq!(c.end, 0);
}

#[test]
fn part_bookkeeping_methods() {
    let mut p = Part::new(1, "卷".to_string(), "第一卷 卷\n".to_string(), 10);
    assert_eq!(p.current_chapter_no, 1);
    assert!(p.chapters.is_empty());
    assert!(p.preface.is_empty());

    // closing with no chapter open does nothing
    p.patch_current_end(99);
    assert!(p.chapters.is_empty());

    p.chapters.push(Chapter::new(1, 1, 1, "一".to_string(), "第一章 一\n".to_string(), 20));
    p.current_chapter_no = 2;
    p.current_chapter_mut().content.push(Line {
        line_type: LineType::Line,
        content: "正文".to_string(),
    });
    p.patch_current_end(30);
    assert_eq!(p.chapters[0].end, 30);
    assert_eq!(p.chapters[0].content.len(), 1);

    p.set_option(NovelOptions::LongPreface);
    assert!(p.has_option(NovelOptions::LongPreface));

    let (ser, chapters) = p.into_serialized();
    assert_eq!(ser.no, 1);
    assert_eq!(ser.title, "卷");
    assert!(ser.is_long_preface);
    assert_eq!(chapters.len(), 1);
}

#[test]
fn novel_new_is_empty() {
    let n = Novel::new();
    assert!(n.parts.is_empty());
    assert!(n.metadata.is_none());
    assert!(n.has_sections);
}
