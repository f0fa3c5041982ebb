use txt2epub::chapter::LineType;
use txt2epub::novel_options::NovelOptions;
use txt2epub::options::ParseOptions;
use txt2epub::parse::parse_txt;
use txt2epub::pattern::Pattern;
use txt2epub::ParseError;

fn default_options() -> ParseOptions {
    ParseOptions {
        part_pattern: Pattern::new("^第.+[部|卷] (.*)$").unwrap(),
        chapter_pattern: Pattern::new("^第.+[章] (.*)$").unwrap(),
        divider: vec![],
        replace_quote: false,
        long_preface: false,
    }
}

fn options_with_divider(d: &str) -> ParseOptions {
    let mut o = default_options();
    o.divider = vec![d.to_string()];
    o
}

#[test]
fn scenario_metadata_part_chapter() {
    let input = "书名: X\n作者: Y\n第一卷 起\n第一章 开始\n正文\n";
    let novel = parse_txt(input.as_bytes(), &default_options()).unwrap();

    let meta = novel.metadata.as_ref().unwrap();
    assert_eq!(meta.book_name, "X");
    assert_eq!(meta.author, "Y");
    assert_eq!(meta.cover, None);
    assert!(meta.description.is_empty());

    assert!(novel.has_sections);
    assert_eq!(novel.parts.len(), 1);
    let part = &novel.parts[0];
    assert_eq!(part.no, 1);
    assert_eq!(part.title, "起");
    assert_eq!(part.chapters.len(), 1);
    let chapter = &part.chapters[0];
    assert_eq!(chapter.id, 1);
    assert_eq!(chapter.no, 1);
    assert_eq!(chapter.title, "开始");
    assert_eq!(chapter.content.len(), 1);
    assert_eq!(chapter.content[0].content, "正文");
    assert_eq!(chapter.content[0].line_type, LineType::Line);
}

#[test]
fn scenario_no_part_marker() {
    let input = "第一章 开始\n正文\n";
    let novel = parse_txt(input.as_bytes(), &default_options()).unwrap();

    assert!(novel.metadata.is_none());
    assert!(!novel.has_sections);
    assert_eq!(novel.parts.len(), 1);
    let part = &novel.parts[0];
    assert_eq!(part.no, 0);
    assert_eq!(part.title, "");
    assert_eq!(part.chapters.len(), 1);
    assert_eq!(part.chapters[0].id, 1);
    assert_eq!(part.chapters[0].no, 1);
}

#[test]
fn scenario_divider_line() {
    let input = "第一章 开始\n上半\n---\n下半\n";
    let novel = parse_txt(input.as_bytes(), &options_with_divider("---")).unwrap();

    let content = &novel.parts[0].chapters[0].content;
    assert_eq!(content.len(), 3);
    assert_eq!(content[0].line_type, LineType::Line);
    assert_eq!(content[1].line_type, LineType::Divider);
    assert_eq!(content[1].content, "---");
    assert_eq!(content[2].line_type, LineType::Line);
}

#[test]
fn divider_one_char_off_is_content() {
    let input = "第一章 开始\n----\n--x\n";
    let novel = parse_txt(input.as_bytes(), &options_with_divider("---")).unwrap();

    let content = &novel.parts[0].chapters[0].content;
    assert_eq!(content.len(), 2);
    assert_eq!(content[0].line_type, LineType::Line);
    assert_eq!(content[1].line_type, LineType::Line);
}

#[test]
fn scenario_long_preface_directive() {
    let input = "第一卷 起\n[LongPreface]\n序言一行\n第一章 开始\n正文\n";
    let novel = parse_txt(input.as_bytes(), &default_options()).unwrap();

    assert_eq!(novel.parts.len(), 1);
    let part = novel.parts.into_iter().next().unwrap();
    assert_eq!(part.preface, vec!["序言一行".to_string()]);
    assert!(part.has_option(NovelOptions::LongPreface));
    let (ser, chapters) = part.into_serialized();
    assert!(ser.is_long_preface);
    assert_eq!(ser.no, 1);
    assert_eq!(ser.title, "起");
    assert_eq!(chapters.len(), 1);
    for c in &chapters[0].content {
        assert_ne!(c.content, "[LongPreface]");
    }
}

#[test]
fn directive_never_in_content() {
    let input = "第一卷 起\n第一章 开始\n正文\n[LongPreface]\n又一行\n";
    let novel = parse_txt(input.as_bytes(), &default_options()).unwrap();

    let part = &novel.parts[0];
    assert!(part.has_option(NovelOptions::LongPreface));
    let content = &part.chapters[0].content;
    assert_eq!(content.len(), 2);
    for c in content {
        assert_ne!(c.content, "[LongPreface]");
    }
}

#[test]
fn global_and_local_numbering() {
    let input = "第一卷 甲\n第一章 一\nA\n第二章 二\nB\n第二卷 乙\n第一章 三\nC\n";
    let novel = parse_txt(input.as_bytes(), &default_options()).unwrap();

    assert_eq!(novel.parts.len(), 2);
    let p1 = &novel.parts[0];
    let p2 = &novel.parts[1];
    assert_eq!(p1.no, 1);
    assert_eq!(p2.no, 2);
    assert_eq!(p1.chapters.len(), 2);
    assert_eq!(p2.chapters.len(), 1);
    // global numbers strictly increase 1..K across parts
    assert_eq!(p1.chapters[0].id, 1);
    assert_eq!(p1.chapters[1].id, 2);
    assert_eq!(p2.chapters[0].id, 3);
    // part-local numbers restart at 1 in each part
    assert_eq!(p1.chapters[0].no, 1);
    assert_eq!(p1.chapters[1].no, 2);
    assert_eq!(p2.chapters[0].no, 1);
}

#[test]
fn parse_twice_yields_identical_trees() {
    let input = "书名: X\n第一卷 甲\n引言\n第一章 一\nA\n---\nB\n第二章 二\nC\n";
    let options = options_with_divider("---");
    let first = parse_txt(input.as_bytes(), &options).unwrap();
    let second = parse_txt(input.as_bytes(), &options).unwrap();
    assert_eq!(first, second);
}

#[test]
fn byte_ranges_of_parts_and_chapters() {
    let input = "书名: X\n作者: Y\n第一卷 起\n第一章 开始\n正文\n";
    let novel = parse_txt(input.as_bytes(), &default_options()).unwrap();

    // metadata lines: 10 + 10 bytes; part marker line: 14; chapter marker: 17
    let part = &novel.parts[0];
    assert_eq!(part.start, 34);
    assert_eq!(part.end, 58);
    let chapter = &part.chapters[0];
    assert_eq!(chapter.start, 51);
    assert_eq!(chapter.end, 58);
}

#[test]
fn encoding_error_carries_offset() {
    let mut bytes = "第一章 好\n".as_bytes().to_vec();
    bytes.push(0xFF);
    let err = parse_txt(&bytes, &default_options()).unwrap_err();
    match err {
        ParseError::Encoding { offset } => assert_eq!(offset, 14),
        other => panic!("expected an encoding error, got {:?}", other),
    }
}

#[test]
fn forced_long_preface_flag() {
    let input = "第一卷 起\n第一章 开始\n正文\n";
    let mut options = default_options();
    options.long_preface = true;
    let novel = parse_txt(input.as_bytes(), &options).unwrap();
    assert!(novel.parts[0].has_option(NovelOptions::LongPreface));
}

#[test]
fn preface_collects_lines_before_first_chapter() {
    let input = "第一卷 起\n引言甲\n\n引言乙\n第一章 开始\n正文\n";
    let novel = parse_txt(input.as_bytes(), &default_options()).unwrap();
    assert_eq!(
        novel.parts[0].preface,
        vec!["引言甲".to_string(), "引言乙".to_string()]
    );
}

#[test]
fn part_pattern_takes_precedence_over_chapter() {
    // the loose chapter pattern matches the part marker line too; the part
    // pattern must win during the boundary pass
    let options = ParseOptions {
        part_pattern: Pattern::new("^第.+[卷] (.*)$").unwrap(),
        chapter_pattern: Pattern::new("^第.+ (.*)$").unwrap(),
        divider: vec![],
        replace_quote: false,
        long_preface: false,
    };
    let input = "第一卷 起\n第一章 开始\n正文\n";
    let novel = parse_txt(input.as_bytes(), &options).unwrap();
    assert!(novel.has_sections);
    assert_eq!(novel.parts.len(), 1);
    assert_eq!(novel.parts[0].title, "起");
    assert_eq!(novel.parts[0].chapters.len(), 1);
    assert_eq!(novel.parts[0].chapters[0].title, "开始");
}

#[test]
fn metadata_block_ends_at_first_marker() {
    let input = "书名: X\n第一章 开始\n作者: Y\n";
    let novel = parse_txt(input.as_bytes(), &default_options()).unwrap();
    let meta = novel.metadata.as_ref().unwrap();
    assert_eq!(meta.book_name, "X");
    assert_eq!(meta.author, "");
    let content = &novel.parts[0].chapters[0].content;
    assert_eq!(content.len(), 1);
    assert_eq!(content[0].content, "作者: Y");
}

#[test]
fn empty_input_parses_to_empty_tree() {
    let novel = parse_txt(b"", &default_options()).unwrap();
    assert!(novel.metadata.is_none());
    assert!(!novel.has_sections);
    assert_eq!(novel.parts.len(), 1);
    assert_eq!(novel.parts[0].no, 0);
    assert!(novel.parts[0].chapters.is_empty());
    assert!(novel.parts[0].preface.is_empty());
}

#[test]
fn document_without_any_marker_is_all_metadata() {
    // with no marker the whole stream is the metadata block, and the one
    // synthetic part spans nothing
    let input = "书名: X\n作者: Y\n";
    let novel = parse_txt(input.as_bytes(), &default_options()).unwrap();
    assert_eq!(novel.metadata.as_ref().unwrap().book_name, "X");
    assert!(!novel.has_sections);
    assert_eq!(novel.parts.len(), 1);
    assert!(novel.parts[0].chapters.is_empty());
}
