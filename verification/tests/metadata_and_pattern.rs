use txt2epub::metadata::{parse_metadata_block, Metadata, SerMetaData};
use txt2epub::options::ParseOptions;
use txt2epub::parse::parse_txt;
use txt2epub::pattern::{Pattern, PatternError};
use txt2epub::ParseError;

fn lines(v: &[&str]) -> Vec<String> {
    v.iter().map(|s| s.to_string()).collect()
}

fn default_options() -> ParseOptions {
    ParseOptions {
        part_pattern: Pattern::new("^第.+[部|卷] (.*)$").unwrap(),
        chapter_pattern: Pattern::new("^第.+[章] (.*)$").unwrap(),
        divider: vec![],
        replace_quote: false,
        long_preface: false,
    }
}

#[test]
fn metadata_full_record() {
    let block = lines(&[
        "书名: 测试之书",
        "作者: 某人",
        "封面: http://example.invalid/cover.jpg",
        "简介:",
        "- 第一段",
        "- 第二段",
    ]);
    let meta = parse_metadata_block(&block).unwrap().unwrap();
    assert_eq!(meta.book_name, "测试之书");
    assert_eq!(meta.author, "某人");
    assert_eq!(meta.cover.as_deref(), Some("http://example.invalid/cover.jpg"));
    assert_eq!(meta.description, vec!["第一段".to_string(), "第二段".to_string()]);
}

#[test]
fn metadata_english_keys() {
    let block = lines(&["book_name: T", "author: A", "cover: c.png"]);
    let meta = parse_metadata_block(&block).unwrap().unwrap();
    assert_eq!(meta.book_name, "T");
    assert_eq!(meta.author, "A");
    assert_eq!(meta.cover.as_deref(), Some("c.png"));
}

#[test]
fn metadata_unknown_keys_ignored() {
    let block = lines(&["书名: X", "出版社: 某社", "作者: Y"]);
    let meta = parse_metadata_block(&block).unwrap().unwrap();
    assert_eq!(meta.book_name, "X");
    assert_eq!(meta.author, "Y");
}

#[test]
fn metadata_blank_block_is_none() {
    let block = lines(&["", "   ", "\u{3000}"]);
    assert_eq!(parse_metadata_block(&block).unwrap(), None);
    assert_eq!(parse_metadata_block(&Vec::new()).unwrap(), None);
}

#[test]
fn metadata_line_without_colon_is_error() {
    let block = lines(&["书名: X", "只是散文"]);
    match parse_metadata_block(&block).unwrap_err() {
        ParseError::MetadataParse { line } => assert_eq!(line, 1),
        other => panic!("expected a metadata parse error, got {:?}", other),
    }
}

#[test]
fn metadata_list_item_outside_description_is_error() {
    let block = lines(&["- 悬空的段落"]);
    match parse_metadata_block(&block).unwrap_err() {
        ParseError::MetadataParse { line } => assert_eq!(line, 0),
        other => panic!("expected a metadata parse error, got {:?}", other),
    }
}

#[test]
fn metadata_inline_description_value_is_error() {
    let block = lines(&["简介: 不是列表"]);
    assert!(parse_metadata_block(&block).is_err());
}

#[test]
fn metadata_error_aborts_document_parse() {
    let input = "散文而已\n第一章 开始\n正文\n";
    match parse_txt(input.as_bytes(), &default_options()).unwrap_err() {
        ParseError::MetadataParse { line } => assert_eq!(line, 0),
        other => panic!("expected a metadata parse error, got {:?}", other),
    }
}

#[test]
fn metadata_default_is_empty() {
    let meta = Metadata::default();
    assert_eq!(meta.book_name, "");
    assert_eq!(meta.author, "");
    assert_eq!(meta.cover, None);
    assert!(meta.description.is_empty());
}

#[test]
fn ser_metadata_drops_cover() {
    let meta = Metadata {
        book_name: "B".to_string(),
        author: "A".to_string(),
        cover: Some("c".to_string()),
        description: vec!["d".to_string()],
    };
    let ser = SerMetaData::from_metadata(meta);
    assert_eq!(ser.book_name, "B");
    assert_eq!(ser.author, "A");
    assert_eq!(ser.description, vec!["d".to_string()]);
}

#[test]
fn pattern_rejects_uncompilable() {
    assert_eq!(Pattern::new("([").unwrap_err(), PatternError::NotCompilable);
}

#[test]
fn pattern_rejects_missing_capture_group() {
    assert_eq!(
        Pattern::new("^第.+章.*$").unwrap_err(),
        PatternError::NoCaptureGroup
    );
}

#[test]
fn pattern_accepts_one_capture_group() {
    let p = Pattern::new("^第(.*)章$").unwrap();
    assert_eq!(p.captures("第五章"), Some("五".to_string()));
    assert_eq!(p.captures("尾声"), None);
    assert!(p.is_match("第五章"));
    assert!(!p.is_match("尾声"));
}

#[test]
fn pattern_capture_extracts_title_not_line() {
    let p = Pattern::new("^第.+[章] (.*)$").unwrap();
    assert_eq!(p.captures("第一章 开始"), Some("开始".to_string()));
}

#[test]
fn capture_group_absent_yields_empty_title() {
    let p = Pattern::new("^(a)?b$").unwrap();
    assert_eq!(p.captures("b"), Some(String::new()));
    assert_eq!(p.captures("ab"), Some("a".to_string()));
}

#[test]
fn metadata_values_are_trimmed() {
    let block = lines(&["  书名 :  空白环绕  "]);
    let meta = parse_metadata_block(&block).unwrap().unwrap();
    assert_eq!(meta.book_name, "空白环绕");
}
