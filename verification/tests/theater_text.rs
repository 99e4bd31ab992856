use piney::theater::{
    clamp_page_params, parse_theater_txt, render_theaters_txt, split_lines, total_pages,
    ParsedTheater,
};

fn theater(title: &str, category: &str, desc: &str, content: &str) -> ParsedTheater {
    ParsedTheater {
        title: title.to_string(),
        category: category.to_string(),
        desc: desc.to_string(),
        content: content.to_string(),
    }
}

fn fields(p: &ParsedTheater) -> (String, String, String, String) {
    (p.title.clone(), p.category.clone(), p.desc.clone(), p.content.clone())
}

#[test]
fn lines_split_on_all_break_kinds() {
    assert_eq!(split_lines(&"a\nb".to_string()), vec!["a", "b"]);
    assert_eq!(split_lines(&"a\r\nb\rc".to_string()), vec!["a", "b", "c"]);
    assert_eq!(split_lines(&"a\n".to_string()), vec!["a"]);
    assert_eq!(split_lines(&"a\n\nb".to_string()), vec!["a", "", "b"]);
    assert_eq!(split_lines(&"".to_string()), Vec::<String>::new());
}

#[test]
fn marked_sections_parse_with_their_metadata() {
    let text = "### Title\n\
                Title: First\n\
                Category: Drama\n\
                Desc: A short one\n\
                \n\
                line one\n\
                line two\n\
                \n\
                ### Title\n\
                Title: Second\n\
                \n\
                content only\n";
    let parsed = parse_theater_txt(&text.to_string());
    assert_eq!(parsed.len(), 2);
    assert_eq!(
        fields(&parsed[0]),
        (
            "First".to_string(),
            "Drama".to_string(),
            "A short one".to_string(),
            "line one\nline two".to_string()
        )
    );
    assert_eq!(
        fields(&parsed[1]),
        (
            "Second".to_string(),
            "未分类".to_string(),
            "content only".to_string(),
            "content only".to_string()
        )
    );
}

#[test]
fn unmarked_text_parses_as_one_section() {
    let text = "Title: Solo\n\nBody text";
    let parsed = parse_theater_txt(&text.to_string());
    assert_eq!(parsed.len(), 1);
    assert_eq!(
        fields(&parsed[0]),
        (
            "Solo".to_string(),
            "未分类".to_string(),
            "Body text".to_string(),
            "Body text".to_string()
        )
    );
}

#[test]
fn metadata_labels_are_case_insensitive() {
    let text = "tItLe: X\n\ncontent";
    let parsed = parse_theater_txt(&text.to_string());
    assert_eq!(parsed.len(), 1);
    assert_eq!(parsed[0].title, "X");
}

#[test]
fn titleless_or_empty_sections_are_dropped() {
    assert!(parse_theater_txt(&"just some prose".to_string()).is_empty());
    assert!(parse_theater_txt(&"Title: Named\n\n\n".to_string()).is_empty());
    let mixed = "### Title\nTitle: Good\n\nbody\n### Title\nTitle: Empty\n\n\n";
    let parsed = parse_theater_txt(&mixed.to_string());
    assert_eq!(parsed.len(), 1);
    assert_eq!(parsed[0].title, "Good");
}

#[test]
fn crlf_texts_parse_like_lf_texts() {
    let text = "Title: A\r\n\r\nB\r\nC";
    let parsed = parse_theater_txt(&text.to_string());
    assert_eq!(parsed.len(), 1);
    assert_eq!(parsed[0].content, "B\nC");
}

#[test]
fn long_content_gives_the_first_twenty_characters_as_summary() {
    let body = "abcdefghijklmnopqrstuvwxyz";
    let text = format!("Title: L\n\n{body}");
    let parsed = parse_theater_txt(&text.to_string());
    assert_eq!(parsed.len(), 1);
    assert_eq!(parsed[0].desc, "abcdefghijklmnopqrst");
}

#[test]
fn rendering_matches_the_export_layout() {
    let items = vec![
        theater("First", "Drama", "A short one", "line one\nline two"),
        theater("Second", "未分类", "d2", "content only"),
    ];
    let rendered = render_theaters_txt(&items);
    let expected = "### Title\nTitle: First\nCategory: Drama\nDesc: A short one\n\n\
                    line one\nline two\n\
                    \n### Title\nTitle: Second\nCategory: 未分类\nDesc: d2\n\ncontent only\n";
    assert_eq!(rendered, expected);
}

#[test]
fn rendered_theaters_parse_back() {
    let items = vec![
        theater("First", "Drama", "A short one", "line one\nline two"),
        theater("Second", "Slice", "d2", "content only"),
    ];
    let rendered = render_theaters_txt(&items);
    let parsed = parse_theater_txt(&rendered);
    assert_eq!(parsed.len(), items.len());
    for (p, want) in parsed.iter().zip(items.iter()) {
        assert_eq!(fields(p), fields(want));
    }
}

#[test]
fn paging_defaults_and_bounds_are_applied() {
    let p = clamp_page_params(None, None);
    assert_eq!((p.page, p.page_size, p.offset), (1, 50, 0));
    let p = clamp_page_params(Some(0), Some(500));
    assert_eq!((p.page, p.page_size, p.offset), (1, 100, 0));
    let p = clamp_page_params(Some(3), Some(20));
    assert_eq!((p.page, p.page_size, p.offset), (3, 20, 40));
    assert_eq!(total_pages(0, 50), 0);
    assert_eq!(total_pages(100, 50), 2);
    assert_eq!(total_pages(101, 50), 3);
    assert_eq!(total_pages(1, 50), 1);
}
