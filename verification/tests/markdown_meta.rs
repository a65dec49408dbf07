use terb::markdown::{date_from_events, extract_date, extract_title, generate_html, title_from_events, MdEvent};

#[test]
fn title_is_first_text() {
    assert_eq!(extract_title("# Hello\n\n## 2024-01-01\n\nBody"), "Hello");
    assert_eq!(extract_title("Just a paragraph\n\n# Later"), "Just a paragraph");
    assert_eq!(extract_title(""), "Untitled");
    assert_eq!(extract_title("---\n"), "Untitled");
}

#[test]
fn title_uses_the_parser_not_the_raw_text() {
    // emphasis markers are not part of the text
    assert_eq!(extract_title("# *Big* news"), "Big");
}

#[test]
fn date_is_text_of_first_second_level_heading() {
    assert_eq!(extract_date("# Hello\n\n## 2024-01-01\n\nBody"), "2024-01-01");
    assert_eq!(extract_date("# Hello\n\nBody"), "Untitled");
    assert_eq!(extract_date("## \n\n## second\n"), "Untitled");
    assert_eq!(extract_date("## first\n\n## second\n"), "first");
    assert_eq!(extract_date("## \n\nafter"), "after");
}

#[test]
fn title_from_event_list() {
    let ev = vec![MdEvent::Other, MdEvent::HeadingStart(1), MdEvent::Text("T".to_string())];
    assert_eq!(title_from_events(&ev), "T");
    let ev = vec![MdEvent::Text(String::new()), MdEvent::Text("later".to_string())];
    assert_eq!(title_from_events(&ev), "Untitled");
    assert_eq!(title_from_events(&vec![]), "Untitled");
}

#[test]
fn date_from_event_list() {
    let ev = vec![
        MdEvent::Text("a".to_string()),
        MdEvent::HeadingStart(2),
        MdEvent::Other,
        MdEvent::Text("d".to_string()),
    ];
    assert_eq!(date_from_events(&ev), "d");
    let ev = vec![MdEvent::HeadingStart(2), MdEvent::HeadingStart(2), MdEvent::Text("x".to_string())];
    assert_eq!(date_from_events(&ev), "Untitled");
    let ev = vec![MdEvent::HeadingStart(3), MdEvent::Text("x".to_string())];
    assert_eq!(date_from_events(&ev), "Untitled");
    let ev = vec![MdEvent::HeadingStart(2), MdEvent::HeadingStart(3), MdEvent::Text("x".to_string())];
    assert_eq!(date_from_events(&ev), "x");
}

#[test]
fn html_uses_post_extensions() {
    assert_eq!(generate_html("# Hi\n"), "<h1>Hi</h1>\n");
    assert!(generate_html("~~gone~~").contains("<del>gone</del>"));
    assert!(generate_html("| a | b |\n|---|---|\n| 1 | 2 |\n").contains("<table>"));
    assert!(generate_html("- [x] done\n").contains("checkbox"));
    assert!(generate_html("\"quoted\"").contains('\u{201c}'));
    assert!(generate_html("# T {#anchor}\n").contains("id=\"anchor\""));
}
