use terb::posts::{post_entry, post_output_file, sort_entries, PostEntry};

fn entry(date: &str, title: &str) -> PostEntry {
    PostEntry { date: date.to_string(), title: title.to_string(), path: title.to_lowercase() }
}

#[test]
fn newest_first_and_stable() {
    let sorted = sort_entries(vec![
        entry("2023-01-01", "A"),
        entry("2024-05-01", "B"),
        entry("2023-01-01", "C"),
        entry("2022-12-31", "D"),
        entry("2024-05-01", "E"),
    ]);
    let titles: Vec<&str> = sorted.iter().map(|e| e.title.as_str()).collect();
    assert_eq!(titles, vec!["B", "E", "A", "C", "D"]);
}

#[test]
fn sort_matches_std_sort_by() {
    let dates = ["b", "a", "c", "a", "", "ab", "b", "Untitled", "2024"];
    let input: Vec<PostEntry> = dates.iter().enumerate().map(|(i, d)| entry(d, &i.to_string())).collect();
    let mut expected: Vec<(String, String)> = input.iter().map(|e| (e.date.clone(), e.title.clone())).collect();
    expected.sort_by(|a, b| b.0.cmp(&a.0));
    let got: Vec<(String, String)> = sort_entries(input).into_iter().map(|e| (e.date, e.title)).collect();
    assert_eq!(got, expected);
}

#[test]
fn sort_of_empty_list() {
    assert!(sort_entries(Vec::new()).is_empty());
}

#[test]
fn entry_of_a_post() {
    let e = post_entry("hello.md", "# Hello\n\n## 2024-02-03\n\ntext");
    assert_eq!(e.title, "Hello");
    assert_eq!(e.date, "2024-02-03");
    assert_eq!(e.path, "hello");
}

#[test]
fn output_file_of_a_post() {
    assert_eq!(post_output_file("hello.md"), "out/posts/hello.html");
    assert_eq!(post_output_file("notes"), "out/posts/notes.html");
    assert_eq!(post_output_file("a.b.md"), "out/posts/a.b.html");
}
