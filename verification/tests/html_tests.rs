use pebble::html::extract_header_and_description_from_html;

#[test]
fn test_header_and_bold_paragraph() {
    let html = r#"
            <h1>Title</h1>
            <p><strong>Description</strong></p>
        "#
    .trim();

    let (title, bold_paragraph) = extract_header_and_description_from_html(html);

    assert_eq!(title, Some("Title".to_string()));
    assert_eq!(bold_paragraph, Some("Description".to_string()));
}

#[test]
fn test_header_and_normal_paragraph() {
    let html = r#"
            <h1>Title</h1>
            <p>Description</p>
            <p>Content</p>
        "#
    .trim();

    let (title, bold_paragraph) = extract_header_and_description_from_html(html);

    assert_eq!(title, Some("Title".to_string()));
    assert_eq!(bold_paragraph, None);
}

#[test]
fn test_header_without_adjacent_bold_paragraph() {
    let html = r#"
            <h1 class="header">Title</h1>
            <p>Content</p>
            <p><strong>Description</strong></p>
        "#
    .trim();

    let (title, bold_paragraph) = extract_header_and_description_from_html(html);

    assert_eq!(title, Some("Title".to_string()));
    assert_eq!(bold_paragraph, None);
}

#[test]
fn test_only_header() {
    let html = r#"
            <h1>Title</h1>
        "#
    .trim();

    let (title, bold_paragraph) = extract_header_and_description_from_html(html);

    assert_eq!(title, Some("Title".to_string()));
    assert_eq!(bold_paragraph, None);
}

#[test]
fn test_only_bold_paragraph() {
    let html = r#"
            <p><strong>Bold Description</strong></p>
        "#
    .trim();

    let (title, bold_paragraph) = extract_header_and_description_from_html(html);

    assert_eq!(title, None);
    assert_eq!(bold_paragraph, None);
}

#[test]
fn test_header_not_at_the_start() {
    let html = r#"
            <p>Content</p>
            <h2>Title</h2>
            <p><strong>Description</strong></p>
        "#
    .trim();

    let (title, bold_paragraph) = extract_header_and_description_from_html(html);

    assert_eq!(title, Some("Title".to_string()));
    assert_eq!(bold_paragraph, Some("Description".to_string()));
}
