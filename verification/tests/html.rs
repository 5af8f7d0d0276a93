use importer_rebike::html::{filter_out_tags, get_li_items};

#[test]
fn extract_li() {
    let html_string = r#"<li>First Item</li>"#;
    let result = get_li_items(&html_string).unwrap();
    let mut iterator = result.iter();

    assert_eq!(iterator.next(), Some(&"First Item".to_string()));
}

#[test]
fn extract_multiple_li() {
    let html_string = r#"<li>First Item</li><li>Second Item</li><li>Third Item</li>"#;
    let result = get_li_items(&html_string).unwrap();
    let mut iterator = result.iter();

    assert_eq!(iterator.next(), Some(&"First Item".to_string()));
    assert_eq!(iterator.next(), Some(&"Second Item".to_string()));
    assert_eq!(iterator.next(), Some(&"Third Item".to_string()));
}

#[test]
fn li_items_are_trimmed() {
    let result = get_li_items("<ul><li>  Spaced \t</li>\n<li></li></ul>").unwrap();
    assert_eq!(result, vec!["Spaced".to_string(), "".to_string()]);
}

#[test]
fn li_items_of_text_without_list() {
    let result = get_li_items("no list here").unwrap();
    assert!(result.is_empty());
}

#[test]
fn tags_are_filtered_out() {
    let result = filter_out_tags("<p>Hello <b>world</b></p>").unwrap();
    assert_eq!(result, "Hello world");
}

#[test]
fn text_without_tags_is_kept() {
    assert_eq!(filter_out_tags("a < b").unwrap(), "a < b");
}
