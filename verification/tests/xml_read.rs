use importer_rebike::xml::events::{tokenize, XmlToken};
use importer_rebike::xml::read::{checked_read_stream, read_stream, read_tokens};

#[test]
fn test_read_feed() {
    let txt = r#"<position>
                    <name>IT</name>
                </position>"#;

    let jobs = read_stream(txt).unwrap();
    let map = jobs[0].clone();

    assert_eq!(map.get("name").unwrap().to_owned(), "IT".to_string())
}

#[test]
fn test_read_nested_feed() {
    let txt = r#"<position>
                    <name>IT</name>
                    <location>
                        <city>Somewhere</city>
                        <state>Somestate</state>
                    </location>
                </position>"#;

    let jobs = read_stream(txt).unwrap();
    let map = jobs[0].clone();

    assert_eq!(
        map.get("location.city").unwrap().to_owned(),
        "Somewhere".to_string()
    );
    assert_eq!(
        map.get("location.state").unwrap().to_owned(),
        "Somestate".to_string()
    );
}

#[test]
fn test_read_cdata() {
    let txt = r#"<position>
                    <name><![CDATA[ The name is John Cena. ]]></name>
                </position>"#;

    let jobs = read_stream(txt).unwrap();
    let map = jobs[0].clone();

    assert_eq!(
        map.get("name").unwrap().to_owned(),
        "The name is John Cena.".to_string()
    );
}

#[test]
fn test_read_double_keys() {
    let txt = r#"<position>
                    <jobDescriptions>
                        <jobDescription>
                            <name>First</name>
                            <value>First Value</value>
                        </jobDescription>
                        <jobDescription>
                            <name>Second</name>
                            <value>Second Value</value>
                        </jobDescription>
                    </jobDescriptions>
                </position>"#;

    let jobs = read_stream(txt).unwrap();
    let map = jobs[0].clone();

    assert_eq!(
        map.get("jobDescriptions.jobDescription.name")
            .unwrap()
            .to_owned(),
        "First".to_string()
    );
    assert_eq!(
        map.get("jobDescriptions.jobDescription.1.name")
            .unwrap()
            .to_owned(),
        "Second".to_string()
    );
}

#[test]
fn each_position_is_one_posting() {
    let txt = r#"<workzag-jobs>
                    <position><id>1</id><name>A</name></position>
                    <position></position>
                    <position><id>3</id><name>C</name></position>
                 </workzag-jobs>"#;
    let jobs = read_stream(txt).unwrap();
    assert_eq!(jobs.len(), 2);
    assert_eq!(jobs[0].get("id").unwrap(), "1");
    assert_eq!(jobs[1].get("name").unwrap(), "C");
    assert!(jobs[1].get("position.name").is_none());

    let tokens = tokenize(txt, true);
    let feed = read_tokens(&tokens).unwrap();
    assert_eq!(feed.positions, 3);
    assert!(feed.jobs.len() <= feed.positions + 1);
}

#[test]
fn sibling_numbering_counts_up() {
    let txt = r#"<position><a><b>x</b><b>y</b><b>z</b></a><a><b>w</b></a></position>"#;
    let jobs = read_stream(txt).unwrap();
    let map = &jobs[0];
    assert_eq!(map.get("a.b").unwrap(), "x");
    assert_eq!(map.get("a.b.1").unwrap(), "y");
    assert_eq!(map.get("a.b.2").unwrap(), "z");
    assert_eq!(map.get("a.1.b").unwrap(), "w");
}

#[test]
fn many_siblings_get_decimal_suffixes() {
    let mut txt = String::from("<position><list>");
    for i in 0..12 {
        txt.push_str(&format!("<item>v{}</item>", i));
    }
    txt.push_str("</list></position>");
    let jobs = read_stream(&txt).unwrap();
    assert_eq!(jobs[0].get("list.item").unwrap(), "v0");
    assert_eq!(jobs[0].get("list.item.10").unwrap(), "v10");
    assert_eq!(jobs[0].get("list.item.11").unwrap(), "v11");
}

#[test]
fn text_outside_elements_is_not_stored() {
    let jobs = read_stream("<position></position>").unwrap();
    assert!(jobs.is_empty());
}

#[test]
fn content_before_a_position_is_its_own_posting() {
    let jobs = read_stream("<name>Lead</name><position><name>B</name></position>").unwrap();
    assert_eq!(jobs.len(), 2);
    assert_eq!(jobs[0].get("name").unwrap(), "Lead");
    assert_eq!(jobs[1].get("name").unwrap(), "B");
}

#[test]
fn malformed_feed_is_refused() {
    assert!(checked_read_stream("<position><a></b></position>").is_none());
    let ok = checked_read_stream("<position><a>1</a></position>").unwrap().unwrap();
    assert_eq!(ok[0].get("a").unwrap(), "1");
}

#[test]
fn tokens_of_a_document() {
    let tokens = tokenize("<a>hi</a>", true);
    assert_eq!(tokens.len(), 4);
    assert!(matches!(&tokens[0], XmlToken::Start(n) if n.as_slice() == b"a"));
    assert!(matches!(&tokens[1], XmlToken::Text(t) if t.as_slice() == b"hi"));
    assert!(matches!(tokens[2], XmlToken::End));
    assert!(matches!(tokens[3], XmlToken::Eof));
}
