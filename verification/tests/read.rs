use importer_rebike::read::{checked_read_steam, read_steam};

#[test]
fn read_test_read_feed() {
    let txt = r#"<position>
                    <name>IT</name>
                </position>"#;

    let jobs = read_steam(txt).unwrap();
    let map = jobs[0].clone();

    assert_eq!(map.get("name").unwrap().to_owned(), "IT".to_string())
}

#[test]
fn read_test_read_nested_feed() {
    let txt = r#"<position>
                    <name>IT</name>
                    <location>
                        <city>Somewhere</city>
                        <state>Somestate</state>
                    </location>
                </position>"#;

    let jobs = read_steam(txt).unwrap();
    let map = jobs[0].clone();

    assert_eq!(
        map.get("location.city").unwrap().to_owned(),
        "Somewhere".to_string()
    );
    assert_eq!(
        map.get("location.state").unwrap().to_owned(),
        "Somestate".to_string()
    );
}

#[test]
fn read_test_read_cdata() {
    let txt = r#"<position>
                    <name><![CDATA[ The name is John Cena. ]]></name>
                </position>"#;

    let jobs = read_steam(txt).unwrap();
    let map = jobs[0].clone();

    assert_eq!(
        map.get("name").unwrap().to_owned(),
        "The name is John Cena.".to_string()
    );
}

#[test]
fn simple_reader_overwrites_repeated_siblings() {
    let txt = r#"<position><d><n>First</n></d><d><n>Second</n></d></position>"#;
    let jobs = read_steam(txt).unwrap();
    assert_eq!(jobs[0].get("d.n").unwrap(), "Second");
    assert!(jobs[0].get("d.1.n").is_none());
}

#[test]
fn simple_reader_splits_postings() {
    let txt = r#"<workzag-jobs><position><n>A</n></position><position><n>B</n></position></workzag-jobs>"#;
    let jobs = read_steam(txt).unwrap();
    assert_eq!(jobs.len(), 2);
    assert_eq!(jobs[0].get("n").unwrap(), "A");
    assert_eq!(jobs[1].get("n").unwrap(), "B");
}

#[test]
fn simple_reader_refuses_malformed_feed() {
    assert!(checked_read_steam("<position><a></b>").is_none());
}

#[test]
fn readers_agree_on_simple_feeds() {
    use_both(r#"<workzag-jobs><position><name>A</name><office>B</office></position><position><name>C</name></position></workzag-jobs>"#);
}

fn use_both(txt: &str) {
    let a = read_steam(txt).unwrap();
    let b = importer_rebike::xml::read::read_stream(txt).unwrap();
    assert_eq!(a.len(), b.len());
    for (x, y) in a.iter().zip(b.iter()) {
        for key in ["name", "office"] {
            assert_eq!(x.get(key), y.get(key));
        }
    }
}
