use importer_rebike::config::{checked_get_configuration, get_configuration};

fn vars(list: &[(&str, &str)]) -> Vec<(String, String)> {
    list.iter().map(|(k, v)| (k.to_string(), v.to_string())).collect()
}

#[test]
fn configuration_from_variables() {
    let v = vars(&[
        ("APP__ATS_ENDPOINT", "https://example.org/xml"),
        ("app__db_uri", "mongodb://localhost"),
        ("PATH", "/usr/bin"),
    ]);
    let config = get_configuration(&v).unwrap();
    assert_eq!(config.ats.endpoint, "https://example.org/xml");
    assert_eq!(config.db.uri, "mongodb://localhost");
}

#[test]
fn missing_endpoint_is_reported() {
    let v = vars(&[("APP__DB_URI", "mongodb://localhost")]);
    assert_eq!(get_configuration(&v).unwrap_err().key, "ats.endpoint");
}

#[test]
fn missing_database_is_reported() {
    let v = vars(&[("APP__ATS_ENDPOINT", "https://example.org/xml"), ("APP_DB_URI", "x")]);
    assert_eq!(get_configuration(&v).unwrap_err().key, "db.uri");
}

#[test]
fn negative_index_is_refused() {
    let v = vars(&[("APP__A[-1]", "x"), ("APP__ATS_ENDPOINT", "e"), ("APP__DB_URI", "u")]);
    assert!(checked_get_configuration(&v).is_none());
    assert!(checked_get_configuration(&vars(&[("APP__A[1]", "x")])).is_none());
    let ok = vars(&[("APP__B_C", "x"), ("APP__ATS_ENDPOINT", "e"), ("APP__DB_URI", "u")]);
    let config = checked_get_configuration(&ok).unwrap().unwrap();
    assert_eq!(config.ats.endpoint, "e");
}

#[test]
fn unprefixed_variables_change_nothing() {
    let base = vars(&[("APP__ATS_ENDPOINT", "e"), ("APP__DB_URI", "u")]);
    let mut more = base.clone();
    more.push(("HOME".to_string(), "/root".to_string()));
    more.push(("ATS_ENDPOINT".to_string(), "other".to_string()));
    let a = get_configuration(&base).unwrap();
    let b = get_configuration(&more).unwrap();
    assert_eq!(a.ats.endpoint, b.ats.endpoint);
    assert_eq!(a.db.uri, b.db.uri);
}

#[test]
fn dotted_variable_name_sets_the_key() {
    let v = vars(&[("APP__ATS.ENDPOINT", "e"), ("APP__DB_URI", "u")]);
    assert_eq!(get_configuration(&v).unwrap().ats.endpoint, "e");
}

#[test]
fn other_fields_of_a_section_are_ignored() {
    let v = vars(&[("APP__ATS_ENDPOINT", "e"), ("APP__DB_URI", "u"), ("APP__ATS.FOO", "z"), ("app__db_name", "n")]);
    let config = get_configuration(&v).unwrap();
    assert_eq!(config.ats.endpoint, "e");
    assert_eq!(config.db.uri, "u");
}
