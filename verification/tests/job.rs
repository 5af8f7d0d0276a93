use importer_rebike::job::def::{self, JobError};
use importer_rebike::job::{get_value, Job, UtcTime};
use importer_rebike::strmap::{FieldMap, StrMap};

fn posting() -> FieldMap {
    let mut map: FieldMap = StrMap::new();
    map.insert("name".to_string(), "Fahrradmechaniker (m/w/d)".to_string());
    map.insert("office".to_string(), "Berlin".to_string());
    map.insert("seniority".to_string(), "experienced".to_string());
    map.insert("createdAt".to_string(), "2024-01-02T03:04:05Z".to_string());
    map.insert("jobDescriptions.jobDescription.name".to_string(), "Intro: ".to_string());
    map.insert(
        "jobDescriptions.jobDescription.value".to_string(),
        "<p>Wir suchen <b>dich</b></p>".to_string(),
    );
    map.insert(
        "jobDescriptions.jobDescription.1.value".to_string(),
        "<ul><li><b>Fix</b> bikes</li><li> Talk </li></ul>".to_string(),
    );
    map.insert(
        "jobDescriptions.jobDescription.2.value".to_string(),
        "<ul><li>Skills</li></ul>".to_string(),
    );
    map.insert("jobDescriptions.jobDescription.3.value".to_string(), "".to_string());
    map
}

#[test]
fn get_value_defaults_to_empty() {
    let map = posting();
    assert_eq!(get_value("office", &map), Ok("Berlin".to_string()));
    assert_eq!(get_value("missing", &map), Ok("".to_string()));
    assert_eq!(def::get_value("missing", &map), Ok("".to_string()));
}

#[test]
fn first_form_job_from_posting() {
    let t = UtcTime { secs: 10, nanos: 5 };
    let job = Job::assemble(&posting(), t, t, t).unwrap();
    assert_eq!(job.tenant_id, "12345");
    assert_eq!(job.status, "published");
    assert_eq!(job.title.de.custom.as_deref(), Some("Fahrradmechaniker (m/w/d)"));
    assert_eq!(
        job.description.de.custom.as_deref(),
        Some("Intro: <p>Wir suchen <b>dich</b></p>")
    );
    assert_eq!(job.slug.de.custom.as_deref(), Some("fahrradmechaniker-(m/w/d)"));
    assert_eq!(job.locations[0].city, "Berlin");
    assert_eq!(job.locations[0].country, "Berlin");
    assert_eq!(job.locations[0].kind, "");
    assert_eq!(job.facets[0].key, "experienceLevels");
    assert_eq!(job.facets[0].values, vec!["experienced".to_string()]);
    assert_eq!(
        job.responsibilities.de.custom,
        Some(vec!["<b>Fix</b> bikes".to_string(), "Talk".to_string()])
    );
    assert_eq!(job.requirements.de.custom, Some(vec!["Skills".to_string()]));
    assert_eq!(job.benefits.de.custom, Some(vec![]));
    assert_eq!(job.version, 1);
    assert!(!job.is_deleted);
    assert_eq!(job.published_at.secs, 10);
    assert!(job.recruiter_ids.is_none());
}

#[test]
fn first_form_job_now() {
    let job = Job::try_from(&posting()).unwrap();
    assert_eq!(job.public_id, "12345");
    assert_eq!(job.updated_by, "rebike-importer");
}

#[test]
fn stored_job_from_posting() {
    let job = def::Job::assemble(&posting(), 1, 2, "abc".to_string()).unwrap();
    assert_eq!(
        job.tenant_id,
        vec![0x69, 0x52, 0x45, 0xd5, 0x02, 0x3d, 0xeb, 0x54, 0xec, 0xbf, 0x0f, 0x8d]
    );
    assert_eq!(
        job.benefit_group_id,
        vec![0x69, 0x5b, 0xb6, 0x97, 0xea, 0xa9, 0xde, 0x0d, 0x07, 0xba, 0x7f, 0x70]
    );
    assert_eq!(job.description.de.custom.as_deref(), Some("Wir suchen dich"));
    assert_eq!(job.slug.de.custom.as_deref(), Some("fahrradmechaniker-mwd"));
    assert_eq!(
        job.responsibilities.de.custom,
        Some(vec!["Fix bikes".to_string(), "Talk".to_string()])
    );
    assert_eq!(job.created_at, 1704164645000);
    assert_eq!(job.published_at, 1);
    assert_eq!(job.updated_at, 2);
    assert_eq!(job.public_id, "abc");
    assert_eq!(job.locations[0].country, "DE");
    assert_eq!(job.locations[0].kind, "onsite");
    assert_eq!(job.facets.len(), 3);
    assert_eq!(job.facets[2].key, "workingModel");
    assert_eq!(job.facets[2].values, vec!["on_site".to_string()]);
}

#[test]
fn stored_job_needs_creation_time() {
    let mut map = posting();
    map.insert("createdAt".to_string(), "yesterday".to_string());
    assert_eq!(def::Job::try_from(&map).unwrap_err(), JobError::InvalidTimestamp);
    let mut empty: FieldMap = StrMap::new();
    empty.insert("name".to_string(), "X".to_string());
    assert_eq!(def::Job::try_from(&empty).unwrap_err(), JobError::InvalidTimestamp);
}

#[test]
fn stored_job_now_has_fresh_id() {
    let job = def::Job::try_from(&posting()).unwrap();
    assert!(!job.public_id.is_empty() && job.public_id.len() <= 10);
    assert!(job.public_id.chars().all(|c| c.is_ascii_lowercase() || c.is_ascii_digit()));
    assert!(job.updated_at >= job.published_at);
}

#[test]
fn list_items_are_cleaned() {
    let cleaned = def::clean_list_items(vec!["<i>a</i>".to_string(), "b".to_string()]).unwrap();
    assert_eq!(cleaned, vec!["a".to_string(), "b".to_string()]);
}

#[test]
fn rebike_create_job() {
    let feed_text = r#"<?xml version="1.0" encoding="UTF-8"?>
<workzag-jobs>
  <position>
    <id>1</id>
    <office>Berlin</office>
    <name>Fahrradmechaniker (m/w/d)</name>
    <seniority>experienced</seniority>
    <jobDescriptions>
      <jobDescription>
        <name>Deine Aufgaben</name>
        <value><![CDATA[<ul><li>Reparieren</li><li>Beraten</li></ul>]]></value>
      </jobDescription>
    </jobDescriptions>
  </position>
</workzag-jobs>"#;
    let feed = importer_rebike::read::read_steam(feed_text).unwrap();
    let job = Job::try_from(&feed[0].clone()).unwrap();

    println!("{:?}", job);
    assert_eq!(job.title.de.custom.as_deref(), Some("Fahrradmechaniker (m/w/d)"));
    assert_eq!(job.slug.de.custom.as_deref(), Some("fahrradmechaniker-(m/w/d)"));
    assert_eq!(job.locations[0].city, "Berlin");
    assert_eq!(
        job.description.de.custom.as_deref(),
        Some("Deine Aufgaben<ul><li>Reparieren</li><li>Beraten</li></ul>")
    );
}
