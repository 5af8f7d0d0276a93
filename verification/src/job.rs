//! Job documents built from the key/value map of one posting.
//!
//! This module holds the basic form of the document, with wall-clock
//! times; [`def`] holds the form that is stored today.

pub mod def;
pub mod slug;

use crate::html::{get_li_items, lemma_li_items_one_per_match, spec_li_items, trimmed_item_texts};
use crate::patterns::InvalidPattern;
use crate::strmap::FieldMap;
use crate::text::{lowercase, replace_char, replace_spaces, str_to_lowercase, string_views};
use vstd::prelude::*;

verus! {

/// A text given in the default language and, possibly, as a custom text.
#[derive(Debug, Clone)]
pub struct LanguageDetailsString {
    pub custom: Option<String>,
    pub default: Option<String>,
}

/// A list of texts given in the default language and, possibly, as custom texts.
#[derive(Debug, Clone)]
pub struct LanguageDetailsVec {
    pub custom: Option<Vec<String>>,
    pub default: Option<Vec<String>>,
}

/// A value per language; German is the only one so far.
#[derive(Debug, Clone)]
pub struct MultiLanguageObj<T> {
    pub de: T,
}

/// Where a job is done.
#[derive(Debug, Clone)]
pub struct Location {
    pub kind: String,
    pub city: String,
    pub country: String,
}

/// A filter value of a job, such as its experience level.
#[derive(Debug, Clone)]
pub struct Facet {
    pub key: String,
    pub values: Vec<String>,
}

/// A point in time in UTC: seconds since the Unix epoch and the nanoseconds
/// within that second.
#[derive(Debug, Clone, Copy)]
pub struct UtcTime {
    pub secs: i64,
    pub nanos: u32,
}

/// A job document in its basic form.
#[derive(Debug, Clone)]
pub struct Job {
    pub tenant_id: String,
    pub status: String,
    pub published_at: UtcTime,
    pub title: MultiLanguageObj<LanguageDetailsString>,
    pub description: MultiLanguageObj<LanguageDetailsString>,
    pub locations: Vec<Location>,
    pub facets: Vec<Facet>,
    pub version: u32,
    pub is_deleted: bool,
    pub created_at: UtcTime,
    pub created_by: String,
    pub public_id: String,
    pub slug: MultiLanguageObj<LanguageDetailsString>,
    pub updated_at: UtcTime,
    pub updated_by: String,
    pub benefits: MultiLanguageObj<LanguageDetailsVec>,
    pub requirements: MultiLanguageObj<LanguageDetailsVec>,
    pub responsibilities: MultiLanguageObj<LanguageDetailsVec>,
    pub recruiter_ids: Option<Vec<String>>,
}

/// The value stored under `key`, or the empty text where there is none.
pub open spec fn field_value(m: Map<Seq<char>, Seq<char>>, key: Seq<char>) -> Seq<char> {
    if m.contains_key(key) { m[key] } else { Seq::empty() }
}

/// The value of a field, or the empty string where the map has no such key.
pub fn get_value(key: &str, map: &FieldMap) -> (r: Result<String, String>)
    ensures
        r is Ok,
        r->Ok_0@ == field_value(map@, key@),
{
    let value = match map.get(key) {
        Some(v) => v.clone(),
        None => String::new(),
    };
    Ok(value)
}

/// The value of a field, or the empty string.
pub fn value_of(key: &str, map: &FieldMap) -> (v: String)
    ensures
        v@ == field_value(map@, key@),
{
    match get_value(key, map) {
        Ok(v) => v,
        Err(_) => String::new(),
    }
}

/// A language entry holding `text` as its custom text.
pub open spec fn custom_text(d: LanguageDetailsString, text: Seq<char>) -> bool {
    &&& d.custom matches Some(t) && t@ == text
    &&& d.default is None
}

/// A language entry holding `items` as its custom list.
pub open spec fn custom_list(d: LanguageDetailsVec, items: Seq<Seq<char>>) -> bool {
    &&& d.custom matches Some(v) && string_views(v@) == items
    &&& d.default is None
}

/// The list items of the HTML stored under `key`.
pub open spec fn li_field(m: Map<Seq<char>, Seq<char>>, key: Seq<char>) -> Option<Seq<Seq<char>>> {
    spec_li_items(field_value(m, key))
}

/// Whether every list field of a posting yields its items.
pub open spec fn lists_readable(m: Map<Seq<char>, Seq<char>>) -> bool {
    &&& li_field(m, "jobDescriptions.jobDescription.1.value"@) is Some
    &&& li_field(m, "jobDescriptions.jobDescription.2.value"@) is Some
    &&& li_field(m, "jobDescriptions.jobDescription.3.value"@) is Some
}

/// The fields of a basic job that the posting `m` determines.
pub open spec fn job_from_fields(job: Job, m: Map<Seq<char>, Seq<char>>) -> bool {
    let name = field_value(m, "name"@);
    let office = field_value(m, "office"@);
    &&& job.tenant_id@ == "12345"@
    &&& job.status@ == "published"@
    &&& custom_text(job.title.de, name)
    &&& custom_text(job.description.de, field_value(m, "jobDescriptions.jobDescription.name"@)
        + field_value(m, "jobDescriptions.jobDescription.value"@))
    &&& job.locations@.len() == 1
    &&& job.locations@[0].city@ == office
    &&& job.locations@[0].country@ == office
    &&& job.locations@[0].kind@ == Seq::<char>::empty()
    &&& job.facets@.len() == 1
    &&& job.facets@[0].key@ == "experienceLevels"@
    &&& string_views(job.facets@[0].values@) == seq![field_value(m, "seniority"@)]
    &&& job.version == 1
    &&& !job.is_deleted
    &&& job.created_by@ == "rebike-importer"@
    &&& job.updated_by@ == "rebike-importer"@
    &&& job.public_id@ == "12345"@
    &&& custom_text(job.slug.de, replace_char(lowercase(name), ' ', '-'))
    &&& custom_list(job.responsibilities.de, li_field(m, "jobDescriptions.jobDescription.1.value"@)->0)
    &&& custom_list(job.requirements.de, li_field(m, "jobDescriptions.jobDescription.2.value"@)->0)
    &&& custom_list(job.benefits.de, li_field(m, "jobDescriptions.jobDescription.3.value"@)->0)
    &&& job.recruiter_ids is None
}

/// Calls `chrono::Utc::now`: the current time, as seconds and nanoseconds.
/// Nothing is stated of it: it is the clock's reading.
#[verifier::external_body]
fn utc_now() -> (t: UtcTime) {
    let now = chrono::Utc::now();
    UtcTime { secs: now.timestamp(), nanos: now.timestamp_subsec_nanos() }
}

/// The lists of a basic job as its posting `m` gives them: responsibilities
/// from `jobDescriptions.jobDescription.1.value`, requirements from `.2.value`
/// and benefits from `.3.value`, one trimmed item per `<li>` element.
pub open spec fn basic_lists_from_fields(job: Job, m: Map<Seq<char>, Seq<char>>) -> bool {
    &&& job.responsibilities.de.custom matches Some(v)
        && trimmed_item_texts(string_views(v@), field_value(m, "jobDescriptions.jobDescription.1.value"@))
    &&& job.requirements.de.custom matches Some(v)
        && trimmed_item_texts(string_views(v@), field_value(m, "jobDescriptions.jobDescription.2.value"@))
    &&& job.benefits.de.custom matches Some(v)
        && trimmed_item_texts(string_views(v@), field_value(m, "jobDescriptions.jobDescription.3.value"@))
}

/// The lists of a basic job come from the right fields, one trimmed item per
/// `<li>` element in order.
pub proof fn lemma_basic_lists(job: Job, m: Map<Seq<char>, Seq<char>>)
    requires
        job_from_fields(job, m),
    ensures
        basic_lists_from_fields(job, m),
{
    lemma_li_items_one_per_match(field_value(m, "jobDescriptions.jobDescription.1.value"@));
    lemma_li_items_one_per_match(field_value(m, "jobDescriptions.jobDescription.2.value"@));
    lemma_li_items_one_per_match(field_value(m, "jobDescriptions.jobDescription.3.value"@));
}

impl Job {
    /// The basic job of a posting, stamped with the given times.
    pub fn assemble(map: &FieldMap, published_at: UtcTime, created_at: UtcTime, updated_at: UtcTime) -> (r: Result<Job, InvalidPattern>)
        ensures
            r is Ok <==> lists_readable(map@),
            r is Ok,
            r matches Ok(job) ==> basic_lists_from_fields(job, map@),
            r matches Ok(job) ==> {
                &&& job_from_fields(job, map@)
                &&& job.published_at == published_at
                &&& job.created_at == created_at
                &&& job.updated_at == updated_at
            },
    {
        let mut description = value_of("jobDescriptions.jobDescription.name", map);
        let value = value_of("jobDescriptions.jobDescription.value", map);
        description.append(value.as_str());
        let responsibilities = get_li_items(value_of("jobDescriptions.jobDescription.1.value", map).as_str())?;
        let requirements = get_li_items(value_of("jobDescriptions.jobDescription.2.value", map).as_str())?;
        let benefits = get_li_items(value_of("jobDescriptions.jobDescription.3.value", map).as_str())?;
        let name = value_of("name", map);
        let slug = replace_spaces(str_to_lowercase(name.as_str()).as_str());
        let office = value_of("office", map);
        let seniority = value_of("seniority", map);
        let mut locations: Vec<Location> = Vec::new();
        locations.push(Location { city: office.clone(), country: office, kind: String::new() });
        let mut values: Vec<String> = Vec::new();
        values.push(seniority);
        let mut facets: Vec<Facet> = Vec::new();
        facets.push(Facet { key: "experienceLevels".to_owned(), values });
        let job = Job {
            tenant_id: "12345".to_owned(),
            status: "published".to_owned(),
            published_at,
            title: MultiLanguageObj { de: LanguageDetailsString { custom: Some(name), default: None } },
            description: MultiLanguageObj { de: LanguageDetailsString { custom: Some(description), default: None } },
            locations,
            facets,
            version: 1,
            is_deleted: false,
            created_at,
            public_id: "12345".to_owned(),
            slug: MultiLanguageObj { de: LanguageDetailsString { custom: Some(slug), default: None } },
            updated_at,
            updated_by: "rebike-importer".to_owned(),
            created_by: "rebike-importer".to_owned(),
            benefits: MultiLanguageObj { de: LanguageDetailsVec { custom: Some(benefits), default: None } },
            requirements: MultiLanguageObj { de: LanguageDetailsVec { custom: Some(requirements), default: None } },
            responsibilities: MultiLanguageObj { de: LanguageDetailsVec { custom: Some(responsibilities), default: None } },
            recruiter_ids: None,
        };
        proof {
            assert(string_views(job.facets@[0].values@) =~= seq![field_value(map@, "seniority"@)]);
        }
        Ok(job)
    }

    /// The basic job of a posting, stamped with the current time.
    pub fn try_from(map: &FieldMap) -> (r: Result<Job, InvalidPattern>)
        ensures
            r is Ok <==> lists_readable(map@),
            r is Ok,
            r matches Ok(job) ==> job_from_fields(job, map@),
            r matches Ok(job) ==> basic_lists_from_fields(job, map@),
    {
        let published_at = utc_now();
        let created_at = utc_now();
        let updated_at = utc_now();
        Job::assemble(map, published_at, created_at, updated_at)
    }
}

} // verus!
