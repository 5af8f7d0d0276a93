//! The job document that is stored.

use crate::html::{cleaned_item_texts, filter_out_tags, get_li_items, spec_filter_out_tags, spec_li_items, trim_each};
use crate::patterns::{li_groups, strip_tags};
use crate::job::slug::{format_slug, lemma_slug_base_filters, spec_format_slug};
use crate::patterns::collapse_dashes;
use crate::text::{lowercase, replace_char, trim};
use crate::job::{
    custom_list, custom_text, field_value, li_field, value_of, Facet, LanguageDetailsString,
    LanguageDetailsVec, Location, MultiLanguageObj,
};
use crate::patterns::InvalidPattern;
use crate::strmap::FieldMap;
use crate::text::string_views;
use mongodb::bson::oid::ObjectId;
use mongodb::bson::DateTime;
use vstd::prelude::*;

verus! {

/// Why a posting could not be made into a job document.
#[derive(Debug, Clone, Copy, PartialEq, Eq, Structural)]
pub enum JobError {
    /// A regular expression of the library did not compile.
    InvalidPattern,
    /// An object id of the library is not 24 hexadecimal digits.
    InvalidObjectId,
    /// The posting's `createdAt` is not an RFC 3339 date and time.
    InvalidTimestamp,
}

/// The job document that is stored.
#[derive(Debug, Clone)]
pub struct Job {
    pub tenant_id: Vec<u8>,
    pub status: String,
    pub published_at: i64,
    pub title: MultiLanguageObj<LanguageDetailsString>,
    pub description: MultiLanguageObj<LanguageDetailsString>,
    pub locations: Vec<Location>,
    pub facets: Vec<Facet>,
    pub version: u32,
    pub is_deleted: bool,
    pub created_at: i64,
    pub created_by: String,
    pub public_id: String,
    pub slug: MultiLanguageObj<LanguageDetailsString>,
    pub updated_at: i64,
    pub updated_by: String,
    pub benefits: MultiLanguageObj<LanguageDetailsVec>,
    pub requirements: MultiLanguageObj<LanguageDetailsVec>,
    pub responsibilities: MultiLanguageObj<LanguageDetailsVec>,
    pub recruiter_ids: Option<Vec<String>>,
    pub benefit_group_id: Vec<u8>,
}

/// The value of a field, or the empty string where the map has no such key.
pub fn get_value(key: &str, map: &FieldMap) -> (r: Result<String, String>)
    ensures
        r is Ok,
        r->Ok_0@ == field_value(map@, key@),
{
    let value = match map.get(key) {
        Some(v) => v.clone(),
        None => String::new(),
    };
    Ok(value)
}

/// The value of a hexadecimal digit.
pub open spec fn hex_digit_value(c: char) -> Option<nat> {
    if '0' <= c && c <= '9' {
        Some((c as nat - '0' as nat) as nat)
    } else if 'a' <= c && c <= 'f' {
        Some((c as nat - 'a' as nat + 10) as nat)
    } else if 'A' <= c && c <= 'F' {
        Some((c as nat - 'A' as nat + 10) as nat)
    } else {
        None
    }
}

/// The twelve bytes that 24 hexadecimal digits (either case) spell, high
/// digit first; `None` for any other text.
pub open spec fn object_id_bytes(s: Seq<char>) -> Option<Seq<u8>> {
    if s.len() == 24 && forall|i: int| 0 <= i < 24 ==> #[trigger] hex_digit_value(s[i]) is Some {
        Some(Seq::new(12, |i: int| (hex_digit_value(s[2 * i])->0 * 16 + hex_digit_value(s[2 * i + 1])->0) as u8))
    } else {
        None
    }
}

/// Calls `ObjectId::parse_str`, which accepts exactly 24 hexadecimal digits
/// and gives the bytes they spell.
#[verifier::external_body]
fn parse_object_id(s: &str) -> (r: Option<Vec<u8>>)
    ensures
        match r {
            Some(b) => object_id_bytes(s@) == Some(b@),
            None => object_id_bytes(s@) is None,
        },
{
    match ObjectId::parse_str(s) {
        Ok(id) => Some(id.bytes().to_vec()),
        Err(_) => None,
    }
}

/// What `DateTime::parse_rfc3339_str` gives: the milliseconds since the Unix
/// epoch of an RFC 3339 date and time, or `None` when `s` is not one.
pub uninterp spec fn rfc3339_millis(s: Seq<char>) -> Option<i64>;

/// Calls `DateTime::parse_rfc3339_str`; the result is named by [`rfc3339_millis`].
#[verifier::external_body]
fn parse_rfc3339(s: &str) -> (r: Option<i64>)
    ensures
        r == rfc3339_millis(s@),
{
    match DateTime::parse_rfc3339_str(s) {
        Ok(t) => Some(t.timestamp_millis()),
        Err(_) => None,
    }
}

/// Calls `DateTime::now`: the current time in milliseconds since the Unix
/// epoch. Nothing is stated of it: it is the clock's reading.
#[verifier::external_body]
fn now_millis() -> (t: i64) {
    DateTime::now().timestamp_millis()
}

/// A lowercase ASCII letter or decimal digit.
pub open spec fn is_base36_char(c: char) -> bool {
    ('0' <= c && c <= '9') || ('a' <= c && c <= 'z')
}

/// The shape of a short cuid2 id: one to ten lowercase letters and digits,
/// the first a letter.
pub open spec fn is_cuid2_slug(id: Seq<char>) -> bool {
    &&& 1 <= id.len() <= 10
    &&& 'a' <= id[0] && id[0] <= 'z'
    &&& forall|i: int| 0 <= i < id.len() ==> is_base36_char(#[trigger] id[i])
}

/// Calls `cuid::cuid2_slug`: a fresh random identifier. Which one is drawn
/// is not stated; its shape is: a random letter `a`..`z` followed by at most
/// nine base-36 digits (lowercase) of a hash.
#[verifier::external_body]
fn new_public_id() -> (id: String)
    ensures
        is_cuid2_slug(id@),
{
    cuid::cuid2_slug()
}

/// Each list item with its tags removed, or `None` if that fails for one.
pub open spec fn spec_clean_list(items: Seq<Seq<char>>) -> Option<Seq<Seq<char>>>
    decreases items.len(),
{
    if items.len() == 0 {
        Some(Seq::empty())
    } else {
        match (spec_clean_list(items.drop_last()), spec_filter_out_tags(items.last())) {
            (Some(done), Some(last)) => Some(done.push(last)),
            _ => None,
        }
    }
}

proof fn lemma_clean_list_fails_later(items: Seq<Seq<char>>, k: int)
    requires
        0 <= k <= items.len(),
        spec_clean_list(items.take(k)) is None,
    ensures
        spec_clean_list(items) is None,
    decreases items.len() - k,
{
    if k < items.len() {
        assert(items.take(k + 1).drop_last() =~= items.take(k));
        lemma_clean_list_fails_later(items, k + 1);
    } else {
        assert(items.take(k) =~= items);
    }
}

/// The list items with their HTML tags removed.
pub fn clean_list_items(items: Vec<String>) -> (r: Result<Vec<String>, InvalidPattern>)
    ensures
        match spec_clean_list(string_views(items@)) {
            Some(cleaned) => r is Ok && string_views(r->Ok_0@) == cleaned,
            None => r is Err,
        },
        r is Ok,
{
    let ghost all = string_views(items@);
    let mut cleaned_items: Vec<String> = Vec::new();
    let mut i: usize = 0;
    while i < items.len()
        invariant
            i <= items.len(),
            all == string_views(items@),
            spec_clean_list(all.take(i as int)) == Some(string_views(cleaned_items@)),
        decreases items.len() - i,
    {
        assert(all.take(i + 1).drop_last() =~= all.take(i as int));
        assert(all.take(i + 1).last() == items@[i as int]@);
        match filter_out_tags(items[i].as_str()) {
            Ok(cleaned) => {
                let ghost before = cleaned_items@;
                cleaned_items.push(cleaned);
                assert(string_views(cleaned_items@) =~= string_views(before).push(cleaned@));
            },
            Err(e) => {
                proof {
                    lemma_clean_list_fails_later(all, i + 1);
                }
                return Err(e);
            },
        }
        i = i + 1;
    }
    assert(all.take(i as int) =~= all);
    Ok(cleaned_items)
}

proof fn lemma_clean_list_strips(items: Seq<Seq<char>>)
    ensures
        spec_clean_list(items) == Some(items.map_values(|x: Seq<char>| strip_tags(x))),
    decreases items.len(),
{
    if items.len() > 0 {
        lemma_clean_list_strips(items.drop_last());
        assert(items.map_values(|x: Seq<char>| strip_tags(x)) =~= items.drop_last().map_values(|x: Seq<char>| strip_tags(x)).push(strip_tags(items.last())));
    }
}

proof fn lemma_cleaned_li_field(html: Seq<char>)
    ensures
        spec_li_items(html) matches Some(items) && spec_clean_list(items) matches Some(c) && cleaned_item_texts(c, html),
{
    lemma_clean_list_strips(trim_each(li_groups(html)));
}

/// The hexadecimal id of the tenant the jobs belong to.
pub open spec fn tenant_hex() -> Seq<char> {
    "695245d5023deb54ecbf0f8d"@
}

/// The hexadecimal id of the benefit group of the jobs.
pub open spec fn benefit_group_hex() -> Seq<char> {
    "695bb697eaa9de0d07ba7f70"@
}

/// The library's two object ids are 24 hexadecimal digits.
pub proof fn lemma_library_ids_parse()
    ensures
        object_id_bytes(tenant_hex()) is Some,
        object_id_bytes(benefit_group_hex()) is Some,
{
    reveal_strlit("695245d5023deb54ecbf0f8d");
    reveal_strlit("695bb697eaa9de0d07ba7f70");
    let t = tenant_hex();
    let b = benefit_group_hex();
    assert(t.len() == 24);
    assert(b.len() == 24);
    assert forall|i: int| 0 <= i < 24 implies #[trigger] hex_digit_value(t[i]) is Some by {}
    assert forall|i: int| 0 <= i < 24 implies #[trigger] hex_digit_value(b[i]) is Some by {}
}

/// What a posting determines of its job document.
pub struct JobContent {
    pub description: Seq<char>,
    pub responsibilities: Seq<Seq<char>>,
    pub requirements: Seq<Seq<char>>,
    pub benefits: Seq<Seq<char>>,
    pub tenant_id: Seq<u8>,
    pub created_at: i64,
    pub slug: Seq<char>,
    pub benefit_group_id: Seq<u8>,
}

/// What a posting determines of its job document, or the first step that
/// fails, in the order the document is built.
pub open spec fn spec_job_content(m: Map<Seq<char>, Seq<char>>) -> Result<JobContent, JobError> {
    match spec_filter_out_tags(field_value(m, "jobDescriptions.jobDescription.value"@)) {
        None => Err(JobError::InvalidPattern),
        Some(description) => match li_field(m, "jobDescriptions.jobDescription.1.value"@) {
            None => Err(JobError::InvalidPattern),
            Some(resp) => match li_field(m, "jobDescriptions.jobDescription.2.value"@) {
                None => Err(JobError::InvalidPattern),
                Some(req) => match li_field(m, "jobDescriptions.jobDescription.3.value"@) {
                    None => Err(JobError::InvalidPattern),
                    Some(ben) => match object_id_bytes(tenant_hex()) {
                        None => Err(JobError::InvalidObjectId),
                        Some(tenant_id) => match rfc3339_millis(field_value(m, "createdAt"@)) {
                            None => Err(JobError::InvalidTimestamp),
                            Some(created_at) => match spec_format_slug(field_value(m, "name"@)) {
                                None => Err(JobError::InvalidPattern),
                                Some(slug) => match spec_clean_list(ben) {
                                    None => Err(JobError::InvalidPattern),
                                    Some(benefits) => match spec_clean_list(req) {
                                        None => Err(JobError::InvalidPattern),
                                        Some(requirements) => match spec_clean_list(resp) {
                                            None => Err(JobError::InvalidPattern),
                                            Some(responsibilities) => match object_id_bytes(benefit_group_hex()) {
                                                None => Err(JobError::InvalidObjectId),
                                                Some(benefit_group_id) => Ok(JobContent {
                                                    description,
                                                    responsibilities,
                                                    requirements,
                                                    benefits,
                                                    tenant_id,
                                                    created_at,
                                                    slug,
                                                    benefit_group_id,
                                                }),
                                            },
                                        },
                                    },
                                },
                            },
                        },
                    },
                },
            },
        },
    }
}

/// The fields of a stored job that its posting `m` and content `c` determine.
pub open spec fn job_from_content(job: Job, m: Map<Seq<char>, Seq<char>>, c: JobContent) -> bool {
    &&& job.tenant_id@ == c.tenant_id
    &&& job.status@ == "published"@
    &&& custom_text(job.title.de, field_value(m, "name"@))
    &&& custom_text(job.description.de, c.description)
    &&& job.locations@.len() == 1
    &&& job.locations@[0].city@ == field_value(m, "office"@)
    &&& job.locations@[0].country@ == "DE"@
    &&& job.locations@[0].kind@ == "onsite"@
    &&& job.facets@.len() == 3
    &&& job.facets@[0].key@ == "employmentTypes"@
    &&& string_views(job.facets@[0].values@) == seq!["full_time"@]
    &&& job.facets@[1].key@ == "experienceLevels"@
    &&& string_views(job.facets@[1].values@) == seq!["experienced"@]
    &&& job.facets@[2].key@ == "workingModel"@
    &&& string_views(job.facets@[2].values@) == seq!["on_site"@]
    &&& job.version == 1
    &&& !job.is_deleted
    &&& job.created_at == c.created_at
    &&& job.created_by@ == "rebike-importer"@
    &&& custom_text(job.slug.de, c.slug)
    &&& job.updated_by@ == "rebike-importer"@
    &&& custom_list(job.benefits.de, c.benefits)
    &&& custom_list(job.requirements.de, c.requirements)
    &&& custom_list(job.responsibilities.de, c.responsibilities)
    &&& job.recruiter_ids is None
    &&& job.benefit_group_id@ == c.benefit_group_id
}

/// The lists of a stored job come from the right fields: responsibilities
/// from `jobDescriptions.jobDescription.1.value`, requirements from `.2.value`
/// and benefits from `.3.value`, one item per `<li>` element in order, each
/// trimmed and with its tags removed; the description is
/// `jobDescriptions.jobDescription.value` with its tags removed.
pub proof fn lemma_job_content_fields(m: Map<Seq<char>, Seq<char>>)
    ensures
        spec_job_content(m) matches Ok(c) ==> {
            &&& c.description == strip_tags(field_value(m, "jobDescriptions.jobDescription.value"@))
            &&& cleaned_item_texts(c.responsibilities, field_value(m, "jobDescriptions.jobDescription.1.value"@))
            &&& cleaned_item_texts(c.requirements, field_value(m, "jobDescriptions.jobDescription.2.value"@))
            &&& cleaned_item_texts(c.benefits, field_value(m, "jobDescriptions.jobDescription.3.value"@))
        },
{
    lemma_cleaned_li_field(field_value(m, "jobDescriptions.jobDescription.1.value"@));
    lemma_cleaned_li_field(field_value(m, "jobDescriptions.jobDescription.2.value"@));
    lemma_cleaned_li_field(field_value(m, "jobDescriptions.jobDescription.3.value"@));
}

/// The slug, the lists and the description of a stored job as its posting
/// `m` gives them.
pub open spec fn job_texts_from_fields(job: Job, m: Map<Seq<char>, Seq<char>>) -> bool {
    &&& job.slug.de.custom matches Some(s) && s@ == collapse_dashes(replace_char(trim(lowercase(field_value(m, "name"@))), ' ', '-').filter(
        |c: char| !(c == '\u{e4}' || c == '\u{f6}' || c == '\u{fc}' || c == '(' || c == ')' || c == '/' || c == ' ' || c == '|'),
    ))
    &&& job.description.de.custom matches Some(d) && d@ == strip_tags(field_value(m, "jobDescriptions.jobDescription.value"@))
    &&& job.responsibilities.de.custom matches Some(v)
        && cleaned_item_texts(string_views(v@), field_value(m, "jobDescriptions.jobDescription.1.value"@))
    &&& job.requirements.de.custom matches Some(v)
        && cleaned_item_texts(string_views(v@), field_value(m, "jobDescriptions.jobDescription.2.value"@))
    &&& job.benefits.de.custom matches Some(v)
        && cleaned_item_texts(string_views(v@), field_value(m, "jobDescriptions.jobDescription.3.value"@))
}

fn one_value(v: &str) -> (r: Vec<String>)
    ensures
        string_views(r@) == seq![v@],
{
    let mut r: Vec<String> = Vec::new();
    r.push(v.to_owned());
    assert(string_views(r@) =~= seq![v@]);
    r
}

impl Job {
    /// The stored job of a posting, with the given publication and update
    /// times (milliseconds since the Unix epoch) and public id.
    pub fn assemble(map: &FieldMap, published_at: i64, updated_at: i64, public_id: String) -> (r: Result<Job, JobError>)
        ensures
            match spec_job_content(map@) {
                Ok(c) => r is Ok && job_from_content(r->Ok_0, map@, c) && r->Ok_0.published_at == published_at
                    && r->Ok_0.updated_at == updated_at && r->Ok_0.public_id@ == public_id@,
                Err(e) => r == Err::<Job, JobError>(e),
            },
            r is Ok <==> rfc3339_millis(field_value(map@, "createdAt"@)) is Some,
            r matches Ok(job) ==> job_texts_from_fields(job, map@),
    {
        proof {
            lemma_library_ids_parse();
            lemma_job_content_fields(map@);
            lemma_slug_base_filters(field_value(map@, "name"@));
        }
        let description = match filter_out_tags(value_of("jobDescriptions.jobDescription.value", map).as_str()) {
            Ok(d) => d,
            Err(_) => return Err(JobError::InvalidPattern),
        };
        let responsibilities = match get_li_items(value_of("jobDescriptions.jobDescription.1.value", map).as_str()) {
            Ok(v) => v,
            Err(_) => return Err(JobError::InvalidPattern),
        };
        let requirements = match get_li_items(value_of("jobDescriptions.jobDescription.2.value", map).as_str()) {
            Ok(v) => v,
            Err(_) => return Err(JobError::InvalidPattern),
        };
        let benefits = match get_li_items(value_of("jobDescriptions.jobDescription.3.value", map).as_str()) {
            Ok(v) => v,
            Err(_) => return Err(JobError::InvalidPattern),
        };
        let tenant_id = match parse_object_id("695245d5023deb54ecbf0f8d") {
            Some(id) => id,
            None => return Err(JobError::InvalidObjectId),
        };
        let name = value_of("name", map);
        let created_at = match parse_rfc3339(value_of("createdAt", map).as_str()) {
            Some(t) => t,
            None => return Err(JobError::InvalidTimestamp),
        };
        let slug = match format_slug(name.as_str()) {
            Ok(s) => s,
            Err(_) => return Err(JobError::InvalidPattern),
        };
        let benefits = match clean_list_items(benefits) {
            Ok(v) => v,
            Err(_) => return Err(JobError::InvalidPattern),
        };
        let requirements = match clean_list_items(requirements) {
            Ok(v) => v,
            Err(_) => return Err(JobError::InvalidPattern),
        };
        let responsibilities = match clean_list_items(responsibilities) {
            Ok(v) => v,
            Err(_) => return Err(JobError::InvalidPattern),
        };
        let benefit_group_id = match parse_object_id("695bb697eaa9de0d07ba7f70") {
            Some(id) => id,
            None => return Err(JobError::InvalidObjectId),
        };
        let mut locations: Vec<Location> = Vec::new();
        locations.push(Location { city: value_of("office", map), country: "DE".to_owned(), kind: "onsite".to_owned() });
        let mut facets: Vec<Facet> = Vec::new();
        facets.push(Facet { key: "employmentTypes".to_owned(), values: one_value("full_time") });
        facets.push(Facet { key: "experienceLevels".to_owned(), values: one_value("experienced") });
        facets.push(Facet { key: "workingModel".to_owned(), values: one_value("on_site") });
        Ok(Job {
            tenant_id,
            status: "published".to_owned(),
            published_at,
            title: MultiLanguageObj { de: LanguageDetailsString { custom: Some(name), default: None } },
            description: MultiLanguageObj { de: LanguageDetailsString { custom: Some(description), default: None } },
            locations,
            facets,
            version: 1,
            is_deleted: false,
            created_at,
            public_id,
            slug: MultiLanguageObj { de: LanguageDetailsString { custom: Some(slug), default: None } },
            updated_at,
            updated_by: "rebike-importer".to_owned(),
            created_by: "rebike-importer".to_owned(),
            benefits: MultiLanguageObj { de: LanguageDetailsVec { custom: Some(benefits), default: None } },
            requirements: MultiLanguageObj { de: LanguageDetailsVec { custom: Some(requirements), default: None } },
            responsibilities: MultiLanguageObj { de: LanguageDetailsVec { custom: Some(responsibilities), default: None } },
            recruiter_ids: None,
            benefit_group_id,
        })
    }

    /// The stored job of a posting, published and updated now, with a fresh
    /// public id.
    pub fn try_from(map: &FieldMap) -> (r: Result<Job, JobError>)
        ensures
            match spec_job_content(map@) {
                Ok(c) => r is Ok && job_from_content(r->Ok_0, map@, c),
                Err(e) => r == Err::<Job, JobError>(e),
            },
            r is Ok <==> rfc3339_millis(field_value(map@, "createdAt"@)) is Some,
            r matches Ok(job) ==> is_cuid2_slug(job.public_id@),
            r matches Ok(job) ==> job_texts_from_fields(job, map@),
    {
        let published_at = now_millis();
        let public_id = new_public_id();
        let updated_at = now_millis();
        Job::assemble(map, published_at, updated_at, public_id)
    }
}

} // verus!
