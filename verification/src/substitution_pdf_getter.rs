//! Where the schedule document of each weekday is found, and how long a request for it may
//! take.

use vstd::prelude::*;
use vstd::string::StringExecFns;
use crate::text::Text;
use crate::weekday::{weekday_at, Weekdays};

verus! {

/// The address of the schedule document of `day`.
pub open spec fn document_url(day: Weekdays) -> Text {
    match day {
        Weekdays::Monday => "https://buessing.schule/plaene/VertretungsplanA4_Montag.pdf"@,
        Weekdays::Tuesday => "https://buessing.schule/plaene/VertretungsplanA4_Dienstag.pdf"@,
        Weekdays::Wednesday => "https://buessing.schule/plaene/VertretungsplanA4_Mittwoch.pdf"@,
        Weekdays::Thursday => "https://buessing.schule/plaene/VertretungsplanA4_Donnerstag.pdf"@,
        Weekdays::Friday => "https://buessing.schule/plaene/VertretungsplanA4_Freitag.pdf"@,
    }
}

/// A request for the schedule document of one weekday.
#[derive(Debug, PartialEq, Eq)]
pub struct DocumentRequest {
    pub day: Weekdays,
    pub url: String,
    pub connect_timeout_secs: u64,
    pub timeout_secs: u64,
}

/// The addresses of the five schedule documents, with the time limits for a request.
#[derive(Debug)]
pub struct SubstitutionPDFGetter {
    urls: Vec<String>,
    connect_timeout_secs: u64,
    timeout_secs: u64,
}

impl SubstitutionPDFGetter {
    #[verifier::type_invariant]
    spec fn one_url_per_weekday(&self) -> bool {
        &&& self.urls.len() == 5
        &&& forall|i: int| 0 <= i < 5 ==> (#[trigger] self.urls[i])@ == document_url(weekday_at(i))
    }

    /// The seconds that connecting may take.
    pub closed spec fn connect_timeout(&self) -> u64 {
        self.connect_timeout_secs
    }

    /// The seconds that a whole request may take.
    pub closed spec fn timeout(&self) -> u64 {
        self.timeout_secs
    }

    /// A getter with the given time limits, in seconds.
    pub fn new(connect_timeout_secs: u64, timeout_secs: u64) -> (getter: SubstitutionPDFGetter)
        ensures
            getter.connect_timeout() == connect_timeout_secs,
            getter.timeout() == timeout_secs,
    {
        let mut urls: Vec<String> = Vec::new();
        urls.push(String::from_str("https://buessing.schule/plaene/VertretungsplanA4_Montag.pdf"));
        urls.push(String::from_str("https://buessing.schule/plaene/VertretungsplanA4_Dienstag.pdf"));
        urls.push(String::from_str("https://buessing.schule/plaene/VertretungsplanA4_Mittwoch.pdf"));
        urls.push(
            String::from_str("https://buessing.schule/plaene/VertretungsplanA4_Donnerstag.pdf"),
        );
        urls.push(String::from_str("https://buessing.schule/plaene/VertretungsplanA4_Freitag.pdf"));
        SubstitutionPDFGetter { urls, connect_timeout_secs, timeout_secs }
    }

    /// A getter that gives connecting, and the whole request, twenty seconds each.
    pub fn default() -> (getter: SubstitutionPDFGetter)
        ensures
            getter.connect_timeout() == 20,
            getter.timeout() == 20,
    {
        SubstitutionPDFGetter::new(20, 20)
    }

    /// The address of the schedule document of `day`.
    pub fn url_for(&self, day: Weekdays) -> (url: &str)
        ensures
            url@ == document_url(day),
    {
        proof {
            use_type_invariant(self);
        }
        self.urls[day.ordinal()].as_str()
    }

    /// The request to make for the schedule document of `day`.
    pub fn get_weekday_pdf(&self, day: Weekdays) -> (request: DocumentRequest)
        ensures
            request.day == day,
            request.url@ == document_url(day),
            request.connect_timeout_secs == self.connect_timeout(),
            request.timeout_secs == self.timeout(),
    {
        DocumentRequest {
            day,
            url: String::from_str(self.url_for(day)),
            connect_timeout_secs: self.connect_timeout_secs,
            timeout_secs: self.timeout_secs,
        }
    }
}

} // verus!
