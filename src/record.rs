//! One discovered URL and what is known of it.

use vstd::prelude::*;
use crate::text::{contains, is_infix, lower_of, lowercase};

verus! {

/// A discovered URL: its canonical form, the outcome of requesting it
/// (`None` while pending), every page seen linking to it, and where it led
/// when the outcome was a redirect.
#[derive(Debug, Clone, PartialEq, Eq)]
pub struct Url {
    pub response_code: Option<u16>,
    pub full_path: String,
    pub site_references: Vec<String>,
    pub redirected_to: Option<String>,
}

/// The mathematical content of a `Url`.
pub ghost struct UrlModel {
    pub response_code: Option<u16>,
    pub full_path: Seq<char>,
    pub site_references: Seq<Seq<char>>,
    pub redirected_to: Option<Seq<char>>,
}

/// The view of an optional string.
pub open spec fn opt_view(s: Option<String>) -> Option<Seq<char>> {
    match s {
        Some(t) => Some(t@),
        None => None,
    }
}

impl View for Url {
    type V = UrlModel;

    open spec fn view(&self) -> UrlModel {
        UrlModel {
            response_code: self.response_code,
            full_path: self.full_path@,
            site_references: self.site_references@.map_values(|s: String| s@),
            redirected_to: opt_view(self.redirected_to),
        }
    }
}

impl Url {
    /// A record of `url`, first seen on `site_reference`.
    pub fn new(url: String, response_code: Option<u16>, site_reference: String) -> (r: Url)
        ensures
            r@ == (UrlModel {
                response_code,
                full_path: url@,
                site_references: seq![site_reference@],
                redirected_to: None,
            }),
    {
        let mut site_references: Vec<String> = Vec::new();
        site_references.push(site_reference);
        let r = Url { response_code, full_path: url, site_references, redirected_to: None };
        assert(r@.site_references =~= seq![site_reference@]);
        r
    }

    /// Records one more page that links here.
    pub fn add_reference(&mut self, site_reference: String) -> (r: &Self)
        ensures
            final(self)@ == (UrlModel {
                site_references: old(self)@.site_references.push(site_reference@),
                ..old(self)@
            }),
            r@ == final(self)@,
    {
        self.site_references.push(site_reference);
        assert(self@.site_references =~= old(self)@.site_references.push(site_reference@));
        self
    }

    /// Records where a redirect led.
    pub fn set_redirection(&mut self, destination: String) -> (r: &Self)
        ensures
            final(self)@ == (UrlModel { redirected_to: Some(destination@), ..old(self)@ }),
            r@ == final(self)@,
    {
        self.redirected_to = Some(destination);
        self
    }

    /// Records the outcome `code`.
    pub fn set_response_code_(&mut self, code: u16) -> (r: &Self)
        ensures
            final(self)@ == (UrlModel { response_code: Some(code), ..old(self)@ }),
            r@ == final(self)@,
    {
        self.response_code = Some(code);
        self
    }

    /// Settles the outcome of a page that rendered: `current_url` is where the
    /// browser ended up, and `not_found` whether the title carried the
    /// not-found marker.
    pub fn record_outcome(&mut self, current_url: &String, not_found: bool)
        ensures
            final(self)@ == settled(old(self)@, current_url@, not_found),
    {
        if not_found {
            self.set_response_code_(404);
        } else if self.full_path == *current_url {
            self.set_response_code_(200);
        } else {
            self.set_response_code_(300);
            self.set_redirection(current_url.clone());
        }
    }

    /// Settles the outcome of a page that rendered with the title `title` and
    /// ended up at `current_url`, `not_found_title` being the marker of a
    /// not-found page.
    pub fn set_response_code(&mut self, current_url: &String, title: &str, not_found_title: &str)
        ensures
            final(self)@ == settled(
                old(self)@,
                current_url@,
                marks_not_found(title@, not_found_title@),
            ),
    {
        let not_found = title_marks_not_found(title, not_found_title);
        self.record_outcome(current_url, not_found);
    }

    /// Records the answer to a direct request: its `status`, and `final_url`
    /// as the destination when the status is a redirect (300 to 399).
    pub fn record_reply(&mut self, status: u16, final_url: String)
        ensures
            final(self)@ == answered(old(self)@, status, final_url@),
    {
        if status > 299 && status < 400 {
            self.set_redirection(final_url);
        }
        self.set_response_code_(status);
    }
}

/// The record `u` once a direct request of it answered with `status`,
/// having ended at `final_url`.
pub open spec fn answered(u: UrlModel, status: u16, final_url: Seq<char>) -> UrlModel {
    if 300 <= status < 400 {
        UrlModel { response_code: Some(status), redirected_to: Some(final_url), ..u }
    } else {
        UrlModel { response_code: Some(status), ..u }
    }
}

/// A title marks a not-found page when its lower-case form holds the
/// lower-case form of the marker.
pub open spec fn marks_not_found(title: Seq<char>, marker: Seq<char>) -> bool {
    is_infix(lower_of(marker), lower_of(title))
}

/// Whether `title` holds `marker`, case being ignored.
pub fn title_marks_not_found(title: &str, marker: &str) -> (r: bool)
    ensures
        r == marks_not_found(title@, marker@),
{
    let t = lowercase(title);
    let m = lowercase(marker);
    contains(t.as_str(), m.as_str())
}

/// The record `u` once its page rendered: not found when the title carried
/// the marker, else found when the browser stayed on `u`'s own URL, else a
/// redirect to `current`.
pub open spec fn settled(u: UrlModel, current: Seq<char>, not_found: bool) -> UrlModel {
    if not_found {
        UrlModel { response_code: Some(404), ..u }
    } else if current == u.full_path {
        UrlModel { response_code: Some(200), ..u }
    } else {
        UrlModel { response_code: Some(300), redirected_to: Some(current), ..u }
    }
}

} // verus!
