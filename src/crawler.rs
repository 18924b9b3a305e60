//! The crawl as a state machine: it names the next internal URL to visit,
//! and takes in what the browser observed there.
//!
//! Whoever drives the browser runs the loop: while `next_pending` names a URL,
//! navigate to it, then hand the observation to `record_visit`. Every visit
//! settles the visited record for good, so the loop makes at most as many
//! visits as there are internal URLs to discover.

use vstd::prelude::*;
use crate::index::{
    fresh, has_key, lemma_position, lookup, position, register, register_all, UrlIndex,
};
use crate::normalize::{
    canonical, clone_strings, external_links, filter_domains, format_urls, internal_links,
    str_views,
};
use crate::record::{marks_not_found, settled, title_marks_not_found, Url, UrlModel};

verus! {

/// What the browser observed when asked to visit a URL.
pub enum Visit {
    /// Navigation failed, or the page that loaded could not be read (its
    /// current URL or its title). The URL is settled as a server error so
    /// that the crawl moves on.
    Failed,
    /// The page rendered: where the browser ended up, the domain of that URL
    /// when it has one, the page title, and the `href` of each anchor.
    Rendered {
        current_url: String,
        page_domain: Option<String>,
        title: String,
        hrefs: Vec<String>,
    },
}

/// The outcome given to a URL whose visit failed.
pub const FAILED_VISIT_CODE: u16 = 500;

/// The number of records of `s` with an outcome.
pub open spec fn settled_count(s: Seq<UrlModel>) -> nat
    decreases s.len(),
{
    if s.len() == 0 {
        0
    } else {
        settled_count(s.drop_last()) + if s.last().response_code is Some {
            1nat
        } else {
            0nat
        }
    }
}

/// Every record of `s` has an outcome.
pub open spec fn all_settled(s: Seq<UrlModel>) -> bool {
    forall|i: int| 0 <= i < s.len() ==> #[trigger] s[i].response_code is Some
}

/// Each of `hrefs` in canonical form against `domain`.
pub open spec fn canonical_links(hrefs: Seq<Seq<char>>, domain: Seq<char>) -> Seq<Seq<char>> {
    hrefs.map_values(|h: Seq<char>| canonical(h, domain))
}

/// The domain of the rendered page, or `fallback` when it has none.
pub open spec fn domain_or(page_domain: Option<String>, fallback: Seq<char>) -> Seq<char> {
    match page_domain {
        Some(d) => d@,
        None => fallback,
    }
}

proof fn lemma_count_update(s: Seq<UrlModel>, i: int, u: UrlModel)
    requires
        0 <= i < s.len(),
    ensures
        settled_count(s.update(i, u)) + (if s[i].response_code is Some {
            1int
        } else {
            0int
        }) == settled_count(s) + (if u.response_code is Some {
            1int
        } else {
            0int
        }),
    decreases s.len(),
{
    let t = s.update(i, u);
    if i == s.len() - 1 {
        assert(t.drop_last() =~= s.drop_last());
    } else {
        assert(t.drop_last() =~= s.drop_last().update(i, u));
        lemma_count_update(s.drop_last(), i, u);
    }
}

proof fn lemma_count_register(s: Seq<UrlModel>, k: Seq<char>, referrer: Seq<char>)
    ensures
        settled_count(register(s, k, referrer)) == settled_count(s),
{
    if has_key(s, k) {
        let i = position(s, k);
        lemma_count_update(
            s,
            i,
            UrlModel { site_references: lookup(s, k).site_references.push(referrer), ..lookup(s, k) },
        );
    } else {
        assert(s.push(fresh(k, referrer)).drop_last() =~= s);
    }
}

proof fn lemma_count_register_all(s: Seq<UrlModel>, keys: Seq<Seq<char>>, referrer: Seq<char>)
    ensures
        settled_count(register_all(s, keys, referrer)) == settled_count(s),
    decreases keys.len(),
{
    if keys.len() > 0 {
        lemma_count_register_all(s, keys.drop_last(), referrer);
        lemma_count_register(register_all(s, keys.drop_last(), referrer), keys.last(), referrer);
    }
}

proof fn lemma_count_bound(s: Seq<UrlModel>)
    ensures
        settled_count(s) <= s.len(),
        settled_count(s) == s.len() ==> all_settled(s),
    decreases s.len(),
{
    if s.len() > 0 {
        lemma_count_bound(s.drop_last());
        if settled_count(s) == s.len() {
            assert forall|i: int| 0 <= i < s.len() implies #[trigger] s[i].response_code is Some by {
                if i < s.len() - 1 {
                    assert(s.drop_last()[i] == s[i]);
                }
            }
        }
    }
}

proof fn lemma_count_all_settled(s: Seq<UrlModel>)
    requires
        all_settled(s),
    ensures
        settled_count(s) == s.len(),
    decreases s.len(),
{
    if s.len() > 0 {
        assert(all_settled(s.drop_last())) by {
            assert forall|i: int| 0 <= i < s.drop_last().len() implies #[trigger] s.drop_last()[i].response_code is Some by {
                assert(s.drop_last()[i] == s[i]);
            }
        }
        lemma_count_all_settled(s.drop_last());
    }
}

/// Notes the links `urls` found on the page `host` of `current_domain`: each
/// is put in canonical form against `current_domain`, then registered as
/// linked from `host` in `url_index` when internal to `domain_list`, in
/// `external_url_index` otherwise. Returns the internal links.
pub fn add_to_list(
    urls: Vec<String>,
    host: String,
    domain_list: &Vec<String>,
    url_index: &mut UrlIndex,
    external_url_index: &mut UrlIndex,
    current_domain: String,
) -> (r: Vec<String>)
    requires
        old(url_index).wf(),
        old(external_url_index).wf(),
    ensures
        final(url_index).wf(),
        final(external_url_index).wf(),
        str_views(r@) == internal_links(
            canonical_links(str_views(urls@), current_domain@),
            str_views(domain_list@),
        ),
        final(url_index)@ == register_all(
            old(url_index)@,
            internal_links(
                canonical_links(str_views(urls@), current_domain@),
                str_views(domain_list@),
            ),
            host@,
        ),
        final(external_url_index)@ == register_all(
            old(external_url_index)@,
            external_links(
                canonical_links(str_views(urls@), current_domain@),
                str_views(domain_list@),
            ),
            host@,
        ),
{
    let ghost links = canonical_links(str_views(urls@), current_domain@);
    let formatted = format_urls(current_domain, urls);
    assert(str_views(formatted@) =~= links);
    let (internal_urls, external_urls) = filter_domains(formatted, clone_strings(domain_list));
    url_index.add_links(&internal_urls, &host);
    external_url_index.add_links(&external_urls, &host);
    internal_urls
}

/// The state of a crawl: the internal and external indexes, the allow-list,
/// the not-found title marker, the starting domain (the allow-list's
/// default, and the domain of pages that have none), and the number of
/// visits made.
pub struct Crawler {
    internal: UrlIndex,
    external: UrlIndex,
    domains: Vec<String>,
    not_found_title: String,
    starting_domain: String,
    visits: usize,
}

impl Crawler {
    pub closed spec fn internal_view(&self) -> Seq<UrlModel> {
        self.internal@
    }

    pub closed spec fn external_view(&self) -> Seq<UrlModel> {
        self.external@
    }

    pub closed spec fn allow_list(&self) -> Seq<Seq<char>> {
        str_views(self.domains@)
    }

    pub closed spec fn marker(&self) -> Seq<char> {
        self.not_found_title@
    }

    pub closed spec fn starting_domain(&self) -> Seq<char> {
        self.starting_domain@
    }

    pub closed spec fn visits(&self) -> nat {
        self.visits as nat
    }

    /// Both indexes have unique keys, and each visit made has settled one
    /// internal record.
    pub closed spec fn wf(&self) -> bool {
        &&& self.internal.wf()
        &&& self.external.wf()
        &&& self.visits == settled_count(self.internal@)
    }

    /// The crawl is bounded: each visit settles exactly one pending internal
    /// record and no record ever returns to pending, so the visits made
    /// equal the settled internal records and never outnumber the internal
    /// URLs discovered; the URLs still to visit are the rest. With finitely
    /// many reachable internal URLs the crawl thus ends after at most that
    /// many visits, and it ends (`next_pending` gives `None`) exactly when
    /// every internal record is settled.
    pub proof fn lemma_visits_bounded(&self)
        requires
            self.wf(),
        ensures
            self.visits() == settled_count(self.internal_view()),
            self.visits() <= self.internal_view().len(),
            self.visits() == self.internal_view().len() <==> all_settled(self.internal_view()),
    {
        lemma_count_bound(self.internal_view());
        if all_settled(self.internal_view()) {
            lemma_count_all_settled(self.internal_view());
        }
    }

    /// A crawl from `starting_url`, whose record is pending and references
    /// itself. The allow-list is `domains`, or `starting_domain` (the domain
    /// of `starting_url`) alone when `domains` is empty; links of pages
    /// without a domain are resolved against `starting_domain`.
    pub fn new(
        starting_url: String,
        domains: Vec<String>,
        not_found_title: String,
        starting_domain: String,
    ) -> (r: Crawler)
        ensures
            r.wf(),
            r.internal_view() == seq![fresh(starting_url@, starting_url@)],
            r.external_view() == Seq::<UrlModel>::empty(),
            r.allow_list() == if domains@.len() == 0 {
                seq![starting_domain@]
            } else {
                str_views(domains@)
            },
            r.marker() == not_found_title@,
            r.starting_domain() == starting_domain@,
            r.visits() == 0,
    {
        let mut internal = UrlIndex::new();
        internal.add_link(starting_url.clone(), starting_url.clone());
        assert(internal@ =~= seq![fresh(starting_url@, starting_url@)]);
        assert(settled_count(internal@) == 0) by {
            assert(internal@.drop_last() =~= Seq::<UrlModel>::empty());
            assert(settled_count(Seq::<UrlModel>::empty()) == 0);
        }
        let allow = if domains.len() == 0 {
            let mut v: Vec<String> = Vec::new();
            v.push(starting_domain.clone());
            assert(str_views(v@) =~= seq![starting_domain@]);
            v
        } else {
            domains
        };
        Crawler {
            internal,
            external: UrlIndex::new(),
            domains: allow,
            not_found_title,
            starting_domain,
            visits: 0,
        }
    }

    /// The number of visits made.
    pub fn visit_count(&self) -> (r: usize)
        ensures
            r == self.visits(),
    {
        self.visits
    }

    /// The internal index.
    pub fn internal(&self) -> (r: &UrlIndex)
        requires
            self.wf(),
        ensures
            r.wf(),
            r@ == self.internal_view(),
    {
        &self.internal
    }

    /// The external index.
    pub fn external(&self) -> (r: &UrlIndex)
        requires
            self.wf(),
        ensures
            r.wf(),
            r@ == self.external_view(),
    {
        &self.external
    }

    /// The internal and the external index.
    pub fn into_indexes(self) -> (r: (UrlIndex, UrlIndex))
        requires
            self.wf(),
        ensures
            r.0.wf(),
            r.1.wf(),
            r.0@ == self.internal_view(),
            r.1@ == self.external_view(),
    {
        (self.internal, self.external)
    }

    /// An internal URL still without an outcome, the earliest discovered;
    /// `None` once every internal URL has one.
    pub fn next_pending(&self) -> (r: Option<String>)
        requires
            self.wf(),
        ensures
            r is None <==> all_settled(self.internal_view()),
            r matches Some(u) ==> has_key(self.internal_view(), u@) && lookup(
                self.internal_view(),
                u@,
            ).response_code is None,
    {
        let records = self.internal.records();
        let ghost view = self.internal@;
        let mut i: usize = 0;
        while i < records.len()
            invariant
                self.wf(),
                view == self.internal@,
                records@.map_values(|u: Url| u@) == view,
                i <= records@.len(),
                forall|k: int| 0 <= k < i ==> #[trigger] view[k].response_code is Some,
            decreases records@.len() - i,
        {
            assert(view[i as int] == records@[i as int]@);
            if records[i].response_code.is_none() {
                let u = records[i].full_path.clone();
                proof {
                    lemma_position(view, u@, i as int);
                }
                return Some(u);
            }
            i = i + 1;
        }
        None
    }

    /// Takes in what the browser observed on visiting the pending internal
    /// URL `url`. A failed visit settles it as a server error. A rendered
    /// page settles it by its title and by where the browser ended up (see
    /// `settled`); then each anchor of the page is put in canonical form
    /// against the page's domain (the starting domain when it has none) and
    /// registered as linked from the page's URL, in the internal index when
    /// it is internal to the allow-list, in the external index otherwise.
    pub fn record_visit(&mut self, url: &String, visit: Visit)
        requires
            old(self).wf(),
            has_key(old(self).internal_view(), url@),
            lookup(old(self).internal_view(), url@).response_code is None,
        ensures
            final(self).wf(),
            final(self).visits() == old(self).visits() + 1,
            final(self).allow_list() == old(self).allow_list(),
            final(self).marker() == old(self).marker(),
            final(self).starting_domain() == old(self).starting_domain(),
            ({
                let before = old(self).internal_view();
                let i = position(before, url@);
                match visit {
                    Visit::Failed => {
                        &&& final(self).internal_view() == before.update(
                            i,
                            UrlModel { response_code: Some(FAILED_VISIT_CODE), ..before[i] },
                        )
                        &&& final(self).external_view() == old(self).external_view()
                    },
                    Visit::Rendered { current_url, page_domain, title, hrefs } => {
                        let links = canonical_links(
                            str_views(hrefs@),
                            domain_or(page_domain, old(self).starting_domain()),
                        );
                        let first = before.update(
                            i,
                            settled(
                                before[i],
                                current_url@,
                                marks_not_found(title@, old(self).marker()),
                            ),
                        );
                        &&& final(self).internal_view() == register_all(
                            first,
                            internal_links(links, old(self).allow_list()),
                            current_url@,
                        )
                        &&& final(self).external_view() == register_all(
                            old(self).external_view(),
                            external_links(links, old(self).allow_list()),
                            current_url@,
                        )
                    },
                }
            }),
    {
        let n = self.internal.len();
        proof {
            let before = self.internal@;
            let p = position(before, url@);
            lemma_count_bound(before);
            assert(!all_settled(before)) by {
                assert(before[p].response_code is None);
            }
        }
        let i = match self.internal.find(url) {
            Some(i) => i,
            None => {
                return;
            },
        };
        let ghost before = self.internal@;
        match visit {
            Visit::Failed => {
                self.internal.set_response_code_at(i, FAILED_VISIT_CODE);
                proof {
                    lemma_count_update(
                        before,
                        i as int,
                        UrlModel { response_code: Some(FAILED_VISIT_CODE), ..before[i as int] },
                    );
                }
            },
            Visit::Rendered { current_url, page_domain, title, hrefs } => {
                let not_found = title_marks_not_found(title.as_str(), self.not_found_title.as_str());
                self.internal.record_outcome_at(i, &current_url, not_found);
                proof {
                    lemma_count_update(
                        before,
                        i as int,
                        settled(before[i as int], current_url@, not_found),
                    );
                }
                let ghost first = self.internal@;
                let domain = match page_domain {
                    Some(d) => d,
                    None => self.starting_domain.clone(),
                };
                let _ = add_to_list(
                    hrefs,
                    current_url,
                    &self.domains,
                    &mut self.internal,
                    &mut self.external,
                    domain,
                );
                proof {
                    lemma_count_register_all(
                        first,
                        internal_links(
                            canonical_links(
                                str_views(hrefs@),
                                domain_or(page_domain, old(self).starting_domain()),
                            ),
                            old(self).allow_list(),
                        ),
                        current_url@,
                    );
                }
            },
        }
        self.visits = self.visits + 1;
    }
}

} // verus!
