//! A collection of URL records keyed by their canonical form.

use vstd::prelude::*;
use crate::normalize::str_views;
use crate::record::{answered, settled, Url, UrlModel};

verus! {

/// No two records share a key.
pub open spec fn unique_keys(s: Seq<UrlModel>) -> bool {
    forall|i: int, j: int|
        0 <= i < s.len() && 0 <= j < s.len() && i != j ==> s[i].full_path != s[j].full_path
}

/// Some record has the key `k`.
pub open spec fn has_key(s: Seq<UrlModel>, k: Seq<char>) -> bool {
    exists|i: int| 0 <= i < s.len() && #[trigger] s[i].full_path == k
}

/// Where the record of key `k` stands.
pub open spec fn position(s: Seq<UrlModel>, k: Seq<char>) -> int {
    choose|i: int| 0 <= i < s.len() && #[trigger] s[i].full_path == k
}

/// The record of key `k`.
pub open spec fn lookup(s: Seq<UrlModel>, k: Seq<char>) -> UrlModel {
    s[position(s, k)]
}

/// A pending record of `k` first seen on `referrer`.
pub open spec fn fresh(k: Seq<char>, referrer: Seq<char>) -> UrlModel {
    UrlModel {
        response_code: None,
        full_path: k,
        site_references: seq![referrer],
        redirected_to: None,
    }
}

/// Notes that `referrer` links to `k`: one more reference on the record of
/// `k` when there is one, else a new pending record at the end.
pub open spec fn register(s: Seq<UrlModel>, k: Seq<char>, referrer: Seq<char>) -> Seq<UrlModel> {
    if has_key(s, k) {
        s.update(
            position(s, k),
            UrlModel {
                site_references: lookup(s, k).site_references.push(referrer),
                ..lookup(s, k)
            },
        )
    } else {
        s.push(fresh(k, referrer))
    }
}

/// Notes that `referrer` links to each of `keys`, in order.
pub open spec fn register_all(s: Seq<UrlModel>, keys: Seq<Seq<char>>, referrer: Seq<char>) -> Seq<
    UrlModel,
>
    decreases keys.len(),
{
    if keys.len() == 0 {
        s
    } else {
        register(register_all(s, keys.drop_last(), referrer), keys.last(), referrer)
    }
}

pub(crate) proof fn lemma_position(s: Seq<UrlModel>, k: Seq<char>, i: int)
    requires
        unique_keys(s),
        0 <= i < s.len(),
        s[i].full_path == k,
    ensures
        has_key(s, k),
        position(s, k) == i,
        lookup(s, k) == s[i],
{
}

proof fn lemma_update_same_key(s: Seq<UrlModel>, i: int, u: UrlModel)
    requires
        unique_keys(s),
        0 <= i < s.len(),
        u.full_path == s[i].full_path,
    ensures
        unique_keys(s.update(i, u)),
{
    let t = s.update(i, u);
    assert forall|a: int, b: int|
        0 <= a < t.len() && 0 <= b < t.len() && a != b implies t[a].full_path
        != t[b].full_path by {
        assert(t[a].full_path == s[a].full_path);
        assert(t[b].full_path == s[b].full_path);
    }
}

proof fn lemma_register_unique(s: Seq<UrlModel>, k: Seq<char>, referrer: Seq<char>)
    requires
        unique_keys(s),
    ensures
        unique_keys(register(s, k, referrer)),
        register(s, k, referrer).len() == s.len() + if has_key(s, k) { 0int } else { 1int },
{
    if has_key(s, k) {
        let i = position(s, k);
        let t = register(s, k, referrer);
        assert forall|a: int, b: int|
            0 <= a < t.len() && 0 <= b < t.len() && a != b implies t[a].full_path
            != t[b].full_path by {
            assert(t[a].full_path == s[a].full_path);
            assert(t[b].full_path == s[b].full_path);
        }
    } else {
        let t = register(s, k, referrer);
        assert forall|a: int, b: int|
            0 <= a < t.len() && 0 <= b < t.len() && a != b implies t[a].full_path
            != t[b].full_path by {
            if a == s.len() {
                assert(s[b].full_path != k);
            } else if b == s.len() {
                assert(s[a].full_path != k);
            }
        }
    }
}

/// References aggregate: once `k` is registered as linked from `a` and then
/// from `b`, its record holds all its earlier references followed by `a` and
/// `b` (duplicates kept), whether or not it was known before.
pub proof fn lemma_references_aggregate(
    s: Seq<UrlModel>,
    k: Seq<char>,
    a: Seq<char>,
    b: Seq<char>,
)
    requires
        unique_keys(s),
    ensures
        has_key(register(register(s, k, a), k, b), k),
        lookup(register(register(s, k, a), k, b), k).site_references == (if has_key(s, k) {
            lookup(s, k).site_references
        } else {
            Seq::empty()
        }) + seq![a, b],
        lookup(register(register(s, k, a), k, b), k).site_references.contains(a),
        lookup(register(register(s, k, a), k, b), k).site_references.contains(b),
{
    let s1 = register(s, k, a);
    let s2 = register(s1, k, b);
    lemma_register_unique(s, k, a);
    lemma_register_unique(s1, k, b);
    let p: int = if has_key(s, k) {
        position(s, k)
    } else {
        s.len() as int
    };
    lemma_position(s1, k, p);
    lemma_position(s2, k, p);
    let earlier: Seq<Seq<char>> = if has_key(s, k) {
        lookup(s, k).site_references
    } else {
        Seq::empty()
    };
    if !has_key(s, k) {
        assert(seq![a] =~= earlier.push(a));
    }
    let refs = lookup(s2, k).site_references;
    assert(refs =~= earlier + seq![a, b]);
    assert(refs[refs.len() - 2] == a);
    assert(refs[refs.len() - 1] == b);
}

/// URL records with unique keys, in the order of their discovery.
pub struct UrlIndex {
    records: Vec<Url>,
}

impl View for UrlIndex {
    type V = Seq<UrlModel>;

    closed spec fn view(&self) -> Seq<UrlModel> {
        self.records@.map_values(|u: Url| u@)
    }
}

impl UrlIndex {
    pub open spec fn wf(&self) -> bool {
        unique_keys(self@)
    }

    /// An index without records.
    pub fn new() -> (r: UrlIndex)
        ensures
            r.wf(),
            r@ == Seq::<UrlModel>::empty(),
    {
        let r = UrlIndex { records: Vec::new() };
        assert(r@ =~= Seq::<UrlModel>::empty());
        r
    }

    /// The number of records.
    pub fn len(&self) -> (r: usize)
        ensures
            r == self@.len(),
    {
        self.records.len()
    }

    /// The records, in the order of their discovery.
    pub fn records(&self) -> (r: &Vec<Url>)
        ensures
            r@.map_values(|u: Url| u@) == self@,
    {
        &self.records
    }

    /// The records, in the order of their discovery.
    pub fn into_records(self) -> (r: Vec<Url>)
        ensures
            r@.map_values(|u: Url| u@) == self@,
    {
        self.records
    }

    /// Where the record of `key` stands, if there is one.
    pub fn find(&self, key: &String) -> (r: Option<usize>)
        requires
            self.wf(),
        ensures
            r is None <==> !has_key(self@, key@),
            r matches Some(i) ==> i == position(self@, key@) && i < self@.len(),
    {
        let mut i: usize = 0;
        while i < self.records.len()
            invariant
                self.wf(),
                i <= self@.len(),
                self@.len() == self.records@.len(),
                forall|k: int| 0 <= k < i ==> #[trigger] self@[k].full_path != key@,
            decreases self.records@.len() - i,
        {
            assert(self@[i as int] == self.records@[i as int]@);
            if self.records[i].full_path == *key {
                proof {
                    lemma_position(self@, key@, i as int);
                }
                return Some(i);
            }
            i = i + 1;
        }
        None
    }

    /// The record of `key`, if there is one.
    pub fn get(&self, key: &String) -> (r: Option<&Url>)
        requires
            self.wf(),
        ensures
            r is None <==> !has_key(self@, key@),
            r matches Some(u) ==> u@ == lookup(self@, key@),
    {
        match self.find(key) {
            Some(i) => Some(&self.records[i]),
            None => None,
        }
    }

    /// Notes that `referrer` links to `key` (see `register`).
    pub fn add_link(&mut self, key: String, referrer: String)
        requires
            old(self).wf(),
        ensures
            final(self).wf(),
            final(self)@ == register(old(self)@, key@, referrer@),
    {
        proof {
            lemma_register_unique(self@, key@, referrer@);
        }
        match self.find(&key) {
            Some(i) => {
                self.records[i].add_reference(referrer);
                assert(self@ =~= register(old(self)@, key@, referrer@));
            },
            None => {
                let u = Url::new(key, None, referrer);
                self.records.push(u);
                assert(self@ =~= register(old(self)@, key@, referrer@));
            },
        }
    }

    /// Notes that `referrer` links to each of `keys`, in order.
    pub fn add_links(&mut self, keys: &Vec<String>, referrer: &String)
        requires
            old(self).wf(),
        ensures
            final(self).wf(),
            final(self)@ == register_all(old(self)@, str_views(keys@), referrer@),
    {
        let mut i: usize = 0;
        assert(str_views(keys@.subrange(0, 0)) =~= Seq::<Seq<char>>::empty());
        while i < keys.len()
            invariant
                i <= keys@.len(),
                self.wf(),
                self@ == register_all(
                    old(self)@,
                    str_views(keys@.subrange(0, i as int)),
                    referrer@,
                ),
            decreases keys@.len() - i,
        {
            self.add_link(keys[i].clone(), referrer.clone());
            assert(str_views(keys@.subrange(0, i + 1)).drop_last() =~= str_views(
                keys@.subrange(0, i as int),
            ));
            i = i + 1;
        }
        assert(keys@.subrange(0, keys@.len() as int) =~= keys@);
    }

    /// Gives the record at `i` the outcome `code`.
    pub fn set_response_code_at(&mut self, i: usize, code: u16)
        requires
            old(self).wf(),
            i < old(self)@.len(),
        ensures
            final(self).wf(),
            final(self)@ == old(self)@.update(
                i as int,
                UrlModel { response_code: Some(code), ..old(self)@[i as int] },
            ),
    {
        proof {
            lemma_update_same_key(
                self@,
                i as int,
                UrlModel { response_code: Some(code), ..self@[i as int] },
            );
        }
        self.records[i].set_response_code_(code);
        assert(self@ =~= old(self)@.update(
            i as int,
            UrlModel { response_code: Some(code), ..old(self)@[i as int] },
        ));
    }

    /// Settles the record at `i` as a page that rendered (see `settled`).
    pub fn record_outcome_at(&mut self, i: usize, current_url: &String, not_found: bool)
        requires
            old(self).wf(),
            i < old(self)@.len(),
        ensures
            final(self).wf(),
            final(self)@ == old(self)@.update(
                i as int,
                settled(old(self)@[i as int], current_url@, not_found),
            ),
    {
        proof {
            lemma_update_same_key(
                self@,
                i as int,
                settled(self@[i as int], current_url@, not_found),
            );
        }
        self.records[i].record_outcome(current_url, not_found);
        assert(self@ =~= old(self)@.update(
            i as int,
            settled(old(self)@[i as int], current_url@, not_found),
        ));
    }

    /// Records the answer to a direct request of the record at `i` (see
    /// `answered`).
    pub fn record_reply_at(&mut self, i: usize, status: u16, final_url: String)
        requires
            old(self).wf(),
            i < old(self)@.len(),
        ensures
            final(self).wf(),
            final(self)@ == old(self)@.update(
                i as int,
                answered(old(self)@[i as int], status, final_url@),
            ),
    {
        proof {
            lemma_update_same_key(
                self@,
                i as int,
                answered(self@[i as int], status, final_url@),
            );
        }
        let ghost fu = final_url@;
        self.records[i].record_reply(status, final_url);
        assert(self@ =~= old(self)@.update(
            i as int,
            answered(old(self)@[i as int], status, fu),
        ));
    }
}

/// Notes that the page `current_url` links to each of `external_urls`.
pub fn index_external_urls(
    external_urls: Vec<String>,
    external_url_index: &mut UrlIndex,
    current_url: String,
)
    requires
        old(external_url_index).wf(),
    ensures
        final(external_url_index).wf(),
        final(external_url_index)@ == register_all(
            old(external_url_index)@,
            str_views(external_urls@),
            current_url@,
        ),
{
    external_url_index.add_links(&external_urls, &current_url);
}

} // verus!
