//! Canonical form of discovered links, and their classification as internal
//! or external to an allow-list of domains.

use vstd::prelude::*;
use crate::text::{
    before_fragment, concat, has_prefix, is_space, starts_with, strip_fragment, trim, trim_end,
    trim_start, trimmed,
};

verus! {

pub open spec fn http_seq() -> Seq<char> {
    seq!['h', 't', 't', 'p']
}

pub open spec fn https_scheme() -> Seq<char> {
    seq!['h', 't', 't', 'p', 's', ':', '/', '/']
}

pub open spec fn http_scheme() -> Seq<char> {
    seq!['h', 't', 't', 'p', ':', '/', '/']
}

/// The views of a sequence of strings.
pub open spec fn str_views(v: Seq<String>) -> Seq<Seq<char>> {
    v.map_values(|s: String| s@)
}

/// `d` without its trailing slashes.
pub open spec fn strip_trailing_slashes(d: Seq<char>) -> Seq<char>
    decreases d.len(),
{
    if d.len() > 0 && d.last() == '/' {
        strip_trailing_slashes(d.drop_last())
    } else {
        d
    }
}

/// The absolute prefix put before root-relative links found on a page of
/// `domain`: the domain without trailing slashes, with `https://` in front
/// unless it already begins with `http`.
pub open spec fn site_base(domain: Seq<char>) -> Seq<char> {
    let d = strip_trailing_slashes(domain);
    if has_prefix(d, http_seq()) {
        d
    } else {
        https_scheme() + d
    }
}

/// A link with its surrounding white space and its fragment removed.
pub open spec fn link_core(raw: Seq<char>) -> Seq<char> {
    strip_fragment(trimmed(raw))
}

/// The canonical absolute form of the link `raw` found on a page of `domain`.
/// A link that begins with `http` is kept; any other is taken as
/// root-relative: a `/` goes in front of it unless it is empty or begins with
/// `/` or `?`, and the site base in front of that.
pub open spec fn canonical(raw: Seq<char>, domain: Seq<char>) -> Seq<char> {
    let u = link_core(raw);
    if has_prefix(u, http_seq()) {
        u
    } else if u.len() == 0 || u[0] == '/' || u[0] == '?' {
        site_base(domain) + u
    } else {
        site_base(domain) + seq!['/'] + u
    }
}

/// `url` falls under the allow-list entry `d`: it begins with `d` where `d`
/// carries a scheme, else with `https://` or `http://` followed by `d`.
pub open spec fn under_domain(url: Seq<char>, d: Seq<char>) -> bool {
    if has_prefix(d, http_seq()) {
        has_prefix(url, d)
    } else {
        has_prefix(url, https_scheme() + d) || has_prefix(url, http_scheme() + d)
    }
}

/// A link is internal when it does not begin with `http`, or when it falls
/// under some entry of the allow-list.
pub open spec fn internal(url: Seq<char>, domains: Seq<Seq<char>>) -> bool {
    !has_prefix(url, http_seq()) || exists|i: int|
        0 <= i < domains.len() && #[trigger] under_domain(url, domains[i])
}

fn http_literal() -> (r: &'static str)
    ensures
        r@ == http_seq(),
{
    let r = "http";
    proof {
        reveal_strlit("http");
    }
    assert(r@ =~= http_seq());
    r
}

fn https_literal() -> (r: &'static str)
    ensures
        r@ == https_scheme(),
{
    let r = "https://";
    proof {
        reveal_strlit("https://");
    }
    assert(r@ =~= https_scheme());
    r
}

fn http_scheme_literal() -> (r: &'static str)
    ensures
        r@ == http_scheme(),
{
    let r = "http://";
    proof {
        reveal_strlit("http://");
    }
    assert(r@ =~= http_scheme());
    r
}

/// The site base of `domain` (see `site_base`).
pub fn base_of(domain: &str) -> (r: String)
    ensures
        r@ == site_base(domain@),
{
    let n = domain.unicode_len();
    let mut j: usize = n;
    assert(domain@.subrange(0, n as int) =~= domain@);
    while j > 0 && domain.get_char(j - 1) == '/'
        invariant
            n == domain@.len(),
            j <= n,
            strip_trailing_slashes(domain@) == strip_trailing_slashes(
                domain@.subrange(0, j as int),
            ),
        decreases j,
    {
        assert(domain@.subrange(0, j as int).drop_last() =~= domain@.subrange(0, j - 1));
        j = j - 1;
    }
    let d = domain.substring_char(0, j);
    if starts_with(d, http_literal()) {
        String::from_str(d)
    } else {
        concat(https_literal(), d)
    }
}

/// Puts `raw` in canonical form against an already computed site base.
fn attach(base: &str, raw: &str) -> (r: String)
    ensures
        r@ == ({
            let u = link_core(raw@);
            if has_prefix(u, http_seq()) {
                u
            } else if u.len() == 0 || u[0] == '/' || u[0] == '?' {
                base@ + u
            } else {
                base@ + seq!['/'] + u
            }
        }),
{
    let t = trim(raw);
    let u = before_fragment(t.as_str());
    let us = u.as_str();
    if starts_with(us, http_literal()) {
        return u;
    }
    let n = us.unicode_len();
    if n == 0 || us.get_char(0) == '/' || us.get_char(0) == '?' {
        concat(base, us)
    } else {
        let mut r = String::from_str(base);
        let slash = "/";
        proof {
            reveal_strlit("/");
        }
        r.append(slash);
        r.append(us);
        assert(r@ =~= base@ + seq!['/'] + us@);
        r
    }
}

/// The canonical absolute form of the link `raw` found on a page of `domain`.
pub fn canonicalize(raw: &str, domain: &str) -> (r: String)
    ensures
        r@ == canonical(raw@, domain@),
{
    let base = base_of(domain);
    attach(base.as_str(), raw)
}

/// Each link of `urls` in canonical form against `domain`, in order.
pub fn format_urls(domain: String, urls: Vec<String>) -> (r: Vec<String>)
    ensures
        r@.len() == urls@.len(),
        forall|i: int| 0 <= i < urls@.len() ==> #[trigger] r@[i]@ == canonical(urls@[i]@, domain@),
{
    let base = base_of(domain.as_str());
    let mut r: Vec<String> = Vec::new();
    let mut i: usize = 0;
    while i < urls.len()
        invariant
            i <= urls@.len(),
            base@ == site_base(domain@),
            r@.len() == i,
            forall|k: int| 0 <= k < i ==> #[trigger] r@[k]@ == canonical(urls@[k]@, domain@),
        decreases urls@.len() - i,
    {
        let c = attach(base.as_str(), urls[i].as_str());
        r.push(c);
        i = i + 1;
    }
    r
}

/// Whether `url` is internal to the allow-list `domains` (see `internal`).
pub fn is_internal(url: String, domains: &Vec<String>) -> (r: bool)
    ensures
        r == internal(url@, str_views(domains@)),
{
    let u = url.as_str();
    if !starts_with(u, http_literal()) {
        return true;
    }
    let ghost ds = str_views(domains@);
    let mut i: usize = 0;
    while i < domains.len()
        invariant
            i <= domains@.len(),
            ds == str_views(domains@),
            u@ == url@,
            forall|k: int| 0 <= k < i ==> !under_domain(u@, #[trigger] ds[k]),
        decreases domains@.len() - i,
    {
        let d = domains[i].as_str();
        let found = if starts_with(d, http_literal()) {
            starts_with(u, d)
        } else {
            let with_https = concat(https_literal(), d);
            let with_http = concat(http_scheme_literal(), d);
            starts_with(u, with_https.as_str()) || starts_with(u, with_http.as_str())
        };
        assert(ds[i as int] == d@);
        if found {
            assert(under_domain(url@, ds[i as int]));
            return true;
        }
        i = i + 1;
    }
    false
}

/// A copy of `v`.
pub fn clone_strings(v: &Vec<String>) -> (r: Vec<String>)
    ensures
        r@ == v@,
{
    let mut r: Vec<String> = Vec::new();
    let mut i: usize = 0;
    while i < v.len()
        invariant
            i <= v@.len(),
            r@ == v@.subrange(0, i as int),
        decreases v@.len() - i,
    {
        r.push(v[i].clone());
        assert(r@ =~= v@.subrange(0, i + 1));
        i = i + 1;
    }
    assert(r@ =~= v@);
    r
}

/// The internal links of `urls`, in order.
pub open spec fn internal_links(urls: Seq<Seq<char>>, domains: Seq<Seq<char>>) -> Seq<Seq<char>> {
    urls.filter(|u: Seq<char>| internal(u, domains))
}

/// The external links of `urls`, in order.
pub open spec fn external_links(urls: Seq<Seq<char>>, domains: Seq<Seq<char>>) -> Seq<Seq<char>> {
    urls.filter(|u: Seq<char>| !internal(u, domains))
}

proof fn lemma_links_push(urls: Seq<Seq<char>>, domains: Seq<Seq<char>>, u: Seq<char>)
    ensures
        internal_links(urls.push(u), domains) == if internal(u, domains) {
            internal_links(urls, domains).push(u)
        } else {
            internal_links(urls, domains)
        },
        external_links(urls.push(u), domains) == if internal(u, domains) {
            external_links(urls, domains)
        } else {
            external_links(urls, domains).push(u)
        },
{
    urls.lemma_filter_push(u, |u: Seq<char>| internal(u, domains));
    urls.lemma_filter_push(u, |u: Seq<char>| !internal(u, domains));
}

/// Splits `urls` into the internal links and the external ones, each in
/// their original order.
pub fn filter_domains(urls: Vec<String>, domain_list: Vec<String>) -> (r: (
    Vec<String>,
    Vec<String>,
))
    ensures
        str_views(r.0@) == internal_links(str_views(urls@), str_views(domain_list@)),
        str_views(r.1@) == external_links(str_views(urls@), str_views(domain_list@)),
{
    let ghost ds = str_views(domain_list@);
    let mut internal_urls: Vec<String> = Vec::new();
    let mut external_urls: Vec<String> = Vec::new();
    let mut i: usize = 0;
    assert(str_views(urls@.subrange(0, 0)) =~= Seq::<Seq<char>>::empty());
    assert(str_views(internal_urls@) =~= Seq::<Seq<char>>::empty());
    assert(str_views(external_urls@) =~= Seq::<Seq<char>>::empty());
    while i < urls.len()
        invariant
            i <= urls@.len(),
            ds == str_views(domain_list@),
            str_views(internal_urls@) == internal_links(str_views(urls@.subrange(0, i as int)), ds),
            str_views(external_urls@) == external_links(str_views(urls@.subrange(0, i as int)), ds),
        decreases urls@.len() - i,
    {
        let u = urls[i].clone();
        let keep = is_internal(urls[i].clone(), &domain_list);
        let ghost before = str_views(urls@.subrange(0, i as int));
        assert(str_views(urls@.subrange(0, i + 1)) =~= before.push(u@));
        proof {
            lemma_links_push(before, ds, u@);
        }
        let ghost old_in = internal_urls@;
        let ghost old_out = external_urls@;
        if keep {
            internal_urls.push(u);
            assert(str_views(internal_urls@) =~= str_views(old_in).push(u@));
        } else {
            external_urls.push(u);
            assert(str_views(external_urls@) =~= str_views(old_out).push(u@));
        }
        i = i + 1;
    }
    assert(urls@.subrange(0, urls@.len() as int) =~= urls@);
    (internal_urls, external_urls)
}

/// `s` holds no `#`.
pub open spec fn no_hash(s: Seq<char>) -> bool {
    forall|i: int| 0 <= i < s.len() ==> s[i] != '#'
}

proof fn lemma_strip_fragment(s: Seq<char>)
    ensures
        strip_fragment(s).len() <= s.len(),
        strip_fragment(s) == s.subrange(0, strip_fragment(s).len() as int),
        no_hash(strip_fragment(s)),
        no_hash(s) ==> strip_fragment(s) == s,
    decreases s.len(),
{
    if s.len() > 0 && s[0] != '#' {
        lemma_strip_fragment(s.drop_first());
        let r = strip_fragment(s.drop_first());
        assert(seq![s[0]] + r =~= s.subrange(0, r.len() + 1int));
        if no_hash(s) {
            assert(no_hash(s.drop_first()));
            assert(seq![s[0]] + s.drop_first() =~= s);
        }
    } else if s.len() > 0 {
        assert(strip_fragment(s) =~= s.subrange(0, 0));
    }
}

proof fn lemma_strip_before_hash(t: Seq<char>, rest: Seq<char>)
    requires
        no_hash(t),
        rest.len() > 0,
        rest[0] == '#',
    ensures
        strip_fragment(t + rest) == t,
    decreases t.len(),
{
    if t.len() == 0 {
        assert(t + rest =~= rest);
        assert(strip_fragment(rest) =~= t);
    } else {
        assert((t + rest).drop_first() =~= t.drop_first() + rest);
        lemma_strip_before_hash(t.drop_first(), rest);
        assert(seq![t[0]] + t.drop_first() =~= t);
    }
}

proof fn lemma_trim_start_suffix(x: Seq<char>)
    ensures
        trim_start(x).len() <= x.len(),
        trim_start(x) == x.subrange(x.len() - trim_start(x).len(), x.len() as int),
    decreases x.len(),
{
    if x.len() > 0 && is_space(x[0]) {
        let x1 = x.drop_first();
        lemma_trim_start_suffix(x1);
        let l = trim_start(x).len();
        assert(x1.subrange(x1.len() - l, x1.len() as int) =~= x.subrange(
            x.len() - l,
            x.len() as int,
        ));
    } else {
        assert(x.subrange(0, x.len() as int) =~= x);
    }
}

proof fn lemma_trim_start_hash(x: Seq<char>, f: Seq<char>)
    ensures
        trim_start(x + seq!['#'] + f) == trim_start(x) + seq!['#'] + f,
    decreases x.len(),
{
    let s = x + seq!['#'] + f;
    if x.len() > 0 && is_space(x[0]) {
        assert(s.drop_first() =~= x.drop_first() + seq!['#'] + f);
        lemma_trim_start_hash(x.drop_first(), f);
    } else {
        assert(s[0] == if x.len() > 0 {
            x[0]
        } else {
            '#'
        });
    }
}

proof fn lemma_trim_end_hash(a: Seq<char>, f: Seq<char>)
    ensures
        trim_end(a + seq!['#'] + f) == a + seq!['#'] + trim_end(f),
    decreases f.len(),
{
    let s = a + seq!['#'] + f;
    if f.len() > 0 && is_space(f.last()) {
        assert(s.drop_last() =~= a + seq!['#'] + f.drop_last());
        lemma_trim_end_hash(a, f.drop_last());
    } else {
        assert(s.last() == if f.len() > 0 { f.last() } else { '#' });
    }
}

/// Whether canonical form is stable on the link `raw` of a page of `domain`.
/// It is not when the link's core (trimmed, then cut at its fragment) ends
/// in white space, which the trimming before the cut can leave (`"a #b"`);
/// nor, for a root-relative core, when the site base holds a `#`, or ends in
/// white space while the core is empty.
pub open spec fn canonical_is_stable(raw: Seq<char>, domain: Seq<char>) -> bool {
    let u = link_core(raw);
    let b = site_base(domain);
    &&& (u.len() > 0 ==> !is_space(u.last()))
    &&& (!has_prefix(u, http_seq()) ==> no_hash(b) && (u.len() == 0 ==> !is_space(b.last())))
}

proof fn lemma_site_base_scheme(domain: Seq<char>)
    ensures
        has_prefix(site_base(domain), http_seq()),
{
    let d = strip_trailing_slashes(domain);
    if !has_prefix(d, http_seq()) {
        assert((https_scheme() + d).subrange(0, 4) =~= http_seq());
    }
}

proof fn lemma_core_of_stable(c: Seq<char>)
    requires
        has_prefix(c, http_seq()),
        !is_space(c.last()),
        no_hash(c),
    ensures
        link_core(c) == c,
{
    assert(c[0] == http_seq()[0]);
    assert(trim_start(c) == c);
    assert(trim_end(c) == c);
    lemma_strip_fragment(c);
}

/// Canonical form is idempotent wherever it is stable (see
/// `canonical_is_stable`): putting a canonical link in canonical form again
/// against the same domain gives it back unchanged.
pub proof fn lemma_canonical_idempotent(raw: Seq<char>, domain: Seq<char>)
    requires
        canonical_is_stable(raw, domain),
    ensures
        canonical(canonical(raw, domain), domain) == canonical(raw, domain),
{
    let u = link_core(raw);
    let b = site_base(domain);
    let c = canonical(raw, domain);
    lemma_strip_fragment(trimmed(raw));
    lemma_site_base_scheme(domain);
    if has_prefix(u, http_seq()) {
        lemma_core_of_stable(u);
    } else {
        let sep: Seq<char> = if u.len() == 0 || u[0] == '/' || u[0] == '?' {
            seq![]
        } else {
            seq!['/']
        };
        assert(c =~= b + sep + u);
        assert(c.subrange(0, 4) =~= b.subrange(0, 4));
        assert(c.last() == if u.len() > 0 { u.last() } else { b.last() });
        assert(no_hash(c)) by {
            assert forall|i: int| 0 <= i < c.len() implies c[i] != '#' by {
                if i < b.len() {
                } else if i < b.len() + sep.len() {
                } else {
                    assert(c[i] == u[i - b.len() - sep.len()]);
                }
            }
        }
        lemma_core_of_stable(c);
    }
}

/// The fragment of a link does not count: a link `x` followed by `#` and
/// any fragment `f` has the canonical form of `x`, for every `x` free of
/// `#` whose trimming leaves no trailing white space behind a first visible
/// character (`"/about#section"` and `"/about"` give the same URL).
pub proof fn lemma_fragment_ignored(x: Seq<char>, f: Seq<char>, domain: Seq<char>)
    requires
        no_hash(x),
        trim_end(trim_start(x)) == trim_start(x),
    ensures
        canonical(x + seq!['#'] + f, domain) == canonical(x, domain),
{
    let t = trim_start(x);
    lemma_trim_start_hash(x, f);
    lemma_trim_start_suffix(x);
    lemma_trim_end_hash(t, f);
    assert(no_hash(t)) by {
        assert forall|i: int| 0 <= i < t.len() implies t[i] != '#' by {
            assert(t[i] == x[x.len() - t.len() + i]);
        }
    }
    assert(t + seq!['#'] + trim_end(f) =~= t + (seq!['#'] + trim_end(f)));
    lemma_strip_before_hash(t, seq!['#'] + trim_end(f));
    lemma_strip_fragment(t);
}

} // verus!
