//! The decisions of the registry's HTTP client. The client answers a query from its
//! cache when a live entry holds it; otherwise it names the HTTP request to make and
//! the cache key under which the caller stores the response. Performing the request
//! and reading its JSON are the caller's part.

use std::time::Duration;
use vstd::prelude::*;
use crate::cache::{
    after_lookup, duration_as_secs, duration_secs, is_clock_reading, lookup, set_outcome, unix_now, CacheSlot,
    FileCache,
};
use crate::text::{
    decimal, decimal_string, is_digit, percent_encode, percent_encode_string, search_value,
    search_value_string, law_decimal_injective, law_decimal_is_digits, trim_end_char,
    trim_end_matches_char,
};
use crate::types::{RegistryError, Repo};

verus! {

/// An HTTP GET request against the registry.
pub struct RegistryRequest {
    pub url: String,
    /// Header names and values, in order.
    pub headers: Vec<(String, String)>,
}

/// How a query is to be answered.
pub enum Fetch {
    /// From the cache: the cached JSON text.
    Cached(String),
    /// By performing `request`; its response is to be stored under `cache_key`.
    Request { request: RegistryRequest, cache_key: String },
}

/// The headers of a request made with the key `anon_key`.
pub open spec fn auth_headers(anon_key: Seq<char>) -> Seq<(Seq<char>, Seq<char>)> {
    seq![("apikey"@, anon_key), ("Authorization"@, "Bearer "@ + anon_key)]
}

/// `req` is a GET of `url` carrying the headers for `anon_key`.
pub open spec fn request_is(req: RegistryRequest, url: Seq<char>, anon_key: Seq<char>) -> bool {
    &&& req.url@ == url
    &&& req.headers@.len() == 2
    &&& forall|i: int|
        0 <= i < 2 ==> (#[trigger] req.headers@[i]).0@ == auth_headers(anon_key)[i].0
            && req.headers@[i].1@ == auth_headers(anon_key)[i].1
}

/// `f` answers from the cache with `hit` when there is one, and otherwise asks for
/// `url` to be fetched and stored under `key`.
pub open spec fn fetch_is(
    f: Fetch,
    hit: Option<Seq<char>>,
    url: Seq<char>,
    key: Seq<char>,
    anon_key: Seq<char>,
) -> bool {
    match hit {
        Some(data) => f matches Fetch::Cached(d) && d@ == data,
        None => match f {
            Fetch::Request { request, cache_key } => request_is(request, url, anon_key)
                && cache_key@ == key,
            Fetch::Cached(_) => false,
        },
    }
}

/// One cached query step at Unix time `now`: with no cache, `r` asks for `url`; with a
/// cache `m`, `r` answers with what `m` serves under `key` at `now` (asking for `url`
/// when it serves nothing) and the cache becomes `m` as left by that lookup.
pub open spec fn fetch_at(
    before: Option<Map<Seq<char>, CacheSlot>>,
    after: Option<Map<Seq<char>, CacheSlot>>,
    r: Fetch,
    url: Seq<char>,
    key: Seq<char>,
    anon_key: Seq<char>,
    now: u64,
) -> bool {
    match before {
        None => after is None && fetch_is(r, None, url, key, anon_key),
        Some(m) => {
            &&& after == Some(after_lookup(m, key, now))
            &&& fetch_is(r, lookup(m, key, now), url, key, anon_key)
        },
    }
}

/// The client's cache after storing `json` under `key` at Unix time `now` for
/// `ttl_secs` seconds; without a cache there is nothing to store into.
pub open spec fn store_outcome(
    cache: Option<Map<Seq<char>, CacheSlot>>,
    key: Seq<char>,
    json: Seq<char>,
    ttl_secs: u64,
    now: u64,
) -> Option<Map<Seq<char>, CacheSlot>> {
    match cache {
        Some(m) => Some(set_outcome(m, key, json, ttl_secs, now)),
        None => None,
    }
}

/// One cached query step: with no cache, `r` asks for `url`; with a cache `m`, for
/// some lookup time `now`, `r` answers with what `m` serves under `key` at `now`
/// (asking for `url` when it serves nothing) and the cache becomes `m` as left by
/// that lookup.
pub open spec fn fetch_step(
    before: Option<Map<Seq<char>, CacheSlot>>,
    after: Option<Map<Seq<char>, CacheSlot>>,
    r: Fetch,
    url: Seq<char>,
    key: Seq<char>,
    anon_key: Seq<char>,
) -> bool {
    match before {
        None => after is None && fetch_is(r, None, url, key, anon_key),
        Some(m) => exists|now: u64|
            {
                &&& is_clock_reading(now)
                &&& after == Some(after_lookup(m, key, now))
                &&& fetch_is(r, #[trigger] lookup(m, key, now), url, key, anon_key)
            },
    }
}

/// The cache key of a page of the repo list.
pub open spec fn repos_cache_key(page: nat, per_page: nat) -> Seq<char> {
    "repos:"@ + decimal(page) + ":"@ + decimal(per_page)
}

/// The URL of a page of the repo list, sorted by name.
pub open spec fn repos_url(base: Seq<char>, page: nat, per_page: nat) -> Seq<char> {
    base + "/rest/v1/repos?select=*&order=name.asc&limit="@ + decimal(per_page) + "&offset="@
        + decimal(page * per_page)
}

/// The cache key of a single repo.
pub open spec fn repo_cache_key(name: Seq<char>) -> Seq<char> {
    "repo:"@ + name
}

/// The URL that looks a repo up by its exact name.
pub open spec fn repo_url(base: Seq<char>, name: Seq<char>) -> Seq<char> {
    base + "/rest/v1/repos?name=eq."@ + name + "&select=*&limit=1"@
}

/// The cache key of a repo search.
pub open spec fn search_cache_key(query: Seq<char>) -> Seq<char> {
    "search:"@ + query
}

/// The URL that searches repo names and descriptions, case-insensitively, for text
/// containing `query`: the query stands in a quoted `ilike` value with its pattern
/// wildcards escaped (`search_value`), percent-encoded for the URL.
pub open spec fn search_url(base: Seq<char>, query: Seq<char>) -> Seq<char> {
    base + "/rest/v1/repos?or=(name.ilike."@ + percent_encode(search_value(query))
        + ",description.ilike."@ + percent_encode(search_value(query))
        + ")&select=*&order=name.asc"@
}

/// The URL of the capability list, sorted by name.
pub open spec fn capabilities_url(base: Seq<char>) -> Seq<char> {
    base + "/rest/v1/capabilities?select=*&order=name.asc"@
}

/// The URL of the agent budget list, sorted by agent id.
pub open spec fn budgets_url(base: Seq<char>) -> Seq<char> {
    base + "/rest/v1/agent_budgets?select=*&order=agent_id.asc"@
}

/// The message of the error for a repo that is not in the registry.
pub open spec fn not_found_message(name: Seq<char>) -> Seq<char> {
    "Repo '"@ + name + "' not found"@
}

fn cat(a: &str, b: &str) -> (r: String)
    ensures
        r@ == a@ + b@,
{
    let mut r = a.to_owned();
    r.append(b);
    r
}

/// HTTP client for a Supabase-backed fleet registry.
pub struct RegistryClient {
    base_url: String,
    anon_key: String,
    cache: Option<FileCache>,
    cache_ttl_secs: u64,
}

impl RegistryClient {
    /// The registry's base URL, without trailing slashes.
    pub closed spec fn base(&self) -> Seq<char> {
        self.base_url@
    }

    /// The anonymous API key sent with every request.
    pub closed spec fn key(&self) -> Seq<char> {
        self.anon_key@
    }

    /// The contents of the response cache, if caching is enabled.
    pub closed spec fn cache_view(&self) -> Option<Map<Seq<char>, CacheSlot>> {
        match self.cache {
            Some(c) => Some(c@),
            None => None,
        }
    }

    /// The path of the cache file, if caching is enabled.
    pub closed spec fn cache_path(&self) -> Option<Seq<char>> {
        match self.cache {
            Some(c) => Some(c.file_path()),
            None => None,
        }
    }

    /// How long, in seconds, a cached response is served.
    pub closed spec fn ttl(&self) -> u64 {
        self.cache_ttl_secs
    }

    /// A client for the registry at `url` (trailing slashes dropped) using `anon_key`,
    /// with no cache and a cache time-to-live of 300 seconds.
    pub fn new(url: &str, anon_key: &str) -> (c: Self)
        ensures
            c.base() == trim_end_char(url@, '/'),
            c.key() == anon_key@,
            c.cache_view() is None,
            c.ttl() == 300,
    {
        RegistryClient {
            base_url: trim_end_matches_char(url, '/'),
            anon_key: anon_key.to_owned(),
            cache: None,
            cache_ttl_secs: 300,
        }
    }

    /// The client with `cache` as its response cache, serving cached responses for
    /// `ttl` (in whole seconds).
    pub fn with_cache(self, cache: FileCache, ttl: Duration) -> (c: Self)
        ensures
            c.base() == self.base(),
            c.key() == self.key(),
            c.cache_view() == Some(cache@),
            c.cache_path() == Some(cache.file_path()),
            c.ttl() == duration_as_secs(ttl),
    {
        let secs = duration_secs(&ttl);
        RegistryClient {
            base_url: self.base_url,
            anon_key: self.anon_key,
            cache: Some(cache),
            cache_ttl_secs: secs,
        }
    }

    /// How long, in whole seconds, a cached response is served.
    pub fn cache_ttl_secs(&self) -> (r: u64)
        ensures
            r == self.ttl(),
    {
        self.cache_ttl_secs
    }

    /// The cache, if caching is enabled.
    pub fn cache(&self) -> (c: Option<&FileCache>)
        ensures
            match c {
                Some(f) => self.cache_view() == Some(f@) && self.cache_path() == Some(
                    f.file_path(),
                ),
                None => self.cache_view() is None,
            },
    {
        match &self.cache {
            Some(f) => Some(f),
            None => None,
        }
    }

    fn request(&self, url: String) -> (r: RegistryRequest)
        ensures
            request_is(r, url@, self.key()),
    {
        let mut headers: Vec<(String, String)> = Vec::new();
        headers.push(("apikey".to_owned(), self.anon_key.clone()));
        headers.push(("Authorization".to_owned(), cat("Bearer ", self.anon_key.as_str())));
        RegistryRequest { url, headers }
    }

    /// Answers from the cache when a live entry holds `key` at Unix time `now`, else
    /// asks for `url`.
    fn cached_or_request_at(&mut self, key: String, url: String, now: u64) -> (r: Fetch)
        ensures
            final(self).base() == old(self).base(),
            final(self).key() == old(self).key(),
            final(self).ttl() == old(self).ttl(),
            final(self).cache_path() == old(self).cache_path(),
            fetch_at(old(self).cache_view(), final(self).cache_view(), r, url@, key@, old(self).key(), now),
    {
        let hit = match &mut self.cache {
            Some(c) => c.get_at(key.as_str(), now),
            None => None,
        };
        assert(match old(self).cache_view() {
            Some(m) => crate::text::opt_text(hit) == lookup(m, key@, now)
                && self.cache_view() == Some(after_lookup(m, key@, now)),
            None => hit is None && self.cache_view() is None,
        });
        match hit {
            Some(data) => Fetch::Cached(data),
            None => {
                let request = self.request(url);
                Fetch::Request { request, cache_key: key }
            },
        }
    }

    /// Lists a page of repos at Unix time `now`: `per_page` repos from offset
    /// `page * per_page`, by name.
    pub fn list_repos_at(&mut self, page: usize, per_page: usize, now: u64) -> (r: Fetch)
        requires
            page * per_page <= usize::MAX,
        ensures
            final(self).base() == old(self).base(),
            final(self).key() == old(self).key(),
            final(self).ttl() == old(self).ttl(),
            final(self).cache_path() == old(self).cache_path(),
            fetch_at(
                old(self).cache_view(),
                final(self).cache_view(),
                r,
                repos_url(old(self).base(), page as nat, per_page as nat),
                repos_cache_key(page as nat, per_page as nat),
                old(self).key(),
                now,
            ),
    {
        let mut key = cat("repos:", decimal_string(page).as_str());
        key.append(":");
        key.append(decimal_string(per_page).as_str());
        let mut url = cat(self.base_url.as_str(), "/rest/v1/repos?select=*&order=name.asc&limit=");
        url.append(decimal_string(per_page).as_str());
        url.append("&offset=");
        url.append(decimal_string(page * per_page).as_str());
        assert(key@ == repos_cache_key(page as nat, per_page as nat));
        assert(url@ == repos_url(self.base(), page as nat, per_page as nat));
        self.cached_or_request_at(key, url, now)
    }

    /// Lists a page of repos: `per_page` repos from offset `page * per_page`, by name.
    pub fn list_repos(&mut self, page: usize, per_page: usize) -> (r: Fetch)
        requires
            page * per_page <= usize::MAX,
        ensures
            final(self).base() == old(self).base(),
            final(self).key() == old(self).key(),
            final(self).ttl() == old(self).ttl(),
            final(self).cache_path() == old(self).cache_path(),
            fetch_step(
                old(self).cache_view(),
                final(self).cache_view(),
                r,
                repos_url(old(self).base(), page as nat, per_page as nat),
                repos_cache_key(page as nat, per_page as nat),
                old(self).key(),
            ),
    {
        let now = unix_now();
        self.list_repos_at(page, per_page, now)
    }

    /// Looks a repo up by its exact name at Unix time `now`.
    pub fn get_repo_at(&mut self, name: &str, now: u64) -> (r: Fetch)
        ensures
            final(self).base() == old(self).base(),
            final(self).key() == old(self).key(),
            final(self).ttl() == old(self).ttl(),
            final(self).cache_path() == old(self).cache_path(),
            fetch_at(
                old(self).cache_view(),
                final(self).cache_view(),
                r,
                repo_url(old(self).base(), name@),
                repo_cache_key(name@),
                old(self).key(),
                now,
            ),
    {
        let key = cat("repo:", name);
        let mut url = cat(self.base_url.as_str(), "/rest/v1/repos?name=eq.");
        url.append(name);
        url.append("&select=*&limit=1");
        assert(key@ == repo_cache_key(name@));
        assert(url@ == repo_url(self.base(), name@));
        self.cached_or_request_at(key, url, now)
    }

    /// Looks a repo up by its exact name.
    pub fn get_repo(&mut self, name: &str) -> (r: Fetch)
        ensures
            final(self).base() == old(self).base(),
            final(self).key() == old(self).key(),
            final(self).ttl() == old(self).ttl(),
            final(self).cache_path() == old(self).cache_path(),
            fetch_step(
                old(self).cache_view(),
                final(self).cache_view(),
                r,
                repo_url(old(self).base(), name@),
                repo_cache_key(name@),
                old(self).key(),
            ),
    {
        let now = unix_now();
        self.get_repo_at(name, now)
    }

    /// Searches repo names and descriptions for `query` at Unix time `now`
    /// (case-insensitive, partial match): the query is matched as literal text.
    pub fn search_repos_at(&mut self, query: &str, now: u64) -> (r: Fetch)
        ensures
            final(self).base() == old(self).base(),
            final(self).key() == old(self).key(),
            final(self).ttl() == old(self).ttl(),
            final(self).cache_path() == old(self).cache_path(),
            fetch_at(
                old(self).cache_view(),
                final(self).cache_view(),
                r,
                search_url(old(self).base(), query@),
                search_cache_key(query@),
                old(self).key(),
                now,
            ),
    {
        let key = cat("search:", query);
        let value = search_value_string(query);
        let encoded = percent_encode_string(value.as_str());
        let mut url = cat(self.base_url.as_str(), "/rest/v1/repos?or=(name.ilike.");
        url.append(encoded.as_str());
        url.append(",description.ilike.");
        url.append(encoded.as_str());
        url.append(")&select=*&order=name.asc");
        assert(key@ == search_cache_key(query@));
        assert(url@ == search_url(self.base(), query@));
        self.cached_or_request_at(key, url, now)
    }

    /// Searches repo names and descriptions for `query` (case-insensitive, partial match):
    /// the query is matched as literal text.
    pub fn search_repos(&mut self, query: &str) -> (r: Fetch)
        ensures
            final(self).base() == old(self).base(),
            final(self).key() == old(self).key(),
            final(self).ttl() == old(self).ttl(),
            final(self).cache_path() == old(self).cache_path(),
            fetch_step(
                old(self).cache_view(),
                final(self).cache_view(),
                r,
                search_url(old(self).base(), query@),
                search_cache_key(query@),
                old(self).key(),
            ),
    {
        let now = unix_now();
        self.search_repos_at(query, now)
    }

    /// The request that lists every capability in the registry, by name.
    pub fn list_capabilities(&self) -> (r: RegistryRequest)
        ensures
            request_is(r, capabilities_url(self.base()), self.key()),
    {
        self.request(cat(self.base_url.as_str(), "/rest/v1/capabilities?select=*&order=name.asc"))
    }

    /// The request that lists every agent budget, by agent id.
    pub fn list_budgets(&self) -> (r: RegistryRequest)
        ensures
            request_is(r, budgets_url(self.base()), self.key()),
    {
        self.request(cat(self.base_url.as_str(), "/rest/v1/agent_budgets?select=*&order=agent_id.asc"))
    }

    /// Stores the JSON text of a fetched response under `cache_key` at Unix time `now`,
    /// to be served for the client's time-to-live. Without a cache, or where the expiry
    /// time does not fit in a `u64`, nothing changes.
    pub fn store_at(&mut self, cache_key: &str, json: &str, now: u64)
        ensures
            final(self).base() == old(self).base(),
            final(self).key() == old(self).key(),
            final(self).ttl() == old(self).ttl(),
            final(self).cache_path() == old(self).cache_path(),
            final(self).cache_view() == store_outcome(
                old(self).cache_view(),
                cache_key@,
                json@,
                old(self).ttl(),
                now,
            ),
    {
        let ttl = self.cache_ttl_secs;
        match &mut self.cache {
            Some(c) => {
                if now <= u64::MAX - ttl {
                    c.set_at(cache_key, json, ttl, now);
                }
            },
            None => {},
        }
    }

    /// Stores the JSON text of a fetched response under `cache_key`, to be served for
    /// the client's time-to-live from the current time. Without a cache, or where the
    /// expiry time does not fit in a `u64`, nothing changes.
    pub fn store(&mut self, cache_key: &str, json: &str)
        ensures
            final(self).base() == old(self).base(),
            final(self).key() == old(self).key(),
            final(self).ttl() == old(self).ttl(),
            final(self).cache_path() == old(self).cache_path(),
            old(self).cache_view() is None ==> final(self).cache_view() is None,
            exists|now: u64|
                is_clock_reading(now) && final(self).cache_view() == #[trigger] store_outcome(
                    old(self).cache_view(),
                    cache_key@,
                    json@,
                    old(self).ttl(),
                    now,
                ),
    {
        let now = unix_now();
        self.store_at(cache_key, json, now);
    }
}

/// The repo a by-name lookup found: the last one returned, or `NotFound` when the
/// registry returned none.
pub fn found_repo(repos: Vec<Repo>, name: &str) -> (r: Result<Repo, RegistryError>)
    ensures
        repos@.len() == 0 ==> (r matches Err(RegistryError::NotFound(msg)) && msg@
            == not_found_message(name@)),
        repos@.len() > 0 ==> r == Ok::<Repo, RegistryError>(repos@.last()),
{
    let mut repos = repos;
    match repos.pop() {
        Some(repo) => Ok(repo),
        None => {
            let mut msg = cat("Repo '", name);
            msg.append("' not found");
            Err(RegistryError::NotFound(msg))
        },
    }
}

/// How many of `repos` have the language `lang`.
pub open spec fn language_count(repos: Seq<Repo>, lang: Seq<char>) -> nat
    decreases repos.len(),
{
    if repos.len() == 0 {
        0
    } else {
        language_count(repos.drop_last(), lang) + if repos.last().language@ == lang {
            1nat
        } else {
            0nat
        }
    }
}

/// The sum of the counts in `counts`.
pub open spec fn total_count(counts: Seq<(String, usize)>) -> int
    decreases counts.len(),
{
    if counts.len() == 0 {
        0
    } else {
        total_count(counts.drop_last()) + counts.last().1
    }
}

proof fn lemma_total_count_update(s: Seq<(String, usize)>, i: int, v: (String, usize))
    requires
        0 <= i < s.len(),
    ensures
        total_count(s.update(i, v)) == total_count(s) - s[i].1 + v.1,
    decreases s.len(),
{
    let t = s.update(i, v);
    if i < s.len() - 1 {
        assert(t.drop_last() =~= s.drop_last().update(i, v));
        lemma_total_count_update(s.drop_last(), i, v);
    } else {
        assert(t.drop_last() =~= s.drop_last());
    }
}

/// Whether `counts` has an entry for the language `lang`.
pub open spec fn lists_language(counts: Seq<(String, usize)>, lang: Seq<char>) -> bool {
    exists|i: int| 0 <= i < counts.len() && (#[trigger] counts[i]).0@ == lang
}

proof fn lemma_language_count_bound(repos: Seq<Repo>, lang: Seq<char>)
    ensures
        language_count(repos, lang) <= repos.len(),
    decreases repos.len(),
{
    if repos.len() > 0 {
        lemma_language_count_bound(repos.drop_last(), lang);
    }
}

/// The number of repos per language: each language of `repos` once, with how many
/// repos have it.
pub fn language_counts(repos: &Vec<Repo>) -> (r: Vec<(String, usize)>)
    ensures
        forall|i: int, j: int| 0 <= i < j < r@.len() ==> r@[i].0@ != r@[j].0@,
        forall|i: int|
            0 <= i < r@.len() ==> (#[trigger] r@[i]).1 == language_count(repos@, r@[i].0@)
                && r@[i].1 > 0,
        forall|j: int| 0 <= j < repos@.len() ==> lists_language(r@, (#[trigger] repos@[j]).language@),
        total_count(r@) == repos@.len(),
{
    let n = repos.len();
    let mut r: Vec<(String, usize)> = Vec::new();
    let mut k: usize = 0;
    while k < n
        invariant
            n == repos@.len(),
            k <= n,
            forall|i: int, j: int| 0 <= i < j < r@.len() ==> r@[i].0@ != r@[j].0@,
            forall|i: int|
                0 <= i < r@.len() ==> (#[trigger] r@[i]).1 == language_count(
                    repos@.take(k as int),
                    r@[i].0@,
                ) && r@[i].1 > 0,
            forall|j: int| 0 <= j < k ==> lists_language(r@, (#[trigger] repos@[j]).language@),
            total_count(r@) == k,
        decreases n - k,
    {
        let lang = &repos[k].language;
        let ghost t = repos@.take(k as int);
        let ghost t2 = repos@.take(k + 1);
        assert(t2.drop_last() =~= t);
        assert(t2.last() == repos@[k as int]);
        let ghost before = r@;
        proof {
            lemma_language_count_bound(t, lang@);
        }
        let m = r.len();
        let mut i: usize = 0;
        let mut found = false;
        while i < m && !found
            invariant
                m == r@.len(),
                i <= m,
                r@ == before,
                forall|a: int| 0 <= a < i ==> r@[a].0@ != lang@,
                found ==> i < m && r@[i as int].0@ == lang@,
            decreases m - i + if found {
                0int
            } else {
                1int
            },
        {
            if r[i].0 == *lang {
                found = true;
            } else {
                i += 1;
            }
        }
        if found {
            let c = r[i].1;
            assert(c == language_count(t, lang@));
            let entry = (r[i].0.clone(), c + 1);
            proof {
                lemma_total_count_update(r@, i as int, entry);
            }
            r.set(i, entry);
            assert forall|a: int| 0 <= a < r@.len() implies (#[trigger] r@[a]).1 == language_count(
                t2,
                r@[a].0@,
            ) && r@[a].1 > 0 by {
                if a != i {
                    assert(r@[a] == before[a]);
                    assert(before[a].0@ != before[i as int].0@);
                }
            }
            assert forall|j: int| 0 <= j < k + 1 implies lists_language(
                r@,
                (#[trigger] repos@[j]).language@,
            ) by {
                if j < k {
                    let a = choose|a: int|
                        0 <= a < before.len() && (#[trigger] before[a]).0@ == repos@[j].language@;
                    assert(r@[a].0@ == before[a].0@);
                } else {
                    assert(r@[i as int].0@ == lang@);
                }
            }
        } else {
            r.push((lang.clone(), 1));
            assert(r@.drop_last() =~= before);
            assert(language_count(t, lang@) == 0) by {
                if language_count(t, lang@) > 0 {
                    lemma_count_positive_listed(t, lang@, before);
                }
            }
            assert forall|a: int| 0 <= a < r@.len() implies (#[trigger] r@[a]).1 == language_count(
                t2,
                r@[a].0@,
            ) && r@[a].1 > 0 by {
                if a < before.len() {
                    assert(r@[a] == before[a]);
                }
            }
            assert forall|j: int| 0 <= j < k + 1 implies lists_language(
                r@,
                (#[trigger] repos@[j]).language@,
            ) by {
                if j < k {
                    let a = choose|a: int|
                        0 <= a < before.len() && (#[trigger] before[a]).0@ == repos@[j].language@;
                    assert(r@[a] == before[a]);
                } else {
                    assert(r@[before.len() as int].0@ == lang@);
                }
            }
        }
        k += 1;
    }
    assert(repos@.take(n as int) =~= repos@);
    r
}

/// A language counted in `t` is one of the languages of `t`; if every language of `t`
/// is listed in `counts`, so is every language with a positive count.
proof fn lemma_count_positive_listed(t: Seq<Repo>, lang: Seq<char>, counts: Seq<(String, usize)>)
    requires
        language_count(t, lang) > 0,
        forall|j: int| 0 <= j < t.len() ==> lists_language(counts, (#[trigger] t[j]).language@),
    ensures
        lists_language(counts, lang),
    decreases t.len(),
{
    if t.last().language@ == lang {
        assert(lists_language(counts, t[t.len() - 1].language@));
    } else {
        let p = t.drop_last();
        assert forall|j: int| 0 <= j < p.len() implies lists_language(
            counts,
            (#[trigger] p[j]).language@,
        ) by {
            assert(p[j] == t[j]);
        }
        lemma_count_positive_listed(p, lang, counts);
    }
}

proof fn lemma_strip_prefix(x: Seq<char>, y1: Seq<char>, y2: Seq<char>)
    requires
        x + y1 == x + y2,
    ensures
        y1 == y2,
{
    assert(y1 =~= (x + y1).subrange(x.len() as int, (x + y1).len() as int));
    assert(y2 =~= (x + y2).subrange(x.len() as int, (x + y2).len() as int));
}

proof fn lemma_split_at_colon(a1: nat, b1: nat, a2: nat, b2: nat)
    requires
        decimal(a1) + seq![':'] + decimal(b1) == decimal(a2) + seq![':'] + decimal(b2),
    ensures
        a1 == a2,
        b1 == b2,
{
    let d1 = decimal(a1);
    let d2 = decimal(a2);
    let s1 = d1 + seq![':'] + decimal(b1);
    let s2 = d2 + seq![':'] + decimal(b2);
    law_decimal_is_digits(a1);
    law_decimal_is_digits(a2);
    if d1.len() < d2.len() {
        assert(s1[d1.len() as int] == ':');
        assert(s2[d1.len() as int] == d2[d1.len() as int]);
        assert(is_digit(d2[d1.len() as int]));
    } else if d2.len() < d1.len() {
        assert(s2[d2.len() as int] == ':');
        assert(s1[d2.len() as int] == d1[d2.len() as int]);
        assert(is_digit(d1[d2.len() as int]));
    } else {
        assert(d1 =~= s1.subrange(0, d1.len() as int));
        assert(d2 =~= s2.subrange(0, d2.len() as int));
        law_decimal_injective(a1, a2);
        lemma_strip_prefix(d1 + seq![':'], decimal(b1), decimal(b2));
        law_decimal_injective(b1, b2);
    }
}

/// Different queries never share a cache entry: a page of the repo list, a repo
/// looked up by name and a search each have their own key, and the key of each
/// determines its query.
pub proof fn law_cache_keys_distinct(
    page1: nat,
    per_page1: nat,
    page2: nat,
    per_page2: nat,
    name1: Seq<char>,
    name2: Seq<char>,
    query1: Seq<char>,
    query2: Seq<char>,
)
    ensures
        repos_cache_key(page1, per_page1) == repos_cache_key(page2, per_page2) ==> page1 == page2
            && per_page1 == per_page2,
        repo_cache_key(name1) == repo_cache_key(name2) ==> name1 == name2,
        search_cache_key(query1) == search_cache_key(query2) ==> query1 == query2,
        repos_cache_key(page1, per_page1) != repo_cache_key(name1),
        repos_cache_key(page1, per_page1) != search_cache_key(query1),
        repo_cache_key(name1) != search_cache_key(query1),
{
    reveal_strlit("repos:");
    reveal_strlit(":");
    reveal_strlit("repo:");
    reveal_strlit("search:");
    let x = "repos:"@;
    let k1 = repos_cache_key(page1, per_page1);
    let k2 = repos_cache_key(page2, per_page2);
    assert(k1 =~= x + (decimal(page1) + seq![':'] + decimal(per_page1)));
    assert(k2 =~= x + (decimal(page2) + seq![':'] + decimal(per_page2)));
    if k1 == k2 {
        lemma_strip_prefix(
            x,
            decimal(page1) + seq![':'] + decimal(per_page1),
            decimal(page2) + seq![':'] + decimal(per_page2),
        );
        lemma_split_at_colon(page1, per_page1, page2, per_page2);
    }
    if repo_cache_key(name1) == repo_cache_key(name2) {
        lemma_strip_prefix("repo:"@, name1, name2);
    }
    if search_cache_key(query1) == search_cache_key(query2) {
        lemma_strip_prefix("search:"@, query1, query2);
    }
    assert(k1[4] == 's');
    assert(repo_cache_key(name1)[4] == ':');
    assert(k1[0] == 'r');
    assert(search_cache_key(query1)[0] == 's');
    assert(repo_cache_key(name1)[0] == 'r');
}

/// A response stored with `store_at` at time `stored_at` is what a repeat of the query
/// (`list_repos_at`, `get_repo_at` or `search_repos_at` with the same cache key) is
/// answered with at any time before the client's time-to-live has run out, and that
/// answer leaves the cache as it was.
pub proof fn law_stored_response_served(
    m: Map<Seq<char>, CacheSlot>,
    key: Seq<char>,
    json: Seq<char>,
    ttl_secs: u64,
    stored_at: u64,
    later: u64,
    after: Option<Map<Seq<char>, CacheSlot>>,
    r: Fetch,
    url: Seq<char>,
    anon_key: Seq<char>,
)
    requires
        stored_at + ttl_secs <= u64::MAX,
        later < stored_at + ttl_secs,
        fetch_at(store_outcome(Some(m), key, json, ttl_secs, stored_at), after, r, url, key, anon_key, later),
    ensures
        r matches Fetch::Cached(d) && d@ == json,
        after == store_outcome(Some(m), key, json, ttl_secs, stored_at),
{
}

/// A cached response whose expiry time has come is never the answer: a query made at or
/// after that time asks for the request, under the same cache key, and the lookup drops
/// the expired entry.
pub proof fn law_expired_response_not_served(
    m: Map<Seq<char>, CacheSlot>,
    key: Seq<char>,
    now: u64,
    after: Option<Map<Seq<char>, CacheSlot>>,
    r: Fetch,
    url: Seq<char>,
    anon_key: Seq<char>,
)
    requires
        m.contains_key(key),
        m[key].1 <= now,
        fetch_at(Some(m), after, r, url, key, anon_key, now),
    ensures
        r matches Fetch::Request { request, cache_key } && cache_key@ == key && request.url@ == url,
        after == Some(m.remove(key)),
{
}

} // verus!
