use si_registry_rs::cache::FileCache;
use si_registry_rs::client::{found_repo, language_counts, Fetch, RegistryClient, RegistryRequest};
use si_registry_rs::{RegistryError, Repo};
use std::time::Duration;

fn repo(name: &str, language: &str) -> Repo {
    Repo {
        name: name.to_string(),
        description: String::new(),
        language: language.to_string(),
        url: String::new(),
        updated_at: String::new(),
    }
}

fn request_of(f: Fetch) -> (RegistryRequest, String) {
    match f {
        Fetch::Request { request, cache_key } => (request, cache_key),
        Fetch::Cached(_) => panic!("expected a request"),
    }
}

fn headers_for(key: &str) -> Vec<(String, String)> {
    vec![
        ("apikey".to_string(), key.to_string()),
        ("Authorization".to_string(), format!("Bearer {}", key)),
    ]
}

#[test]
fn new_trims_trailing_slashes() {
    let client = RegistryClient::new("https://abc.supabase.co//", "k");
    assert_eq!(client.list_capabilities().url, "https://abc.supabase.co/rest/v1/capabilities?select=*&order=name.asc");
}

#[test]
fn list_repos_requests_page() {
    let mut client = RegistryClient::new("https://abc.supabase.co", "anon");
    let (request, key) = request_of(client.list_repos(2, 25));
    assert_eq!(
        request.url,
        "https://abc.supabase.co/rest/v1/repos?select=*&order=name.asc&limit=25&offset=50"
    );
    assert_eq!(request.headers, headers_for("anon"));
    assert_eq!(key, "repos:2:25");
}

#[test]
fn get_repo_requests_by_name() {
    let mut client = RegistryClient::new("https://abc.supabase.co/", "anon");
    let (request, key) = request_of(client.get_repo("my-agent"));
    assert_eq!(request.url, "https://abc.supabase.co/rest/v1/repos?name=eq.my-agent&select=*&limit=1");
    assert_eq!(key, "repo:my-agent");
}

#[test]
fn search_repos_requests_query() {
    let mut client = RegistryClient::new("https://abc.supabase.co", "anon");
    let (request, key) = request_of(client.search_repos("inference"));
    assert_eq!(
        request.url,
        "https://abc.supabase.co/rest/v1/repos?or=(name.ilike.%22%25inference%25%22,description.ilike.%22%25inference%25%22)&select=*&order=name.asc"
    );
    assert_eq!(key, "search:inference");
}

#[test]
fn list_budgets_request() {
    let client = RegistryClient::new("https://abc.supabase.co", "anon");
    let request = client.list_budgets();
    assert_eq!(request.url, "https://abc.supabase.co/rest/v1/agent_budgets?select=*&order=agent_id.asc");
    assert_eq!(request.headers, headers_for("anon"));
}

#[test]
fn stored_response_is_served_from_cache() {
    let mut client = RegistryClient::new("https://abc.supabase.co", "anon")
        .with_cache(FileCache::empty("c.json"), Duration::from_secs(300));
    let (_, key) = request_of(client.list_repos(0, 50));
    client.store(&key, "[]");
    match client.list_repos(0, 50) {
        Fetch::Cached(data) => assert_eq!(data, "[]"),
        Fetch::Request { .. } => panic!("expected a cache hit"),
    }
    // another page is not served from that entry
    let (_, other) = request_of(client.list_repos(1, 50));
    assert_eq!(other, "repos:1:50");
}

#[test]
fn store_without_cache_changes_nothing() {
    let mut client = RegistryClient::new("https://abc.supabase.co", "anon");
    client.store("repo:x", "{}");
    assert!(client.cache().is_none());
    let (_, key) = request_of(client.get_repo("x"));
    assert_eq!(key, "repo:x");
}

#[test]
fn found_repo_not_found() {
    match found_repo(vec![], "ghost") {
        Err(RegistryError::NotFound(msg)) => assert_eq!(msg, "Repo 'ghost' not found"),
        other => panic!("unexpected {:?}", other),
    }
}

#[test]
fn found_repo_takes_last() {
    let r = found_repo(vec![repo("a", "rust"), repo("b", "go")], "b").unwrap();
    assert_eq!(r.name, "b");
}

#[test]
fn language_counts_counts_each_language() {
    let repos = vec![repo("a", "rust"), repo("b", "go"), repo("c", "rust"), repo("d", "")];
    let mut counts = language_counts(&repos);
    assert_eq!(counts.iter().map(|c| c.1).sum::<usize>(), repos.len());
    counts.sort();
    assert_eq!(
        counts,
        vec![("".to_string(), 1), ("go".to_string(), 1), ("rust".to_string(), 2)]
    );
    assert!(language_counts(&vec![]).is_empty());
}

#[test]
fn search_repos_matches_query_literally() {
    let mut client = RegistryClient::new("https://abc.supabase.co", "anon");
    // the value is "%a b&c#é%" in quotes: percent-encoded for the URL
    let (request, key) = request_of(client.search_repos("a b&c#é"));
    assert_eq!(
        request.url,
        "https://abc.supabase.co/rest/v1/repos?or=(name.ilike.%22%25a%20b%26c%23%C3%A9%25%22,description.ilike.%22%25a%20b%26c%23%C3%A9%25%22)&select=*&order=name.asc"
    );
    assert_eq!(key, "search:a b&c#é");
    // wildcards, the escape and the quote are escaped; the filter syntax is quoted
    let (request, _) = request_of(client.search_repos(r#"5%_x\",)"#));
    let value = r#""%5\\%\\_x\\\\\",)%""#;
    assert_eq!(si_registry_rs::text::search_value_string(r#"5%_x\",)"#), value);
    let encoded = si_registry_rs::text::percent_encode_string(value);
    assert_eq!(
        request.url,
        format!(
            "https://abc.supabase.co/rest/v1/repos?or=(name.ilike.{},description.ilike.{})&select=*&order=name.asc",
            encoded, encoded
        )
    );
    assert_eq!(encoded, "%22%255%5C%5C%25%5C%5C_x%5C%5C%5C%5C%5C%22%2C%29%25%22");
}

#[test]
fn with_cache_takes_ttl_in_whole_seconds() {
    let client = RegistryClient::new("https://abc.supabase.co", "anon");
    assert_eq!(client.cache_ttl_secs(), 300);
    let client = client.with_cache(FileCache::empty("c.json"), Duration::from_millis(2500));
    assert_eq!(client.cache_ttl_secs(), 2);
}

#[test]
fn repeat_search_served_until_ttl_runs_out() {
    let mut client = RegistryClient::new("https://abc.supabase.co", "anon")
        .with_cache(FileCache::empty("c.json"), Duration::from_secs(60));
    let (_, key) = request_of(client.search_repos_at("ml", 1000));
    client.store_at(&key, "[{\"name\":\"x\"}]", 1000);
    match client.search_repos_at("ml", 1059) {
        Fetch::Cached(data) => assert_eq!(data, "[{\"name\":\"x\"}]"),
        Fetch::Request { .. } => panic!("expected a cache hit"),
    }
    let (_, again) = request_of(client.search_repos_at("ml", 1060));
    assert_eq!(again, "search:ml");
    assert_eq!(client.cache().unwrap().raw_len(), 0);
}

#[test]
fn get_repo_at_and_list_repos_at_use_their_keys() {
    let mut client = RegistryClient::new("https://abc.supabase.co", "anon")
        .with_cache(FileCache::empty("c.json"), Duration::from_secs(10));
    client.store_at("repo:a", "{}", 5);
    assert!(matches!(client.get_repo_at("a", 14), Fetch::Cached(ref d) if d == "{}"));
    assert!(matches!(client.list_repos_at(0, 5, 14), Fetch::Request { .. }));
    assert!(matches!(client.get_repo_at("a", 15), Fetch::Request { .. }));
}
