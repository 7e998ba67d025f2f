//! Capabilities of locally discovered repos: the de-duplicated capability list, the
//! repos that provide a capability, and the rule that turns a scanned directory into
//! a repo. Reading directories and parsing `CAPABILITY.toml` files is the caller's part.

use vstd::prelude::*;
use crate::types::{Capability, LocalRepo, RegistryError};

verus! {

/// The key by which capabilities are de-duplicated: the pair of name and category.
pub open spec fn cap_key(c: Capability) -> (Seq<char>, Seq<char>) {
    (c.name@, c.category@)
}

/// Every capability of `repos`, repo by repo, in order.
pub open spec fn all_caps(repos: Seq<LocalRepo>) -> Seq<Capability>
    decreases repos.len(),
{
    if repos.len() == 0 {
        Seq::empty()
    } else {
        all_caps(repos.drop_last()) + repos.last().capabilities@
    }
}

/// Whether some capability of `s` has the key `k`.
pub open spec fn has_cap_key(s: Seq<Capability>, k: (Seq<char>, Seq<char>)) -> bool {
    exists|i: int| 0 <= i < s.len() && cap_key(#[trigger] s[i]) == k
}

/// The first capability of `s` with each key, in order of first appearance.
pub open spec fn dedup_caps(s: Seq<Capability>) -> Seq<Capability>
    decreases s.len(),
{
    if s.len() == 0 {
        Seq::empty()
    } else {
        let d = dedup_caps(s.drop_last());
        if has_cap_key(d, cap_key(s.last())) {
            d
        } else {
            d.push(s.last())
        }
    }
}

/// Whether `repo` lists a capability named `name`.
pub open spec fn provides(repo: LocalRepo, name: Seq<char>) -> bool {
    exists|i: int|
        0 <= i < repo.capabilities@.len() && (#[trigger] repo.capabilities@[i]).name@ == name
}

/// The repos of `s` that provide `name`, in order.
pub open spec fn repos_providing(s: Seq<LocalRepo>, name: Seq<char>) -> Seq<LocalRepo>
    decreases s.len(),
{
    if s.len() == 0 {
        Seq::empty()
    } else if provides(s.last(), name) {
        repos_providing(s.drop_last(), name).push(s.last())
    } else {
        repos_providing(s.drop_last(), name)
    }
}

proof fn lemma_all_caps_step(repos: Seq<LocalRepo>, i: int)
    requires
        0 <= i < repos.len(),
    ensures
        all_caps(repos.take(i + 1)) == all_caps(repos.take(i)) + repos[i].capabilities@,
{
    assert(repos.take(i + 1).drop_last() =~= repos.take(i));
}

fn has_same_pair(caps: &Vec<Capability>, c: &Capability) -> (r: bool)
    ensures
        r == has_cap_key(caps@, cap_key(*c)),
{
    let n = caps.len();
    let mut i: usize = 0;
    while i < n
        invariant
            n == caps@.len(),
            i <= n,
            forall|j: int| 0 <= j < i ==> cap_key(#[trigger] caps@[j]) != cap_key(*c),
        decreases n - i,
    {
        if caps[i].name == c.name && caps[i].category == c.category {
            assert(cap_key(caps@[i as int]) == cap_key(*c));
            return true;
        }
        i += 1;
    }
    false
}

/// Every unique capability of `repos`: the first with each pair of name and category,
/// in order of first appearance.
pub fn all_capabilities(repos: &Vec<LocalRepo>) -> (caps: Vec<Capability>)
    ensures
        caps@ == dedup_caps(all_caps(repos@)),
{
    let n = repos.len();
    let mut caps: Vec<Capability> = Vec::new();
    let mut i: usize = 0;
    while i < n
        invariant
            n == repos@.len(),
            i <= n,
            caps@ == dedup_caps(all_caps(repos@.take(i as int))),
        decreases n - i,
    {
        let repo_caps = &repos[i].capabilities;
        let m = repo_caps.len();
        let ghost base = all_caps(repos@.take(i as int));
        let mut j: usize = 0;
        while j < m
            invariant
                n == repos@.len(),
                i < n,
                repo_caps@ == repos@[i as int].capabilities@,
                m == repo_caps@.len(),
                j <= m,
                caps@ == dedup_caps(base + repo_caps@.take(j as int)),
            decreases m - j,
        {
            let c = &repo_caps[j];
            let ghost prefix = base + repo_caps@.take(j as int);
            assert((base + repo_caps@.take(j + 1)).drop_last() =~= prefix);
            assert((base + repo_caps@.take(j + 1)).last() == *c);
            if !has_same_pair(&caps, c) {
                caps.push(c.clone());
            }
            j += 1;
        }
        assert(repo_caps@.take(m as int) =~= repo_caps@);
        proof {
            lemma_all_caps_step(repos@, i as int);
        }
        i += 1;
    }
    assert(repos@.take(n as int) =~= repos@);
    caps
}

fn provides_exec(repo: &LocalRepo, name: &String) -> (r: bool)
    ensures
        r == provides(*repo, name@),
{
    let n = repo.capabilities.len();
    let mut i: usize = 0;
    while i < n
        invariant
            n == repo.capabilities@.len(),
            i <= n,
            forall|j: int| 0 <= j < i ==> repo.capabilities@[j].name@ != name@,
        decreases n - i,
    {
        if repo.capabilities[i].name == *name {
            return true;
        }
        i += 1;
    }
    false
}

/// The repos that list a capability named `capability_name`, in order.
pub fn find_by_capability<'a>(repos: &'a Vec<LocalRepo>, capability_name: &str) -> (found: Vec<
    &'a LocalRepo,
>)
    ensures
        found@.len() == repos_providing(repos@, capability_name@).len(),
        forall|i: int|
            0 <= i < found@.len() ==> *found@[i] == repos_providing(repos@, capability_name@)[i],
{
    let name = capability_name.to_owned();
    let n = repos.len();
    let mut found: Vec<&'a LocalRepo> = Vec::new();
    let mut i: usize = 0;
    while i < n
        invariant
            n == repos@.len(),
            i <= n,
            name@ == capability_name@,
            found@.len() == repos_providing(repos@.take(i as int), name@).len(),
            forall|a: int|
                0 <= a < found@.len() ==> *found@[a] == repos_providing(
                    repos@.take(i as int),
                    name@,
                )[a],
        decreases n - i,
    {
        let r = &repos[i];
        assert(repos@.take(i + 1).drop_last() =~= repos@.take(i as int));
        assert(repos@.take(i + 1).last() == *r);
        if provides_exec(r, &name) {
            found.push(r);
        }
        i += 1;
    }
    assert(repos@.take(n as int) =~= repos@);
    found
}

/// The name a scanned directory gets when it has none.
pub open spec fn unnamed_dir() -> Seq<char> {
    "unknown"@
}

/// The repo that a scanned directory holding a `CAPABILITY.toml` file gives: none when
/// the manifest could not be read or parsed, else the directory's path, its name
/// (`"unknown"` when it has none) and the manifest's capabilities.
pub fn scanned_repo(
    path: String,
    dir_name: Option<String>,
    manifest: Result<Vec<Capability>, RegistryError>,
) -> (r: Option<LocalRepo>)
    ensures
        manifest is Err ==> r is None,
        manifest is Ok ==> (r matches Some(repo) && repo.path == path && repo.capabilities
            == manifest->Ok_0 && repo.name@ == match dir_name {
            Some(n) => n@,
            None => unnamed_dir(),
        }),
{
    match manifest {
        Err(_) => None,
        Ok(capabilities) => {
            let name = match dir_name {
                Some(n) => n,
                None => "unknown".to_owned(),
            };
            Some(LocalRepo { path, name, capabilities })
        },
    }
}

proof fn lemma_dedup(s: Seq<Capability>)
    ensures
        forall|a: int, b: int|
            0 <= a < b < dedup_caps(s).len() ==> cap_key(dedup_caps(s)[a]) != cap_key(
                dedup_caps(s)[b],
            ),
        forall|i: int| 0 <= i < s.len() ==> has_cap_key(dedup_caps(s), cap_key(#[trigger] s[i])),
        forall|a: int|
            0 <= a < dedup_caps(s).len() ==> exists|i: int|
                0 <= i < s.len() && #[trigger] s[i] == #[trigger] dedup_caps(s)[a] && forall|j: int|
                    0 <= j < i ==> cap_key(#[trigger] s[j]) != cap_key(dedup_caps(s)[a]),
    decreases s.len(),
{
    if s.len() > 0 {
        let p = s.drop_last();
        let c = s.last();
        let dp = dedup_caps(p);
        let d = dedup_caps(s);
        lemma_dedup(p);
        assert forall|i: int| 0 <= i < s.len() implies has_cap_key(d, cap_key(#[trigger] s[i])) by {
            if i < s.len() - 1 {
                assert(s[i] == p[i]);
                let a = choose|a: int| 0 <= a < dp.len() && cap_key(#[trigger] dp[a]) == cap_key(p[i]);
                assert(d[a] == dp[a]);
            } else if !has_cap_key(dp, cap_key(c)) {
                assert(d[dp.len() as int] == c);
            }
        }
        assert forall|a: int| 0 <= a < d.len() implies exists|i: int|
            0 <= i < s.len() && #[trigger] s[i] == #[trigger] d[a] && forall|j: int|
                0 <= j < i ==> cap_key(#[trigger] s[j]) != cap_key(d[a]) by {
            if a < dp.len() {
                assert(d[a] == dp[a]);
                let i = choose|i: int|
                    0 <= i < p.len() && #[trigger] p[i] == #[trigger] dp[a] && forall|j: int|
                        0 <= j < i ==> cap_key(#[trigger] p[j]) != cap_key(dp[a]);
                assert(s[i] == p[i]);
                assert forall|j: int| 0 <= j < i implies cap_key(#[trigger] s[j]) != cap_key(d[a]) by {
                    assert(s[j] == p[j]);
                }
            } else {
                let i = s.len() - 1;
                assert(s[i] == d[a]);
                assert forall|j: int| 0 <= j < i implies cap_key(#[trigger] s[j]) != cap_key(d[a]) by {
                    assert(s[j] == p[j]);
                    assert(has_cap_key(dp, cap_key(p[j])));
                }
            }
        }
    }
}

/// No two capabilities that `all_capabilities` keeps share both their name and their
/// category.
pub proof fn law_all_capabilities_unique(repos: Seq<LocalRepo>)
    ensures
        forall|a: int, b: int|
            0 <= a < b < dedup_caps(all_caps(repos)).len() ==> cap_key(
                dedup_caps(all_caps(repos))[a],
            ) != cap_key(dedup_caps(all_caps(repos))[b]),
        forall|a: int, b: int|
            0 <= a < b < dedup_caps(all_caps(repos)).len() ==> !(dedup_caps(all_caps(repos))[a].name@
                == dedup_caps(all_caps(repos))[b].name@ && dedup_caps(all_caps(repos))[a].category@
                == dedup_caps(all_caps(repos))[b].category@),
{
    lemma_dedup(all_caps(repos));
}

/// Every pair of name and category of every repo's capabilities is among those that
/// `all_capabilities` keeps.
pub proof fn law_all_capabilities_complete(repos: Seq<LocalRepo>)
    ensures
        forall|i: int|
            0 <= i < all_caps(repos).len() ==> has_cap_key(
                dedup_caps(all_caps(repos)),
                cap_key(#[trigger] all_caps(repos)[i]),
            ),
{
    lemma_dedup(all_caps(repos));
}

/// What `all_capabilities` keeps of each pair of name and category is the first
/// capability, over all repos in order, that has it.
pub proof fn law_all_capabilities_first_seen(repos: Seq<LocalRepo>)
    ensures
        forall|a: int|
            0 <= a < dedup_caps(all_caps(repos)).len() ==> exists|i: int|
                0 <= i < all_caps(repos).len() && #[trigger] all_caps(repos)[i]
                    == #[trigger] dedup_caps(all_caps(repos))[a] && forall|j: int|
                    0 <= j < i ==> cap_key(#[trigger] all_caps(repos)[j]) != cap_key(
                        dedup_caps(all_caps(repos))[a],
                    ),
{
    lemma_dedup(all_caps(repos));
}

/// `find_by_capability` keeps exactly the repos that provide the capability: each one it
/// returns provides it and is one of the repos, and each repo that provides it is returned.
pub proof fn law_find_by_capability_exact(repos: Seq<LocalRepo>, name: Seq<char>)
    ensures
        forall|a: int|
            0 <= a < repos_providing(repos, name).len() ==> provides(
                #[trigger] repos_providing(repos, name)[a],
                name,
            ) && repos.contains(repos_providing(repos, name)[a]),
        forall|i: int|
            0 <= i < repos.len() && provides(#[trigger] repos[i], name) ==> repos_providing(
                repos,
                name,
            ).contains(repos[i]),
        repos_providing(repos, name).len() <= repos.len(),
    decreases repos.len(),
{
    if repos.len() > 0 {
        let p = repos.drop_last();
        let rp = repos_providing(p, name);
        let r = repos_providing(repos, name);
        law_find_by_capability_exact(p, name);
        assert forall|a: int| 0 <= a < r.len() implies provides(#[trigger] r[a], name)
            && repos.contains(r[a]) by {
            if a < rp.len() {
                assert(r[a] == rp[a]);
                let i = choose|i: int| 0 <= i < p.len() && p[i] == rp[a];
                assert(repos[i] == p[i]);
            } else {
                assert(r[a] == repos[repos.len() - 1]);
            }
        }
        assert forall|i: int| 0 <= i < repos.len() && provides(#[trigger] repos[i], name) implies r.contains(
            repos[i],
        ) by {
            if i < repos.len() - 1 {
                assert(repos[i] == p[i]);
                let a = choose|a: int| 0 <= a < rp.len() && rp[a] == p[i];
                assert(r[a] == rp[a]);
            } else {
                assert(r[r.len() - 1] == repos[i]);
            }
        }
    }
}

/// A repo is found by a capability name exactly when one of its capabilities, any one,
/// has that name: each repo `find_by_capability` returns has a capability with the name,
/// and each repo with a capability of that name, at any position, is returned.
pub proof fn law_find_by_capability_any_capability(repos: Seq<LocalRepo>, name: Seq<char>)
    ensures
        forall|a: int|
            0 <= a < repos_providing(repos, name).len() ==> (#[trigger] repos_providing(
                repos,
                name,
            )[a]).capabilities@.map_values(|c: Capability| c.name@).contains(name),
        forall|i: int, j: int|
            0 <= i < repos.len() && 0 <= j < repos[i].capabilities@.len() && (
            #[trigger] repos[i].capabilities@[j]).name@ == name ==> repos_providing(
                repos,
                name,
            ).contains(repos[i]),
{
    law_find_by_capability_exact(repos, name);
    let r = repos_providing(repos, name);
    assert forall|a: int| 0 <= a < r.len() implies (#[trigger] r[a]).capabilities@.map_values(
        |c: Capability| c.name@,
    ).contains(name) by {
        assert(provides(r[a], name));
        let j = choose|j: int|
            0 <= j < r[a].capabilities@.len() && (#[trigger] r[a].capabilities@[j]).name@ == name;
        assert(r[a].capabilities@.map_values(|c: Capability| c.name@)[j] == name);
    }
    assert forall|i: int, j: int|
        0 <= i < repos.len() && 0 <= j < repos[i].capabilities@.len() && (
        #[trigger] repos[i].capabilities@[j]).name@ == name implies r.contains(repos[i]) by {
        assert(provides(repos[i], name));
    }
}

} // verus!
