//! A key/value cache whose entries expire: each value is kept with the Unix time
//! (in seconds) at which it stops being served. Loading the cache from its JSON
//! file and writing it back are left to the caller; [`FileCache::path`] names the
//! file and [`FileCache::entries`] and [`FileCache::restore`] move the entries.

use std::time::{Duration, SystemTime};
use vstd::prelude::*;
use crate::text::opt_text;

verus! {

/// The system clock's instant type.
#[verifier::external_type_specification]
#[verifier::external_body]
pub struct ExSystemTime(SystemTime);

/// Reads the system clock (`SystemTime::now`). Nothing is claimed of the instant
/// returned: it depends on the machine's clock.
#[verifier::external_body]
fn system_now() -> SystemTime {
    SystemTime::now()
}

/// `t.duration_since(UNIX_EPOCH)`, where an instant before the epoch reads as a zero
/// duration. A `SystemTime` and a `Duration` are opaque here, so nothing is claimed
/// of the duration returned.
#[verifier::external_body]
fn since_unix_epoch(t: &SystemTime) -> Duration {
    t.duration_since(std::time::UNIX_EPOCH).unwrap_or_default()
}

/// The whole seconds of a duration, as `Duration::as_secs` gives them.
pub uninterp spec fn duration_as_secs(d: Duration) -> u64;

/// `Duration::as_secs`: the whole seconds of `d`. The result is a function of `d`
/// alone, named `duration_as_secs`; nothing more is claimed of it.
#[verifier::external_body]
pub(crate) fn duration_secs(d: &Duration) -> (r: u64)
    ensures
        r == duration_as_secs(*d),
{
    d.as_secs()
}

/// `now` is a reading of the clock: the whole seconds of a duration, as the time since
/// the Unix epoch that the system clock reports is.
pub open spec fn is_clock_reading(now: u64) -> bool {
    exists|d: Duration| #[trigger] duration_as_secs(d) == now
}

/// The current Unix time in whole seconds, as the system clock gives it.
pub(crate) fn unix_now() -> (r: u64)
    ensures
        is_clock_reading(r),
{
    let t = system_now();
    let d = since_unix_epoch(&t);
    let r = duration_secs(&d);
    assert(duration_as_secs(d) == r);
    r
}

/// What the cache keeps for a key: the value and the Unix time (seconds) at which it expires.
pub type CacheSlot = (Seq<char>, u64);

/// A slot is live at time `now` while `now` is before its expiry.
pub open spec fn is_live(slot: CacheSlot, now: u64) -> bool {
    now < slot.1
}

/// What a lookup of `key` at time `now` answers: the value if a live slot holds it.
pub open spec fn lookup(m: Map<Seq<char>, CacheSlot>, key: Seq<char>, now: u64) -> Option<
    Seq<char>,
> {
    if m.contains_key(key) && is_live(m[key], now) {
        Some(m[key].0)
    } else {
        None
    }
}

/// The cache after a lookup of `key` at time `now`: an expired slot for `key` is dropped.
pub open spec fn after_lookup(m: Map<Seq<char>, CacheSlot>, key: Seq<char>, now: u64) -> Map<
    Seq<char>,
    CacheSlot,
> {
    if m.contains_key(key) && !is_live(m[key], now) {
        m.remove(key)
    } else {
        m
    }
}

/// The cache after storing `value` under `key` at time `now` for `ttl_secs` seconds:
/// the entry expires at `now + ttl_secs`; where that does not fit in a `u64` the
/// cache is left as it was.
pub open spec fn set_outcome(
    m: Map<Seq<char>, CacheSlot>,
    key: Seq<char>,
    value: Seq<char>,
    ttl_secs: u64,
    now: u64,
) -> Map<Seq<char>, CacheSlot> {
    if now + ttl_secs <= u64::MAX {
        m.insert(key, (value, (now + ttl_secs) as u64))
    } else {
        m
    }
}

/// The slots of `m` that are live at time `now`.
pub open spec fn live_slots(m: Map<Seq<char>, CacheSlot>, now: u64) -> Map<Seq<char>, CacheSlot> {
    Map::new(|k: Seq<char>| m.contains_key(k) && is_live(m[k], now), |k: Seq<char>| m[k])
}

struct CacheEntry {
    key: String,
    value: String,
    expires_at: u64,
}

impl CacheEntry {
    fn copy(&self) -> (r: CacheEntry)
        ensures
            r == *self,
    {
        CacheEntry { key: self.key.clone(), value: self.value.clone(), expires_at: self.expires_at }
    }

    fn is_expired(&self, now: u64) -> (r: bool)
        ensures
            r == !is_live((self.value@, self.expires_at), now),
    {
        now >= self.expires_at
    }
}

spec fn slot_of(e: CacheEntry) -> CacheSlot {
    (e.value@, e.expires_at)
}

spec fn entries_map(s: Seq<CacheEntry>) -> Map<Seq<char>, CacheSlot>
    decreases s.len(),
{
    if s.len() == 0 {
        Map::empty()
    } else {
        entries_map(s.drop_last()).insert(s.last().key@, slot_of(s.last()))
    }
}

spec fn distinct_keys(s: Seq<CacheEntry>) -> bool {
    forall|i: int, j: int| 0 <= i < j < s.len() ==> s[i].key@ != s[j].key@
}

spec fn has_key(s: Seq<CacheEntry>, k: Seq<char>) -> bool {
    exists|i: int| 0 <= i < s.len() && s[i].key@ == k
}

/// With distinct keys, the map holds exactly the entries' keys, each with its own slot,
/// and has as many keys as there are entries.
proof fn lemma_entries_map(s: Seq<CacheEntry>)
    requires
        distinct_keys(s),
    ensures
        forall|k: Seq<char>| #[trigger] entries_map(s).contains_key(k) <==> has_key(s, k),
        forall|i: int|
            0 <= i < s.len() ==> entries_map(s)[#[trigger] s[i].key@] == slot_of(s[i]),
        entries_map(s).dom().finite(),
        entries_map(s).dom().len() == s.len(),
    decreases s.len(),
{
    if s.len() > 0 {
        let p = s.drop_last();
        let e = s.last();
        assert(distinct_keys(p));
        lemma_entries_map(p);
        assert forall|k: Seq<char>| #[trigger] entries_map(s).contains_key(k) <==> has_key(s, k) by {
            if has_key(s, k) {
                let i = choose|i: int| 0 <= i < s.len() && s[i].key@ == k;
                if i < s.len() - 1 {
                    assert(p[i] == s[i]);
                    assert(has_key(p, k));
                }
            }
            if entries_map(s).contains_key(k) && k != e.key@ {
                assert(has_key(p, k));
                let i = choose|i: int| 0 <= i < p.len() && p[i].key@ == k;
                assert(s[i] == p[i]);
            }
            if k == e.key@ {
                assert(s[s.len() - 1].key@ == k);
            }
        }
        assert forall|i: int| 0 <= i < s.len() implies entries_map(s)[#[trigger] s[i].key@]
            == slot_of(s[i]) by {
            if i < s.len() - 1 {
                assert(p[i] == s[i]);
                assert(s[i].key@ != e.key@);
            }
        }
        assert(!entries_map(p).contains_key(e.key@)) by {
            if has_key(p, e.key@) {
                let i = choose|i: int| 0 <= i < p.len() && p[i].key@ == e.key@;
                assert(s[i] == p[i]);
            }
        }
    }
}

/// Writing a slot over an entry with the same key.
proof fn lemma_update(s: Seq<CacheEntry>, i: int, e: CacheEntry)
    requires
        distinct_keys(s),
        0 <= i < s.len(),
        e.key@ == s[i].key@,
    ensures
        distinct_keys(s.update(i, e)),
        entries_map(s.update(i, e)) == entries_map(s).insert(e.key@, slot_of(e)),
{
    let t = s.update(i, e);
    assert(distinct_keys(t)) by {
        assert forall|a: int, b: int| 0 <= a < b < t.len() implies t[a].key@ != t[b].key@ by {
            assert(s[a].key@ != s[b].key@);
        }
    }
    lemma_entries_map(s);
    lemma_entries_map(t);
    assert forall|k: Seq<char>| has_key(t, k) <==> has_key(s, k) by {
        if has_key(t, k) {
            let j = choose|j: int| 0 <= j < t.len() && t[j].key@ == k;
            assert(s[j].key@ == k);
        }
        if has_key(s, k) {
            let j = choose|j: int| 0 <= j < s.len() && s[j].key@ == k;
            assert(t[j].key@ == k);
        }
    }
    assert forall|k: Seq<char>| #[trigger] entries_map(t).contains_key(k) implies entries_map(t)[k]
        == entries_map(s).insert(e.key@, slot_of(e))[k] by {
        let j = choose|j: int| 0 <= j < t.len() && t[j].key@ == k;
        assert(entries_map(t)[t[j].key@] == slot_of(t[j]));
        if j != i {
            assert(entries_map(s)[s[j].key@] == slot_of(s[j]));
        }
    }
    assert(entries_map(t) =~= entries_map(s).insert(e.key@, slot_of(e)));
}

/// Appending an entry whose key is new.
proof fn lemma_push(s: Seq<CacheEntry>, e: CacheEntry)
    requires
        distinct_keys(s),
        !has_key(s, e.key@),
    ensures
        distinct_keys(s.push(e)),
        entries_map(s.push(e)) == entries_map(s).insert(e.key@, slot_of(e)),
{
    let t = s.push(e);
    assert(t.drop_last() =~= s);
    assert forall|a: int, b: int| 0 <= a < b < t.len() implies t[a].key@ != t[b].key@ by {
        if b == s.len() {
            assert(t[a] == s[a]);
        } else {
            assert(s[a].key@ != s[b].key@);
        }
    }
}

/// Removing the entry at `i`.
proof fn lemma_remove(s: Seq<CacheEntry>, i: int)
    requires
        distinct_keys(s),
        0 <= i < s.len(),
    ensures
        distinct_keys(s.remove(i)),
        entries_map(s.remove(i)) == entries_map(s).remove(s[i].key@),
{
    let t = s.remove(i);
    let k0 = s[i].key@;
    assert(distinct_keys(t)) by {
        assert forall|a: int, b: int| 0 <= a < b < t.len() implies t[a].key@ != t[b].key@ by {
            let sa = if a < i { a } else { a + 1 };
            let sb = if b < i { b } else { b + 1 };
            assert(t[a] == s[sa]);
            assert(t[b] == s[sb]);
        }
    }
    lemma_entries_map(s);
    lemma_entries_map(t);
    assert forall|k: Seq<char>| #[trigger] entries_map(t).contains_key(k) <==> entries_map(
        s,
    ).remove(k0).contains_key(k) by {
        if has_key(t, k) {
            let j = choose|j: int| 0 <= j < t.len() && t[j].key@ == k;
            let sj = if j < i { j } else { j + 1 };
            assert(t[j] == s[sj]);
            assert(has_key(s, k));
        }
        if has_key(s, k) && k != k0 {
            let j = choose|j: int| 0 <= j < s.len() && s[j].key@ == k;
            assert(j != i);
            let tj = if j < i { j } else { j - 1 };
            assert(t[tj] == s[j]);
            assert(has_key(t, k));
        }
    }
    assert forall|k: Seq<char>| #[trigger] entries_map(t).contains_key(k) implies entries_map(t)[k]
        == entries_map(s)[k] by {
        let j = choose|j: int| 0 <= j < t.len() && t[j].key@ == k;
        let sj = if j < i { j } else { j + 1 };
        assert(t[j] == s[sj]);
        assert(entries_map(t)[t[j].key@] == slot_of(t[j]));
        assert(entries_map(s)[s[sj].key@] == slot_of(s[sj]));
    }
    assert(entries_map(t) =~= entries_map(s).remove(k0));
}

/// The entries of `s` that are live at time `now`, in their order.
spec fn live_entries(s: Seq<CacheEntry>, now: u64) -> Seq<CacheEntry>
    decreases s.len(),
{
    if s.len() == 0 {
        Seq::empty()
    } else if is_live(slot_of(s.last()), now) {
        live_entries(s.drop_last(), now).push(s.last())
    } else {
        live_entries(s.drop_last(), now)
    }
}

proof fn lemma_live_entries(s: Seq<CacheEntry>, now: u64)
    requires
        distinct_keys(s),
    ensures
        distinct_keys(live_entries(s, now)),
        forall|k: Seq<char>| has_key(live_entries(s, now), k) ==> has_key(s, k),
        entries_map(live_entries(s, now)) == live_slots(entries_map(s), now),
    decreases s.len(),
{
    if s.len() == 0 {
        assert(live_slots(entries_map(s), now) =~= Map::empty());
    } else {
        let p = s.drop_last();
        let e = s.last();
        let lp = live_entries(p, now);
        assert(distinct_keys(p));
        lemma_live_entries(p, now);
        lemma_entries_map(p);
        assert(!has_key(p, e.key@)) by {
            if has_key(p, e.key@) {
                let i = choose|i: int| 0 <= i < p.len() && p[i].key@ == e.key@;
                assert(s[i] == p[i]);
            }
        }
        assert(!has_key(lp, e.key@));
        assert forall|k: Seq<char>| has_key(p, k) implies has_key(s, k) by {
            let i = choose|i: int| 0 <= i < p.len() && p[i].key@ == k;
            assert(s[i] == p[i]);
        }
        if is_live(slot_of(e), now) {
            lemma_push(lp, e);
            assert forall|k: Seq<char>| has_key(lp.push(e), k) implies has_key(s, k) by {
                let i = choose|i: int| 0 <= i < lp.push(e).len() && lp.push(e)[i].key@ == k;
                if i < lp.len() {
                    assert(lp.push(e)[i] == lp[i]);
                    assert(has_key(lp, k));
                } else {
                    assert(s[s.len() - 1].key@ == k);
                }
            }
        }
        assert(live_slots(entries_map(s), now) =~= entries_map(live_entries(s, now)));
    }
}

/// A key/value cache with per-entry expiry.
pub struct FileCache {
    path: String,
    entries: Vec<CacheEntry>,
}

impl View for FileCache {
    type V = Map<Seq<char>, CacheSlot>;

    closed spec fn view(&self) -> Map<Seq<char>, CacheSlot> {
        entries_map(self.entries@)
    }
}

impl FileCache {
    /// The cache's internal consistency: no key is stored twice.
    #[verifier::type_invariant]
    spec fn keys_distinct(self) -> bool {
        distinct_keys(self.entries@)
    }


    /// The path of the file the cache is kept in.
    pub closed spec fn file_path(&self) -> Seq<char> {
        self.path@
    }

    /// An empty cache to be kept in the file at `path`.
    pub fn empty(path: &str) -> (c: Self)
        ensures
            c@ == Map::<Seq<char>, CacheSlot>::empty(),
            c.file_path() == path@,
    {
        let c = FileCache { path: path.to_owned(), entries: Vec::new() };
        assert(c@ =~= Map::<Seq<char>, CacheSlot>::empty());
        c
    }

    /// The path of the file the cache is kept in.
    pub fn path(&self) -> (p: &str)
        ensures
            p@ == self.file_path(),
    {
        self.path.as_str()
    }

    fn find(&self, key: &String) -> (r: Option<usize>)
        ensures
            match r {
                Some(i) => i < self.entries@.len() && self.entries@[i as int].key@ == key@,
                None => !has_key(self.entries@, key@),
            },
    {
        let n = self.entries.len();
        let mut i: usize = 0;
        while i < n
            invariant
                n == self.entries@.len(),
                i <= n,
                forall|j: int| 0 <= j < i ==> self.entries@[j].key@ != key@,
            decreases n - i,
        {
            if self.entries[i].key == *key {
                return Some(i);
            }
            i += 1;
        }
        None
    }

    /// Stores `value` under `key`, expiring at Unix time `expires_at`, replacing what
    /// the key held. This is how entries read back from the cache file are restored.
    pub fn restore(&mut self, key: &str, value: &str, expires_at: u64)
        ensures
            final(self)@ == old(self)@.insert(key@, (value@, expires_at)),
            final(self).file_path() == old(self).file_path(),
    {
        proof {
            use_type_invariant(&*self);
        }
        let k = key.to_owned();
        let e = CacheEntry { key: k.clone(), value: value.to_owned(), expires_at };
        let found = self.find(&k);
        let mut entries: Vec<CacheEntry> = Vec::new();
        std::mem::swap(&mut entries, &mut self.entries);
        match found {
            Some(i) => {
                proof {
                    lemma_update(entries@, i as int, e);
                }
                entries.set(i, e);
            },
            None => {
                proof {
                    lemma_push(entries@, e);
                }
                entries.push(e);
            },
        }
        self.entries = entries;
    }

    /// Looks `key` up at Unix time `now`. A live entry answers with its value; an
    /// expired one is dropped and the answer is `None`.
    pub fn get_at(&mut self, key: &str, now: u64) -> (r: Option<String>)
        ensures
            opt_text(r) == lookup(old(self)@, key@, now),
            final(self)@ == after_lookup(old(self)@, key@, now),
            final(self).file_path() == old(self).file_path(),
    {
        proof {
            use_type_invariant(&*self);
            lemma_entries_map(self.entries@);
        }
        let k = key.to_owned();
        match self.find(&k) {
            None => None,
            Some(i) => {
                if self.entries[i].is_expired(now) {
                    proof {
                        lemma_remove(self.entries@, i as int);
                    }
                    self.remove_at(i);
                    None
                } else {
                    Some(self.entries[i].value.clone())
                }
            },
        }
    }

    /// Stores `value` under `key` at Unix time `now`, to expire `ttl_secs` seconds later.
    pub fn set_at(&mut self, key: &str, value: &str, ttl_secs: u64, now: u64)
        requires
            now + ttl_secs <= u64::MAX,
        ensures
            final(self)@ == old(self)@.insert(key@, (value@, (now + ttl_secs) as u64)),
            final(self).file_path() == old(self).file_path(),
    {
        self.restore(key, value, now + ttl_secs);
    }

    /// Removes `key` from the cache.
    pub fn remove(&mut self, key: &str)
        ensures
            final(self)@ == old(self)@.remove(key@),
            final(self).file_path() == old(self).file_path(),
    {
        proof {
            use_type_invariant(&*self);
            lemma_entries_map(self.entries@);
        }
        let k = key.to_owned();
        match self.find(&k) {
            None => {
                assert(self@ =~= self@.remove(key@));
            },
            Some(i) => {
                proof {
                    lemma_remove(self.entries@, i as int);
                }
                self.remove_at(i);
            },
        }
    }

    fn remove_at(&mut self, i: usize)
        requires
            i < old(self).entries@.len(),
        ensures
            final(self).entries@ == old(self).entries@.remove(i as int),
            final(self).path == old(self).path,
    {
        proof {
            use_type_invariant(&*self);
            lemma_remove(self.entries@, i as int);
        }
        let mut entries: Vec<CacheEntry> = Vec::new();
        std::mem::swap(&mut entries, &mut self.entries);
        entries.remove(i);
        self.entries = entries;
    }

    /// Removes every entry.
    pub fn clear(&mut self)
        ensures
            final(self)@ == Map::<Seq<char>, CacheSlot>::empty(),
            final(self).file_path() == old(self).file_path(),
    {
        self.entries = Vec::new();
        assert(self@ =~= Map::<Seq<char>, CacheSlot>::empty());
    }

    /// Drops every entry that has expired at Unix time `now`.
    pub fn purge_expired_at(&mut self, now: u64)
        ensures
            final(self)@ == live_slots(old(self)@, now),
            final(self).file_path() == old(self).file_path(),
    {
        let n = self.entries.len();
        let mut kept: Vec<CacheEntry> = Vec::new();
        let mut i: usize = 0;
        while i < n
            invariant
                n == self.entries@.len(),
                i <= n,
                kept@ == live_entries(self.entries@.take(i as int), now),
            decreases n - i,
        {
            let e = self.entries[i].copy();
            assert(self.entries@.take(i + 1).drop_last() =~= self.entries@.take(i as int));
            if !e.is_expired(now) {
                kept.push(e);
            }
            i += 1;
        }
        assert(self.entries@.take(n as int) =~= self.entries@);
        proof {
            use_type_invariant(&*self);
            lemma_live_entries(self.entries@, now);
        }
        self.entries = kept;
    }

    /// The number of entries live at Unix time `now`, after dropping the expired ones.
    pub fn len_at(&mut self, now: u64) -> (r: usize)
        ensures
            final(self)@ == live_slots(old(self)@, now),
            r == final(self)@.len(),
            final(self).file_path() == old(self).file_path(),
    {
        self.purge_expired_at(now);
        proof {
            use_type_invariant(&*self);
            lemma_entries_map(self.entries@);
        }
        self.entries.len()
    }

    /// The number of entries held, expired ones included.
    pub fn raw_len(&self) -> (r: usize)
        ensures
            r == self@.len(),
    {
        proof {
            use_type_invariant(&*self);
            lemma_entries_map(self.entries@);
        }
        self.entries.len()
    }

    /// Every entry as `(key, value, expiry time)`, for writing the cache file.
    pub fn entries(&self) -> (r: Vec<(String, String, u64)>)
        ensures
            r@.len() == self@.len(),
            forall|i: int|
                0 <= i < r@.len() ==> self@.contains_key(#[trigger] r@[i].0@) && self@[r@[i].0@]
                    == (r@[i].1@, r@[i].2),
            forall|i: int, j: int| 0 <= i < j < r@.len() ==> r@[i].0@ != r@[j].0@,
            self@.dom().finite(),
    {
        proof {
            use_type_invariant(&*self);
            lemma_entries_map(self.entries@);
        }
        let n = self.entries.len();
        let mut r: Vec<(String, String, u64)> = Vec::new();
        let mut i: usize = 0;
        while i < n
            invariant
                n == self.entries@.len(),
                i <= n,
                r@.len() == i,
                forall|j: int|
                    0 <= j < i ==> (#[trigger] r@[j]).0@ == self.entries@[j].key@ && r@[j].1@
                        == self.entries@[j].value@ && r@[j].2 == self.entries@[j].expires_at,
            decreases n - i,
        {
            let e = &self.entries[i];
            r.push((e.key.clone(), e.value.clone(), e.expires_at));
            i += 1;
        }
        assert forall|a: int| 0 <= a < r@.len() implies self@.contains_key(#[trigger] r@[a].0@)
            && self@[r@[a].0@] == (r@[a].1@, r@[a].2) by {
            assert(has_key(self.entries@, self.entries@[a].key@));
            assert(self@[self.entries@[a].key@] == slot_of(self.entries@[a]));
        }
        assert forall|a: int, b: int| 0 <= a < b < r@.len() implies r@[a].0@ != r@[b].0@ by {
            assert(r@[a].0@ == self.entries@[a].key@);
            assert(r@[b].0@ == self.entries@[b].key@);
        }
        r
    }

    /// Looks `key` up at the current time: the value if a live entry holds it, `None`
    /// if the key is missing or its entry has expired (an expired entry is dropped).
    pub fn get(&mut self, key: &str) -> (r: Option<String>)
        ensures
            final(self).file_path() == old(self).file_path(),
            exists|now: u64|
                {
                    &&& is_clock_reading(now)
                    &&& opt_text(r) == #[trigger] lookup(old(self)@, key@, now)
                    &&& final(self)@ == after_lookup(old(self)@, key@, now)
                },
    {
        let now = unix_now();
        let r = self.get_at(key, now);
        assert(opt_text(r) == lookup(old(self)@, key@, now));
        r
    }

    /// Stores `value` under `key` at Unix time `now`, to expire `ttl` (in whole seconds)
    /// later. Where that expiry time does not fit in a `u64` the cache is left unchanged.
    pub fn set_with_ttl_at(&mut self, key: &str, value: &str, ttl: Duration, now: u64)
        ensures
            final(self).file_path() == old(self).file_path(),
            final(self)@ == set_outcome(old(self)@, key@, value@, duration_as_secs(ttl), now),
    {
        let secs = duration_secs(&ttl);
        if now <= u64::MAX - secs {
            self.set_at(key, value, secs, now);
        }
    }

    /// Stores `value` under `key`, to expire `ttl` (in whole seconds) after the current
    /// time. Where that expiry time does not fit in a `u64` the cache is left unchanged;
    /// with a `ttl` of less than a second the value is always stored.
    pub fn set(&mut self, key: &str, value: &str, ttl: Duration)
        ensures
            final(self).file_path() == old(self).file_path(),
            exists|now: u64|
                is_clock_reading(now) && final(self)@ == #[trigger] set_outcome(
                    old(self)@,
                    key@,
                    value@,
                    duration_as_secs(ttl),
                    now,
                ),
    {
        let now = unix_now();
        self.set_with_ttl_at(key, value, ttl, now);
    }

    /// Whether `key` holds a live entry at the current time (an expired entry is dropped).
    pub fn contains_key(&mut self, key: &str) -> (r: bool)
        ensures
            final(self).file_path() == old(self).file_path(),
            exists|now: u64|
                {
                    &&& is_clock_reading(now)
                    &&& r == (#[trigger] lookup(old(self)@, key@, now) is Some)
                    &&& final(self)@ == after_lookup(old(self)@, key@, now)
                },
    {
        self.get(key).is_some()
    }

    /// Drops every entry that has expired at the current time.
    pub fn purge_expired(&mut self)
        ensures
            final(self).file_path() == old(self).file_path(),
            exists|now: u64|
                is_clock_reading(now) && final(self)@ == #[trigger] live_slots(old(self)@, now),
    {
        let now = unix_now();
        self.purge_expired_at(now);
    }

    /// The number of entries live at the current time, after dropping the expired ones.
    pub fn len(&mut self) -> (r: usize)
        ensures
            final(self).file_path() == old(self).file_path(),
            r == final(self)@.len(),
            exists|now: u64|
                is_clock_reading(now) && final(self)@ == #[trigger] live_slots(old(self)@, now),
    {
        let now = unix_now();
        self.len_at(now)
    }

    /// Whether no entry is live at the current time (expired entries are dropped).
    pub fn is_empty(&mut self) -> (r: bool)
        ensures
            final(self).file_path() == old(self).file_path(),
            r == (final(self)@.len() == 0),
            exists|now: u64|
                is_clock_reading(now) && final(self)@ == #[trigger] live_slots(old(self)@, now),
    {
        self.len() == 0
    }
}

} // verus!

verus! {

/// Read after write: a value stored at time `now` for `ttl_secs` seconds is what a
/// lookup of its key answers at any time before it expires.
pub proof fn law_get_returns_set_value(
    m: Map<Seq<char>, CacheSlot>,
    key: Seq<char>,
    value: Seq<char>,
    ttl_secs: u64,
    now: u64,
    later: u64,
)
    requires
        now + ttl_secs <= u64::MAX,
        later < now + ttl_secs,
    ensures
        lookup(m.insert(key, (value, (now + ttl_secs) as u64)), key, later) == Some(value),
{
}

/// Expiry: from the moment its time-to-live has run out, a stored value is no longer
/// served (a zero time-to-live expires at once).
pub proof fn law_expired_value_not_served(
    m: Map<Seq<char>, CacheSlot>,
    key: Seq<char>,
    value: Seq<char>,
    ttl_secs: u64,
    now: u64,
    later: u64,
)
    requires
        now + ttl_secs <= u64::MAX,
        now + ttl_secs <= later,
    ensures
        lookup(m.insert(key, (value, (now + ttl_secs) as u64)), key, later) is None,
{
}

/// Storing under one key leaves the answer for every other key unchanged.
pub proof fn law_set_leaves_other_keys(
    m: Map<Seq<char>, CacheSlot>,
    key: Seq<char>,
    slot: CacheSlot,
    other: Seq<char>,
    t: u64,
)
    requires
        other != key,
    ensures
        lookup(m.insert(key, slot), other, t) == lookup(m, other, t),
{
}

/// Overwrite: storing twice under a key, the second value is the one kept.
pub proof fn law_overwrite_keeps_last(
    m: Map<Seq<char>, CacheSlot>,
    key: Seq<char>,
    first: CacheSlot,
    second: CacheSlot,
)
    ensures
        m.insert(key, first).insert(key, second) == m.insert(key, second),
{
    assert(m.insert(key, first).insert(key, second) =~= m.insert(key, second));
}

/// A removed key is not served, at any time.
pub proof fn law_removed_key_not_served(m: Map<Seq<char>, CacheSlot>, key: Seq<char>, t: u64)
    ensures
        lookup(m.remove(key), key, t) is None,
{
}

/// After a clear no entry is live, at any time.
pub proof fn law_clear_leaves_nothing_live(t: u64)
    ensures
        live_slots(Map::<Seq<char>, CacheSlot>::empty(), t).len() == 0,
{
    assert(live_slots(Map::<Seq<char>, CacheSlot>::empty(), t) =~= Map::<
        Seq<char>,
        CacheSlot,
    >::empty());
}

/// Dropping an expired entry during a lookup changes no answer given at that time.
pub proof fn law_lookup_keeps_answers(
    m: Map<Seq<char>, CacheSlot>,
    key: Seq<char>,
    other: Seq<char>,
    now: u64,
)
    ensures
        lookup(after_lookup(m, key, now), other, now) == lookup(m, other, now),
{
}

/// Purging expired entries changes no answer given at that time, and what is left
/// is exactly what is live.
pub proof fn law_purge_keeps_answers(m: Map<Seq<char>, CacheSlot>, key: Seq<char>, now: u64)
    ensures
        lookup(live_slots(m, now), key, now) == lookup(m, key, now),
        forall|k: Seq<char>| #[trigger]
            live_slots(m, now).contains_key(k) ==> is_live(live_slots(m, now)[k], now),
{
}

/// Purging twice at the same time is the same as purging once.
pub proof fn law_purge_idempotent(m: Map<Seq<char>, CacheSlot>, now: u64)
    ensures
        live_slots(live_slots(m, now), now) == live_slots(m, now),
{
    assert(live_slots(live_slots(m, now), now) =~= live_slots(m, now));
}

} // verus!

verus! {

/// The contents a cache gets when each of `r`, in order, is restored into an empty cache.
pub open spec fn restored(r: Seq<(String, String, u64)>) -> Map<Seq<char>, CacheSlot>
    decreases r.len(),
{
    if r.len() == 0 {
        Map::empty()
    } else {
        restored(r.drop_last()).insert(r.last().0@, (r.last().1@, r.last().2))
    }
}

proof fn lemma_restored(r: Seq<(String, String, u64)>)
    requires
        forall|i: int, j: int| 0 <= i < j < r.len() ==> r[i].0@ != r[j].0@,
    ensures
        forall|k: Seq<char>|
            #[trigger] restored(r).contains_key(k) <==> exists|i: int|
                0 <= i < r.len() && (#[trigger] r[i]).0@ == k,
        forall|i: int| 0 <= i < r.len() ==> restored(r)[(#[trigger] r[i]).0@] == (r[i].1@, r[i].2),
        restored(r).dom().finite(),
        restored(r).dom().len() == r.len(),
    decreases r.len(),
{
    if r.len() > 0 {
        let p = r.drop_last();
        let e = r.last();
        assert forall|i: int, j: int| 0 <= i < j < p.len() implies p[i].0@ != p[j].0@ by {
            assert(p[i] == r[i] && p[j] == r[j]);
        }
        lemma_restored(p);
        assert forall|k: Seq<char>| #[trigger] restored(r).contains_key(k) <==> exists|i: int|
            0 <= i < r.len() && (#[trigger] r[i]).0@ == k by {
            if restored(p).contains_key(k) {
                let i = choose|i: int| 0 <= i < p.len() && (#[trigger] p[i]).0@ == k;
                assert(r[i] == p[i]);
            }
            if exists|i: int| 0 <= i < r.len() && (#[trigger] r[i]).0@ == k {
                let i = choose|i: int| 0 <= i < r.len() && (#[trigger] r[i]).0@ == k;
                if i < r.len() - 1 {
                    assert(p[i] == r[i]);
                }
            }
            if k == e.0@ {
                assert(r[r.len() - 1].0@ == k);
            }
        }
        assert forall|i: int| 0 <= i < r.len() implies restored(r)[(#[trigger] r[i]).0@] == (
            r[i].1@,
            r[i].2,
        ) by {
            if i < r.len() - 1 {
                assert(p[i] == r[i]);
                assert(r[i].0@ != e.0@);
            }
        }
        assert(!restored(p).contains_key(e.0@)) by {
            if restored(p).contains_key(e.0@) {
                let i = choose|i: int| 0 <= i < p.len() && (#[trigger] p[i]).0@ == e.0@;
                assert(r[i] == p[i]);
            }
        }
    }
}

/// Write-out and read-back: restoring, into an empty cache, every entry that
/// [`FileCache::entries`] lists for a cache gives back that cache's contents,
/// whatever the order of the entries.
pub proof fn law_entries_restore_round_trip(
    m: Map<Seq<char>, CacheSlot>,
    r: Seq<(String, String, u64)>,
)
    requires
        m.dom().finite(),
        r.len() == m.len(),
        forall|i: int|
            0 <= i < r.len() ==> m.contains_key(#[trigger] r[i].0@) && m[r[i].0@] == (
                r[i].1@,
                r[i].2,
            ),
        forall|i: int, j: int| 0 <= i < j < r.len() ==> r[i].0@ != r[j].0@,
    ensures
        restored(r) == m,
{
    lemma_restored(r);
    let d = restored(r);
    assert(d.dom().subset_of(m.dom())) by {
        assert forall|k: Seq<char>| d.dom().contains(k) implies m.dom().contains(k) by {
            assert(d.contains_key(k));
            let i = choose|i: int| 0 <= i < r.len() && (#[trigger] r[i]).0@ == k;
            assert(m.contains_key(r[i].0@));
        }
    }
    vstd::set_lib::lemma_subset_equality(d.dom(), m.dom());
    assert forall|k: Seq<char>| #[trigger] d.contains_key(k) implies d[k] == m[k] by {
        let i = choose|i: int| 0 <= i < r.len() && (#[trigger] r[i]).0@ == k;
        assert(d[r[i].0@] == (r[i].1@, r[i].2));
    }
    assert(d =~= m);
}

/// A lookup answers with a key's value exactly when the key's entry expires after the
/// lookup time; an entry whose expiry time has come is never served, and the lookup
/// drops it.
pub proof fn law_lookup_serves_only_live(m: Map<Seq<char>, CacheSlot>, key: Seq<char>, now: u64)
    ensures
        m.contains_key(key) && now < m[key].1 ==> lookup(m, key, now) == Some(m[key].0)
            && after_lookup(m, key, now) == m,
        m.contains_key(key) && m[key].1 <= now ==> lookup(m, key, now) is None
            && !after_lookup(m, key, now).contains_key(key),
        !m.contains_key(key) ==> lookup(m, key, now) is None && after_lookup(m, key, now) == m,
        forall|k: Seq<char>| k != key ==> #[trigger] after_lookup(m, key, now).contains_key(k)
            == m.contains_key(k),
{
}

/// The count after purging is the number of keys whose entry expires after the purge
/// time: every such entry is kept, unchanged, and every other entry is dropped.
pub proof fn law_len_counts_live(m: Map<Seq<char>, CacheSlot>, now: u64)
    requires
        m.dom().finite(),
    ensures
        live_slots(m, now).dom() == m.dom().filter(|k: Seq<char>| now < m[k].1),
        live_slots(m, now).len() == m.dom().filter(|k: Seq<char>| now < m[k].1).len(),
        forall|k: Seq<char>|
            #[trigger] m.contains_key(k) && now < m[k].1 ==> live_slots(m, now).contains_key(k)
                && live_slots(m, now)[k] == m[k],
        forall|k: Seq<char>| #[trigger] m.contains_key(k) && m[k].1 <= now ==> !live_slots(
            m,
            now,
        ).contains_key(k),
{
    assert(live_slots(m, now).dom() =~= m.dom().filter(|k: Seq<char>| now < m[k].1));
}

} // verus!
