//! A bounded cache of decoded pages, evicting the least recently used.
use lru::LruCache;
use vstd::prelude::*;

use crate::file::parse_page_file;
use crate::file::PageReader;
use crate::page::Page;
use crate::page::PageKey;
use crate::page::PageMeta;
use crate::types::PageError;

verus! {

/// The number of pages that `PageCache::new` keeps.
pub const PAGE_CACHE_SIZE: usize = 256;

/// `lru::LruCache`, kept opaque: its contents are read only through
/// `lru_entries` and `lru_cap`.
#[verifier::external_type_specification]
#[verifier::external_body]
#[verifier::reject_recursive_types(K)]
#[verifier::reject_recursive_types(V)]
#[verifier::reject_recursive_types(S)]
pub struct ExLruCache<K, V, S>(LruCache<K, V, S>);

/// `lru::DefaultHasher`, the hasher that `lru::LruCache::new` uses, kept
/// opaque.
#[verifier::external_type_specification]
#[verifier::external_body]
pub struct ExLruHasher(lru::DefaultHasher);

/// The entries of an `lru::LruCache`, least recently used first.
pub uninterp spec fn lru_entries(c: LruCache<PageKey, Page>) -> Seq<(PageKey, Page)>;

/// The capacity that an `lru::LruCache` was made with.
pub uninterp spec fn lru_cap(c: LruCache<PageKey, Page>) -> nat;

/// Some entry has the key `k`.
pub open spec fn has_key(s: Seq<(PageKey, Page)>, k: PageKey) -> bool {
    exists|i: int| 0 <= i < s.len() && s[i].0 == k
}

/// No two entries share a key.
pub open spec fn unique_keys(s: Seq<(PageKey, Page)>) -> bool {
    forall|i: int, j: int| 0 <= i < j < s.len() ==> s[i].0 != s[j].0
}

/// The position of the entry with key `k`.
pub open spec fn key_index(s: Seq<(PageKey, Page)>, k: PageKey) -> int {
    choose|i: int| 0 <= i < s.len() && s[i].0 == k
}

/// The entries after an access to `k` that found or loaded the page `p`: a
/// present entry moves to the most recently used end; a new one joins there,
/// and the least recently used entry leaves when the cache is full.
pub open spec fn accessed(s: Seq<(PageKey, Page)>, cap: nat, k: PageKey, p: Page) -> Seq<
    (PageKey, Page),
> {
    if has_key(s, k) {
        s.remove(key_index(s, k)).push(s[key_index(s, k)])
    } else if s.len() < cap {
        s.push((k, p))
    } else {
        s.drop_first().push((k, p))
    }
}

/// Relies on `lru::LruCache::new`: an empty cache of capacity `cap`, which
/// must not be zero.
#[verifier::external_body]
fn lru_new(cap: usize) -> (r: LruCache<PageKey, Page>)
    requires
        cap > 0,
    ensures
        lru_entries(r) == Seq::<(PageKey, Page)>::empty(),
        lru_cap(r) == cap,
{
    LruCache::new(std::num::NonZeroUsize::new(cap).unwrap())
}

/// Relies on `lru::LruCache::contains`: whether an entry has the key; the
/// order of use is left alone.
#[verifier::external_body]
fn lru_contains(c: &LruCache<PageKey, Page>, k: &PageKey) -> (r: bool)
    ensures
        r == has_key(lru_entries(*c), *k),
{
    c.contains(k)
}

/// Relies on `lru::LruCache::get`: the value under the key, whose entry
/// becomes the most recently used; nothing changes when no entry has it.
#[verifier::external_body]
fn lru_get<'a>(c: &'a mut LruCache<PageKey, Page>, k: &PageKey) -> (r: Option<&'a Page>)
    requires
        unique_keys(lru_entries(*old(c))),
    ensures
        lru_cap(*final(c)) == lru_cap(*old(c)),
        match r {
            None => !has_key(lru_entries(*old(c)), *k) && lru_entries(*final(c)) == lru_entries(
                *old(c),
            ),
            Some(p) => exists|i: int|
                0 <= i < lru_entries(*old(c)).len() && lru_entries(*old(c))[i].0 == *k && *p
                    == lru_entries(*old(c))[i].1 && lru_entries(*final(c)) == lru_entries(
                    *old(c),
                ).remove(i).push(lru_entries(*old(c))[i]),
        },
{
    c.get(k)
}

/// Relies on `lru::LruCache::put` for a key that no entry has: the entry joins
/// as the most recently used, and the least recently used entry leaves when
/// the cache is full.
#[verifier::external_body]
fn lru_put(c: &mut LruCache<PageKey, Page>, k: PageKey, v: Page)
    requires
        !has_key(lru_entries(*old(c)), k),
        lru_entries(*old(c)).len() <= lru_cap(*old(c)),
    ensures
        lru_cap(*final(c)) == lru_cap(*old(c)),
        lru_entries(*final(c)) == if lru_entries(*old(c)).len() < lru_cap(*old(c)) {
            lru_entries(*old(c)).push((k, v))
        } else {
            lru_entries(*old(c)).drop_first().push((k, v))
        },
{
    c.put(k, v);
}

/// A page that `load` may hand over for `meta` reads as `p`.
pub open spec fn loaded_as<F: Fn(&PageMeta) -> Result<Vec<u8>, PageError>>(
    load: F,
    meta: PageMeta,
    p: Page,
) -> bool {
    &&& p.meta == meta
    &&& exists|f: Vec<u8>|
        load.ensures((&meta,), Ok::<Vec<u8>, PageError>(f)) && parse_page_file(
            meta.typ,
            meta.size as nat,
            f@,
        ) == Ok::<_, PageError>(p.data@)
}

/// Loading `meta` through `load` may fail with `e`: the loader fails, or the
/// file that it hands over does not read as a page.
pub open spec fn load_fails<F: Fn(&PageMeta) -> Result<Vec<u8>, PageError>>(
    load: F,
    meta: PageMeta,
    e: PageError,
) -> bool {
    ||| load.ensures((&meta,), Err::<Vec<u8>, PageError>(e))
    ||| exists|f: Vec<u8>|
        load.ensures((&meta,), Ok::<Vec<u8>, PageError>(f)) && parse_page_file(
            meta.typ,
            meta.size as nat,
            f@,
        ) == Err::<crate::codec::PageDataView, PageError>(e)
}

/// A page result with the page itself in place of a reference to it.
pub open spec fn owned(r: Result<&Page, PageError>) -> Result<Page, PageError> {
    match r {
        Ok(p) => Ok(*p),
        Err(e) => Err(e),
    }
}

/// An access to `key` took the entries from `c0` to `c1` and gave `r`: a
/// cached page is handed back without a load; on a miss the page is loaded
/// through `load` from the file of `meta`, or the load fails; a success
/// records the access, and a failure changes nothing.
pub open spec fn fetched<F: Fn(&PageMeta) -> Result<Vec<u8>, PageError>>(
    c0: Seq<(PageKey, Page)>,
    cap: nat,
    c1: Seq<(PageKey, Page)>,
    key: PageKey,
    meta: PageMeta,
    load: F,
    r: Result<Page, PageError>,
) -> bool {
    &&& has_key(c0, key) ==> r == Ok::<Page, PageError>(c0[key_index(c0, key)].1)
    &&& !has_key(c0, key) ==> match r {
        Ok(p) => loaded_as(load, meta, p),
        Err(e) => load_fails(load, meta, e),
    }
    &&& match r {
        Ok(p) => p.wf() && c1 == accessed(c0, cap, key, p),
        Err(_) => c1 == c0,
    }
}

/// Decoded pages by key, at most `capacity` of them.
pub struct PageCache {
    pages: LruCache<PageKey, Page>,
}

impl PageCache {
    /// The cached pages with their keys, least recently used first.
    pub closed spec fn entries(&self) -> Seq<(PageKey, Page)> {
        lru_entries(self.pages)
    }

    /// The most pages that the cache keeps.
    pub closed spec fn capacity(&self) -> nat {
        lru_cap(self.pages)
    }

    /// Keys are unique, the capacity is respected, and every page is well
    /// formed.
    pub open spec fn wf(&self) -> bool {
        &&& self.capacity() > 0
        &&& self.entries().len() <= self.capacity()
        &&& unique_keys(self.entries())
        &&& forall|i: int| 0 <= i < self.entries().len() ==> (#[trigger] self.entries()[i]).1.wf()
    }

    /// An empty cache of `PAGE_CACHE_SIZE` pages.
    pub fn new() -> (r: PageCache)
        ensures
            r.wf(),
            r.entries() == Seq::<(PageKey, Page)>::empty(),
            r.capacity() == PAGE_CACHE_SIZE,
    {
        PageCache::with_capacity(PAGE_CACHE_SIZE)
    }

    /// An empty cache of `cap` pages.
    pub fn with_capacity(cap: usize) -> (r: PageCache)
        requires
            cap > 0,
        ensures
            r.wf(),
            r.entries() == Seq::<(PageKey, Page)>::empty(),
            r.capacity() == cap,
    {
        PageCache { pages: lru_new(cap) }
    }

    /// Whether a page is cached under `key`; the order of use is left alone.
    pub fn contains(&self, key: &PageKey) -> (r: bool)
        ensures
            r == has_key(self.entries(), *key),
    {
        lru_contains(&self.pages, key)
    }

    /// The page under `key`, loaded on a miss: `load` hands over the file of
    /// `meta`, which `PageReader::read` decodes. The page becomes the most
    /// recently used; a new page evicts the least recently used one when the
    /// cache is full. A failed load changes nothing, so a later call retries.
    pub fn get<F: Fn(&PageMeta) -> Result<Vec<u8>, PageError>>(
        &mut self,
        key: &PageKey,
        meta: &PageMeta,
        load: &F,
    ) -> (r: Result<&Page, PageError>)
        requires
            old(self).wf(),
            forall|m: &PageMeta| load.requires((m,)),
        ensures
            final(self).wf(),
            final(self).capacity() == old(self).capacity(),
            fetched(
                old(self).entries(),
                old(self).capacity(),
                final(self).entries(),
                *key,
                *meta,
                *load,
                owned(r),
            ),
    {
        let ghost s0 = self.entries();
        if !lru_contains(&self.pages, key) {
            let file = match load(meta) {
                Ok(f) => f,
                Err(e) => return Err(e),
            };
            let page = match PageReader::read(meta, file.as_slice()) {
                Ok(p) => p,
                Err(e) => return Err(e),
            };
            lru_put(&mut self.pages, *key, page);
            proof {
                let s1 = self.entries();
                assert(s1[s1.len() - 1].0 == *key);
                assert forall|i: int, j: int| 0 <= i < j < s1.len() implies s1[i].0 != s1[j].0 by {
                    if j == s1.len() - 1 {
                        if s0.len() < self.capacity() {
                            assert(s1[i] == s0[i]);
                        } else {
                            assert(s1[i] == s0[i + 1]);
                        }
                    } else {
                        if s0.len() < self.capacity() {
                            assert(s1[i] == s0[i] && s1[j] == s0[j]);
                        } else {
                            assert(s1[i] == s0[i + 1] && s1[j] == s0[j + 1]);
                        }
                    }
                }
                assert(has_key(s1, *key));
            }
        }
        let ghost s1 = self.entries();
        proof {
            lemma_touch(s1, *key);
            if !has_key(s0, *key) {
                lemma_touch_last(s1, *key);
            }
        }
        match lru_get(&mut self.pages, key) {
            Some(p) => Ok(p),
            None => Err(PageError::CorruptPage),
        }
    }
}

/// Moving the entry with key `k` to the most recently used end keeps keys
/// unique and pages well formed, and that entry is the only one with `k`.
proof fn lemma_touch(s: Seq<(PageKey, Page)>, k: PageKey)
    requires
        unique_keys(s),
        has_key(s, k),
        forall|a: int| 0 <= a < s.len() ==> (#[trigger] s[a]).1.wf(),
    ensures
        0 <= key_index(s, k) < s.len(),
        s[key_index(s, k)].0 == k,
        forall|j: int| 0 <= j < s.len() && s[j].0 == k ==> j == key_index(s, k),
        unique_keys(s.remove(key_index(s, k)).push(s[key_index(s, k)])),
        forall|a: int|
            0 <= a < s.len() ==> (#[trigger] s.remove(key_index(s, k)).push(
                s[key_index(s, k)],
            )[a]).1.wf(),
{
    let i = key_index(s, k);
    let t = s.remove(i).push(s[i]);
    assert forall|a: int, b: int| 0 <= a < b < t.len() implies t[a].0 != t[b].0 by {
        if b == t.len() - 1 {
            if a < i {
                assert(t[a] == s[a]);
            } else {
                assert(t[a] == s[a + 1]);
            }
        } else {
            let a1 = if a < i {
                a
            } else {
                a + 1
            };
            let b1 = if b < i {
                b
            } else {
                b + 1
            };
            assert(t[a] == s[a1] && t[b] == s[b1]);
        }
    }
    assert forall|a: int| 0 <= a < s.len() implies (#[trigger] t[a]).1.wf() by {
        if a == t.len() - 1 {
        } else if a < i {
            assert(t[a] == s[a]);
        } else {
            assert(t[a] == s[a + 1]);
        }
    }
}

/// Moving the most recently used entry to the most recently used end changes
/// nothing.
proof fn lemma_touch_last(s: Seq<(PageKey, Page)>, k: PageKey)
    requires
        unique_keys(s),
        s.len() > 0,
        s[s.len() - 1].0 == k,
    ensures
        key_index(s, k) == s.len() - 1,
        s.remove(key_index(s, k)).push(s[key_index(s, k)]) == s,
{
    assert(has_key(s, k));
    let i = key_index(s, k);
    assert(i == s.len() - 1);
    assert(s.remove(i).push(s[i]) =~= s);
}

/// The entries after accessing `keys[0]`, ..., `keys[n - 1]` in order from
/// an empty cache of capacity `cap`, access `j` finding or loading `pages[j]`.
pub open spec fn replay(keys: Seq<PageKey>, pages: Seq<Page>, cap: nat, n: nat) -> Seq<
    (PageKey, Page),
>
    decreases n,
{
    if n == 0 {
        Seq::empty()
    } else {
        accessed(replay(keys, pages, cap, (n - 1) as nat), cap, keys[n - 1], pages[n - 1])
    }
}

/// Until the cache is full, accesses to distinct keys keep every page, in the
/// order of access.
proof fn lemma_replay_fills(keys: Seq<PageKey>, pages: Seq<Page>, cap: nat, n: nat)
    requires
        n <= cap,
        n <= keys.len(),
        n <= pages.len(),
        forall|a: int, b: int| 0 <= a < b < keys.len() ==> keys[a] != keys[b],
    ensures
        replay(keys, pages, cap, n) == Seq::new(n, |i: int| (keys[i], pages[i])),
    decreases n,
{
    if n > 0 {
        let m = (n - 1) as nat;
        lemma_replay_fills(keys, pages, cap, m);
        let s = replay(keys, pages, cap, m);
        assert(!has_key(s, keys[m as int]));
        assert(replay(keys, pages, cap, n) =~= Seq::new(n, |i: int| (keys[i], pages[i])));
    }
}

/// With capacity `cap`, after `cap + 1` distinct keys are accessed in order
/// from an empty cache, the first key is no longer cached, so that the next
/// access to it loads its page again, while the other `cap` keys all are.
pub proof fn lemma_eviction(keys: Seq<PageKey>, pages: Seq<Page>, cap: nat)
    requires
        cap > 0,
        keys.len() == cap + 1,
        pages.len() == cap + 1,
        forall|a: int, b: int| 0 <= a < b < keys.len() ==> keys[a] != keys[b],
    ensures
        !has_key(replay(keys, pages, cap, cap + 1), keys[0]),
        forall|j: int| 1 <= j <= cap ==> has_key(replay(keys, pages, cap, cap + 1), keys[j]),
{
    lemma_replay_fills(keys, pages, cap, cap);
    let s = replay(keys, pages, cap, cap);
    assert(!has_key(s, keys[cap as int]));
    let t = replay(keys, pages, cap, cap + 1);
    assert(t == s.drop_first().push((keys[cap as int], pages[cap as int])));
    assert forall|j: int| 1 <= j <= cap implies has_key(t, keys[j]) by {
        assert(t[j - 1].0 == keys[j]);
    }
    assert(!has_key(t, keys[0])) by {
        if has_key(t, keys[0]) {
            let i = choose|i: int| 0 <= i < t.len() && t[i].0 == keys[0];
            assert(t[i].0 == keys[i + 1]);
        }
    }
}

} // verus!
