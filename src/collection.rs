//! Collections: same-typed pages in order, read as one column.
use vstd::prelude::*;

use crate::cache::fetched;
use crate::cache::PageCache;
use crate::codec::encodes_ints;
use crate::codec::int_at;
use crate::codec::lemma_round_trip_ints;
use crate::codec::PageDataView;
use crate::page::page_bool_at;
use crate::page::page_float_at;
use crate::page::page_int_at;
use crate::page::page_string_at;
use crate::page::string_result_matches;
use crate::page::Page;
use crate::page::PageKey;
use crate::page::PageMeta;
use crate::trusted::fresh_id;
use crate::types::PageError;
use crate::types::Type;

verus! {

/// The rows of the first `n` pages.
pub open spec fn rows_before(metas: Seq<PageMeta>, n: int) -> int
    decreases n,
{
    if n <= 0 || n > metas.len() {
        0
    } else {
        rows_before(metas, n - 1) + metas[n - 1].size
    }
}

/// The rows of all pages.
pub open spec fn total_rows(metas: Seq<PageMeta>) -> int {
    rows_before(metas, metas.len() as int)
}

/// Every page has the type `t`.
pub open spec fn all_of_type(metas: Seq<PageMeta>, t: Type) -> bool {
    forall|i: int| 0 <= i < metas.len() ==> (#[trigger] metas[i]).typ == t
}

/// Page `p` holds row `idx`.
pub open spec fn holds(metas: Seq<PageMeta>, p: int, idx: int) -> bool {
    &&& 0 <= p < metas.len()
    &&& rows_before(metas, p) <= idx < rows_before(metas, p) + metas[p].size
}

/// The page that holds row `idx`.
pub open spec fn page_of(metas: Seq<PageMeta>, idx: int) -> int {
    choose|p: int| holds(metas, p, idx)
}

/// The content of a collection: its id, its pages' metadata in order, and
/// the type of its values.
pub struct CollectionView {
    pub id: u128,
    pub metas: Seq<PageMeta>,
    pub typ: Type,
}

/// An ordered sequence of pages of one type, read as one column of
/// `size` rows. Page `i` is cached under the key `(id, i)`.
pub struct Collection {
    id: u128,
    metas: Vec<PageMeta>,
    starts: Vec<usize>,
    size: usize,
    typ: Type,
}

impl View for Collection {
    type V = CollectionView;

    closed spec fn view(&self) -> CollectionView {
        CollectionView { id: self.id, metas: self.metas@, typ: self.typ }
    }
}

/// The checks of a typed read of row `idx` before any page is touched.
pub open spec fn read_check(c: CollectionView, t: Type, idx: int) -> Result<(), PageError> {
    if c.typ != t {
        Err(PageError::TypeMismatch)
    } else if !(0 <= idx < total_rows(c.metas)) {
        Err(PageError::IndexOutOfRange)
    } else {
        Ok(())
    }
}

/// Fetching the page of row `idx` took the cache's entries from `c0` to `c1`
/// with the outcome `out`.
pub open spec fn fetched_row<F: Fn(&PageMeta) -> Result<Vec<u8>, PageError>>(
    c: CollectionView,
    c0: Seq<(PageKey, Page)>,
    cap: nat,
    c1: Seq<(PageKey, Page)>,
    idx: int,
    load: F,
    out: Result<Page, PageError>,
) -> bool {
    let p = page_of(c.metas, idx);
    fetched(c0, cap, c1, (c.id, p as usize), c.metas[p], load, out)
}

/// The page of a `find_page` result, in place of a reference to it.
pub open spec fn found_page(r: Result<(&Page, usize), PageError>) -> Result<Page, PageError> {
    match r {
        Ok(pair) => Ok(*pair.0),
        Err(e) => Err(e),
    }
}

/// The offset of row `idx` within its page.
pub open spec fn local_row(c: CollectionView, idx: int) -> int {
    idx - rows_before(c.metas, page_of(c.metas, idx))
}

/// The outcome of a Bool read of row `idx` that fetched `out`.
pub open spec fn bool_read(
    c: CollectionView,
    idx: int,
    out: Result<Page, PageError>,
) -> Result<Option<bool>, PageError> {
    match out {
        Ok(p) => page_bool_at(p, local_row(c, idx)),
        Err(e) => Err(e),
    }
}

/// The outcome of an Int read of row `idx` that fetched `out`.
pub open spec fn int_read(c: CollectionView, idx: int, out: Result<Page, PageError>) -> Result<
    Option<i64>,
    PageError,
> {
    match out {
        Ok(p) => page_int_at(p, local_row(c, idx)),
        Err(e) => Err(e),
    }
}

/// The outcome of a Float read of row `idx` that fetched `out`.
pub open spec fn float_read(
    c: CollectionView,
    idx: int,
    out: Result<Page, PageError>,
) -> Result<Option<u64>, PageError> {
    match out {
        Ok(p) => page_float_at(p, local_row(c, idx)),
        Err(e) => Err(e),
    }
}

/// The outcome of a String read of row `idx` that fetched `out`.
pub open spec fn string_read(
    c: CollectionView,
    idx: int,
    out: Result<Page, PageError>,
) -> Result<Option<Seq<char>>, PageError> {
    match out {
        Ok(p) => page_string_at(p, local_row(c, idx)),
        Err(e) => Err(e),
    }
}

/// What a Bool read of row `idx` gives as `r`, with the cache's entries going
/// from `c0` to `c1`: the type and range checks first, then the row of the
/// fetched page.
pub open spec fn bool_got<F: Fn(&PageMeta) -> Result<Vec<u8>, PageError>>(
    c: CollectionView,
    c0: Seq<(PageKey, Page)>,
    cap: nat,
    c1: Seq<(PageKey, Page)>,
    idx: int,
    load: F,
    r: Result<Option<bool>, PageError>,
) -> bool {
    match read_check(c, Type::Bool, idx) {
        Err(e) => r == Err::<Option<bool>, PageError>(e) && c1 == c0,
        Ok(_) => exists|out: Result<Page, PageError>|
            fetched_row(c, c0, cap, c1, idx, load, out) && r == bool_read(c, idx, out),
    }
}

/// What a Int read of row `idx` gives as `r`, with the cache's entries going
/// from `c0` to `c1`: the type and range checks first, then the row of the
/// fetched page.
pub open spec fn int_got<F: Fn(&PageMeta) -> Result<Vec<u8>, PageError>>(
    c: CollectionView,
    c0: Seq<(PageKey, Page)>,
    cap: nat,
    c1: Seq<(PageKey, Page)>,
    idx: int,
    load: F,
    r: Result<Option<i64>, PageError>,
) -> bool {
    match read_check(c, Type::Int, idx) {
        Err(e) => r == Err::<Option<i64>, PageError>(e) && c1 == c0,
        Ok(_) => exists|out: Result<Page, PageError>|
            fetched_row(c, c0, cap, c1, idx, load, out) && r == int_read(c, idx, out),
    }
}

/// What a Float read of row `idx` gives as `r`, with the cache's entries going
/// from `c0` to `c1`: the type and range checks first, then the row of the
/// fetched page.
pub open spec fn float_got<F: Fn(&PageMeta) -> Result<Vec<u8>, PageError>>(
    c: CollectionView,
    c0: Seq<(PageKey, Page)>,
    cap: nat,
    c1: Seq<(PageKey, Page)>,
    idx: int,
    load: F,
    r: Result<Option<u64>, PageError>,
) -> bool {
    match read_check(c, Type::Float, idx) {
        Err(e) => r == Err::<Option<u64>, PageError>(e) && c1 == c0,
        Ok(_) => exists|out: Result<Page, PageError>|
            fetched_row(c, c0, cap, c1, idx, load, out) && r == float_read(c, idx, out),
    }
}

/// What a String read of row `idx` gives as `r`, with the cache's entries going
/// from `c0` to `c1`: the type and range checks first, then the row of the
/// fetched page.
pub open spec fn string_got<F: Fn(&PageMeta) -> Result<Vec<u8>, PageError>>(
    c: CollectionView,
    c0: Seq<(PageKey, Page)>,
    cap: nat,
    c1: Seq<(PageKey, Page)>,
    idx: int,
    load: F,
    r: Result<Option<String>, PageError>,
) -> bool {
    match read_check(c, Type::String, idx) {
        Err(e) => r == Err::<Option<String>, PageError>(e) && c1 == c0,
        Ok(_) => exists|out: Result<Page, PageError>|
            fetched_row(c, c0, cap, c1, idx, load, out) && string_result_matches(r, string_read(c, idx, out)),
    }
}

/// The first `n` pages hold no more rows than the first `m`, for `n <= m`.
pub proof fn lemma_rows_before_mono(metas: Seq<PageMeta>, n: int, m: int)
    requires
        0 <= n <= m <= metas.len(),
    ensures
        rows_before(metas, n) <= rows_before(metas, m),
    decreases m - n,
{
    if n < m {
        lemma_rows_before_mono(metas, n, m - 1);
    }
}

/// At most one page holds a row, and it is `page_of`.
pub proof fn lemma_page_of_unique(metas: Seq<PageMeta>, p: int, idx: int)
    requires
        holds(metas, p, idx),
    ensures
        page_of(metas, idx) == p,
{
    let q = page_of(metas, idx);
    assert(holds(metas, q, idx));
    if q < p {
        lemma_rows_before_mono(metas, q + 1, p);
    } else if p < q {
        lemma_rows_before_mono(metas, p + 1, q);
    }
}

/// Of a collection of `size` rows read with its own type, rows `size` and
/// `size + 1` fail the range check with `IndexOutOfRange`, and row
/// `size - 1` passes every check, when there is a row at all.
pub proof fn lemma_row_range(c: CollectionView)
    ensures
        read_check(c, c.typ, total_rows(c.metas)) == Err::<(), PageError>(
            PageError::IndexOutOfRange,
        ),
        read_check(c, c.typ, total_rows(c.metas) + 1) == Err::<(), PageError>(
            PageError::IndexOutOfRange,
        ),
        total_rows(c.metas) > 0 ==> read_check(c, c.typ, total_rows(c.metas) - 1) is Ok,
{
}

/// The values of the first `n` pages, joined in order.
pub open spec fn joined_rows(vs: Seq<Seq<Option<i64>>>, n: int) -> Seq<Option<i64>>
    decreases n,
{
    if n <= 0 || n > vs.len() {
        Seq::empty()
    } else {
        joined_rows(vs, n - 1) + vs[n - 1]
    }
}

/// The first `n` pages joined hold as many rows as the first `n` pages.
proof fn lemma_joined_len(metas: Seq<PageMeta>, vs: Seq<Seq<Option<i64>>>, n: int)
    requires
        0 <= n <= metas.len(),
        metas.len() == vs.len(),
        forall|k: int| 0 <= k < metas.len() ==> (#[trigger] metas[k]).size == vs[k].len(),
    ensures
        joined_rows(vs, n).len() == rows_before(metas, n),
    decreases n,
{
    if n > 0 {
        lemma_joined_len(metas, vs, n - 1);
        assert(metas[n - 1].size == vs[n - 1].len());
    }
}

/// Row `idx` of the first `n` pages joined is the row of the page that holds
/// it, at its offset within that page.
proof fn lemma_joined_row(metas: Seq<PageMeta>, vs: Seq<Seq<Option<i64>>>, n: int, idx: int)
    requires
        0 <= n <= metas.len(),
        metas.len() == vs.len(),
        forall|k: int| 0 <= k < metas.len() ==> (#[trigger] metas[k]).size == vs[k].len(),
        0 <= idx < rows_before(metas, n),
    ensures
        holds(metas, page_of(metas, idx), idx),
        page_of(metas, idx) < n,
        joined_rows(vs, n)[idx] == vs[page_of(metas, idx)][idx - rows_before(
            metas,
            page_of(metas, idx),
        )],
    decreases n,
{
    lemma_joined_len(metas, vs, n - 1);
    assert(metas[n - 1].size == vs[n - 1].len());
    if idx < rows_before(metas, n - 1) {
        lemma_joined_row(metas, vs, n - 1, idx);
        assert(joined_rows(vs, n)[idx] == joined_rows(vs, n - 1)[idx]);
    } else {
        assert(holds(metas, n - 1, idx));
        lemma_page_of_unique(metas, n - 1, idx);
    }
}

/// A collection whose page `k` holds the Int values `vs[k]`, pages of any
/// sizes, reads as all the pages' values joined in order: row `idx` of the
/// page that holds it, at the offset `local_row`, is row `idx` of the join.
pub proof fn lemma_collection_rows(
    metas: Seq<PageMeta>,
    vs: Seq<Seq<Option<i64>>>,
    ds: Seq<PageDataView>,
    idx: int,
)
    requires
        metas.len() == vs.len(),
        ds.len() == vs.len(),
        forall|k: int| 0 <= k < metas.len() ==> (#[trigger] metas[k]).size == vs[k].len(),
        forall|k: int| 0 <= k < ds.len() ==> encodes_ints(#[trigger] ds[k], vs[k]),
        0 <= idx < total_rows(metas),
    ensures
        int_at(ds[page_of(metas, idx)], idx - rows_before(metas, page_of(metas, idx))) == Ok::<
            _,
            PageError,
        >(joined_rows(vs, vs.len() as int)[idx]),
{
    lemma_joined_row(metas, vs, metas.len() as int, idx);
    let p = page_of(metas, idx);
    assert(joined_rows(vs, vs.len() as int)[idx] == vs[p][idx - rows_before(metas, p)]);
    assert(encodes_ints(ds[p], vs[p]));
    lemma_round_trip_ints(vs[p], ds[p]);
}

impl Collection {
    /// The page table agrees with the metadata: `starts[i]` is the number of
    /// rows before page `i`, `size` is the number of all rows, and every page
    /// has the collection's type.
    pub closed spec fn wf(&self) -> bool {
        &&& self.starts@.len() == self.metas@.len()
        &&& self.metas@.len() <= usize::MAX
        &&& forall|i: int|
            0 <= i < self.metas@.len() ==> self.starts@[i] == rows_before(self.metas@, i)
        &&& self.size == total_rows(self.metas@)
        &&& all_of_type(self.metas@, self.typ)
    }

    /// A collection of the pages `page_metas`, in order, under a fresh random
    /// id; `HeterogeneousType` if the pages do not all have one type.
    pub fn new(page_metas: Vec<PageMeta>) -> (r: Result<Collection, PageError>)
        requires
            page_metas@.len() > 0,
            total_rows(page_metas@) <= usize::MAX,
        ensures
            match r {
                Ok(c) => {
                    &&& c.wf()
                    &&& c@.metas == page_metas@
                    &&& c@.typ == page_metas@[0].typ
                    &&& all_of_type(page_metas@, c@.typ)
                },
                Err(e) => e == PageError::HeterogeneousType && !all_of_type(
                    page_metas@,
                    page_metas@[0].typ,
                ),
            },
    {
        let typ = page_metas[0].typ;
        let n = page_metas.len();
        let mut starts: Vec<usize> = Vec::new();
        let mut acc: usize = 0;
        let mut i: usize = 0;
        while i < n
            invariant
                n == page_metas@.len(),
                typ == page_metas@[0].typ,
                total_rows(page_metas@) <= usize::MAX,
                i <= n,
                acc == rows_before(page_metas@, i as int),
                starts@.len() == i,
                forall|k: int| 0 <= k < i ==> starts@[k] == rows_before(page_metas@, k),
                forall|k: int| 0 <= k < i ==> (#[trigger] page_metas@[k]).typ == typ,
            decreases n - i,
        {
            if page_metas[i].typ != typ {
                return Err(PageError::HeterogeneousType);
            }
            proof {
                lemma_rows_before_mono(page_metas@, i + 1, n as int);
            }
            starts.push(acc);
            acc = acc + page_metas[i].size;
            i += 1;
        }
        let id = fresh_id();
        Ok(Collection { id, metas: page_metas, starts, size: acc, typ })
    }

    /// The collection's id, the first half of its pages' keys.
    pub fn id(&self) -> (r: u128)
        ensures
            r == self@.id,
    {
        self.id
    }

    /// The type of the values.
    pub fn typ(&self) -> (r: Type)
        ensures
            r == self@.typ,
    {
        self.typ
    }

    /// The number of rows over all pages.
    pub fn size(&self) -> (r: usize)
        requires
            self.wf(),
        ensures
            r == total_rows(self@.metas),
    {
        self.size
    }

    /// The number of pages.
    pub fn page_count(&self) -> (r: usize)
        ensures
            r == self@.metas.len(),
    {
        self.metas.len()
    }

    /// The page that holds row `idx`, and the number of rows before it;
    /// `IndexOutOfRange` past the last row. A binary search over the rows
    /// before each page.
    pub fn locate(&self, idx: usize) -> (r: Result<(usize, usize), PageError>)
        requires
            self.wf(),
        ensures
            idx >= total_rows(self@.metas) ==> r == Err::<(usize, usize), _>(
                PageError::IndexOutOfRange,
            ),
            idx < total_rows(self@.metas) ==> holds(self@.metas, page_of(self@.metas, idx as int), idx as int)
                && r == Ok::<_, PageError>(
                (
                    page_of(self@.metas, idx as int) as usize,
                    rows_before(self@.metas, page_of(self@.metas, idx as int)) as usize,
                ),
            ),
    {
        if idx >= self.size {
            return Err(PageError::IndexOutOfRange);
        }
        let n = self.starts.len();
        proof {
            if n == 0 {
                assert(total_rows(self@.metas) == 0);
            }
        }
        let mut lo: usize = 0;
        let mut hi: usize = n;
        while hi - lo > 1
            invariant
                self.wf(),
                n == self.starts@.len(),
                idx < total_rows(self@.metas),
                0 <= lo < hi <= n,
                self.starts@[lo as int] <= idx,
                hi < n ==> self.starts@[hi as int] > idx,
            decreases hi - lo,
        {
            let mid = lo + (hi - lo) / 2;
            if self.starts[mid] <= idx {
                lo = mid;
            } else {
                hi = mid;
            }
        }
        proof {
            let m = self@.metas;
            if lo + 1 < n {
                assert(rows_before(m, lo + 1) == rows_before(m, lo as int) + m[lo as int].size);
            }
            assert(holds(m, lo as int, idx as int));
            lemma_page_of_unique(m, lo as int, idx as int);
        }
        Ok((lo, self.starts[lo]))
    }

    /// The page that holds row `idx`, through `cache`, and the number of rows
    /// before it; `IndexOutOfRange` past the last row.
    pub fn find_page<'a, F: Fn(&PageMeta) -> Result<Vec<u8>, PageError>>(
        &self,
        cache: &'a mut PageCache,
        idx: usize,
        load: &F,
    ) -> (r: Result<(&'a Page, usize), PageError>)
        requires
            self.wf(),
            old(cache).wf(),
            forall|m: &PageMeta| load.requires((m,)),
        ensures
            final(cache).wf(),
            final(cache).capacity() == old(cache).capacity(),
            idx >= total_rows(self@.metas) ==> r == Err::<(&Page, usize), _>(
                PageError::IndexOutOfRange,
            ) && final(cache).entries() == old(cache).entries(),
            idx < total_rows(self@.metas) ==> {
                &&& fetched_row(
                    self@,
                    old(cache).entries(),
                    old(cache).capacity(),
                    final(cache).entries(),
                    idx as int,
                    *load,
                    found_page(r),
                )
                &&& holds(self@.metas, page_of(self@.metas, idx as int), idx as int)
                &&& r matches Ok(pair) ==> pair.1 == rows_before(
                    self@.metas,
                    page_of(self@.metas, idx as int),
                )
            },
    {
        let (p, start) = match self.locate(idx) {
            Ok(found) => found,
            Err(e) => return Err(e),
        };
        let key: PageKey = (self.id, p);
        match cache.get(&key, &self.metas[p], load) {
            Ok(page) => Ok((page, start)),
            Err(e) => Err(e),
        }
    }

    /// Row `idx` of a Bool collection, through `cache`.
    pub fn get_bool<F: Fn(&PageMeta) -> Result<Vec<u8>, PageError>>(
        &self,
        cache: &mut PageCache,
        idx: usize,
        load: &F,
    ) -> (r: Result<Option<bool>, PageError>)
        requires
            self.wf(),
            old(cache).wf(),
            forall|m: &PageMeta| load.requires((m,)),
        ensures
            final(cache).wf(),
            final(cache).capacity() == old(cache).capacity(),
            bool_got(
                self@,
                old(cache).entries(),
                old(cache).capacity(),
                final(cache).entries(),
                idx as int,
                *load,
                r,
            ),
    {
        if self.typ != Type::Bool {
            return Err(PageError::TypeMismatch);
        }
        let found = self.find_page(cache, idx, load);
        let ghost out = found_page(found);
        let r = match found {
            Ok((page, start)) => page.get_bool(idx - start),
            Err(e) => Err(e),
        };
        assert(r == bool_read(self@, idx as int, out));
        r
    }

    /// Row `idx` of an Int collection, through `cache`.
    pub fn get_int<F: Fn(&PageMeta) -> Result<Vec<u8>, PageError>>(
        &self,
        cache: &mut PageCache,
        idx: usize,
        load: &F,
    ) -> (r: Result<Option<i64>, PageError>)
        requires
            self.wf(),
            old(cache).wf(),
            forall|m: &PageMeta| load.requires((m,)),
        ensures
            final(cache).wf(),
            final(cache).capacity() == old(cache).capacity(),
            int_got(
                self@,
                old(cache).entries(),
                old(cache).capacity(),
                final(cache).entries(),
                idx as int,
                *load,
                r,
            ),
    {
        if self.typ != Type::Int {
            return Err(PageError::TypeMismatch);
        }
        let found = self.find_page(cache, idx, load);
        let ghost out = found_page(found);
        let r = match found {
            Ok((page, start)) => page.get_int(idx - start),
            Err(e) => Err(e),
        };
        assert(r == int_read(self@, idx as int, out));
        r
    }

    /// Row `idx` of a Float collection, through `cache`, as the bit pattern
    /// of the double.
    pub fn get_float<F: Fn(&PageMeta) -> Result<Vec<u8>, PageError>>(
        &self,
        cache: &mut PageCache,
        idx: usize,
        load: &F,
    ) -> (r: Result<Option<u64>, PageError>)
        requires
            self.wf(),
            old(cache).wf(),
            forall|m: &PageMeta| load.requires((m,)),
        ensures
            final(cache).wf(),
            final(cache).capacity() == old(cache).capacity(),
            float_got(
                self@,
                old(cache).entries(),
                old(cache).capacity(),
                final(cache).entries(),
                idx as int,
                *load,
                r,
            ),
    {
        if self.typ != Type::Float {
            return Err(PageError::TypeMismatch);
        }
        let found = self.find_page(cache, idx, load);
        let ghost out = found_page(found);
        let r = match found {
            Ok((page, start)) => page.get_float(idx - start),
            Err(e) => Err(e),
        };
        assert(r == float_read(self@, idx as int, out));
        r
    }

    /// Row `idx` of a String collection, through `cache`.
    pub fn get_string<F: Fn(&PageMeta) -> Result<Vec<u8>, PageError>>(
        &self,
        cache: &mut PageCache,
        idx: usize,
        load: &F,
    ) -> (r: Result<Option<String>, PageError>)
        requires
            self.wf(),
            old(cache).wf(),
            forall|m: &PageMeta| load.requires((m,)),
        ensures
            final(cache).wf(),
            final(cache).capacity() == old(cache).capacity(),
            string_got(
                self@,
                old(cache).entries(),
                old(cache).capacity(),
                final(cache).entries(),
                idx as int,
                *load,
                r,
            ),
    {
        if self.typ != Type::String {
            return Err(PageError::TypeMismatch);
        }
        match self.find_page(cache, idx, load) {
            Ok((page, start)) => page.get_string(idx - start),
            Err(e) => Err(e),
        }
    }

    /// A scan over all rows of a Bool collection, from row 0.
    pub fn bool_iter(&self) -> (r: CollectionBoolIter<'_>)
        ensures
            r.position() == 0,
            r.source() == *self,
    {
        CollectionBoolIter::new(self)
    }

    /// A scan over all rows of a Int collection, from row 0.
    pub fn int_iter(&self) -> (r: CollectionIntIter<'_>)
        ensures
            r.position() == 0,
            r.source() == *self,
    {
        CollectionIntIter::new(self)
    }

    /// A scan over all rows of a Float collection, from row 0.
    pub fn float_iter(&self) -> (r: CollectionFloatIter<'_>)
        ensures
            r.position() == 0,
            r.source() == *self,
    {
        CollectionFloatIter::new(self)
    }

    /// A scan over all rows of a String collection, from row 0.
    pub fn string_iter(&self) -> (r: CollectionStringIter<'_>)
        ensures
            r.position() == 0,
            r.source() == *self,
    {
        CollectionStringIter::new(self)
    }
}

/// A forward scan over the rows of a Bool collection, from row 0 up; the
/// cache is handed to each step.
pub struct CollectionBoolIter<'a> {
    idx: usize,
    collection: &'a Collection,
}

impl<'a> CollectionBoolIter<'a> {
    /// The next row to read.
    pub closed spec fn position(&self) -> nat {
        self.idx as nat
    }

    /// The collection being read.
    pub closed spec fn source(&self) -> Collection {
        *self.collection
    }

    /// A scan of `collection` that starts at row 0.
    pub fn new(collection: &'a Collection) -> (r: Self)
        ensures
            r.position() == 0,
            r.source() == *collection,
    {
        CollectionBoolIter { idx: 0, collection }
    }

    /// The row at the position, read as `Collection::get_bool` reads
    /// it, after which the position moves on by one; `None` once every row
    /// has been read.
    pub fn next<F: Fn(&PageMeta) -> Result<Vec<u8>, PageError>>(
        &mut self,
        cache: &mut PageCache,
        load: &F,
    ) -> (r: Option<Result<Option<bool>, PageError>>)
        requires
            old(self).source().wf(),
            old(cache).wf(),
            forall|m: &PageMeta| load.requires((m,)),
        ensures
            final(self).source() == old(self).source(),
            final(cache).wf(),
            final(cache).capacity() == old(cache).capacity(),
            old(self).position() >= total_rows(old(self).source()@.metas) ==> {
                &&& r is None
                &&& final(self).position() == old(self).position()
                &&& final(cache).entries() == old(cache).entries()
            },
            old(self).position() < total_rows(old(self).source()@.metas) ==> {
                &&& final(self).position() == old(self).position() + 1
                &&& r matches Some(v) && bool_got(
                    old(self).source()@,
                    old(cache).entries(),
                    old(cache).capacity(),
                    final(cache).entries(),
                    old(self).position() as int,
                    *load,
                    v,
                )
            },
    {
        if self.idx >= self.collection.size() {
            return None;
        }
        let entry = self.collection.get_bool(cache, self.idx, load);
        self.idx = self.idx + 1;
        Some(entry)
    }
}

/// A forward scan over the rows of a Int collection, from row 0 up; the
/// cache is handed to each step.
pub struct CollectionIntIter<'a> {
    idx: usize,
    collection: &'a Collection,
}

impl<'a> CollectionIntIter<'a> {
    /// The next row to read.
    pub closed spec fn position(&self) -> nat {
        self.idx as nat
    }

    /// The collection being read.
    pub closed spec fn source(&self) -> Collection {
        *self.collection
    }

    /// A scan of `collection` that starts at row 0.
    pub fn new(collection: &'a Collection) -> (r: Self)
        ensures
            r.position() == 0,
            r.source() == *collection,
    {
        CollectionIntIter { idx: 0, collection }
    }

    /// The row at the position, read as `Collection::get_int` reads
    /// it, after which the position moves on by one; `None` once every row
    /// has been read.
    pub fn next<F: Fn(&PageMeta) -> Result<Vec<u8>, PageError>>(
        &mut self,
        cache: &mut PageCache,
        load: &F,
    ) -> (r: Option<Result<Option<i64>, PageError>>)
        requires
            old(self).source().wf(),
            old(cache).wf(),
            forall|m: &PageMeta| load.requires((m,)),
        ensures
            final(self).source() == old(self).source(),
            final(cache).wf(),
            final(cache).capacity() == old(cache).capacity(),
            old(self).position() >= total_rows(old(self).source()@.metas) ==> {
                &&& r is None
                &&& final(self).position() == old(self).position()
                &&& final(cache).entries() == old(cache).entries()
            },
            old(self).position() < total_rows(old(self).source()@.metas) ==> {
                &&& final(self).position() == old(self).position() + 1
                &&& r matches Some(v) && int_got(
                    old(self).source()@,
                    old(cache).entries(),
                    old(cache).capacity(),
                    final(cache).entries(),
                    old(self).position() as int,
                    *load,
                    v,
                )
            },
    {
        if self.idx >= self.collection.size() {
            return None;
        }
        let entry = self.collection.get_int(cache, self.idx, load);
        self.idx = self.idx + 1;
        Some(entry)
    }
}

/// A forward scan over the rows of a Float collection, from row 0 up; the
/// cache is handed to each step.
pub struct CollectionFloatIter<'a> {
    idx: usize,
    collection: &'a Collection,
}

impl<'a> CollectionFloatIter<'a> {
    /// The next row to read.
    pub closed spec fn position(&self) -> nat {
        self.idx as nat
    }

    /// The collection being read.
    pub closed spec fn source(&self) -> Collection {
        *self.collection
    }

    /// A scan of `collection` that starts at row 0.
    pub fn new(collection: &'a Collection) -> (r: Self)
        ensures
            r.position() == 0,
            r.source() == *collection,
    {
        CollectionFloatIter { idx: 0, collection }
    }

    /// The row at the position (bit patterns), read as `Collection::get_float` reads
    /// it, after which the position moves on by one; `None` once every row
    /// has been read.
    pub fn next<F: Fn(&PageMeta) -> Result<Vec<u8>, PageError>>(
        &mut self,
        cache: &mut PageCache,
        load: &F,
    ) -> (r: Option<Result<Option<u64>, PageError>>)
        requires
            old(self).source().wf(),
            old(cache).wf(),
            forall|m: &PageMeta| load.requires((m,)),
        ensures
            final(self).source() == old(self).source(),
            final(cache).wf(),
            final(cache).capacity() == old(cache).capacity(),
            old(self).position() >= total_rows(old(self).source()@.metas) ==> {
                &&& r is None
                &&& final(self).position() == old(self).position()
                &&& final(cache).entries() == old(cache).entries()
            },
            old(self).position() < total_rows(old(self).source()@.metas) ==> {
                &&& final(self).position() == old(self).position() + 1
                &&& r matches Some(v) && float_got(
                    old(self).source()@,
                    old(cache).entries(),
                    old(cache).capacity(),
                    final(cache).entries(),
                    old(self).position() as int,
                    *load,
                    v,
                )
            },
    {
        if self.idx >= self.collection.size() {
            return None;
        }
        let entry = self.collection.get_float(cache, self.idx, load);
        self.idx = self.idx + 1;
        Some(entry)
    }
}

/// A forward scan over the rows of a String collection, from row 0 up; the
/// cache is handed to each step.
pub struct CollectionStringIter<'a> {
    idx: usize,
    collection: &'a Collection,
}

impl<'a> CollectionStringIter<'a> {
    /// The next row to read.
    pub closed spec fn position(&self) -> nat {
        self.idx as nat
    }

    /// The collection being read.
    pub closed spec fn source(&self) -> Collection {
        *self.collection
    }

    /// A scan of `collection` that starts at row 0.
    pub fn new(collection: &'a Collection) -> (r: Self)
        ensures
            r.position() == 0,
            r.source() == *collection,
    {
        CollectionStringIter { idx: 0, collection }
    }

    /// The row at the position, read as `Collection::get_string` reads
    /// it, after which the position moves on by one; `None` once every row
    /// has been read.
    pub fn next<F: Fn(&PageMeta) -> Result<Vec<u8>, PageError>>(
        &mut self,
        cache: &mut PageCache,
        load: &F,
    ) -> (r: Option<Result<Option<String>, PageError>>)
        requires
            old(self).source().wf(),
            old(cache).wf(),
            forall|m: &PageMeta| load.requires((m,)),
        ensures
            final(self).source() == old(self).source(),
            final(cache).wf(),
            final(cache).capacity() == old(cache).capacity(),
            old(self).position() >= total_rows(old(self).source()@.metas) ==> {
                &&& r is None
                &&& final(self).position() == old(self).position()
                &&& final(cache).entries() == old(cache).entries()
            },
            old(self).position() < total_rows(old(self).source()@.metas) ==> {
                &&& final(self).position() == old(self).position() + 1
                &&& r matches Some(v) && string_got(
                    old(self).source()@,
                    old(cache).entries(),
                    old(cache).capacity(),
                    final(cache).entries(),
                    old(self).position() as int,
                    *load,
                    v,
                )
            },
    {
        if self.idx >= self.collection.size() {
            return None;
        }
        let entry = self.collection.get_string(cache, self.idx, load);
        self.idx = self.idx + 1;
        Some(entry)
    }
}

} // verus!
