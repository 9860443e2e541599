//! Page metadata and decoded pages.
use vstd::prelude::*;

use crate::codec::bool_at;
use crate::codec::float_at;
use crate::codec::int_at;
use crate::codec::string_at;
use crate::codec::PageData;
use crate::trusted::fresh_id;
use crate::types::PageError;
use crate::types::PageStats;
use crate::types::Type;

verus! {

/// Identity and placement of a page: a unique id, the file that holds it, its
/// row count, its type, a collection-relative offset kept for bookkeeping,
/// and statistics that nothing reads.
pub struct PageMeta {
    pub id: u128,
    pub path: String,
    pub size: usize,
    pub typ: Type,
    pub offset: usize,
    pub stats: PageStats,
}

impl PageMeta {
    /// Metadata for a new page with a fresh random id and empty statistics.
    pub fn new(typ: Type, path: &str, offset: usize, size: usize) -> (r: PageMeta)
        ensures
            r.typ == typ,
            r.path@ == path@,
            r.offset == offset,
            r.size == size,
            !r.stats.contains_nulls,
            r.stats.int_bound is None,
            r.stats.float_bound is None,
            r.stats.string_bound is None,
    {
        PageMeta {
            id: fresh_id(),
            path: path.to_owned(),
            size,
            typ,
            offset,
            stats: PageStats::empty(),
        }
    }

    /// A field-by-field copy.
    pub fn duplicate(&self) -> (r: PageMeta)
        ensures
            r == *self,
    {
        PageMeta {
            id: self.id,
            path: self.path.clone(),
            size: self.size,
            typ: self.typ,
            offset: self.offset,
            stats: self.stats.duplicate(),
        }
    }
}

/// The position of a page within a collection: the collection's id and the
/// page's index in it.
pub type PageKey = (u128, usize);

/// A decoded page: its metadata and its body.
pub struct Page {
    pub meta: PageMeta,
    pub data: PageData,
}

/// Row `i` of a page through the Bool accessor: the page's declared type is
/// checked first.
pub open spec fn page_bool_at(p: Page, i: int) -> Result<Option<bool>, PageError> {
    if p.meta.typ != Type::Bool {
        Err(PageError::TypeMismatch)
    } else {
        bool_at(p.data@, i)
    }
}

/// Row `i` of a page through the Int accessor.
pub open spec fn page_int_at(p: Page, i: int) -> Result<Option<i64>, PageError> {
    if p.meta.typ != Type::Int {
        Err(PageError::TypeMismatch)
    } else {
        int_at(p.data@, i)
    }
}

/// Row `i` of a page through the Float accessor (bit patterns).
pub open spec fn page_float_at(p: Page, i: int) -> Result<Option<u64>, PageError> {
    if p.meta.typ != Type::Float {
        Err(PageError::TypeMismatch)
    } else {
        float_at(p.data@, i)
    }
}

/// Row `i` of a page through the String accessor.
pub open spec fn page_string_at(p: Page, i: int) -> Result<Option<Seq<char>>, PageError> {
    if p.meta.typ != Type::String {
        Err(PageError::TypeMismatch)
    } else {
        string_at(p.data@, i)
    }
}

/// A string result and its model agree.
pub open spec fn string_result_matches(
    r: Result<Option<String>, PageError>,
    m: Result<Option<Seq<char>>, PageError>,
) -> bool {
    match (r, m) {
        (Ok(Some(s)), Ok(Some(t))) => s@ == t,
        (Ok(None), Ok(None)) => true,
        (Err(e), Err(f)) => e == f,
        _ => false,
    }
}

impl Page {
    /// The body is well formed and agrees with the metadata in type and row
    /// count.
    pub open spec fn wf(&self) -> bool {
        &&& self.data.wf()
        &&& self.data@.typ == self.meta.typ
        &&& self.data@.nulls.len() == self.meta.size
    }

    /// A page from a copy of `meta` and the body `data`.
    pub fn new(meta: &PageMeta, data: PageData) -> (r: Page)
        ensures
            r.meta == *meta,
            r.data == data,
    {
        Page { meta: meta.duplicate(), data }
    }

    /// Row `idx`; the page must be declared Bool.
    pub fn get_bool(&self, idx: usize) -> (r: Result<Option<bool>, PageError>)
        requires
            self.data.wf(),
        ensures
            r == page_bool_at(*self, idx as int),
    {
        if self.meta.typ != Type::Bool {
            return Err(PageError::TypeMismatch);
        }
        self.data.get_bool(idx)
    }

    /// Row `idx`; the page must be declared Int.
    pub fn get_int(&self, idx: usize) -> (r: Result<Option<i64>, PageError>)
        requires
            self.data.wf(),
        ensures
            r == page_int_at(*self, idx as int),
    {
        if self.meta.typ != Type::Int {
            return Err(PageError::TypeMismatch);
        }
        self.data.get_int(idx)
    }

    /// Row `idx` as the bit pattern of a double; the page must be declared
    /// Float.
    pub fn get_float(&self, idx: usize) -> (r: Result<Option<u64>, PageError>)
        requires
            self.data.wf(),
        ensures
            r == page_float_at(*self, idx as int),
    {
        if self.meta.typ != Type::Float {
            return Err(PageError::TypeMismatch);
        }
        self.data.get_float(idx)
    }

    /// Row `idx`; the page must be declared String.
    pub fn get_string(&self, idx: usize) -> (r: Result<Option<String>, PageError>)
        requires
            self.data.wf(),
        ensures
            string_result_matches(r, page_string_at(*self, idx as int)),
    {
        if self.meta.typ != Type::String {
            return Err(PageError::TypeMismatch);
        }
        self.data.get_string(idx)
    }
}

} // verus!
