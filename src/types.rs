use vstd::prelude::*;

verus! {

/// The type of every value of a page or a collection.
#[derive(Clone, Copy, Debug, PartialEq, Eq, Structural, Hash)]
pub enum Type {
    Bool,
    Int,
    Float,
    String,
}

/// What can go wrong when pages are built, read, written or queried.
#[derive(Clone, Debug, PartialEq, Eq)]
pub enum PageError {
    /// A file could not be opened, created, read or written; the text says why.
    Io(String),
    /// A page file's declared lengths do not match its contents, or its value
    /// blob does not decompress.
    CorruptPage,
    /// An accessor for one type was used on a page or collection of another.
    TypeMismatch,
    /// A position at or beyond the row count.
    IndexOutOfRange,
    /// A collection was built from pages of different types.
    HeterogeneousType,
    /// The bytes of a string value are not valid UTF-8.
    Encoding,
}

/// A `{min, max}` pair, reserved for range statistics.
#[derive(Clone, Copy, Debug)]
pub struct Bound<T> {
    pub min: T,
    pub max: T,
}

/// Statistics that callers may attach to a page; nothing in the engine reads
/// them. A float bound holds the IEEE-754 bit patterns of its ends.
#[derive(Clone, Debug)]
pub struct PageStats {
    pub contains_nulls: bool,
    pub int_bound: Option<Bound<usize>>,
    pub float_bound: Option<Bound<u64>>,
    pub string_bound: Option<Bound<String>>,
}

impl PageStats {
    /// Statistics that claim nothing.
    pub fn empty() -> (r: PageStats)
        ensures
            !r.contains_nulls,
            r.int_bound is None,
            r.float_bound is None,
            r.string_bound is None,
    {
        PageStats { contains_nulls: false, int_bound: None, float_bound: None, string_bound: None }
    }

    /// A field-by-field copy.
    pub fn duplicate(&self) -> (r: PageStats)
        ensures
            r == *self,
    {
        let string_bound = match &self.string_bound {
            Some(b) => Some(Bound { min: b.min.clone(), max: b.max.clone() }),
            None => None,
        };
        PageStats {
            contains_nulls: self.contains_nulls,
            int_bound: self.int_bound,
            float_bound: self.float_bound,
            string_bound,
        }
    }
}

} // verus!
