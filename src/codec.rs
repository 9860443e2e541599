//! The in-memory encoding of one page's values: a null flag per row and a
//! value buffer whose layout depends on the page's type.
use vstd::prelude::*;
use vstd::utf8::decode_utf8;
use vstd::utf8::encode_utf8;
use vstd::utf8::valid_utf8;

use crate::trusted::bit_of;
use crate::trusted::le_u64_bytes;
use crate::trusted::le_value;
use crate::trusted::pack_bits;
use crate::trusted::read_le_u64;
use crate::trusted::utf8_string;
use crate::types::PageError;
use crate::types::Type;

verus! {

broadcast use {vstd::utf8::encode_utf8_valid_utf8, vstd::utf8::encode_utf8_decode_utf8};

/// A page's decoded body. For Bool the buffer packs one bit per row; for Int
/// and Float it holds one 8-byte little-endian word per row (a two's-complement
/// integer, or the IEEE-754 bits of a double); for String it holds the UTF-8
/// bytes of all rows, which `offsets` cut into one slice per row. A null row
/// holds a placeholder that is never read.
pub struct PageData {
    bytes: Vec<u8>,
    nulls: Vec<bool>,
    offsets: Vec<usize>,
    typ: Type,
}

/// The most rows that a page holds: the most bits that a bit vector
/// addresses.
pub const MAX_ROWS: usize = usize::MAX / 8;

/// The mathematical content of a `PageData`.
pub struct PageDataView {
    pub typ: Type,
    pub nulls: Seq<bool>,
    pub offsets: Seq<usize>,
    pub bytes: Seq<u8>,
}

impl View for PageData {
    type V = PageDataView;

    closed spec fn view(&self) -> PageDataView {
        PageDataView { typ: self.typ, nulls: self.nulls@, offsets: self.offsets@, bytes: self.bytes@ }
    }
}

/// The row count is at most `MAX_ROWS`, and the buffer and offsets fit it and
/// the type: a bit per row for Bool, a word per row for Int and Float, and
/// for String `row count + 1` non-decreasing offsets from 0 to the end of the
/// buffer.
pub open spec fn layout_ok(v: PageDataView) -> bool {
    let n = v.nulls.len();
    &&& n <= MAX_ROWS
    &&& match v.typ {
        Type::Bool => v.offsets.len() == 0 && v.bytes.len() == (n + 7) / 8,
        Type::Int | Type::Float => v.offsets.len() == 0 && v.bytes.len() == 8 * n,
        Type::String => {
            &&& v.offsets.len() == n + 1
            &&& v.offsets[0] == 0
            &&& v.offsets[n as int] == v.bytes.len()
            &&& forall|i: int, j: int| 0 <= i <= j <= n ==> v.offsets[i] <= v.offsets[j]
        },
    }
}

/// The 8-byte word of row `i`, read least significant byte first.
pub open spec fn word_at(b: Seq<u8>, i: int) -> nat {
    le_value(b.subrange(8 * i, 8 * i + 8))
}

/// The bytes of row `i` of a String page.
pub open spec fn string_bytes_at(v: PageDataView, i: int) -> Seq<u8> {
    v.bytes.subrange(v.offsets[i] as int, v.offsets[i + 1] as int)
}

/// The checks that every accessor makes before it reads a row.
pub open spec fn access(v: PageDataView, t: Type, i: int) -> Result<bool, PageError> {
    if v.typ != t {
        Err(PageError::TypeMismatch)
    } else if !(0 <= i < v.nulls.len()) {
        Err(PageError::IndexOutOfRange)
    } else {
        Ok(v.nulls[i])
    }
}

/// Row `i` of a Bool page.
pub open spec fn bool_at(v: PageDataView, i: int) -> Result<Option<bool>, PageError> {
    match access(v, Type::Bool, i) {
        Err(e) => Err(e),
        Ok(true) => Ok(None),
        Ok(false) => Ok(Some(bit_of(v.bytes, i))),
    }
}

/// Row `i` of an Int page.
pub open spec fn int_at(v: PageDataView, i: int) -> Result<Option<i64>, PageError> {
    match access(v, Type::Int, i) {
        Err(e) => Err(e),
        Ok(true) => Ok(None),
        Ok(false) => Ok(Some(word_at(v.bytes, i) as u64 as i64)),
    }
}

/// Row `i` of a Float page, as the bit pattern of the double.
pub open spec fn float_at(v: PageDataView, i: int) -> Result<Option<u64>, PageError> {
    match access(v, Type::Float, i) {
        Err(e) => Err(e),
        Ok(true) => Ok(None),
        Ok(false) => Ok(Some(word_at(v.bytes, i) as u64)),
    }
}

/// Row `i` of a String page, as characters; an error where its bytes are not
/// UTF-8.
pub open spec fn string_at(v: PageDataView, i: int) -> Result<Option<Seq<char>>, PageError> {
    match access(v, Type::String, i) {
        Err(e) => Err(e),
        Ok(true) => Ok(None),
        Ok(false) => if valid_utf8(string_bytes_at(v, i)) {
            Ok(Some(decode_utf8(string_bytes_at(v, i))))
        } else {
            Err(PageError::Encoding)
        },
    }
}

/// The null flags that a sequence of optional values gives: set where a value
/// is absent.
pub open spec fn null_flags<V>(data: Seq<Option<V>>) -> Seq<bool> {
    data.map_values(|e: Option<V>| e is None)
}

/// `v` is what `PageData::from_bools` makes of `data`: absent values are
/// stored as `false`.
pub open spec fn encodes_bools(v: PageDataView, data: Seq<Option<bool>>) -> bool {
    &&& v.typ == Type::Bool
    &&& v.nulls == null_flags(data)
    &&& layout_ok(v)
    &&& forall|i: int|
        0 <= i < data.len() ==> bit_of(v.bytes, i) == match data[i] {
            Some(b) => b,
            None => false,
        }
}

/// `v` is what `PageData::from_ints` makes of `data`: absent values are
/// stored as 0.
pub open spec fn encodes_ints(v: PageDataView, data: Seq<Option<i64>>) -> bool {
    &&& v.typ == Type::Int
    &&& v.nulls == null_flags(data)
    &&& layout_ok(v)
    &&& forall|i: int|
        0 <= i < data.len() ==> word_at(v.bytes, i) == match data[i] {
            Some(x) => x as u64,
            None => 0u64,
        }
}

/// `v` is what `PageData::from_floats` makes of `data` (bit patterns): absent
/// values are stored as 0, the bits of `0.0`.
pub open spec fn encodes_floats(v: PageDataView, data: Seq<Option<u64>>) -> bool {
    &&& v.typ == Type::Float
    &&& v.nulls == null_flags(data)
    &&& layout_ok(v)
    &&& forall|i: int|
        0 <= i < data.len() ==> word_at(v.bytes, i) == match data[i] {
            Some(x) => x,
            None => 0u64,
        }
}

/// The UTF-8 bytes that row `e` contributes to a String page: none for an
/// absent value.
pub open spec fn row_bytes(e: Option<&str>) -> Seq<u8> {
    match e {
        Some(s) => encode_utf8(s@),
        None => Seq::empty(),
    }
}

/// `v` is what `PageData::from_strings` makes of `data`: the rows' bytes in
/// order, with an empty slice for an absent value.
pub open spec fn encodes_strings(v: PageDataView, data: Seq<Option<&str>>) -> bool {
    &&& v.typ == Type::String
    &&& v.nulls == null_flags(data)
    &&& layout_ok(v)
    &&& forall|i: int| 0 <= i < data.len() ==> string_bytes_at(v, i) == row_bytes(data[i])
}

impl PageData {
    /// The buffer and offsets agree with the row count and the type.
    pub open spec fn wf(&self) -> bool {
        layout_ok(self@)
    }

    /// Encodes booleans, one bit per row.
    pub fn from_bools(data: &[Option<bool>]) -> (r: PageData)
        requires
            data@.len() <= MAX_ROWS,
        ensures
            r.wf(),
            encodes_bools(r@, data@),
    {
        let mut bits: Vec<bool> = Vec::new();
        let mut nulls: Vec<bool> = Vec::new();
        let mut i: usize = 0;
        while i < data.len()
            invariant
                i <= data@.len(),
                bits@.len() == i,
                nulls@ == null_flags(data@).subrange(0, i as int),
                forall|k: int|
                    0 <= k < i ==> bits@[k] == match data@[k] {
                        Some(b) => b,
                        None => false,
                    },
            decreases data@.len() - i,
        {
            match data[i] {
                Some(b) => {
                    bits.push(b);
                    nulls.push(false);
                },
                None => {
                    bits.push(false);
                    nulls.push(true);
                },
            }
            i += 1;
        }
        assert(nulls@ =~= null_flags(data@));
        let bytes = pack_bits(bits.as_slice());
        PageData { bytes, nulls, offsets: Vec::new(), typ: Type::Bool }
    }

    /// Encodes integers, one 8-byte little-endian word per row.
    pub fn from_ints(data: &[Option<i64>]) -> (r: PageData)
        requires
            data@.len() <= MAX_ROWS,
        ensures
            r.wf(),
            encodes_ints(r@, data@),
    {
        let mut bytes: Vec<u8> = Vec::new();
        let mut nulls: Vec<bool> = Vec::new();
        let mut i: usize = 0;
        while i < data.len()
            invariant
                i <= data@.len(),
                bytes@.len() == 8 * i,
                nulls@ == null_flags(data@).subrange(0, i as int),
                forall|k: int|
                    0 <= k < i ==> word_at(bytes@, k) == match data@[k] {
                        Some(x) => x as u64,
                        None => 0u64,
                    },
            decreases data@.len() - i,
        {
            let w: u64 = match data[i] {
                Some(x) => x as u64,
                None => 0u64,
            };
            let ghost before = bytes@;
            push_word(&mut bytes, w);
            proof {
                lemma_words_kept(before, bytes@, i as int);
            }
            nulls.push(data[i].is_none());
            i += 1;
        }
        assert(nulls@ =~= null_flags(data@));
        PageData { bytes, nulls, offsets: Vec::new(), typ: Type::Int }
    }

    /// Encodes doubles given as their IEEE-754 bit patterns (`f64::to_bits`),
    /// one 8-byte little-endian word per row.
    pub fn from_floats(data: &[Option<u64>]) -> (r: PageData)
        requires
            data@.len() <= MAX_ROWS,
        ensures
            r.wf(),
            encodes_floats(r@, data@),
    {
        let mut bytes: Vec<u8> = Vec::new();
        let mut nulls: Vec<bool> = Vec::new();
        let mut i: usize = 0;
        while i < data.len()
            invariant
                i <= data@.len(),
                bytes@.len() == 8 * i,
                nulls@ == null_flags(data@).subrange(0, i as int),
                forall|k: int|
                    0 <= k < i ==> word_at(bytes@, k) == match data@[k] {
                        Some(x) => x,
                        None => 0u64,
                    },
            decreases data@.len() - i,
        {
            let w: u64 = match data[i] {
                Some(x) => x,
                None => 0u64,
            };
            let ghost before = bytes@;
            push_word(&mut bytes, w);
            proof {
                lemma_words_kept(before, bytes@, i as int);
            }
            nulls.push(data[i].is_none());
            i += 1;
        }
        assert(nulls@ =~= null_flags(data@));
        PageData { bytes, nulls, offsets: Vec::new(), typ: Type::Float }
    }

    /// Encodes strings: their UTF-8 bytes one after the other, and the offset
    /// at which each row starts, with the end of the buffer last.
    pub fn from_strings(data: &[Option<&str>]) -> (r: PageData)
        requires
            data@.len() <= MAX_ROWS,
        ensures
            r.wf(),
            encodes_strings(r@, data@),
    {
        let mut bytes: Vec<u8> = Vec::new();
        let mut nulls: Vec<bool> = Vec::new();
        let mut offsets: Vec<usize> = Vec::new();
        let mut i: usize = 0;
        while i < data.len()
            invariant
                i <= data@.len(),
                offsets@.len() == i,
                nulls@ == null_flags(data@).subrange(0, i as int),
                i > 0 ==> offsets@[0] == 0,
                i == 0 ==> bytes@.len() == 0,
                forall|a: int, b: int| 0 <= a <= b < i ==> offsets@[a] <= offsets@[b],
                forall|a: int| 0 <= a < i ==> offsets@[a] <= bytes@.len(),
                forall|k: int|
                    0 <= k < i ==> bytes@.subrange(
                        offsets@[k] as int,
                        if k + 1 < i {
                            offsets@[k + 1] as int
                        } else {
                            bytes@.len() as int
                        },
                    ) == row_bytes(data@[k]),
            decreases data@.len() - i,
        {
            let start = bytes.len();
            let ghost before = bytes@;
            match data[i] {
                Some(s) => {
                    bytes.extend_from_slice(s.as_bytes());
                },
                None => {},
            }
            proof {
                assert(bytes@.subrange(0, start as int) =~= before);
                assert forall|k: int| 0 <= k < i implies bytes@.subrange(
                    offsets@[k] as int,
                    if k + 1 < i + 1 {
                        if k + 1 < i {
                            offsets@[k + 1] as int
                        } else {
                            start as int
                        }
                    } else {
                        bytes@.len() as int
                    },
                ) == row_bytes(data@[k]) by {
                    let hi = if k + 1 < i {
                        offsets@[k + 1] as int
                    } else {
                        start as int
                    };
                    assert(bytes@.subrange(offsets@[k] as int, hi) =~= before.subrange(
                        offsets@[k] as int,
                        hi,
                    ));
                }
                assert(bytes@.subrange(start as int, bytes@.len() as int) =~= row_bytes(data@[i as int]));
            }
            offsets.push(start);
            nulls.push(data[i].is_none());
            i += 1;
        }
        let ghost offs = offsets@;
        offsets.push(bytes.len());
        assert(nulls@ =~= null_flags(data@));
        let r = PageData { bytes, nulls, offsets, typ: Type::String };
        assert forall|k: int| 0 <= k < data@.len() implies string_bytes_at(r@, k) == row_bytes(
            data@[k],
        ) by {
            assert(r@.offsets[k] == offs[k]);
            if k + 1 < data@.len() {
                assert(r@.offsets[k + 1] == offs[k + 1]);
            } else {
                assert(r@.offsets[k + 1] == r@.bytes.len());
            }
        }
        r
    }

    /// Builds a page body from its parts, which must fit one another: a
    /// `CorruptPage` error otherwise.
    pub fn from_parts(typ: Type, nulls: Vec<bool>, offsets: Vec<usize>, bytes: Vec<u8>) -> (r: Result<
        PageData,
        PageError,
    >)
        ensures
            match r {
                Ok(d) => layout_ok(d@) && d@ == (PageDataView {
                    typ,
                    nulls: nulls@,
                    offsets: offsets@,
                    bytes: bytes@,
                }),
                Err(e) => e == PageError::CorruptPage && !layout_ok(
                    (PageDataView { typ, nulls: nulls@, offsets: offsets@, bytes: bytes@ }),
                ),
            },
    {
        let n = nulls.len();
        let ok = n <= MAX_ROWS && match typ {
            Type::Bool => offsets.len() == 0 && bytes.len() as u128 == (n as u128 + 7) / 8,
            Type::Int | Type::Float => offsets.len() == 0 && bytes.len() as u128 == 8 * (n as u128),
            Type::String => offsets_ok(&offsets, n, bytes.len()),
        };
        let d = PageData { bytes, nulls, offsets, typ };
        if ok {
            Ok(d)
        } else {
            Err(PageError::CorruptPage)
        }
    }

    /// The type of the values.
    pub fn typ(&self) -> (r: Type)
        ensures
            r == self@.typ,
    {
        self.typ
    }

    /// The number of rows.
    pub fn len(&self) -> (r: usize)
        ensures
            r == self@.nulls.len(),
    {
        self.nulls.len()
    }

    /// The null flag of each row.
    pub fn nulls(&self) -> (r: &Vec<bool>)
        ensures
            r@ == self@.nulls,
    {
        &self.nulls
    }

    /// The offset table; empty unless the type is String.
    pub fn offsets(&self) -> (r: &Vec<usize>)
        ensures
            r@ == self@.offsets,
    {
        &self.offsets
    }

    /// The value buffer.
    pub fn bytes(&self) -> (r: &Vec<u8>)
        ensures
            r@ == self@.bytes,
    {
        &self.bytes
    }

    /// Row `idx` of a Bool page.
    pub fn get_bool(&self, idx: usize) -> (r: Result<Option<bool>, PageError>)
        requires
            self.wf(),
        ensures
            r == bool_at(self@, idx as int),
    {
        if self.typ != Type::Bool {
            return Err(PageError::TypeMismatch);
        }
        if idx >= self.nulls.len() {
            return Err(PageError::IndexOutOfRange);
        }
        if self.nulls[idx] {
            return Ok(None);
        }
        Ok(Some(bit_at(self.bytes.as_slice(), idx)))
    }

    /// Row `idx` of an Int page.
    pub fn get_int(&self, idx: usize) -> (r: Result<Option<i64>, PageError>)
        requires
            self.wf(),
        ensures
            r == int_at(self@, idx as int),
    {
        if self.typ != Type::Int {
            return Err(PageError::TypeMismatch);
        }
        if idx >= self.nulls.len() {
            return Err(PageError::IndexOutOfRange);
        }
        if self.nulls[idx] {
            return Ok(None);
        }
        let w = self.word(idx);
        Ok(Some(w as i64))
    }

    /// Row `idx` of a Float page, as the bit pattern of the double
    /// (`f64::from_bits` gives the value).
    pub fn get_float(&self, idx: usize) -> (r: Result<Option<u64>, PageError>)
        requires
            self.wf(),
        ensures
            r == float_at(self@, idx as int),
    {
        if self.typ != Type::Float {
            return Err(PageError::TypeMismatch);
        }
        if idx >= self.nulls.len() {
            return Err(PageError::IndexOutOfRange);
        }
        if self.nulls[idx] {
            return Ok(None);
        }
        Ok(Some(self.word(idx)))
    }

    /// Row `idx` of a String page.
    pub fn get_string(&self, idx: usize) -> (r: Result<Option<String>, PageError>)
        requires
            self.wf(),
        ensures
            match (r, string_at(self@, idx as int)) {
                (Ok(Some(s)), Ok(Some(t))) => s@ == t,
                (Ok(None), Ok(None)) => true,
                (Err(e), Err(f)) => e == f,
                _ => false,
            },
    {
        if self.typ != Type::String {
            return Err(PageError::TypeMismatch);
        }
        if idx >= self.nulls.len() {
            return Err(PageError::IndexOutOfRange);
        }
        if self.nulls[idx] {
            return Ok(None);
        }
        let lo = self.offsets[idx];
        let hi = self.offsets[idx + 1];
        let slice = &self.bytes.as_slice()[lo..hi];
        assert(slice@ == string_bytes_at(self@, idx as int));
        match utf8_string(slice) {
            Some(s) => Ok(Some(s)),
            None => Err(PageError::Encoding),
        }
    }

    /// The word of row `idx` of an Int or Float page.
    fn word(&self, idx: usize) -> (r: u64)
        requires
            self.wf(),
            self@.typ == Type::Int || self@.typ == Type::Float,
            idx < self@.nulls.len(),
        ensures
            r as nat == word_at(self@.bytes, idx as int),
    {
        let len = self.bytes.len();
        assert(8 * idx + 8 <= len);
        let lo = idx * 8;
        let slice = &self.bytes.as_slice()[lo..lo + 8];
        assert(slice@.subrange(0, 8) =~= self@.bytes.subrange(8 * idx, 8 * idx + 8));
        read_le_u64(slice)
    }
}

/// Every row of an encoding decodes to the value that was encoded, for Bool
/// pages, absent values and all.
pub proof fn lemma_round_trip_bools(values: Seq<Option<bool>>, v: PageDataView)
    requires
        encodes_bools(v, values),
    ensures
        forall|i: int| 0 <= i < values.len() as int ==> bool_at(v, i) == Ok::<_, PageError>(values[i]),
{
}

/// Every row of an encoding decodes to the value that was encoded, for Int
/// pages.
pub proof fn lemma_round_trip_ints(values: Seq<Option<i64>>, v: PageDataView)
    requires
        encodes_ints(v, values),
    ensures
        forall|i: int| 0 <= i < values.len() as int ==> int_at(v, i) == Ok::<_, PageError>(values[i]),
{
    assert forall|i: int| 0 <= i < values.len() as int implies int_at(v, i) == Ok::<_, PageError>(values[i]) by {
        if let Some(x) = values[i] {
            assert(((x as u64) as i64) == x) by (bit_vector);
        }
    }
}

/// Every row of an encoding decodes to the value that was encoded, for Float
/// pages (bit patterns).
pub proof fn lemma_round_trip_floats(values: Seq<Option<u64>>, v: PageDataView)
    requires
        encodes_floats(v, values),
    ensures
        forall|i: int| 0 <= i < values.len() as int ==> float_at(v, i) == Ok::<_, PageError>(values[i]),
{
}

/// Every row of an encoding decodes to the characters that were encoded, for
/// String pages, the empty string included.
pub proof fn lemma_round_trip_strings(values: Seq<Option<&str>>, v: PageDataView)
    requires
        encodes_strings(v, values),
    ensures
        forall|i: int|
            0 <= i < values.len() as int ==> string_at(v, i) == Ok::<_, PageError>(
                match values[i] {
                    Some(s) => Some(s@),
                    None => None,
                },
            ),
{
}

/// Two page bodies hold the same rows: the same type and null flags, and the
/// same content in every row that is not null. Null rows may differ.
pub open spec fn same_rows(v: PageDataView, w: PageDataView) -> bool {
    &&& v.typ == w.typ
    &&& v.nulls == w.nulls
    &&& forall|i: int|
        #![trigger v.nulls[i]]
        0 <= i < v.nulls.len() && !v.nulls[i] ==> match v.typ {
            Type::Bool => bit_of(v.bytes, i) == bit_of(w.bytes, i),
            Type::Int | Type::Float => word_at(v.bytes, i) == word_at(w.bytes, i),
            Type::String => string_bytes_at(v, i) == string_bytes_at(w, i),
        }
}

/// Decoding depends on the null flag of a row and never on the placeholder
/// that a null row holds: page bodies that differ only in their null rows
/// decode alike at every position.
pub proof fn lemma_null_rows_ignored(v: PageDataView, w: PageDataView)
    requires
        layout_ok(v),
        layout_ok(w),
        same_rows(v, w),
    ensures
        forall|i: int|
            #![auto]
            bool_at(v, i) == bool_at(w, i) && int_at(v, i) == int_at(w, i) && float_at(v, i)
                == float_at(w, i) && string_at(v, i) == string_at(w, i),
{
    assert forall|i: int|
        #![auto]
        bool_at(v, i) == bool_at(w, i) && int_at(v, i) == int_at(w, i) && float_at(v, i)
            == float_at(w, i) && string_at(v, i) == string_at(w, i) by {
        if 0 <= i < v.nulls.len() && !v.nulls[i] {
            assert(match v.typ {
                Type::Bool => bit_of(v.bytes, i) == bit_of(w.bytes, i),
                Type::Int | Type::Float => word_at(v.bytes, i) == word_at(w.bytes, i),
                Type::String => string_bytes_at(v, i) == string_bytes_at(w, i),
            });
        }
    }
}

/// Bit `i` of `b`, read from byte `i / 8`.
pub(crate) fn bit_at(b: &[u8], i: usize) -> (r: bool)
    requires
        i < 8 * b@.len(),
    ensures
        r == bit_of(b@, i as int),
{
    (b[i / 8] >> ((i % 8) as u8)) & 1u8 == 1u8
}

/// Appends the 8-byte little-endian form of `w`.
pub(crate) fn push_word(bytes: &mut Vec<u8>, w: u64)
    ensures
        final(bytes)@.len() == old(bytes)@.len() + 8,
        final(bytes)@.subrange(0, old(bytes)@.len() as int) == old(bytes)@,
        le_value(final(bytes)@.subrange(old(bytes)@.len() as int, old(bytes)@.len() + 8int)) == w as nat,
{
    let word = le_u64_bytes(w);
    let ghost before = bytes@;
    bytes.extend_from_slice(word.as_slice());
    assert(bytes@.subrange(0, before.len() as int) =~= before);
    assert(bytes@.subrange(before.len() as int, before.len() + 8int) =~= word@);
}

/// Appending to a buffer keeps the words of the rows already in it, and the
/// new word is that of row `i`.
pub(crate) proof fn lemma_words_kept(before: Seq<u8>, after: Seq<u8>, i: int)
    requires
        0 <= i,
        before.len() == 8 * i,
        after.len() == before.len() + 8,
        after.subrange(0, before.len() as int) == before,
    ensures
        forall|k: int| 0 <= k < i ==> word_at(after, k) == word_at(before, k),
        word_at(after, i) == le_value(after.subrange(before.len() as int, before.len() + 8int)),
{
    assert forall|k: int| 0 <= k < i implies word_at(after, k) == word_at(before, k) by {
        assert(after.subrange(8 * k, 8 * k + 8) =~= before.subrange(8 * k, 8 * k + 8));
    }
}

/// Whether `offsets` is a valid offset table for `n` rows over `len` bytes.
fn offsets_ok(offsets: &Vec<usize>, n: usize, len: usize) -> (r: bool)
    ensures
        r == {
            &&& offsets@.len() == n + 1
            &&& offsets@[0] == 0
            &&& offsets@[n as int] == len
            &&& forall|i: int, j: int| 0 <= i <= j <= n ==> offsets@[i] <= offsets@[j]
        },
{
    if offsets.len() == 0 || offsets.len() - 1 != n || offsets[0] != 0 || offsets[n] != len {
        return false;
    }
    let mut k: usize = 0;
    while k < n
        invariant
            offsets@.len() == n + 1,
            k <= n,
            forall|i: int, j: int| 0 <= i <= j <= k ==> offsets@[i] <= offsets@[j],
        decreases n - k,
    {
        if offsets[k] > offsets[k + 1] {
            return false;
        }
        k += 1;
    }
    true
}

} // verus!
