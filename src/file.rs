//! The page file format. In order, little-endian: the byte length of the null
//! bitmap (8 bytes); the bitmap, one bit per row, set for a null row; for a
//! String page, `rows + 1` offsets of 8 bytes each; and the value buffer as a
//! Snappy frame stream, to the end of the file.
use vstd::prelude::*;

use crate::codec::bit_at;
use crate::codec::layout_ok;
use crate::codec::lemma_words_kept;
use crate::codec::push_word;
use crate::codec::word_at;
use crate::codec::PageData;
use crate::codec::PageDataView;
use crate::page::Page;
use crate::page::PageMeta;
use crate::trusted::bit_of;
use crate::trusted::le_u64_bytes;
use crate::trusted::le_value;
use crate::trusted::pack_bits;
use crate::trusted::read_le_u64;
use crate::trusted::snappy_frame;
use crate::trusted::snappy_framed;
use crate::trusted::snappy_unframe;
use crate::trusted::snappy_unframed;
use crate::types::PageError;
use crate::types::Type;

verus! {

/// The byte length of the null bitmap of `n` rows.
pub open spec fn bitmap_len(n: nat) -> nat {
    (n + 7) / 8
}

/// The byte length of the offset table of `n` rows of type `t`.
pub open spec fn offsets_len(t: Type, n: nat) -> nat {
    if t == Type::String {
        8 * (n + 1)
    } else {
        0
    }
}

/// `f` is the page file of the body `v`: the header, the bitmap with its
/// unused high bits clear, the offset table, and the Snappy frame stream of
/// the value buffer, which decodes back to it.
pub open spec fn page_file(v: PageDataView, f: Seq<u8>) -> bool {
    let n = v.nulls.len();
    let nb = bitmap_len(n) as int;
    let ob = offsets_len(v.typ, n) as int;
    &&& f.len() >= 8 + nb + ob
    &&& le_value(f.subrange(0, 8)) == nb
    &&& forall|i: int| 0 <= i < n ==> bit_of(f.subrange(8, 8 + nb), i) == v.nulls[i]
    &&& forall|i: int| n <= i < 8 * nb ==> !#[trigger] bit_of(f.subrange(8, 8 + nb), i)
    &&& forall|i: int|
        0 <= i < v.offsets.len() ==> word_at(f.subrange(8 + nb, 8 + nb + ob), i) == v.offsets[i]
    &&& f.subrange(8 + nb + ob, f.len() as int) == snappy_framed(v.bytes)
    &&& snappy_unframed(f.subrange(8 + nb + ob, f.len() as int)) == Some(v.bytes)
}

/// The words of the offset table of a page file whose bitmap is `nb` bytes
/// long and whose table is `ob` bytes long.
pub open spec fn offset_words(f: Seq<u8>, nb: int, ob: int) -> Seq<nat> {
    Seq::new((ob / 8) as nat, |i: int| word_at(f.subrange(8 + nb, 8 + nb + ob), i))
}

/// Every word of an offset table fits a `usize`.
pub open spec fn words_fit(words: Seq<nat>) -> bool {
    forall|i: int| 0 <= i < words.len() ==> words[i] <= usize::MAX
}

/// What reading the file `f` as a page of type `t` with `n` rows gives: every
/// length must be as declared, every offset must fit a `usize`, the value
/// buffer must decompress, and the parts must fit one another.
pub open spec fn parse_page_file(t: Type, n: nat, f: Seq<u8>) -> Result<PageDataView, PageError> {
    let nb = bitmap_len(n) as int;
    let ob = offsets_len(t, n) as int;
    let words = offset_words(f, nb, ob);
    if f.len() < 8 + nb + ob || le_value(f.subrange(0, 8)) != nb {
        Err(PageError::CorruptPage)
    } else if !words_fit(words) {
        Err(PageError::CorruptPage)
    } else {
        match snappy_unframed(f.subrange(8 + nb + ob, f.len() as int)) {
            None => Err(PageError::CorruptPage),
            Some(bytes) => {
                let v = PageDataView {
                    typ: t,
                    nulls: Seq::new(n as nat, |i: int| bit_of(f.subrange(8, 8 + nb), i)),
                    offsets: words.map_values(|w: nat| w as usize),
                    bytes,
                };
                if layout_ok(v) {
                    Ok(v)
                } else {
                    Err(PageError::CorruptPage)
                }
            },
        }
    }
}

/// Reads pages from their file contents.
pub struct PageReader {}

impl PageReader {
    /// The page that `file` holds, for the metadata `meta`; `CorruptPage`
    /// where the file does not hold a page of that type and row count.
    pub fn read(meta: &PageMeta, file: &[u8]) -> (r: Result<Page, PageError>)
        ensures
            match r {
                Ok(p) => {
                    &&& p.meta == *meta
                    &&& p.wf()
                    &&& parse_page_file(meta.typ, meta.size as nat, file@) == Ok::<
                        _,
                        PageError,
                    >(p.data@)
                },
                Err(e) => parse_page_file(meta.typ, meta.size as nat, file@) == Err::<
                    PageDataView,
                    _,
                >(e),
            },
    {
        let n = meta.size;
        let nb: usize = n / 8 + if n % 8 == 0 {
            0
        } else {
            1
        };
        assert(nb == bitmap_len(n as nat));
        assert(n <= 8 * nb) by (nonlinear_arith)
            requires
                nb == n / 8 + if n % 8 == 0 {
                    0int
                } else {
                    1int
                },
        ;
        let len = file.len();
        let ob_wide: u128 = if meta.typ == Type::String {
            8 * (n as u128 + 1)
        } else {
            0
        };
        assert(ob_wide as int == offsets_len(meta.typ, n as nat) as int);
        let ghost words = offset_words(file@, nb as int, ob_wide as int);
        if (len as u128) < 8 + nb as u128 + ob_wide {
            return Err(PageError::CorruptPage);
        }
        let ob = ob_wide as usize;
        let header = read_le_u64(file);
        assert(file@.subrange(0, 8) =~= file@.subrange(0, 8).subrange(0, 8));
        if header as u128 != nb as u128 {
            return Err(PageError::CorruptPage);
        }
        let bitmap = &file[8..8 + nb];
        let mut nulls: Vec<bool> = Vec::new();
        let mut i: usize = 0;
        while i < n
            invariant
                i <= n,
                bitmap@ == file@.subrange(8, 8 + nb),
                bitmap@.len() == nb,
                le_value(file@.subrange(0, 8)) == nb,
                file@.len() >= 8 + nb + ob_wide,
                n <= 8 * nb,
                nb == bitmap_len(n as nat),
                nulls@.len() == i,
                forall|k: int| 0 <= k < i ==> nulls@[k] == bit_of(bitmap@, k),
            decreases n - i,
        {
            nulls.push(bit_at(bitmap, i));
            i += 1;
        }
        assert(nulls@ =~= Seq::new(n as nat, |k: int| bit_of(file@.subrange(8, 8 + nb as int), k)));
        let mut offsets: Vec<usize> = Vec::new();
        if meta.typ == Type::String {
            let mut k: usize = 0;
            while k <= n
                invariant
                    meta.typ == Type::String,
                    n == meta.size,
                    ob == 8 * (n + 1),
                    nb == bitmap_len(n as nat),
                    le_value(file@.subrange(0, 8)) == nb,
                    ob as int == offsets_len(meta.typ, n as nat) as int,
                    len == file@.len(),
                    len >= 8 + nb + ob,
                    k <= n + 1,
                    words == offset_words(file@, nb as int, ob as int),
                    offsets@.len() == k,
                    forall|j: int| 0 <= j < k ==> offsets@[j] as nat == words[j],
                decreases n + 1 - k,
            {
                let lo = 8 + nb + 8 * k;
                let word = read_le_u64(&file[lo..lo + 8]);
                assert(file@.subrange(lo as int, lo + 8int).subrange(0, 8) =~= file@.subrange(
                    8 + nb,
                    8 + nb + ob,
                ).subrange(8 * k, 8 * k + 8));
                if word as u128 > usize::MAX as u128 {
                    assert(words[k as int] > usize::MAX);
                    return Err(PageError::CorruptPage);
                }
                offsets.push(word as usize);
                k += 1;
            }
        }
        assert(offsets@ =~= words.map_values(|w: nat| w as usize));
        assert(words_fit(words)) by {
            if meta.typ == Type::String {
                assert forall|j: int| 0 <= j < words.len() implies words[j] <= usize::MAX by {
                    assert(offsets@[j] as nat == words[j]);
                }
            }
        }
        let bytes = match snappy_unframe(&file[8 + nb + ob..len]) {
            Some(b) => b,
            None => return Err(PageError::CorruptPage),
        };
        assert(file@.subrange(8 + nb + ob, len as int) == file@.subrange(
            8 + nb + ob,
            file@.len() as int,
        ));
        match PageData::from_parts(meta.typ, nulls, offsets, bytes) {
            Ok(data) => Ok(Page::new(meta, data)),
            Err(e) => Err(e),
        }
    }
}

/// Writes pages as file contents.
pub struct PageWriter {}

impl PageWriter {
    /// The file contents of `page`: bitmap length, bitmap, offset table for a
    /// String page, and the compressed value buffer. The bytes depend on the
    /// page's body alone, never on its metadata.
    pub fn write(page: &Page) -> (r: Result<Vec<u8>, PageError>)
        requires
            page.data.wf(),
        ensures
            r matches Ok(f) && page_file(page.data@, f@),
    {
        let data = &page.data;
        let mut out = PageWriter::write_nulls(data);
        let ghost head = out@;
        PageWriter::write_offsets(&mut out, data);
        let ghost table = out@;
        let blob = snappy_frame(data.bytes().as_slice());
        out.extend_from_slice(blob.as_slice());
        proof {
            let v = data@;
            let n = v.nulls.len();
            let nb = bitmap_len(n) as int;
            let ob = offsets_len(v.typ, n) as int;
            assert(out@.subrange(0, 8) =~= head.subrange(0, 8));
            assert(out@.subrange(8, 8 + nb) =~= head.subrange(8, 8 + nb));
            assert(out@.subrange(8 + nb, 8 + nb + ob) =~= table.subrange(8 + nb, 8 + nb + ob));
            assert(out@.subrange(8 + nb + ob, out@.len() as int) =~= blob@);
        }
        Ok(out)
    }

    /// The bitmap length followed by the null bitmap, whose unused high bits
    /// are cleared.
    fn write_nulls(data: &PageData) -> (r: Vec<u8>)
        requires
            data.wf(),
        ensures
            r@.len() == 8 + bitmap_len(data@.nulls.len()),
            le_value(r@.subrange(0, 8)) == bitmap_len(data@.nulls.len()),
            forall|i: int|
                0 <= i < data@.nulls.len() ==> bit_of(
                    r@.subrange(8, 8 + bitmap_len(data@.nulls.len()) as int),
                    i,
                ) == data@.nulls[i],
            forall|i: int|
                data@.nulls.len() <= i < 8 * bitmap_len(data@.nulls.len()) ==> !#[trigger] bit_of(
                    r@.subrange(8, 8 + bitmap_len(data@.nulls.len()) as int),
                    i,
                ),
    {
        let mut bitmap = pack_bits(data.nulls().as_slice());
        let n = data.len();
        let rem = n % 8;
        if rem != 0 {
            let last = bitmap.len() - 1;
            let byte = bitmap[last];
            let m = rem as u8;
            assert((1u8 << m) >= 1u8) by (bit_vector)
                requires
                    0 < m < 8,
            ;
            let mask: u8 = (1u8 << m) - 1u8;
            let ghost packed = bitmap@;
            bitmap[last] = byte & mask;
            proof {
                assert(last as int == n as int / 8);
                assert forall|i: int| 0 <= i < 8 * bitmap@.len() implies #[trigger] bit_of(
                    bitmap@,
                    i,
                ) == (i < n && bit_of(packed, i)) by {
                    if i / 8 == last as int {
                        let j = (i % 8) as u8;
                        lemma_mask_bit(byte, mask, m, j);
                        assert(i < n <==> j < m);
                    } else {
                        assert(bitmap@[i / 8] == packed[i / 8]);
                    }
                }
            }
        } else {
            assert(8 * bitmap@.len() == n);
        }
        assert(bitmap@.len() == bitmap_len(n as nat));
        assert(forall|i: int| n <= i < 8 * bitmap@.len() ==> !#[trigger] bit_of(bitmap@, i));
        assert(forall|i: int| 0 <= i < n ==> #[trigger] bit_of(bitmap@, i) == data@.nulls[i]);
        let mut out = le_u64_bytes(bitmap.len() as u64);
        let ghost header = out@;
        out.extend_from_slice(bitmap.as_slice());
        assert(out@.subrange(0, 8) =~= header);
        assert(out@.subrange(8, out@.len() as int) =~= bitmap@);
        assert(out@.subrange(8, 8 + bitmap_len(n as nat) as int) == bitmap@);
        out
    }

    /// Appends the offset table, one 8-byte word per offset; nothing for a
    /// page that is not String.
    fn write_offsets(out: &mut Vec<u8>, data: &PageData)
        requires
            data.wf(),
            old(out)@.len() == 8 + bitmap_len(data@.nulls.len()),
        ensures
            final(out)@.len() == old(out)@.len() + offsets_len(data@.typ, data@.nulls.len()),
            final(out)@.subrange(0, old(out)@.len() as int) == old(out)@,
            forall|i: int|
                0 <= i < data@.offsets.len() ==> word_at(
                    final(out)@.subrange(
                        old(out)@.len() as int,
                        old(out)@.len() + offsets_len(data@.typ, data@.nulls.len()) as int,
                    ),
                    i,
                ) == data@.offsets[i],
    {
        let offsets = data.offsets();
        let mut table: Vec<u8> = Vec::new();
        let mut k: usize = 0;
        while k < offsets.len()
            invariant
                k <= offsets@.len(),
                table@.len() == 8 * k,
                forall|j: int| 0 <= j < k ==> word_at(table@, j) == offsets@[j] as nat,
            decreases offsets@.len() - k,
        {
            let ghost before = table@;
            push_word(&mut table, offsets[k] as u64);
            proof {
                lemma_words_kept(before, table@, k as int);
            }
            k += 1;
        }
        let ghost start = out@;
        out.extend_from_slice(table.as_slice());
        assert(out@.subrange(0, start.len() as int) =~= start);
        assert(out@.subrange(start.len() as int, out@.len() as int) =~= table@);
    }
}

/// Masking a byte with its low `m` bits keeps bit `j` below `m` and clears
/// it from `m` up.
proof fn lemma_mask_bit(x: u8, mask: u8, m: u8, j: u8)
    requires
        0 < m < 8,
        j < 8,
        mask == ((1u8 << m) - 1u8) as u8,
    ensures
        ((x & mask) >> j) & 1u8 == if j < m {
            (x >> j) & 1u8
        } else {
            0u8
        },
{
    assert(((x & mask) >> j) & 1u8 == if j < m {
        (x >> j) & 1u8
    } else {
        0u8
    }) by (bit_vector)
        requires
            0 < m < 8,
            j < 8,
            mask == ((1u8 << m) - 1u8) as u8,
    ;
}

/// A byte is fixed by its eight bits.
proof fn lemma_byte_from_bits(x: u8, y: u8)
    requires
            ((x >> 0u8) & 1u8 == 1u8) == ((y >> 0u8) & 1u8 == 1u8),
            ((x >> 1u8) & 1u8 == 1u8) == ((y >> 1u8) & 1u8 == 1u8),
            ((x >> 2u8) & 1u8 == 1u8) == ((y >> 2u8) & 1u8 == 1u8),
            ((x >> 3u8) & 1u8 == 1u8) == ((y >> 3u8) & 1u8 == 1u8),
            ((x >> 4u8) & 1u8 == 1u8) == ((y >> 4u8) & 1u8 == 1u8),
            ((x >> 5u8) & 1u8 == 1u8) == ((y >> 5u8) & 1u8 == 1u8),
            ((x >> 6u8) & 1u8 == 1u8) == ((y >> 6u8) & 1u8 == 1u8),
            ((x >> 7u8) & 1u8 == 1u8) == ((y >> 7u8) & 1u8 == 1u8),
    ensures
        x == y,
{
    assert(x == y) by (bit_vector)
        requires
            ((x >> 0u8) & 1u8 == 1u8) == ((y >> 0u8) & 1u8 == 1u8),
            ((x >> 1u8) & 1u8 == 1u8) == ((y >> 1u8) & 1u8 == 1u8),
            ((x >> 2u8) & 1u8 == 1u8) == ((y >> 2u8) & 1u8 == 1u8),
            ((x >> 3u8) & 1u8 == 1u8) == ((y >> 3u8) & 1u8 == 1u8),
            ((x >> 4u8) & 1u8 == 1u8) == ((y >> 4u8) & 1u8 == 1u8),
            ((x >> 5u8) & 1u8 == 1u8) == ((y >> 5u8) & 1u8 == 1u8),
            ((x >> 6u8) & 1u8 == 1u8) == ((y >> 6u8) & 1u8 == 1u8),
            ((x >> 7u8) & 1u8 == 1u8) == ((y >> 7u8) & 1u8 == 1u8),
    ;
}

/// Bytes are fixed by their bits.
proof fn lemma_bytes_from_bits(b1: Seq<u8>, b2: Seq<u8>)
    requires
        b1.len() == b2.len(),
        forall|i: int| 0 <= i < 8 * b1.len() ==> bit_of(b1, i) == bit_of(b2, i),
    ensures
        b1 == b2,
{
    assert forall|k: int| 0 <= k < b1.len() implies b1[k] == b2[k] by {
        assert(bit_of(b1, 8 * k + 0) == bit_of(b2, 8 * k + 0));
        assert((8 * k + 0) / 8 == k && (8 * k + 0) % 8 == 0);
        assert(bit_of(b1, 8 * k + 1) == bit_of(b2, 8 * k + 1));
        assert((8 * k + 1) / 8 == k && (8 * k + 1) % 8 == 1);
        assert(bit_of(b1, 8 * k + 2) == bit_of(b2, 8 * k + 2));
        assert((8 * k + 2) / 8 == k && (8 * k + 2) % 8 == 2);
        assert(bit_of(b1, 8 * k + 3) == bit_of(b2, 8 * k + 3));
        assert((8 * k + 3) / 8 == k && (8 * k + 3) % 8 == 3);
        assert(bit_of(b1, 8 * k + 4) == bit_of(b2, 8 * k + 4));
        assert((8 * k + 4) / 8 == k && (8 * k + 4) % 8 == 4);
        assert(bit_of(b1, 8 * k + 5) == bit_of(b2, 8 * k + 5));
        assert((8 * k + 5) / 8 == k && (8 * k + 5) % 8 == 5);
        assert(bit_of(b1, 8 * k + 6) == bit_of(b2, 8 * k + 6));
        assert((8 * k + 6) / 8 == k && (8 * k + 6) % 8 == 6);
        assert(bit_of(b1, 8 * k + 7) == bit_of(b2, 8 * k + 7));
        assert((8 * k + 7) / 8 == k && (8 * k + 7) % 8 == 7);
        lemma_byte_from_bits(b1[k], b2[k]);
    }
    assert(b1 =~= b2);
}

/// Bytes of one length that spell the same number are the same bytes.
proof fn lemma_le_value_injective(a: Seq<u8>, b: Seq<u8>)
    requires
        a.len() == b.len(),
        le_value(a) == le_value(b),
    ensures
        a == b,
    decreases a.len(),
{
    if a.len() > 0 {
        let x = le_value(a.drop_first());
        let y = le_value(b.drop_first());
        assert(a[0] == b[0] && x == y);
        lemma_le_value_injective(a.drop_first(), b.drop_first());
        assert forall|i: int| 0 <= i < a.len() implies a[i] == b[i] by {
            if i > 0 {
                assert(a[i] == a.drop_first()[i - 1]);
                assert(b[i] == b.drop_first()[i - 1]);
            }
        }
    }
    assert(a =~= b);
}

/// The page file of a body is fixed by the body: two files that both hold
/// `v` as `page_file` describes are the same bytes. What `PageWriter::write`
/// returns therefore depends on the page's body alone, and not on its
/// metadata (its id, path or offset).
pub proof fn lemma_page_file_determined(v: PageDataView, f1: Seq<u8>, f2: Seq<u8>)
    requires
        layout_ok(v),
        page_file(v, f1),
        page_file(v, f2),
    ensures
        f1 == f2,
{
    let n = v.nulls.len();
    let nb = bitmap_len(n) as int;
    let ob = offsets_len(v.typ, n) as int;
    lemma_le_value_injective(f1.subrange(0, 8), f2.subrange(0, 8));
    let m1 = f1.subrange(8, 8 + nb);
    let m2 = f2.subrange(8, 8 + nb);
    assert forall|i: int| 0 <= i < 8 * m1.len() implies bit_of(m1, i) == bit_of(m2, i) by {
        if i < n {
            assert(bit_of(m1, i) == v.nulls[i]);
            assert(bit_of(m2, i) == v.nulls[i]);
        } else {
            assert(!bit_of(m1, i) && !bit_of(m2, i));
        }
    }
    lemma_bytes_from_bits(m1, m2);
    let t1 = f1.subrange(8 + nb, 8 + nb + ob);
    let t2 = f2.subrange(8 + nb, 8 + nb + ob);
    assert forall|k: int| 0 <= k < ob / 8 implies #[trigger] word_at(t1, k) == word_at(t2, k)
        && t1.subrange(8 * k, 8 * k + 8) == t2.subrange(8 * k, 8 * k + 8) by {
        assert(word_at(t1, k) == v.offsets[k] && word_at(t2, k) == v.offsets[k]);
        lemma_le_value_injective(t1.subrange(8 * k, 8 * k + 8), t2.subrange(8 * k, 8 * k + 8));
    }
    assert forall|i: int| 0 <= i < ob implies t1[i] == t2[i] by {
        let k = i / 8;
        assert(word_at(t1, k) == word_at(t2, k));
        assert(t1.subrange(8 * k, 8 * k + 8)[i - 8 * k] == t1[i]);
        assert(t2.subrange(8 * k, 8 * k + 8)[i - 8 * k] == t2[i]);
    }
    assert(f1.subrange(8 + nb + ob, f1.len() as int).len() == f2.subrange(
        8 + nb + ob,
        f2.len() as int,
    ).len());
    assert(f1.len() == f2.len());
    assert forall|i: int| 0 <= i < f1.len() implies f1[i] == f2[i] by {
        if i < 8 {
            assert(f1.subrange(0, 8)[i] == f2.subrange(0, 8)[i]);
        } else if i < 8 + nb {
            assert(m1[i - 8] == m2[i - 8]);
        } else if i < 8 + nb + ob {
            assert(t1[i - 8 - nb] == t2[i - 8 - nb]);
        } else {
            assert(f1.subrange(8 + nb + ob, f1.len() as int)[i - 8 - nb - ob] == f2.subrange(
                8 + nb + ob,
                f2.len() as int,
            )[i - 8 - nb - ob]);
        }
    }
    assert(f1 =~= f2);
}

/// Reading what the writer wrote gives back the page: its body, with the
/// metadata's type and row count, for every type and every row count,
/// zero and all-null pages included.
pub proof fn lemma_persistence_round_trip(p: Page, f: Seq<u8>)
    requires
        p.wf(),
        page_file(p.data@, f),
    ensures
        parse_page_file(p.meta.typ, p.meta.size as nat, f) == Ok::<_, PageError>(p.data@),
{
    let v = p.data@;
    let n = v.nulls.len();
    let nb = bitmap_len(n) as int;
    let ob = offsets_len(v.typ, n) as int;
    let words = offset_words(f, nb, ob);
    assert(words.len() == v.offsets.len());
    assert forall|i: int| 0 <= i < words.len() implies words[i] == v.offsets[i] as nat by {}
    assert(words_fit(words));
    let w = PageDataView {
        typ: p.meta.typ,
        nulls: Seq::new(n as nat, |i: int| bit_of(f.subrange(8, 8 + nb), i)),
        offsets: words.map_values(|x: nat| x as usize),
        bytes: v.bytes,
    };
    assert(w.nulls =~= v.nulls);
    assert(w.offsets =~= v.offsets);
    assert(w == v);
}

} // verus!
