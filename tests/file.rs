use colstore::Page;
use colstore::PageData;
use colstore::PageError;
use colstore::PageMeta;
use colstore::PageReader;
use colstore::PageWriter;
use colstore::Type;

fn same_body(a: &PageData, b: &PageData) {
    assert_eq!(a.typ(), b.typ());
    assert_eq!(a.nulls(), b.nulls());
    assert_eq!(a.offsets(), b.offsets());
    assert_eq!(a.bytes(), b.bytes());
}

fn round_trip(data: PageData) {
    let meta = PageMeta::new(data.typ(), "page", 0, data.len());
    let page = Page::new(&meta, data);
    let file = PageWriter::write(&page).unwrap();
    let back = PageReader::read(&meta, &file).unwrap();
    assert_eq!(back.meta.id, meta.id);
    assert_eq!(back.meta.path, meta.path);
    assert_eq!(back.meta.size, meta.size);
    assert_eq!(back.meta.typ, meta.typ);
    same_body(&back.data, &page.data);
}

#[test]
fn persistence_round_trip_every_type() {
    round_trip(PageData::from_bools(&[Some(true), None, Some(true)]));
    round_trip(PageData::from_ints(&[Some(2), None, Some(4)]));
    round_trip(PageData::from_floats(&[Some(1.2f64.to_bits()), None, Some((-6.1f64).to_bits())]));
    round_trip(PageData::from_strings(&[Some("abc"), None, Some("")]));
}

#[test]
fn persistence_round_trip_empty_and_all_null() {
    round_trip(PageData::from_bools(&[]));
    round_trip(PageData::from_ints(&[]));
    round_trip(PageData::from_strings(&[]));
    round_trip(PageData::from_ints(&[None, None, None, None]));
    round_trip(PageData::from_strings(&[None, None]));
    round_trip(PageData::from_bools(&[None; 9]));
}

#[test]
fn file_layout_header_bitmap_offsets() {
    let data = PageData::from_strings(&[Some("ab"), None]);
    let meta = PageMeta::new(Type::String, "s", 0, 2);
    let file = PageWriter::write(&Page::new(&meta, data)).unwrap();
    assert_eq!(&file[0..8], &[1u8, 0, 0, 0, 0, 0, 0, 0]);
    assert_eq!(file[8], 0b10);
    assert_eq!(&file[9..17], &[0u8; 8]);
    assert_eq!(&file[17..25], &[2u8, 0, 0, 0, 0, 0, 0, 0]);
    assert_eq!(&file[25..33], &[2u8, 0, 0, 0, 0, 0, 0, 0]);
    // the value buffer follows as a Snappy frame stream, not as raw bytes
    assert_ne!(&file[33..], b"ab");
    assert!(file.len() > 33 + 2);
}

#[test]
fn truncated_file_is_corrupt() {
    let data = PageData::from_ints(&[Some(1), Some(2)]);
    let meta = PageMeta::new(Type::Int, "i", 0, 2);
    let file = PageWriter::write(&Page::new(&meta, data)).unwrap();
    assert_eq!(PageReader::read(&meta, &file[..5]).err(), Some(PageError::CorruptPage));
    assert_eq!(PageReader::read(&meta, &file[..file.len() - 1]).err(), Some(PageError::CorruptPage));
    assert_eq!(PageReader::read(&meta, &[]).err(), Some(PageError::CorruptPage));
}

#[test]
fn wrong_bitmap_length_is_corrupt() {
    let data = PageData::from_ints(&[Some(1), Some(2)]);
    let meta = PageMeta::new(Type::Int, "i", 0, 2);
    let mut file = PageWriter::write(&Page::new(&meta, data)).unwrap();
    file[0] = 2;
    assert_eq!(PageReader::read(&meta, &file).err(), Some(PageError::CorruptPage));
}

#[test]
fn meta_with_other_row_count_is_corrupt() {
    let data = PageData::from_ints(&[Some(1), Some(2)]);
    let meta = PageMeta::new(Type::Int, "i", 0, 2);
    let file = PageWriter::write(&Page::new(&meta, data)).unwrap();
    let other = PageMeta::new(Type::Int, "i", 0, 3);
    assert_eq!(PageReader::read(&other, &file).err(), Some(PageError::CorruptPage));
}

#[test]
fn garbage_blob_is_corrupt() {
    let mut file = vec![0u8; 9];
    file[0] = 1;
    file.extend_from_slice(b"not a snappy stream");
    let meta = PageMeta::new(Type::Int, "i", 0, 1);
    assert_eq!(PageReader::read(&meta, &file).err(), Some(PageError::CorruptPage));
}

#[test]
fn fresh_ids_differ() {
    let a = PageMeta::new(Type::Int, "a", 0, 1);
    let b = PageMeta::new(Type::Int, "a", 0, 1);
    assert_ne!(a.id, b.id);
    assert_eq!(a.path, "a");
    assert_eq!(a.offset, 0);
}

#[test]
fn writing_ignores_metadata() {
    let values = [Some(1), None, Some(3)];
    let m1 = PageMeta::new(Type::Int, "one", 0, 3);
    let m2 = PageMeta::new(Type::Int, "two", 3, 3);
    let f1 = PageWriter::write(&Page::new(&m1, PageData::from_ints(&values))).unwrap();
    let f2 = PageWriter::write(&Page::new(&m2, PageData::from_ints(&values))).unwrap();
    assert_eq!(f1, f2);
}

#[test]
fn bitmap_padding_is_clear() {
    let data = PageData::from_bools(&[None, Some(true), None, None, None, None, None, None, None, None, Some(false)]);
    let meta = PageMeta::new(Type::Bool, "b", 0, 11);
    let file = PageWriter::write(&Page::new(&meta, data)).unwrap();
    assert_eq!(&file[0..8], &[2u8, 0, 0, 0, 0, 0, 0, 0]);
    assert_eq!(file[8], 0b1111_1101);
    assert_eq!(file[9], 0b0000_0011);
}
