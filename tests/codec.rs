use colstore::PageData;
use colstore::PageError;
use colstore::Type;

#[test]
fn bools_round_trip() {
    let values = [Some(true), None, Some(false), Some(true), None, None, Some(true), Some(false), Some(true)];
    let data = PageData::from_bools(&values);
    assert_eq!(data.typ(), Type::Bool);
    assert_eq!(data.len(), values.len());
    for (i, v) in values.iter().enumerate() {
        assert_eq!(data.get_bool(i), Ok(*v));
    }
}

#[test]
fn bools_pack_one_bit_per_row() {
    let data = PageData::from_bools(&[Some(true), None, Some(true), Some(false), Some(false), Some(false), Some(false), Some(false), Some(true)]);
    assert_eq!(data.bytes().len(), 2);
    assert_eq!(data.bytes()[0], 0b0000_0101);
    assert_eq!(data.bytes()[1] & 1, 1);
    assert_eq!(data.nulls(), &vec![false, true, false, false, false, false, false, false, false]);
}

#[test]
fn ints_round_trip() {
    let values = [Some(2), None, Some(4), Some(-1), Some(i64::MIN), Some(i64::MAX), Some(0)];
    let data = PageData::from_ints(&values);
    for (i, v) in values.iter().enumerate() {
        assert_eq!(data.get_int(i), Ok(*v));
    }
}

#[test]
fn ints_are_little_endian_words() {
    let data = PageData::from_ints(&[Some(0x0102_0304_0506_0708), None, Some(-2)]);
    assert_eq!(data.bytes().len(), 24);
    assert_eq!(&data.bytes()[0..8], &[8u8, 7, 6, 5, 4, 3, 2, 1]);
    assert_eq!(&data.bytes()[8..16], &[0u8; 8]);
    assert_eq!(&data.bytes()[16..24], &[0xfeu8, 0xff, 0xff, 0xff, 0xff, 0xff, 0xff, 0xff]);
}

#[test]
fn floats_round_trip() {
    let values = [Some(1.2f64), None, Some(4.5), Some(-6.1), Some(0.0)];
    let bits: Vec<Option<u64>> = values.iter().map(|v| v.map(f64::to_bits)).collect();
    let data = PageData::from_floats(&bits);
    assert_eq!(data.typ(), Type::Float);
    for (i, v) in values.iter().enumerate() {
        assert_eq!(data.get_float(i).map(|o| o.map(f64::from_bits)), Ok(*v));
    }
    assert_eq!(&data.bytes()[0..8], &1.2f64.to_le_bytes());
}

#[test]
fn strings_round_trip() {
    let values = [Some("abc"), None, Some("def"), Some(""), Some("héllo")];
    let data = PageData::from_strings(&values);
    assert_eq!(data.offsets(), &vec![0, 3, 3, 6, 6, 12]);
    for (i, v) in values.iter().enumerate() {
        assert_eq!(data.get_string(i), Ok(v.map(|s| s.to_string())));
    }
}

#[test]
fn all_null_pages_round_trip() {
    let data = PageData::from_ints(&[None, None, None]);
    for i in 0..3 {
        assert_eq!(data.get_int(i), Ok(None));
    }
    let data = PageData::from_strings(&[None, None]);
    assert_eq!(data.offsets(), &vec![0, 0, 0]);
    assert_eq!(data.get_string(1), Ok(None));
    let data = PageData::from_bools(&[None]);
    assert_eq!(data.get_bool(0), Ok(None));
}

#[test]
fn empty_pages() {
    let data = PageData::from_ints(&[]);
    assert_eq!(data.len(), 0);
    assert_eq!(data.get_int(0), Err(PageError::IndexOutOfRange));
    let data = PageData::from_strings(&[]);
    assert_eq!(data.offsets(), &vec![0]);
}

#[test]
fn wrong_type_is_a_type_mismatch() {
    let data = PageData::from_ints(&[Some(1)]);
    assert_eq!(data.get_bool(0), Err(PageError::TypeMismatch));
    assert_eq!(data.get_float(0), Err(PageError::TypeMismatch));
    assert_eq!(data.get_string(0), Err(PageError::TypeMismatch));
    let data = PageData::from_bools(&[Some(true)]);
    assert_eq!(data.get_int(0), Err(PageError::TypeMismatch));
}

#[test]
fn past_the_end_is_out_of_range() {
    let data = PageData::from_bools(&[Some(true), Some(false)]);
    assert_eq!(data.get_bool(2), Err(PageError::IndexOutOfRange));
    let data = PageData::from_strings(&[Some("a")]);
    assert_eq!(data.get_string(1), Err(PageError::IndexOutOfRange));
}

#[test]
fn invalid_utf8_is_an_encoding_error() {
    let data = PageData::from_parts(Type::String, vec![false, false], vec![0, 2, 3], vec![0xc3, 0x28, b'a']).unwrap();
    assert_eq!(data.get_string(0), Err(PageError::Encoding));
    assert_eq!(data.get_string(1), Ok(Some("a".to_string())));
}

#[test]
fn mismatched_parts_are_corrupt() {
    assert!(PageData::from_parts(Type::Int, vec![false], vec![], vec![0; 7]).is_err());
    assert!(PageData::from_parts(Type::Bool, vec![false; 9], vec![], vec![0; 1]).is_err());
    assert!(PageData::from_parts(Type::String, vec![false], vec![0, 3, 2], vec![0; 2]).is_err());
    assert_eq!(PageData::from_parts(Type::String, vec![false], vec![1, 2], vec![0; 2]).err(), Some(PageError::CorruptPage));
}

#[test]
fn null_placeholders_are_never_read_ints() {
    let values = [Some(7), None, Some(9)];
    let data = PageData::from_ints(&values);
    let mut bytes = data.bytes().clone();
    for b in &mut bytes[8..16] {
        *b = 0xab;
    }
    let corrupted = PageData::from_parts(Type::Int, data.nulls().clone(), vec![], bytes).unwrap();
    for i in 0..3 {
        assert_eq!(corrupted.get_int(i), data.get_int(i));
    }
    assert_eq!(corrupted.get_int(1), Ok(None));
}

#[test]
fn null_placeholders_are_never_read_bools() {
    let data = PageData::from_bools(&[Some(false), None, Some(true)]);
    let mut bytes = data.bytes().clone();
    bytes[0] ^= 0b10;
    let corrupted = PageData::from_parts(Type::Bool, data.nulls().clone(), vec![], bytes).unwrap();
    for i in 0..3 {
        assert_eq!(corrupted.get_bool(i), data.get_bool(i));
    }
}

#[test]
fn null_placeholders_are_never_read_strings() {
    let data = PageData::from_strings(&[Some("ab"), None, Some("c")]);
    let corrupted = PageData::from_parts(
        Type::String,
        data.nulls().clone(),
        vec![0, 2, 4, 5],
        b"ab\xffZc".to_vec(),
    )
    .unwrap();
    for i in 0..3 {
        assert_eq!(corrupted.get_string(i), data.get_string(i));
    }
}
