use std::collections::HashMap;

use colstore::Collection;
use colstore::Page;
use colstore::PageCache;
use colstore::PageData;
use colstore::PageError;
use colstore::PageMeta;
use colstore::PageWriter;

struct Store {
    files: HashMap<String, Vec<u8>>,
}

impl Store {
    fn new() -> Store {
        Store { files: HashMap::new() }
    }

    fn write(&mut self, path: &str, offset: usize, data: PageData) -> PageMeta {
        let meta = PageMeta::new(data.typ(), path, offset, data.len());
        let file = PageWriter::write(&Page::new(&meta, data)).unwrap();
        self.files.insert(path.to_string(), file);
        meta
    }

    fn load(&self, meta: &PageMeta) -> Result<Vec<u8>, PageError> {
        self.files.get(&meta.path).cloned().ok_or(PageError::Io("missing".to_string()))
    }
}

fn int_collection(store: &mut Store) -> Collection {
    let a = store.write("int_1", 0, PageData::from_ints(&[Some(2), None, Some(4)]));
    let b = store.write("int_2", 3, PageData::from_ints(&[None, Some(6), None]));
    Collection::new(vec![a, b]).unwrap()
}

#[test]
fn collection_addressing_two_pages() {
    let mut store = Store::new();
    let c = int_collection(&mut store);
    let load = |m: &PageMeta| store.load(m);
    let mut cache = PageCache::new();
    let expected = [Some(2), None, Some(4), None, Some(6), None];
    assert_eq!(c.size(), 6);
    for (i, v) in expected.iter().enumerate() {
        assert_eq!(c.get_int(&mut cache, i, &load), Ok(*v));
    }
    assert_eq!(c.locate(2), Ok((0, 0)));
    assert_eq!(c.locate(3), Ok((1, 3)));
    let (page, start) = c.find_page(&mut cache, 2, &load).unwrap();
    assert_eq!(start, 0);
    assert_eq!(page.meta.path, "int_1");
    let (page, start) = c.find_page(&mut cache, 3, &load).unwrap();
    assert_eq!(start, 3);
    assert_eq!(page.meta.path, "int_2");
}

#[test]
fn uneven_page_sizes_resolve() {
    let mut store = Store::new();
    let a = store.write("u1", 0, PageData::from_ints(&[Some(1)]));
    let b = store.write("u2", 1, PageData::from_ints(&[]));
    let c2 = store.write("u3", 1, PageData::from_ints(&[Some(2), Some(3), Some(4)]));
    let d = store.write("u4", 4, PageData::from_ints(&[Some(5), None]));
    let c = Collection::new(vec![a, b, c2, d]).unwrap();
    let load = |m: &PageMeta| store.load(m);
    let mut cache = PageCache::new();
    let expected = [Some(1), Some(2), Some(3), Some(4), Some(5), None];
    assert_eq!(c.size(), 6);
    for (i, v) in expected.iter().enumerate() {
        assert_eq!(c.get_int(&mut cache, i, &load), Ok(*v));
    }
    assert_eq!(c.locate(1), Ok((2, 1)));
    assert_eq!(c.locate(4), Ok((3, 4)));
}

#[test]
fn iteration_matches_random_access() {
    let mut store = Store::new();
    let c = int_collection(&mut store);
    let load = |m: &PageMeta| store.load(m);
    let mut cache = PageCache::new();
    let mut scanned = vec![];
    let mut it = c.int_iter();
    while let Some(v) = it.next(&mut cache, &load) {
        scanned.push(v);
    }
    let direct: Vec<_> = (0..c.size()).map(|i| c.get_int(&mut cache, i, &load)).collect();
    assert_eq!(scanned, direct);
    assert_eq!(scanned.len(), 6);
    assert!(it.next(&mut cache, &load).is_none());
    let mut again = c.int_iter();
    assert_eq!(again.next(&mut cache, &load), Some(Ok(Some(2))));
}

#[test]
fn bool_float_string_collections() {
    let mut store = Store::new();
    let a = store.write("bool_1", 0, PageData::from_bools(&[Some(true), None, Some(true)]));
    let b = store.write("bool_2", 3, PageData::from_bools(&[None, Some(false), Some(false)]));
    let bools = Collection::new(vec![a, b]).unwrap();
    let f1 = store.write("float_1", 0, PageData::from_floats(&[Some(1.2f64.to_bits()), None, Some(4.5f64.to_bits())]));
    let f2 = store.write("float_2", 3, PageData::from_floats(&[None, Some((-6.1f64).to_bits()), None]));
    let floats = Collection::new(vec![f1, f2]).unwrap();
    let s1 = store.write("string_1", 0, PageData::from_strings(&[Some("abc"), None, Some("def")]));
    let s2 = store.write("string_2", 3, PageData::from_strings(&[None, Some(""), None]));
    let strings = Collection::new(vec![s1, s2]).unwrap();
    let load = |m: &PageMeta| store.load(m);
    let mut cache = PageCache::new();

    let mut got = vec![];
    let mut it = bools.bool_iter();
    while let Some(v) = it.next(&mut cache, &load) {
        got.push(v.unwrap());
    }
    assert_eq!(got, vec![Some(true), None, Some(true), None, Some(false), Some(false)]);

    let mut got = vec![];
    let mut it = floats.float_iter();
    while let Some(v) = it.next(&mut cache, &load) {
        got.push(v.unwrap().map(f64::from_bits));
    }
    assert_eq!(got, vec![Some(1.2), None, Some(4.5), None, Some(-6.1), None]);

    let mut got = vec![];
    let mut it = strings.string_iter();
    while let Some(v) = it.next(&mut cache, &load) {
        got.push(v.unwrap());
    }
    assert_eq!(
        got,
        vec![Some("abc".to_string()), None, Some("def".to_string()), None, Some(String::new()), None]
    );
    assert_eq!(strings.get_string(&mut cache, 2, &load), Ok(Some("def".to_string())));
    assert_eq!(bools.get_bool(&mut cache, 4, &load), Ok(Some(false)));
    assert_eq!(floats.get_float(&mut cache, 0, &load), Ok(Some(1.2f64.to_bits())));
}

#[test]
fn heterogeneous_pages_are_rejected() {
    let mut store = Store::new();
    let a = store.write("h1", 0, PageData::from_bools(&[Some(true)]));
    let b = store.write("h2", 1, PageData::from_ints(&[Some(1)]));
    assert_eq!(Collection::new(vec![a, b]).err(), Some(PageError::HeterogeneousType));
}

#[test]
fn out_of_range_rows() {
    let mut store = Store::new();
    let c = int_collection(&mut store);
    let load = |m: &PageMeta| store.load(m);
    let mut cache = PageCache::new();
    let size = c.size();
    assert_eq!(c.get_int(&mut cache, size, &load), Err(PageError::IndexOutOfRange));
    assert_eq!(c.get_int(&mut cache, size + 1, &load), Err(PageError::IndexOutOfRange));
    assert!(c.get_int(&mut cache, size - 1, &load).is_ok());
    assert_eq!(c.locate(size), Err(PageError::IndexOutOfRange));
    assert!(c.find_page(&mut cache, size, &load).is_err());
}

#[test]
fn wrong_accessor_is_a_type_mismatch() {
    let mut store = Store::new();
    let c = int_collection(&mut store);
    let load = |m: &PageMeta| store.load(m);
    let mut cache = PageCache::new();
    assert_eq!(c.get_bool(&mut cache, 0, &load), Err(PageError::TypeMismatch));
    assert_eq!(c.get_string(&mut cache, 0, &load), Err(PageError::TypeMismatch));
    assert_eq!(c.get_float(&mut cache, 0, &load), Err(PageError::TypeMismatch));
}

#[test]
fn missing_file_surfaces_io_error() {
    let mut store = Store::new();
    let c = int_collection(&mut store);
    store.files.remove("int_2");
    let load = |m: &PageMeta| store.load(m);
    let mut cache = PageCache::new();
    assert_eq!(c.get_int(&mut cache, 0, &load), Ok(Some(2)));
    assert_eq!(c.get_int(&mut cache, 4, &load), Err(PageError::Io("missing".to_string())));
}

#[test]
fn collections_sharing_a_cache_do_not_collide() {
    let mut store = Store::new();
    let c1 = int_collection(&mut store);
    let x = store.write("other", 0, PageData::from_ints(&[Some(40), Some(41), Some(42)]));
    let c2 = Collection::new(vec![x]).unwrap();
    assert_ne!(c1.id(), c2.id());
    let load = |m: &PageMeta| store.load(m);
    let mut cache = PageCache::new();
    assert_eq!(c1.get_int(&mut cache, 0, &load), Ok(Some(2)));
    assert_eq!(c2.get_int(&mut cache, 0, &load), Ok(Some(40)));
    assert_eq!(c1.page_count(), 2);
}
