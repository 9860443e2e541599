use std::cell::Cell;
use std::collections::HashMap;

use colstore::Page;
use colstore::PageCache;
use colstore::PageData;
use colstore::PageError;
use colstore::PageMeta;
use colstore::PageWriter;
use colstore::Type;

fn int_page(path: &str, values: &[Option<i64>], files: &mut HashMap<String, Vec<u8>>) -> PageMeta {
    let data = PageData::from_ints(values);
    let meta = PageMeta::new(Type::Int, path, 0, data.len());
    files.insert(path.to_string(), PageWriter::write(&Page::new(&meta, data)).unwrap());
    meta
}

#[test]
fn hit_does_not_reload() {
    let mut files = HashMap::new();
    let meta = int_page("p", &[Some(1), Some(2)], &mut files);
    let loads = Cell::new(0);
    let load = |m: &PageMeta| {
        loads.set(loads.get() + 1);
        files.get(&m.path).cloned().ok_or(PageError::Io("missing".to_string()))
    };
    let mut cache = PageCache::new();
    let key = (7u128, 0usize);
    assert!(!cache.contains(&key));
    assert_eq!(cache.get(&key, &meta, &load).unwrap().get_int(1), Ok(Some(2)));
    assert_eq!(cache.get(&key, &meta, &load).unwrap().get_int(0), Ok(Some(1)));
    assert_eq!(loads.get(), 1);
    assert!(cache.contains(&key));
}

#[test]
fn least_recently_used_is_evicted() {
    let cap = 3;
    let mut files = HashMap::new();
    let metas: Vec<PageMeta> = (0..=cap)
        .map(|i| int_page(&format!("p{}", i), &[Some(i as i64)], &mut files))
        .collect();
    let loads = Cell::new(0);
    let load = |m: &PageMeta| {
        loads.set(loads.get() + 1);
        files.get(&m.path).cloned().ok_or(PageError::Io("missing".to_string()))
    };
    let mut cache = PageCache::with_capacity(cap);
    for (i, meta) in metas.iter().enumerate() {
        let page = cache.get(&(1, i), meta, &load).unwrap();
        assert_eq!(page.get_int(0), Ok(Some(i as i64)));
    }
    assert_eq!(loads.get(), cap + 1);
    assert!(!cache.contains(&(1, 0)));
    for i in 1..=cap {
        assert!(cache.contains(&(1, i)));
    }
    for i in 1..=cap {
        cache.get(&(1, i), &metas[i], &load).unwrap();
    }
    assert_eq!(loads.get(), cap + 1);
    cache.get(&(1, 0), &metas[0], &load).unwrap();
    assert_eq!(loads.get(), cap + 2);
}

#[test]
fn access_refreshes_recency() {
    let mut files = HashMap::new();
    let metas: Vec<PageMeta> = (0..3).map(|i| int_page(&format!("q{}", i), &[Some(i)], &mut files)).collect();
    let load = |m: &PageMeta| files.get(&m.path).cloned().ok_or(PageError::Io("missing".to_string()));
    let mut cache = PageCache::with_capacity(2);
    cache.get(&(2, 0), &metas[0], &load).unwrap();
    cache.get(&(2, 1), &metas[1], &load).unwrap();
    cache.get(&(2, 0), &metas[0], &load).unwrap();
    cache.get(&(2, 2), &metas[2], &load).unwrap();
    assert!(cache.contains(&(2, 0)));
    assert!(!cache.contains(&(2, 1)));
    assert!(cache.contains(&(2, 2)));
}

#[test]
fn failed_load_is_not_cached() {
    let mut files = HashMap::new();
    let meta = int_page("r", &[Some(5)], &mut files);
    let fail = Cell::new(true);
    let load = |m: &PageMeta| {
        if fail.get() {
            Err(PageError::Io("unreadable".to_string()))
        } else {
            files.get(&m.path).cloned().ok_or(PageError::Io("missing".to_string()))
        }
    };
    let mut cache = PageCache::new();
    assert_eq!(cache.get(&(3, 0), &meta, &load).err(), Some(PageError::Io("unreadable".to_string())));
    assert!(!cache.contains(&(3, 0)));
    fail.set(false);
    assert_eq!(cache.get(&(3, 0), &meta, &load).unwrap().get_int(0), Ok(Some(5)));
}

#[test]
fn corrupt_file_is_not_cached() {
    let meta = PageMeta::new(Type::Int, "bad", 0, 1);
    let load = |_: &PageMeta| Ok(vec![1u8, 2, 3]);
    let mut cache = PageCache::new();
    assert_eq!(cache.get(&(4, 0), &meta, &load).err(), Some(PageError::CorruptPage));
    assert!(!cache.contains(&(4, 0)));
}
