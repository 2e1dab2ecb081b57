use crcns_lens::cache::same_collection;
use crcns_lens::store::CacheImage;
use crcns_lens::types::crcns::{dataset_directory, reconcile_collection, reconcile_dataset};
use crcns_lens::types::{Collection, Dataset, CRCNS};

fn dataset(alias: &str, stamp: &str) -> Dataset {
    Dataset {
        url: format!("https://crcns.org/data-sets/hc/{alias}"),
        html: String::from("<html></html>"),
        alias: String::from(alias),
        content: format!("content of {alias} at {stamp}"),
        description: String::from("d"),
        last_modified: String::from(stamp),
    }
}

fn collection(alias: &str, stamp: &str, datasets: Vec<Dataset>) -> Collection {
    Collection {
        url: format!("https://crcns.org/data-sets/{alias}"),
        html: String::from("<html></html>"),
        alias: String::from(alias),
        descriptor: format!("{alias} at {stamp}"),
        last_modified: String::from(stamp),
        datasets,
    }
}

fn content(store: &CacheImage, path: &str) -> Vec<u8> {
    store.get(path).unwrap().clone().unwrap()
}

#[test]
fn the_directory_of_a_dataset_follows_its_address() {
    assert_eq!(
        dataset_directory("/w/data", "https://crcns.org/data-sets/hc/hc-3"),
        Some(String::from("/w/data/hc/hc-3"))
    );
    assert_eq!(dataset_directory("root", "https://crcns.org"), Some(String::from("root")));
    assert_eq!(dataset_directory("root", "https://crcns.org/only"), Some(String::from("root")));
    assert_eq!(dataset_directory("root", "not an address"), None);
    assert_eq!(dataset_directory("root", ""), None);
}

#[test]
fn newer_in_memory_overwrites_the_cache() {
    let cached = dataset("hc-3", "2020-01-01");
    let memory = dataset("hc-3", "2023-01-01");
    let mut store = CacheImage::new();
    store.load(String::from("root/hc/hc-3/ds.bin"), Some(cached.persist().unwrap()));
    let r = reconcile_dataset(&memory, "root", &mut store);
    assert!(r.is_none());
    assert_eq!(store.written, vec!["root/hc/hc-3/ds.bin"]);
    assert_eq!(content(&store, "root/hc/hc-3/ds.bin"), memory.persist().unwrap());
}

#[test]
fn newer_in_the_cache_replaces_what_is_in_memory() {
    let cached = dataset("hc-3", "2023-01-01");
    let memory = dataset("hc-3", "2020-01-01");
    let mut store = CacheImage::new();
    store.load(String::from("root/hc/hc-3/ds.bin"), Some(cached.persist().unwrap()));
    let r = reconcile_dataset(&memory, "root", &mut store).unwrap();
    assert_eq!(r.last_modified, "2023-01-01");
    assert_eq!(r.content, cached.content);
    assert_eq!(store.written.len(), 0);
    assert_eq!(content(&store, "root/hc/hc-3/ds.bin"), cached.persist().unwrap());
}

#[test]
fn the_cache_wins_on_a_tie() {
    let mut cached = dataset("hc-3", "2021");
    cached.content = String::from("from the cache");
    let memory = dataset("hc-3", "2021");
    let mut store = CacheImage::new();
    store.load(String::from("root/hc/hc-3/ds.bin"), Some(cached.persist().unwrap()));
    let r = reconcile_dataset(&memory, "root", &mut store).unwrap();
    assert_eq!(r.content, "from the cache");
    assert_eq!(store.written.len(), 0);
}

#[test]
fn what_is_not_cached_is_written() {
    let memory = dataset("hc-3", "2020-01-01");
    let mut store = CacheImage::new();
    assert!(reconcile_dataset(&memory, "root", &mut store).is_none());
    assert_eq!(store.written, vec!["root/hc/hc-3/ds.bin"]);
    assert_eq!(content(&store, "root/hc/hc-3/ds.bin"), memory.persist().unwrap());
}

#[test]
fn a_damaged_or_unreadable_cache_file_counts_as_none() {
    let memory = dataset("hc-3", "2020-01-01");
    let mut store = CacheImage::new();
    store.load(String::from("root/hc/hc-3/ds.bin"), Some(vec![7, 7, 7]));
    assert!(reconcile_dataset(&memory, "root", &mut store).is_none());
    assert_eq!(content(&store, "root/hc/hc-3/ds.bin"), memory.persist().unwrap());
    let mut store = CacheImage::new();
    store.load(String::from("root/hc/hc-3/ds.bin"), None);
    assert!(reconcile_dataset(&memory, "root", &mut store).is_none());
    assert_eq!(store.written, vec!["root/hc/hc-3/ds.bin"]);
}

#[test]
fn a_cached_sentinel_counts_as_no_cache() {
    let memory = dataset("hc-3", "2020-01-01");
    let mut store = CacheImage::new();
    let sentinel = Dataset::sentinel(String::from("9999"));
    store.load(String::from("root/hc/hc-3/ds.bin"), Some(sentinel.persist().unwrap()));
    assert!(reconcile_dataset(&memory, "root", &mut store).is_none());
    assert_eq!(content(&store, "root/hc/hc-3/ds.bin"), memory.persist().unwrap());
}

#[test]
fn a_dataset_without_an_address_is_left_alone() {
    let mut memory = dataset("hc-3", "2020-01-01");
    memory.url = String::new();
    let mut store = CacheImage::new();
    assert!(reconcile_dataset(&memory, "root", &mut store).is_none());
    assert_eq!(store.slots.len(), 0);
    assert_eq!(store.written.len(), 0);
}

#[test]
fn a_collection_is_reconciled_and_then_its_datasets() {
    let cached = collection("hc", "2023", vec![dataset("hc-1", "2020"), dataset("hc-2", "2020")]);
    let mut memory = collection("hc", "2020", vec![dataset("hc-9", "2020")]);
    let mut store = CacheImage::new();
    store.load(String::from("root/hc/ds.bin"), Some(cached.persist().unwrap()));
    store.load(String::from("root/hc/hc-2/ds.bin"), Some(dataset("hc-2", "2024").persist().unwrap()));
    reconcile_collection(&mut memory, "root", &mut store);
    assert_eq!(memory.descriptor, "hc at 2023");
    assert_eq!(memory.datasets.len(), 2);
    assert_eq!(memory.datasets[0].alias, "hc-1");
    assert_eq!(memory.datasets[0].last_modified, "2020");
    assert_eq!(memory.datasets[1].alias, "hc-2");
    assert_eq!(memory.datasets[1].last_modified, "2024");
    assert_eq!(store.written, vec!["root/hc/hc-1/ds.bin"]);
}

#[test]
fn a_newer_collection_is_written_with_its_datasets() {
    let mut memory = collection("hc", "2023", vec![dataset("hc-1", "2020")]);
    let expected = memory.persist().unwrap();
    let mut store = CacheImage::new();
    store.load(String::from("root/hc/ds.bin"), Some(collection("hc", "2020", Vec::new()).persist().unwrap()));
    reconcile_collection(&mut memory, "root", &mut store);
    assert_eq!(memory.descriptor, "hc at 2023");
    assert_eq!(memory.datasets.len(), 1);
    assert_eq!(store.written, vec!["root/hc/ds.bin", "root/hc/hc-1/ds.bin"]);
    assert_eq!(content(&store, "root/hc/ds.bin"), expected);
}

#[test]
fn every_collection_of_the_catalog_is_reconciled() {
    let mut catalog = vec![
        collection("hc", "2020", vec![dataset("hc-1", "2020")]),
        collection("pfc", "2020", Vec::new()),
    ];
    let mut store = CacheImage::new();
    store.load(String::from("root/pfc/ds.bin"), Some(collection("pfc", "2021", Vec::new()).persist().unwrap()));
    CRCNS::persist(&mut catalog, "root", &mut store);
    assert_eq!(catalog.len(), 2);
    assert_eq!(catalog[0].descriptor, "hc at 2020");
    assert_eq!(catalog[1].descriptor, "pfc at 2021");
    assert_eq!(store.written, vec!["root/hc/ds.bin", "root/hc/hc-1/ds.bin"]);
}

#[test]
fn the_catalog_takes_each_alias_once() {
    let mut catalog: Vec<Collection> = Vec::new();
    assert!(CRCNS::add(&mut catalog, collection("hc", "2020", Vec::new())));
    assert!(CRCNS::add(&mut catalog, collection("pfc", "2020", Vec::new())));
    assert!(!CRCNS::add(&mut catalog, collection("hc", "2023", Vec::new())));
    assert_eq!(catalog.len(), 2);
    assert_eq!(catalog[0].last_modified, "2020");
}

#[test]
fn the_store_keeps_the_last_content_of_a_path() {
    let mut store = CacheImage::new();
    assert!(store.get("a").is_none());
    store.load(String::from("a"), Some(vec![1]));
    store.load(String::from("b"), None);
    store.put(String::from("a"), vec![2, 3]);
    store.put(String::from("c"), vec![4]);
    assert_eq!(store.get("a"), Some(&Some(vec![2, 3])));
    assert_eq!(store.get("b"), Some(&None));
    assert_eq!(store.get("c"), Some(&Some(vec![4])));
    assert_eq!(store.slots.len(), 3);
    assert_eq!(store.written, vec!["a", "c"]);
}

#[test]
fn a_dataset_goes_to_the_collection_with_the_alias() {
    let mut catalog = vec![collection("hc", "2020", Vec::new()), collection("pfc", "2020", Vec::new())];
    assert_eq!(CRCNS::find(&catalog, "pfc"), 1);
    assert_eq!(CRCNS::find(&catalog, "none"), 2);
    assert!(CRCNS::attach(&mut catalog, "pfc", dataset("pfc-1", "a")));
    assert!(!CRCNS::attach(&mut catalog, "pfc", dataset("pfc-1", "b")));
    assert!(!CRCNS::attach(&mut catalog, "none", dataset("x", "a")));
    assert_eq!(catalog[0].datasets.len(), 0);
    assert_eq!(catalog[1].datasets.len(), 1);
    assert_eq!(catalog[1].datasets[0].last_modified, "a");
}

#[test]
fn persisted_entries_are_taken_into_the_catalog() {
    let cached = collection("hc", "2020", vec![dataset("hc-1", "in the collection")]);
    let blob = cached.persist().unwrap();
    let files = vec![
        Some(dataset("hc-1", "in its own file").persist().unwrap()),
        None,
        Some(vec![1, 2, 3]),
        Some(dataset("hc-2", "2021").persist().unwrap()),
        Some(Dataset::sentinel(String::from("x")).persist().unwrap()),
    ];
    let mut catalog: Vec<Collection> = Vec::new();
    assert!(CRCNS::load_persisted(&mut catalog, Some(&blob), &files));
    assert_eq!(catalog.len(), 1);
    assert_eq!(catalog[0].alias, "hc");
    assert_eq!(catalog[0].datasets.len(), 2);
    assert_eq!(catalog[0].datasets[0].last_modified, "in the collection");
    assert_eq!(catalog[0].datasets[1].alias, "hc-2");
    assert!(!CRCNS::load_persisted(&mut catalog, Some(&blob), &files));
    assert!(!CRCNS::load_persisted(&mut catalog, None, &files));
    assert!(!CRCNS::load_persisted(&mut catalog, Some(&[9, 9]), &files));
    let sentinel = Collection::sentinel(String::from("x")).persist().unwrap();
    assert!(!CRCNS::load_persisted(&mut catalog, Some(&sentinel), &Vec::new()));
    assert_eq!(catalog.len(), 1);
}

fn slots(store: &CacheImage) -> Vec<(String, Option<Vec<u8>>)> {
    store.slots.iter().map(|s| (s.path.clone(), s.content.clone())).collect()
}

#[test]
fn a_second_reconciliation_changes_nothing() {
    let mut catalog = vec![
        collection("hc", "2020", vec![dataset("hc-1", "2020"), dataset("hc-2", "2021")]),
        collection("pfc", "2020", vec![dataset("pfc-1", "2019")]),
        collection("ret", "2022", Vec::new()),
    ];
    catalog[1].datasets[0].url = String::from("https://crcns.org/data-sets/pfc/pfc-1");
    let mut store = CacheImage::new();
    let mut cached = collection("pfc", "2021", vec![dataset("pfc-1", "2018")]);
    cached.datasets[0].url = String::from("https://crcns.org/data-sets/pfc/pfc-1");
    store.load(String::from("root/pfc/ds.bin"), Some(cached.persist().unwrap()));
    store.load(String::from("root/hc/hc-2/ds.bin"), Some(dataset("hc-2", "2022").persist().unwrap()));
    store.load(String::from("root/ret/ds.bin"), Some(vec![1, 2, 3]));
    CRCNS::persist(&mut catalog, "root", &mut store);
    let once: Vec<Collection> = catalog.clone();
    let image = slots(&store);
    let written = store.written.clone();
    assert_eq!(written.len(), 4);
    CRCNS::persist(&mut catalog, "root", &mut store);
    assert_eq!(catalog.len(), once.len());
    for (a, b) in catalog.iter().zip(once.iter()) {
        assert!(same_collection(a, b));
    }
    assert_eq!(slots(&store), image);
    assert_eq!(store.written, written);
}

#[test]
fn two_datasets_with_one_address_do_not_settle() {
    let older = dataset("hc-1", "1");
    let mut newer = dataset("hc-1", "2");
    newer.content = String::from("newer");
    let mut datasets = vec![older, newer];
    let mut store = CacheImage::new();
    crcns_lens::types::crcns::reconcile_datasets(&mut datasets, "root", &mut store);
    assert_eq!(datasets[0].last_modified, "1");
    assert_eq!(datasets[1].last_modified, "2");
    crcns_lens::types::crcns::reconcile_datasets(&mut datasets, "root", &mut store);
    assert_eq!(datasets[0].last_modified, "2");
    assert_eq!(datasets[1].last_modified, "2");
}

#[test]
fn the_result_says_whether_the_cache_took_the_place() {
    let memory = dataset("hc-3", "2021");
    let mut store = CacheImage::new();
    store.load(String::from("root/hc/hc-3/ds.bin"), Some(memory.persist().unwrap()));
    let r = reconcile_dataset(&memory, "root", &mut store);
    assert!(r.is_some());
    let mut store = CacheImage::new();
    assert!(reconcile_dataset(&memory, "root", &mut store).is_none());
}
