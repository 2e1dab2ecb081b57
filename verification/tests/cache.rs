use crcns_lens::cache::{
    collection_from_blob, collection_to_blob, dataset_from_blob, dataset_to_blob, load_collection,
    load_dataset, same_collection,
};
use crcns_lens::types::{Collection, Dataset};

fn dataset(alias: &str, stamp: &str) -> Dataset {
    Dataset {
        url: format!("https://crcns.org/data-sets/hc/{alias}"),
        html: String::from("<html><body>é</body></html>"),
        alias: String::from(alias),
        content: String::from("content"),
        description: String::from("description"),
        last_modified: String::from(stamp),
    }
}

fn collection(alias: &str, stamp: &str, datasets: Vec<Dataset>) -> Collection {
    Collection {
        url: format!("https://crcns.org/data-sets/{alias}"),
        html: String::from("<html></html>"),
        alias: String::from(alias),
        descriptor: String::from("descriptor"),
        last_modified: String::from(stamp),
        datasets,
    }
}

fn same_dataset(a: &Dataset, b: &Dataset) -> bool {
    let same = a.url == b.url
        && a.html == b.html
        && a.alias == b.alias
        && a.content == b.content
        && a.description == b.description
        && a.last_modified == b.last_modified;
    assert_eq!(crcns_lens::cache::same_dataset(a, b), same);
    same
}

#[test]
fn dataset_blob_is_its_fields_one_after_the_other() {
    let d = Dataset {
        url: String::from("u"),
        html: String::from("h"),
        alias: String::from("a"),
        content: String::from("c"),
        description: String::from("d"),
        last_modified: String::from("m"),
    };
    let blob = dataset_to_blob(&d).unwrap();
    assert_eq!(blob, vec![1, 117, 1, 104, 1, 97, 1, 99, 1, 100, 1, 109]);
}

#[test]
fn collection_blob_counts_its_datasets() {
    let c = Collection {
        url: String::from("u"),
        html: String::new(),
        alias: String::from("a"),
        descriptor: String::from("d"),
        last_modified: String::from("m"),
        datasets: vec![Dataset {
            url: String::from("1"),
            html: String::from("2"),
            alias: String::from("3"),
            content: String::from("4"),
            description: String::from("5"),
            last_modified: String::from("6"),
        }],
    };
    let blob = collection_to_blob(&c).unwrap();
    assert_eq!(
        blob,
        vec![1, 117, 0, 1, 97, 1, 100, 1, 109, 1, 1, 49, 1, 50, 1, 51, 1, 52, 1, 53, 1, 54]
    );
}

#[test]
fn long_text_has_a_wider_length_prefix() {
    let mut d = dataset("hc-3", "2020");
    d.html = "x".repeat(300);
    let blob = dataset_to_blob(&d).unwrap();
    let back = dataset_from_blob(&blob).unwrap();
    assert_eq!(back.html.len(), 300);
    assert!(same_dataset(&d, &back));
}

#[test]
fn saved_dataset_loads_as_the_same_dataset() {
    let d = dataset("hc-3", "2020-01-01");
    let blob = d.persist().unwrap();
    let back = Dataset::from_filepath(Some(&blob));
    assert!(back == d);
    assert!(same_dataset(&d, &back));
}

#[test]
fn saved_collection_loads_as_the_same_collection() {
    let c = collection("hc", "2021", vec![dataset("hc-1", "a"), dataset("hc-2", "b")]);
    let blob = c.persist().unwrap();
    let back = Collection::from_filepath(Some(&blob));
    assert!(back == c);
    assert_eq!(back.url, c.url);
    assert_eq!(back.descriptor, c.descriptor);
    assert_eq!(back.last_modified, c.last_modified);
    assert_eq!(back.datasets.len(), 2);
    assert!(same_dataset(&back.datasets[0], &c.datasets[0]));
    assert!(same_dataset(&back.datasets[1], &c.datasets[1]));
}

#[test]
fn bytes_after_the_entry_are_ignored() {
    let d = dataset("hc-3", "2020-01-01");
    let mut blob = d.persist().unwrap();
    blob.extend_from_slice(&[9, 9, 9]);
    assert!(same_dataset(&dataset_from_blob(&blob).unwrap(), &d));
}

#[test]
fn missing_file_loads_as_the_sentinel() {
    let d = Dataset::from_filepath(None);
    assert_eq!(d.alias, "Default");
    assert_eq!(d.url, "");
    assert_eq!(d.html, "<html></html>");
    assert_eq!(d.content, "");
    assert_eq!(d.description, "Default Dataset");
    assert!(!d.last_modified.is_empty());
    let c = Collection::from_filepath(None);
    assert_eq!(c.alias, "Default");
    assert_eq!(c.descriptor, "Default collection");
    assert_eq!(c.html, "<html></html>");
    assert_eq!(c.datasets.len(), 0);
}

#[test]
fn damaged_file_loads_as_the_sentinel() {
    let d = Dataset::from_filepath_at(Some(&[3, 97]), String::from("now"));
    assert_eq!(d.alias, "Default");
    assert_eq!(d.last_modified, "now");
    let d = Dataset::from_filepath_at(Some(&[]), String::from("now"));
    assert_eq!(d.alias, "Default");
    let d = Dataset::from_filepath_at(Some(&[1, 0xFF, 0, 0, 0, 0, 0]), String::from("now"));
    assert_eq!(d.alias, "Default");
    let c = Collection::from_filepath_at(Some(&[0, 0, 0, 0, 0, 2, 0]), String::from("now"));
    assert_eq!(c.alias, "Default");
    assert_eq!(c.last_modified, "now");
}

#[test]
fn oversized_length_prefix_is_a_damaged_file() {
    let huge = [0xFD, 0xFF, 0xFF, 0xFF, 0xFF, 0xFF, 0xFF, 0xFF, 0xFF, 1, 2, 3];
    assert!(dataset_from_blob(&huge).is_none());
    assert!(collection_from_blob(&huge).is_none());
    let many = [0, 0, 0, 0, 0, 0xFD, 0xFF, 0xFF, 0xFF, 0xFF, 0xFF, 0xFF, 0xFF, 0xFF];
    assert!(collection_from_blob(&many).is_none());
}

#[test]
fn collection_without_datasets_round_trips() {
    let c = collection("hc", "2021", Vec::new());
    let back = collection_from_blob(&c.persist().unwrap()).unwrap();
    assert_eq!(back.alias, "hc");
    assert_eq!(back.datasets.len(), 0);
}

#[test]
fn equality_is_by_alias_alone() {
    let a = dataset("hc-3", "2020");
    let mut b = dataset("hc-3", "2023");
    b.url = String::from("elsewhere");
    b.html = String::from("other");
    b.content = String::new();
    b.description = String::new();
    assert!(a == b);
    assert!(a != dataset("hc-4", "2020"));
    let c = collection("hc", "2020", vec![a]);
    let e = collection("hc", "2023", Vec::new());
    assert!(c == e);
    assert!(c != collection("pfc", "2020", Vec::new()));
}

#[test]
fn default_entries_are_the_sentinels() {
    let d = Dataset::default();
    assert!(d == Dataset::sentinel(String::from("whenever")));
    assert_eq!(d.description, "Default Dataset");
    let c = Collection::default();
    assert!(c == Collection::sentinel(String::from("whenever")));
    assert_eq!(c.datasets.len(), 0);
}

#[test]
fn a_collection_takes_each_alias_once() {
    let mut c = collection("hc", "2020", Vec::new());
    assert!(c.add_dataset(dataset("hc-1", "a")));
    assert!(c.add_dataset(dataset("hc-2", "a")));
    assert!(!c.add_dataset(dataset("hc-1", "b")));
    assert_eq!(c.datasets.len(), 2);
    assert_eq!(c.datasets[0].last_modified, "a");
    assert!(c.holds("hc-2"));
    assert!(!c.holds("hc-3"));
    assert_eq!(c.find("hc-1"), 0);
    assert_eq!(c.find("hc-2"), 1);
    assert_eq!(c.find("hc-3"), 2);
}

#[test]
fn clones_hold_the_same_values() {
    let c = collection("hc", "2021", vec![dataset("hc-1", "a")]);
    let k = c.clone();
    assert_eq!(k.url, c.url);
    assert_eq!(k.datasets.len(), 1);
    assert!(same_dataset(&k.datasets[0], &c.datasets[0]));
}

#[test]
fn entries_are_the_same_when_every_field_is() {
    let a = dataset("hc-3", "2020");
    let mut b = dataset("hc-3", "2020");
    assert!(same_dataset(&a, &b));
    b.content = String::from("other");
    assert!(!same_dataset(&a, &b));
    let c = collection("hc", "2020", vec![dataset("hc-1", "a"), dataset("hc-2", "a")]);
    let mut d = collection("hc", "2020", vec![dataset("hc-1", "a"), dataset("hc-2", "a")]);
    assert!(same_collection(&c, &d));
    d.datasets[1].last_modified = String::from("b");
    assert!(!same_collection(&c, &d));
    d.datasets.pop();
    assert!(!same_collection(&c, &d));
    let mut e = collection("hc", "2020", vec![dataset("hc-1", "a"), dataset("hc-2", "a")]);
    e.descriptor = String::from("other");
    assert!(!same_collection(&c, &e));
}

#[test]
fn a_cache_file_keeps_an_entry_unless_it_is_the_sentinel() {
    let d = dataset("hc-3", "2020");
    assert!(same_dataset(&load_dataset(Some(&d.persist().unwrap())).unwrap(), &d));
    assert!(load_dataset(None).is_none());
    assert!(load_dataset(Some(&[1, 2])).is_none());
    assert!(load_dataset(Some(&Dataset::sentinel(String::from("x")).persist().unwrap())).is_none());
    let c = collection("hc", "2020", vec![dataset("hc-1", "a")]);
    assert!(same_collection(&load_collection(Some(&c.persist().unwrap())).unwrap(), &c));
    assert!(load_collection(None).is_none());
    assert!(load_collection(Some(&d.persist().unwrap())).is_none());
    assert!(load_collection(Some(&Collection::sentinel(String::new()).persist().unwrap())).is_none());
}

fn empty() -> Dataset {
    Dataset {
        url: String::new(),
        html: String::new(),
        alias: String::new(),
        content: String::new(),
        description: String::new(),
        last_modified: String::new(),
    }
}

fn named(datasets: usize) -> Collection {
    let mut c = collection("hc", "2020", Vec::new());
    c.url = String::new();
    c.html = String::new();
    c.descriptor = String::new();
    c.last_modified = String::new();
    for _ in 0..datasets {
        c.datasets.push(empty());
    }
    c
}

#[test]
fn the_number_of_datasets_is_written_in_the_shortest_form() {
    let head = [0u8, 0, 2, 104, 99, 0, 0];
    for (n, form) in [
        (0usize, vec![0u8]),
        (250, vec![250]),
        (251, vec![251, 251, 0]),
        (256, vec![251, 0, 1]),
        (65535, vec![251, 255, 255]),
        (65536, vec![252, 0, 0, 1, 0]),
        (70000, vec![252, 112, 17, 1, 0]),
    ] {
        let blob = collection_to_blob(&named(n)).unwrap();
        let mut expected = head.to_vec();
        expected.extend_from_slice(&form);
        expected.extend(std::iter::repeat(0u8).take(6 * n));
        assert_eq!(blob, expected);
    }
}

#[test]
fn the_number_of_datasets_is_read_in_every_form() {
    let head = [0u8, 0, 2, 104, 99, 0, 0];
    let read = |form: &[u8], datasets: usize| {
        let mut blob = head.to_vec();
        blob.extend_from_slice(form);
        blob.extend(std::iter::repeat(0u8).take(6 * datasets));
        collection_from_blob(&blob).map(|c| c.datasets.len())
    };
    assert_eq!(read(&[0], 0), Some(0));
    assert_eq!(read(&[3], 3), Some(3));
    assert_eq!(read(&[3], 2), None);
    assert_eq!(read(&[250], 250), Some(250));
    assert_eq!(read(&[251, 0, 0], 0), Some(0));
    assert_eq!(read(&[251, 2, 1], 258), Some(258));
    assert_eq!(read(&[251, 2], 0), None);
    assert_eq!(read(&[251], 0), None);
    assert_eq!(read(&[252, 1, 0, 0, 0], 1), Some(1));
    assert_eq!(read(&[252, 0, 0, 0, 1], 0), None);
    assert_eq!(read(&[252, 0, 0, 0], 0), None);
    assert_eq!(read(&[253, 2, 0, 0, 0, 0, 0, 0, 0], 2), Some(2));
    assert_eq!(read(&[253, 0, 0, 0, 0, 0, 0, 0, 0], 9), Some(0));
    assert_eq!(read(&[253, 0, 0, 0, 0, 0, 0, 0], 0), None);
    assert_eq!(read(&[253, 0, 0, 0, 0, 0, 0, 0, 1], 0), None);
    assert_eq!(read(&[254, 0, 0, 0, 0, 0, 0, 0, 0, 0, 0, 0, 0, 0, 0, 0, 0], 0), None);
    assert_eq!(read(&[255, 0, 0, 0, 0, 0, 0, 0, 0], 0), None);
    assert_eq!(read(&[], 0), None);
}
