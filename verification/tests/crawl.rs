use crcns_lens::crawl::{harvest, nested, partition, plan_crawl, sort_urls, unique, AliasKind};
use crcns_lens::locator::{PageUrl, UrlError};
use crcns_lens::types::CRCNS;

fn url(text: &str, segments: &[&str]) -> PageUrl {
    PageUrl { text: String::from(text), segments: segments.iter().map(|s| s.to_string()).collect() }
}

fn texts(urls: &Vec<PageUrl>) -> Vec<String> {
    urls.iter().map(|u| u.text.clone()).collect()
}

#[test]
fn page_address_has_text_and_segments() {
    let u = PageUrl::parse("https://crcns.org/data-sets/hc/hc-3").unwrap();
    assert_eq!(u.text, "https://crcns.org/data-sets/hc/hc-3");
    assert_eq!(u.segments, vec!["data-sets", "hc", "hc-3"]);
    assert_eq!(u.collection_alias(), "hc");
    assert_eq!(u.dataset_alias(), "hc-3");
}

#[test]
fn page_address_is_written_back_in_normal_form() {
    let u = PageUrl::parse("HTTPS://CRCNS.org/a/../data-sets/hc?x=1#frag").unwrap();
    assert_eq!(u.text, "https://crcns.org/data-sets/hc?x=1#frag");
    assert_eq!(u.segments, vec!["data-sets", "hc"]);
    let root = PageUrl::parse("https://crcns.org").unwrap();
    assert_eq!(root.text, "https://crcns.org/");
    assert_eq!(root.segments, vec![""]);
    assert_eq!(root.collection_alias(), "");
    assert_eq!(root.dataset_alias(), "");
}

#[test]
fn text_that_is_no_address_is_refused() {
    assert_eq!(PageUrl::parse("/data-sets/hc").err(), Some(UrlError::Malformed));
    assert_eq!(PageUrl::parse("").err(), Some(UrlError::Malformed));
    assert_eq!(PageUrl::parse("mailto:a@b.org").err(), Some(UrlError::NoPath));
}

#[test]
fn only_links_into_the_data_sets_count() {
    let links = vec![
        String::from("https://crcns.org/data-sets/hc"),
        String::from("https://crcns.org/about"),
        String::from("/data-sets/relative"),
        String::from("mailto:x@y.org?subject=/data-sets/"),
        String::from("https://crcns.org/data-sets/"),
        String::from("https://crcns.org/data-sets"),
    ];
    let found = harvest(&links);
    assert_eq!(texts(&found), vec!["https://crcns.org/data-sets/hc", "https://crcns.org/data-sets/"]);
}

#[test]
fn addresses_are_put_in_the_order_of_their_text() {
    let sorted = sort_urls(vec![
        url("b", &["1"]),
        url("a", &["2"]),
        url("c", &["3"]),
        url("a", &["4"]),
        url("B", &["5"]),
    ]);
    assert_eq!(texts(&sorted), vec!["B", "a", "a", "b", "c"]);
    assert_eq!(sorted[1].segments, vec!["2"]);
    assert_eq!(sorted[2].segments, vec!["4"]);
    assert_eq!(sort_urls(Vec::new()).len(), 0);
}

#[test]
fn segment_counts_2_2_3_3_4_give_two_collections_and_two_datasets() {
    let urls = vec![
        url("https://x/data-sets/hc", &["data-sets", "hc"]),
        url("https://x/data-sets/pfc", &["data-sets", "pfc"]),
        url("https://x/data-sets/hc/hc-1", &["data-sets", "hc", "hc-1"]),
        url("https://x/data-sets/pfc/pfc-2", &["data-sets", "pfc", "pfc-2"]),
        url("https://x/data-sets/hc/hc-1/about", &["data-sets", "hc", "hc-1", "about"]),
    ];
    let (collections, datasets) = partition(&urls);
    assert_eq!(texts(&collections), vec!["https://x/data-sets/hc", "https://x/data-sets/pfc"]);
    assert_eq!(
        texts(&datasets),
        vec!["https://x/data-sets/hc/hc-1", "https://x/data-sets/pfc/pfc-2"]
    );
    let tasks = plan_crawl(&urls);
    assert_eq!(tasks.len(), 2);
    assert_eq!(tasks[0].collection.text, "https://x/data-sets/hc");
    assert_eq!(texts(&tasks[0].datasets), vec!["https://x/data-sets/hc/hc-1"]);
    assert_eq!(tasks[1].collection.text, "https://x/data-sets/pfc");
    assert_eq!(texts(&tasks[1].datasets), vec!["https://x/data-sets/pfc/pfc-2"]);
}

#[test]
fn datasets_belong_to_the_collection_that_their_address_begins_with() {
    let urls = vec![
        url("https://x/data-sets/hc", &["data-sets", "hc"]),
        url("https://x/data-sets/hc/hc-1", &["data-sets", "hc", "hc-1"]),
        url("https://x/data-sets/hcx/hc-9", &["data-sets", "hcx", "hc-9"]),
        url("https://x/data-sets/pfc/pfc-2", &["data-sets", "pfc", "pfc-2"]),
        url("https://x/data-sets/hc/deep/er", &["data-sets", "hc", "deep", "er"]),
    ];
    let under = nested(&urls, &urls[0]);
    assert_eq!(texts(&under), vec!["https://x/data-sets/hc/hc-1", "https://x/data-sets/hcx/hc-9"]);
}

#[test]
fn the_first_address_with_an_alias_stands_for_all() {
    let urls = vec![
        url("https://x/data-sets/hc", &["data-sets", "hc"]),
        url("https://x/data-sets/hc#top", &["data-sets", "hc"]),
        url("https://x/data-sets/pfc", &["data-sets", "pfc"]),
        url("https://y/other/hc", &["other", "hc"]),
    ];
    let kept = unique(&urls, AliasKind::Collection);
    assert_eq!(texts(&kept), vec!["https://x/data-sets/hc", "https://x/data-sets/pfc"]);
    let kept = unique(&urls, AliasKind::Dataset);
    assert_eq!(texts(&kept), vec!["https://x/data-sets/hc", "https://x/data-sets/pfc"]);
}

#[test]
fn no_two_siblings_of_a_plan_share_an_alias() {
    let links: Vec<String> = [
        "https://crcns.org/data-sets/hc/hc-3",
        "https://crcns.org/data-sets/hc",
        "https://crcns.org/data-sets/hc#again",
        "https://crcns.org/data-sets/hc/hc-3?again",
        "https://crcns.org/data-sets/hc/hc-2",
        "https://crcns.org/data-sets/pfc",
        "https://crcns.org/data-sets/hc",
        "https://crcns.org/data-sets/pfc/pfc-1/about",
        "not an address /data-sets/",
    ]
    .iter()
    .map(|s| s.to_string())
    .collect();
    let tasks = CRCNS::tasks(&links);
    assert_eq!(tasks.len(), 2);
    assert_eq!(tasks[0].collection.text, "https://crcns.org/data-sets/hc");
    assert_eq!(
        texts(&tasks[0].datasets),
        vec!["https://crcns.org/data-sets/hc/hc-2", "https://crcns.org/data-sets/hc/hc-3"]
    );
    assert_eq!(tasks[1].collection.text, "https://crcns.org/data-sets/pfc");
    assert_eq!(tasks[1].datasets.len(), 0);
    for t in &tasks {
        for (i, a) in t.datasets.iter().enumerate() {
            for b in &t.datasets[i + 1..] {
                assert_ne!(a.dataset_alias(), b.dataset_alias());
            }
        }
    }
    assert_ne!(tasks[0].collection.collection_alias(), tasks[1].collection.collection_alias());
}

#[test]
fn a_crawl_starts_from_the_links_of_the_sitemap() {
    let html = "<html><body>\
        <a href=\"https://crcns.org/data-sets/pfc\">pfc</a>\
        <a href=\"https://crcns.org/about\">about</a>\
        <a href=\"https://crcns.org/data-sets/hc/hc-3\">hc-3</a>\
        <a href=\"https://crcns.org/data-sets/hc\">hc</a>\
        <a name=\"nolink\">x</a>\
        </body></html>";
    let tasks = CRCNS::get(html).unwrap();
    assert_eq!(tasks.len(), 2);
    assert_eq!(tasks[0].collection.text, "https://crcns.org/data-sets/hc");
    assert_eq!(texts(&tasks[0].datasets), vec!["https://crcns.org/data-sets/hc/hc-3"]);
    assert_eq!(tasks[1].collection.text, "https://crcns.org/data-sets/pfc");
}

#[test]
fn a_sitemap_without_links_is_a_failure() {
    let r = CRCNS::get("<html><body><p>nothing here</p></body></html>");
    assert_eq!(r.err(), Some(crcns_lens::markup::ExtractError::NoMatch));
}
