//! Tests of extraction, pagination discovery, the page source, and the
//! crawl pipeline against an in-memory site.

use reudh::crawl::{fetch_from_site, harvest_page, run_crawl, PageContent, Site};
use reudh::errors::ErrorKind;
use reudh::extract::{detail_links, record_from_page};
use reudh::pages::{bucket_url, PageIter, PageUrl};
use reudh::records::parse_batch;

const BASE: &str = "https://www.etymonline.com";

fn discovery_page(count: u64, words: u64) -> String {
    let mut items = String::new();
    let mut i = 1;
    while i <= count {
        items.push_str(&format!("<li class=\"ant-pagination-item\" title=\"{}\"></li>", i));
        i += 1;
    }
    format!(
        "<html><body><div class=\"searchList__pageCount--x1y\">{} words found</div><ul>{}</ul></body></html>",
        words, items
    )
}

fn listing_page(hrefs: &[&str]) -> String {
    let mut anchors = String::new();
    for href in hrefs {
        anchors.push_str(&format!("<a class=\"word--abc\" href=\"{}\">entry</a>", href));
    }
    format!("<html><body>{}</body></html>", anchors)
}

fn detail_page(term: &str, text: &str) -> String {
    format!(
        "<html><body><h1 class=\"word__name--q\">{}</h1><section class=\"word__defination--r\">{}</section></body></html>",
        term, text
    )
}

#[test]
fn detail_links_collects_prefixed_targets() {
    let links = detail_links(&listing_page(&["/word/apple", "/word/ant"])).unwrap();
    assert_eq!(
        links,
        vec![
            format!("{}/word/apple", BASE),
            format!("{}/word/ant", BASE),
        ]
    );
}

#[test]
fn detail_links_rejects_anchor_without_href() {
    let html = "<html><body><a class=\"word--abc\">no target</a></body></html>";
    let err = detail_links(html).unwrap_err();
    assert!(matches!(err.kind, ErrorKind::Extraction));
}

#[test]
fn detail_links_ignores_other_anchors() {
    let html =
        "<html><body><a class=\"nav\" href=\"/x\">nav</a><a class=\"word--z\" href=\"/word/axe\">axe</a></body></html>";
    let links = detail_links(html).unwrap();
    assert_eq!(links, vec![format!("{}/word/axe", BASE)]);
}

#[test]
fn record_extracts_term_and_text() {
    let record = record_from_page(&detail_page("apple", "a fruit")).unwrap();
    assert_eq!(record.term, "apple");
    assert_eq!(record.text, "a fruit");
}

#[test]
fn record_requires_heading_and_section() {
    let only_heading = "<html><body><h1 class=\"word__name--q\">apple</h1></body></html>";
    let err = record_from_page(only_heading).unwrap_err();
    assert!(matches!(err.kind, ErrorKind::Extraction));
    let only_section =
        "<html><body><section class=\"word__defination--r\">a fruit</section></body></html>";
    let err = record_from_page(only_section).unwrap_err();
    assert!(matches!(err.kind, ErrorKind::Extraction));
}

#[test]
fn discovery_records_counts() {
    let mut pages = PageIter::new();
    assert_eq!(pages.estimate_length(), 26);
    assert_eq!(pages.length(), 0);
    pages.update_page_count(0, &discovery_page(3, 14)).unwrap();
    assert_eq!(pages.length(), 14);
    pages.update_page_count(1, &discovery_page(1, 5)).unwrap();
    assert_eq!(pages.length(), 19);
}

#[test]
fn discovery_takes_the_largest_page_number() {
    let html = "<html><body><div class=\"searchList__pageCount--x\">9 words</div>\
        <li class=\"ant-pagination-item\" title=\"2\"></li>\
        <li class=\"ant-pagination-item\" title=\"5\"></li>\
        <li class=\"ant-pagination-item\" title=\"3\"></li></body></html>";
    let mut pages = PageIter::new();
    pages.update_page_count(0, html).unwrap();
    for letter in 1..26usize {
        pages.update_page_count(letter, &discovery_page(1, 0)).unwrap();
    }
    let urls = pages.all_page_urls();
    assert_eq!(urls.len(), 5 + 25);
}

#[test]
fn discovery_rejects_missing_pagination() {
    let mut pages = PageIter::new();
    let err = pages
        .update_page_count(1, "<html><body>nothing to see</body></html>")
        .unwrap_err();
    assert!(matches!(err.kind, ErrorKind::Discovery));
    assert_eq!(pages.length(), 0);
}

#[test]
fn discovery_rejects_unparsable_title() {
    let html = "<html><body><div class=\"searchList__pageCount--x\">9 words</div>\
        <li class=\"ant-pagination-item\" title=\"next\"></li></body></html>";
    let mut pages = PageIter::new();
    let err = pages.update_page_count(0, html).unwrap_err();
    assert!(matches!(err.kind, ErrorKind::Discovery));
}

#[test]
fn page_source_emits_buckets_in_order() {
    let mut pages = PageIter::new();
    pages.update_page_count(0, &discovery_page(2, 7)).unwrap();
    for letter in 1..26usize {
        pages.update_page_count(letter, &discovery_page(1, 1)).unwrap();
    }
    let urls = pages.all_page_urls();
    assert_eq!(urls.len(), 27);
    assert_eq!(urls[0], PageUrl { bucket: 0, page: 1 });
    assert_eq!(urls[1], PageUrl { bucket: 0, page: 2 });
    assert_eq!(urls[2], PageUrl { bucket: 1, page: 1 });
    assert_eq!(urls[0].render(), format!("{}/search?q=a&page=1", BASE));
    assert_eq!(urls[26].render(), format!("{}/search?q=z&page=1", BASE));
    let first = pages.next().unwrap();
    assert_eq!(first, PageUrl { bucket: 0, page: 1 });
    let second = pages.next().unwrap();
    assert_eq!(second, PageUrl { bucket: 0, page: 2 });
    let third = pages.next().unwrap();
    assert_eq!(third, PageUrl { bucket: 1, page: 1 });
}

#[test]
fn bucket_urls_name_the_letter() {
    assert_eq!(bucket_url(0), format!("{}/search?q=a", BASE));
    assert_eq!(bucket_url(25), format!("{}/search?q=z", BASE));
}

fn page(url: String, content: PageContent) -> (String, PageContent) {
    (url, content)
}

/// A site where bucket `a` has two result pages listing three words and
/// every other bucket has one empty result page.
fn small_site() -> Site {
    let mut pages = Vec::new();
    pages.push(page(format!("{}/search?q=a", BASE), PageContent::Html(discovery_page(2, 3))));
    for letter in b'b'..=b'z' {
        pages.push(page(
            format!("{}/search?q={}", BASE, letter as char),
            PageContent::Html(discovery_page(1, 0)),
        ));
        pages.push(page(
            format!("{}/search?q={}&page=1", BASE, letter as char),
            PageContent::Html(listing_page(&[])),
        ));
    }
    pages.push(page(
        format!("{}/search?q=a&page=1", BASE),
        PageContent::Html(listing_page(&["/w/apple", "/w/ant"])),
    ));
    pages.push(page(
        format!("{}/search?q=a&page=2", BASE),
        PageContent::Html(listing_page(&["/w/axe"])),
    ));
    pages.push(page(
        format!("{}/w/apple", BASE),
        PageContent::Html(detail_page("apple", "a fruit")),
    ));
    pages.push(page(
        format!("{}/w/ant", BASE),
        PageContent::Html(detail_page("ant", "an insect")),
    ));
    pages.push(page(
        format!("{}/w/axe", BASE),
        PageContent::Html(detail_page("axe", "a tool")),
    ));
    Site { pages }
}

fn all_records(files: &[reudh::cache::CacheFile]) -> Vec<(String, String)> {
    let mut records = Vec::new();
    for file in files {
        for record in parse_batch(&file.contents) {
            records.push((record.term, record.text));
        }
    }
    records
}

#[test]
fn crawl_batches_two_then_one() {
    let site = small_site();
    let files = run_crawl(&site, 2, 5).unwrap();
    assert_eq!(files.len(), 2);
    let first: Vec<(String, String)> = all_records(&files[..1]);
    let mut first_terms: Vec<String> = first.iter().map(|r| r.0.clone()).collect();
    first_terms.sort();
    assert_eq!(first_terms, vec!["ant".to_owned(), "apple".to_owned()]);
    let second = all_records(&files[1..]);
    assert_eq!(second, vec![("axe".to_owned(), "a tool".to_owned())]);
}

#[test]
fn crawl_aborts_on_discovery_failure() {
    let mut site = small_site();
    for entry in site.pages.iter_mut() {
        if entry.0 == format!("{}/search?q=b", BASE) {
            entry.1 = PageContent::Html("<html><body>no pagination</body></html>".to_owned());
        }
    }
    let err = run_crawl(&site, 2, 5).unwrap_err();
    assert!(matches!(err.kind, ErrorKind::Discovery));
}

#[test]
fn crawl_twice_writes_the_same_records() {
    let site = small_site();
    let files1 = run_crawl(&site, 2, 5).unwrap();
    let files2 = run_crawl(&site, 2, 5).unwrap();
    let mut records1 = all_records(&files1);
    let mut records2 = all_records(&files2);
    records1.sort();
    records2.sort();
    assert_eq!(records1, records2);
    let names1: Vec<&String> = files1.iter().map(|f| &f.name).collect();
    let names2: Vec<&String> = files2.iter().map(|f| &f.name).collect();
    assert!(names1.iter().all(|n| !names2.contains(n)));
}

#[test]
fn fetch_reports_status_after_retries() {
    let site = Site {
        pages: vec![(format!("{}/search?q=a", BASE), PageContent::Status(503))],
    };
    let err = fetch_from_site(&site, &format!("{}/search?q=a", BASE), 5).unwrap_err();
    assert!(matches!(err.kind, ErrorKind::Fetch { status: Some(503) }));
    let err = fetch_from_site(&site, &format!("{}/search?q=b", BASE), 5).unwrap_err();
    assert!(matches!(err.kind, ErrorKind::Fetch { status: None }));
}

#[test]
fn harvest_surfaces_extraction_failures() {
    let listing_url = format!("{}/search?q=a&page=1", BASE);
    let site = Site {
        pages: vec![
            (listing_url.clone(), PageContent::Html(listing_page(&["/w/apple"]))),
            (
                format!("{}/w/apple", BASE),
                PageContent::Html("<html><body>bare page</body></html>".to_owned()),
            ),
        ],
    };
    let err = harvest_page(&site, &listing_url, 5).unwrap_err();
    assert!(matches!(err.kind, ErrorKind::Extraction));
}

#[test]
fn harvest_collects_page_records() {
    let listing_url = format!("{}/search?q=a&page=1", BASE);
    let site = Site {
        pages: vec![
            (
                listing_url.clone(),
                PageContent::Html(listing_page(&["/w/apple", "/w/ant"])),
            ),
            (
                format!("{}/w/apple", BASE),
                PageContent::Html(detail_page("apple", "a fruit")),
            ),
            (
                format!("{}/w/ant", BASE),
                PageContent::Html(detail_page("ant", "an insect")),
            ),
        ],
    };
    let records = harvest_page(&site, &listing_url, 5).unwrap();
    assert_eq!(records.len(), 2);
    assert_eq!(records[0].term, "apple");
    assert_eq!(records[1].term, "ant");
    assert_eq!(records[1].text, "an insect");
}

#[test]
fn crawl_aborts_with_fetch_kind_when_a_bucket_page_is_unreachable() {
    let mut site = small_site();
    site.pages.retain(|entry| entry.0 != format!("{}/search?q=c", BASE));
    let err = run_crawl(&site, 2, 5).unwrap_err();
    assert!(matches!(err.kind, ErrorKind::Fetch { status: None }));
}

#[test]
fn harvest_reports_a_detail_page_status() {
    let listing_url = format!("{}/search?q=a&page=1", BASE);
    let site = Site {
        pages: vec![
            (listing_url.clone(), PageContent::Html(listing_page(&["/w/apple"]))),
            (format!("{}/w/apple", BASE), PageContent::Status(404)),
        ],
    };
    let err = harvest_page(&site, &listing_url, 5).unwrap_err();
    assert!(matches!(err.kind, ErrorKind::Fetch { status: Some(404) }));
}
