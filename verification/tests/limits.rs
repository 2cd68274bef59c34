use datacollect::dom::{Document, MAX_PAGE, MAX_SELECTOR};
use datacollect::modules::crawl::{Reply, SearchError};
use datacollect::modules::ebay::{listing_from_html, marks, ExtractError, ListingError, Product};

/// A page of one character more than is parsed.
fn long_page() -> String {
    String::from_utf8(vec![b' '; MAX_PAGE + 1]).unwrap()
}

#[test]
fn longest_page() {
    assert_eq!(MAX_PAGE, 0x0fff_ffff);
    assert!(Document::fits(""));
    assert!(Document::fits("<p>short</p>"));
    assert!(!Document::fits(&long_page()));
    let mut page = long_page();
    page.pop();
    assert!(Document::fits(&page));
}

#[test]
fn page_that_is_too_long_is_not_parsed() {
    let page = long_page();
    assert!(Document::parse(&page).is_none());
    assert!(Document::select_flags(&page, "p").is_none());
    assert!(marks(&page, "p").is_empty());
}

#[test]
fn page_that_is_too_long_shows_no_product() {
    assert_eq!(Product::from_html(&long_page()).err(), Some(ExtractError::PageTooLong));
}

#[test]
fn page_that_is_too_long_lists_nothing() {
    let page = long_page();
    assert_eq!(listing_from_html(&page).err(), Some(ListingError::PageTooLong));
    match Reply::from_page(Some(&page)) {
        Reply::Listing(Err(SearchError::Listing(ListingError::PageTooLong))) => {}
        other => panic!("{:?}", other),
    }
}

#[test]
fn length_counts_characters() {
    let mut page = String::from_utf8(vec![b' '; 16]).unwrap();
    page.push_str("\u{10000}\u{e9}");
    assert!(Document::fits(&page));
    assert_eq!(Document::parse(&page).map(|d| d.len() > 0), Some(true));
}

#[test]
fn list_of_selectors_that_is_too_long_is_not_read() {
    let short = vec!["p"; MAX_SELECTOR / 2].join(",");
    assert!(short.len() <= MAX_SELECTOR);
    assert_eq!(Document::select_flags("<p>x</p>", &short).map(|f| f.contains(&true)), Some(true));
    let long = vec!["p"; MAX_SELECTOR].join(" ");
    assert!(long.len() > MAX_SELECTOR);
    assert!(Document::select_flags("<p>x</p>", &long).is_none());
    assert!(marks("<p>x</p>", &long).is_empty());
}
