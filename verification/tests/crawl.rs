use datacollect::modules::crawl::{page_parameter, Reply, Request, Search, SearchError};
use datacollect::modules::ebay::{Entry, ListingError, Product};

fn product(name: &str) -> Product {
    Product { name: name.to_string(), seller: None, price: None, sponsored: None }
}

/// Runs a search against pages that are written down: each page is a list
/// of entries, each entry with the product that its page shows, if any.
fn run(pages: Vec<Result<Vec<(Entry, Option<&str>)>, SearchError>>) -> (Vec<Result<(String, Option<bool>), SearchError>>, Vec<Request>) {
    let mut search = Product::search("cpu");
    let mut request = search.request();
    let mut asked = vec![request];
    let mut out = Vec::new();
    loop {
        let reply = match request {
            Request::Stop => break,
            Request::Listing { page } => match pages.get((page - 1) as usize) {
                Some(Ok(entries)) => Reply::Listing(Ok(entries.iter().map(|e| e.0).collect())),
                Some(Err(e)) => Reply::Listing(Err(*e)),
                None => Reply::Listing(Err(SearchError::FetchError)),
            },
            Request::Item { id, spacing_ms } => {
                assert_eq!(spacing_ms, 600);
                let found = pages
                    .iter()
                    .flatten()
                    .flatten()
                    .find(|e| e.0.id == id)
                    .and_then(|e| e.1);
                Reply::Item(found.map(product))
            }
        };
        let step = search.step(reply);
        if let Some(emitted) = step.emit {
            out.push(emitted.map(|p| (p.name, p.sponsored)));
        }
        request = step.request;
        asked.push(request);
    }
    assert!(search.is_over());
    (out, asked)
}

fn entry(id: u64, sponsored: bool) -> Entry {
    Entry { id, sponsored }
}

#[test]
fn empty_first_page_ends_the_search() {
    let (out, asked) = run(vec![Ok(vec![])]);
    assert!(out.is_empty());
    assert_eq!(asked, vec![Request::Listing { page: 1 }, Request::Stop]);
}

#[test]
fn empty_second_page_ends_the_search_while_nothing_was_found() {
    let (out, asked) = run(vec![
        Ok(vec![(entry(7, false), None), (entry(8, true), None)]),
        Ok(vec![]),
        Ok(vec![(entry(9, false), Some("never fetched"))]),
    ]);
    assert!(out.is_empty());
    assert_eq!(
        asked,
        vec![
            Request::Listing { page: 1 },
            Request::Item { id: 7, spacing_ms: 600 },
            Request::Item { id: 8, spacing_ms: 600 },
            Request::Listing { page: 2 },
            Request::Stop,
        ]
    );
}

#[test]
fn empty_page_after_a_product_is_passed_by() {
    let (out, asked) = run(vec![
        Ok(vec![(entry(7, false), Some("seven")), (entry(8, true), Some("eight"))]),
        Ok(vec![]),
        Ok(vec![(entry(9, false), Some("nine"))]),
    ]);
    assert_eq!(
        out,
        vec![
            Ok(("seven".to_string(), Some(false))),
            Ok(("eight".to_string(), Some(true))),
            Ok(("nine".to_string(), Some(false))),
            Err(SearchError::FetchError),
        ]
    );
    assert_eq!(
        asked,
        vec![
            Request::Listing { page: 1 },
            Request::Item { id: 7, spacing_ms: 600 },
            Request::Item { id: 8, spacing_ms: 600 },
            Request::Listing { page: 2 },
            Request::Listing { page: 3 },
            Request::Item { id: 9, spacing_ms: 600 },
            Request::Listing { page: 4 },
            Request::Stop,
        ]
    );
}

#[test]
fn items_that_fail_are_passed_over() {
    let (out, asked) = run(vec![
        Ok(vec![(entry(1, false), None), (entry(2, true), Some("two")), (entry(3, false), None)]),
        Ok(vec![(entry(4, false), None)]),
        Ok(vec![(entry(5, true), Some("five"))]),
    ]);
    assert_eq!(
        out,
        vec![
            Ok(("two".to_string(), Some(true))),
            Ok(("five".to_string(), Some(true))),
            Err(SearchError::FetchError),
        ]
    );
    assert_eq!(asked.len(), 10);
    assert_eq!(asked[8], Request::Listing { page: 4 });
    assert_eq!(asked[9], Request::Stop);
}

#[test]
fn page_that_cannot_be_had_ends_the_search_with_its_error() {
    let (out, asked) = run(vec![
        Ok(vec![(entry(1, false), Some("one"))]),
        Err(SearchError::FetchError),
        Ok(vec![(entry(2, false), Some("two"))]),
    ]);
    assert_eq!(
        out,
        vec![Ok(("one".to_string(), Some(false))), Err(SearchError::FetchError)]
    );
    assert_eq!(asked.last(), Some(&Request::Stop));
    assert_eq!(asked.len(), 4);

    let (out, _) = run(vec![Err(SearchError::Listing(ListingError::NoMainContent))]);
    assert_eq!(out, vec![Err(SearchError::Listing(ListingError::NoMainContent))]);
}

#[test]
fn flag_turns_at_the_first_product() {
    let mut search = Search::new("amd", 5);
    assert_eq!(search.query(), "amd");
    assert!(!search.found_any());
    assert_eq!(search.request(), Request::Listing { page: 1 });
    let step = search.step(Reply::Listing(Ok(vec![entry(1, false), entry(2, false)])));
    assert_eq!(step.request, Request::Item { id: 1, spacing_ms: 5 });
    assert!(step.emit.is_none());
    let step = search.step(Reply::Item(None));
    assert!(step.emit.is_none());
    assert!(!search.found_any());
    assert_eq!(step.request, Request::Item { id: 2, spacing_ms: 5 });
    let step = search.step(Reply::Item(Some(product("two"))));
    assert!(search.found_any());
    assert_eq!(step.emit.unwrap().unwrap().sponsored, Some(false));
    assert_eq!(step.request, Request::Listing { page: 2 });
    assert!(!search.is_over());
    let step = search.step(Reply::Listing(Ok(vec![])));
    assert!(step.emit.is_none());
    assert_eq!(step.request, Request::Listing { page: 3 });
    assert!(search.found_any());
    assert!(!search.is_over());
    let step = search.step(Reply::Listing(Err(SearchError::FetchError)));
    assert_eq!(step.emit.unwrap().err(), Some(SearchError::FetchError));
    assert_eq!(step.request, Request::Stop);
    assert!(search.is_over());
}

#[test]
fn replies_that_were_not_asked_for_change_nothing() {
    let mut search = Search::new("amd", 5);
    let step = search.step(Reply::Item(Some(product("stray"))));
    assert!(step.emit.is_none());
    assert_eq!(step.request, Request::Listing { page: 1 });
    assert!(!search.found_any());
    search.step(Reply::Listing(Ok(vec![entry(1, true)])));
    let step = search.step(Reply::Listing(Ok(vec![])));
    assert!(step.emit.is_none());
    assert_eq!(step.request, Request::Item { id: 1, spacing_ms: 5 });
    let step = search.step(Reply::Listing(Err(SearchError::FetchError)));
    assert!(step.emit.is_none());
    assert_eq!(step.request, Request::Item { id: 1, spacing_ms: 5 });
    search.step(Reply::Item(None));
    search.step(Reply::Listing(Ok(vec![])));
    assert!(search.is_over());
    let step = search.step(Reply::Item(Some(product("late"))));
    assert!(step.emit.is_none());
    assert_eq!(step.request, Request::Stop);
    let step = search.step(Reply::Listing(Ok(vec![entry(3, false)])));
    assert!(step.emit.is_none());
    assert_eq!(step.request, Request::Stop);
}

#[test]
fn reply_from_a_fetched_page() {
    match Reply::from_page(None) {
        Reply::Listing(Err(SearchError::FetchError)) => {}
        other => panic!("{:?}", other),
    }
    match Reply::from_page(Some("<p>nothing</p>")) {
        Reply::Listing(Err(SearchError::Listing(ListingError::NoMainContent))) => {}
        other => panic!("{:?}", other),
    }
    match Reply::from_page(Some(
        r#"<div id="mainContent"><div class="s-item"><a href="https://www.ebay.com/itm/12">x</a></div></div>"#,
    )) {
        Reply::Listing(Ok(entries)) => assert_eq!(entries, vec![entry(12, false)]),
        other => panic!("{:?}", other),
    }
}

#[test]
fn number_of_a_page() {
    assert_eq!(page_parameter(1), "1");
    assert_eq!(page_parameter(12), "12");
    assert_eq!(page_parameter(100), "100");
    assert_eq!(page_parameter(u64::MAX), "18446744073709551615");
}
