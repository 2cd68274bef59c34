use datacollect::common::Currency;
use datacollect::modules::ebay::{
    item_at, listing_from_html, marks, select, select_first, share, sponsored_at, Entry,
    ExtractError, ListingError, Product,
};
use datacollect::dom::Document;

const ITEM: &str = r#"<html><body>
<h1 id="itemTitle"><span class="g-hdn">Details about  &nbsp;</span>   The Rust Programming Language  </h1>
<div class="si-content">
  <a href="https://example.com/help">help</a>
  <a>no link</a>
  <a href="https://www.ebay.com/usr/bellwetherbooks_usa?_trksid=p2047675.l2559">bellwetherbooks_usa</a>
  <a href="https://www.ebay.com/usr/second_seller">other</a>
  <div id="si-fb">98.7% Positive feedback</div>
</div>
<div class="mainPrice">
  <span itemprop="price" content="21.49">US $21.49</span>
  <span itemprop="priceCurrency" content="USD"></span>
</div>
</body></html>"#;

#[test]
fn product_from_item_page() {
    let product = Product::from_html(ITEM).unwrap();
    assert_eq!(product.name, "The Rust Programming Language");
    let seller = product.seller.as_ref().unwrap();
    assert_eq!(seller.name, "bellwetherbooks_usa");
    assert_eq!(seller.feedback.as_ref().unwrap().to_text(), "0.987");
    let price = product.price.as_ref().unwrap();
    assert_eq!(price.currency, Currency::USD);
    assert_eq!(price.amount.to_text(), "21.49");
    assert_eq!(price.amount.cents(), Some(2149));
    assert_eq!(product.sponsored, None);
}

#[test]
fn page_without_title_gives_no_product() {
    assert_eq!(
        Product::from_html("<html><body><p>gone</p></body></html>").err(),
        Some(ExtractError::NoTitle)
    );
    assert_eq!(
        Product::from_html(r#"<h1 id="itemTitle"> <b>bold only</b>  </h1>"#).err(),
        Some(ExtractError::NoTitle)
    );
    assert_eq!(Product::from_html("").err(), Some(ExtractError::NoTitle));
}

#[test]
fn missing_fields_are_left_out() {
    let product = Product::from_html(r#"<h1 id="itemTitle">Lamp</h1>"#).unwrap();
    assert_eq!(product.name, "Lamp");
    assert!(product.seller.is_none());
    assert!(product.price.is_none());

    let product = Product::from_html(
        r#"<h1 id="itemTitle">Lamp</h1><div class="si-content"><a href="https://ebay.com/usr/lamps-r-us">x</a></div>"#,
    )
    .unwrap();
    let seller = product.seller.unwrap();
    assert_eq!(seller.name, "lamps-r-us");
    assert!(seller.feedback.is_none());
    assert!(product.price.is_none());

    let product = Product::from_html(
        r#"<h1 id="itemTitle">Lamp</h1><div class="si-content"><a href="/usr/nobody">x</a><div id="si-fb">100% positive</div></div><div class="vi-price"><span itemprop="price">$5</span></div>"#,
    )
    .unwrap();
    assert!(product.seller.is_none());
    assert_eq!(product.price.unwrap().amount.to_text(), "5");
}

#[test]
fn main_price_comes_before_the_other_price() {
    let product = Product::from_html(
        r#"<h1 id="itemTitle">Lamp</h1><div class="vi-price"><span itemprop="price">$5</span></div><div class="mainPrice"><span itemprop="price">$7.50</span></div>"#,
    )
    .unwrap();
    assert_eq!(product.price.unwrap().amount.to_text(), "7.50");
    let product = Product::from_html(
        r#"<h1 id="itemTitle">Lamp</h1><div class="mainPrice"><span itemprop="price">free</span></div>"#,
    )
    .unwrap();
    assert!(product.price.is_none());
}

#[test]
fn share_of_feedback() {
    assert_eq!(share("98.7% Positive feedback").unwrap().to_text(), "0.987");
    assert_eq!(share("100%").unwrap().to_text(), "1.00");
    assert_eq!(share("about 5% off, 10% more").unwrap().to_text(), "0.05");
    assert!(share("no feedback yet").is_none());
    assert!(share("%").is_none());
}

#[test]
fn link_of_an_item() {
    assert_eq!(Product::link(254625474154), "https://www.ebay.com/itm/foo/254625474154");
    assert_eq!(Product::link(0), "https://www.ebay.com/itm/foo/0");
    assert_eq!(Product::link(10), "https://www.ebay.com/itm/foo/10");
    assert_eq!(
        Product::link(u64::MAX),
        "https://www.ebay.com/itm/foo/18446744073709551615"
    );
}

const RESULTS: &str = r#"<html><body>
<div class="s-item"><a href="https://www.ebay.com/itm/999">outside of the main content</a></div>
<div id="mainContent">
  <ul>
    <li class="s-item">
      <a class="img" href="https://www.ebay.com/help">help</a>
      <a href="https://www.ebay.com/itm/254625474154?hash=item3b48d3e2aa">Book</a>
      <a href="https://www.ebay.com/itm/111">second link</a>
      <span class="s-item__detail">Free shipping</span>
      <span class="s-item__detail"><span>d</span><span>S</span><span>Q</span><span>p</span><span>O</span><span>o</span><span>n</span><span>h</span><span>s</span><span>o</span><span>r</span><span>t</span><span>i</span><span>e</span><span>d</span></span>
    </li>
    <li class="s-item">
      <span class="s-item__detail">Sponsored</span>
      <span>no link at all</span>
    </li>
    <li class="s-item">
      <a href="https://ebay.com/itm/not-a-number">words</a>
      <a href="https://ebay.com/itm/99999999999999999999999">too long</a>
      <a href="https://ebay.com/itm/42">CPU</a>
      <span class="s-item__detail">Brand new</span>
      <span>Sponsored</span>
    </li>
  </ul>
</div>
</body></html>"#;

#[test]
fn listing_of_results_page() {
    let entries = listing_from_html(RESULTS).unwrap();
    assert_eq!(
        entries,
        vec![
            Entry { id: 254625474154, sponsored: true },
            Entry { id: 42, sponsored: false },
        ]
    );
}

#[test]
fn results_page_without_main_content() {
    assert_eq!(
        listing_from_html("<html><body><div class=\"s-item\"></div></body></html>").err(),
        Some(ListingError::NoMainContent)
    );
    assert_eq!(listing_from_html("").err(), Some(ListingError::NoMainContent));
    assert_eq!(
        listing_from_html("<div id=\"mainContent\"><p>No exact matches found</p></div>").unwrap(),
        vec![]
    );
}

#[test]
fn selections_on_a_results_page() {
    let doc = Document::parse(RESULTS).unwrap();
    let items = marks(RESULTS, ".s-item");
    let main = marks(RESULTS, "#mainContent");
    let detail = marks(RESULTS, ".s-item__detail");
    assert_eq!(items.len(), doc.len());
    assert_eq!(select(&doc, &items, 0).len(), 4);
    let at = select_first(&doc, &main, 0).unwrap();
    let boxes = select(&doc, &items, at);
    assert_eq!(boxes.len(), 3);
    assert_eq!(item_at(&doc, boxes[0]), Some(254625474154));
    assert_eq!(item_at(&doc, boxes[1]), None);
    assert_eq!(item_at(&doc, boxes[2]), Some(42));
    assert!(sponsored_at(&doc, &detail, boxes[0]));
    assert!(sponsored_at(&doc, &detail, boxes[1]));
    assert!(!sponsored_at(&doc, &detail, boxes[2]));
    assert!(marks(RESULTS, "li[").is_empty());
    assert!(select_first(&doc, &marks(RESULTS, ".missing"), 0).is_none());
}

#[test]
fn default_product_is_empty() {
    let p = Product::default();
    assert!(p.name.is_empty() && p.seller.is_none() && p.price.is_none() && p.sponsored.is_none());
}
