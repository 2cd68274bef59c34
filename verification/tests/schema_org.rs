use datacollect::dom::Document;
use datacollect::schema_org::Scope;

const PAGE: &str = r#"
            <html>
                <head></head>
                <body>
                    <!-- from https://schema.org/docs/gs.html -->
                    <div itemscope itemtype="https://schema.org/Offer">
                        <span itemprop="name">Blend-O-Matic</span>
                        <span itemprop="price">$19.95</span>
                        <div itemprop="reviews" itemscope itemtype="https://schema.org/AggregateRating">
                            <img src="four-stars.jpg" />
                            <meta itemprop="ratingValue" content="4" />
                            <meta itemprop="bestRating" content="5" />
                            Based on <span itemprop="ratingCount">25</span> user ratings
                        </div>
                    </div>
                </body>
            </html>
        "#;

#[test]
fn do_tests() {
    let doc = Document::parse(PAGE).unwrap();

    let scope = Scope::find(&doc, "https://schema.org/Offer").unwrap();

    assert_eq!(scope.get_value("name").unwrap(), "Blend-O-Matic");
    assert_eq!(scope.get_value("price").unwrap(), "$19.95");

    let inner_scope = scope.select_prop("reviews").unwrap();
    assert_eq!(
        inner_scope
            .get_value("ratingValue")
            .unwrap()
            .parse::<u32>()
            .unwrap(),
        4
    );
    assert_eq!(
        inner_scope
            .get_value("bestRating")
            .unwrap()
            .parse::<u32>()
            .unwrap(),
        5
    );
    assert_eq!(
        inner_scope
            .get_value("ratingCount")
            .unwrap()
            .parse::<u32>()
            .unwrap(),
        25
    );
}

#[test]
fn schema_org_do_tests() {
    let doc = Document::parse(PAGE).unwrap();
    let scope = Scope::find(&doc, "https://schema.org/Offer").unwrap();
    assert_eq!(scope.get_value("name").unwrap(), "Blend-O-Matic");
    assert_eq!(scope.get_value("price").unwrap(), "$19.95");
    let inner_scope = scope.select_prop("reviews").unwrap();
    assert_eq!(inner_scope.get_value("ratingValue").unwrap().parse::<u32>().unwrap(), 4);
    assert_eq!(inner_scope.get_value("bestRating").unwrap().parse::<u32>().unwrap(), 5);
    assert_eq!(inner_scope.get_value("ratingCount").unwrap().parse::<u32>().unwrap(), 25);
}

#[test]
fn nested_scopes_are_reached_from_outside() {
    let doc = Document::parse(PAGE).unwrap();
    let scope = Scope::find(&doc, "https://schema.org/Offer").unwrap();
    assert_eq!(scope.get_value("ratingCount").unwrap(), "25");
    assert_eq!(scope.get_value("ratingValue").unwrap(), "4");
    assert!(scope.get_value("missing").is_none());
    assert!(Scope::find(&doc, "https://schema.org/Person").is_none());
    let inner = scope.select_type("https://schema.org/AggregateRating").unwrap();
    assert!(inner.get_value("name").is_none());
    assert!(inner.select_type("https://schema.org/AggregateRating").is_none());
}

#[test]
fn get_value_gives_the_same_value_again() {
    let doc = Document::parse(PAGE).unwrap();
    let scope = Scope::find(&doc, "https://schema.org/Offer").unwrap();
    for prop in ["name", "price", "reviews", "ratingValue", "missing"] {
        assert_eq!(scope.get_value(prop), scope.get_value(prop));
    }
}

#[test]
fn values_come_in_document_order() {
    let doc = Document::parse(
        r#"<div itemscope itemtype="t"><p itemprop="x">one</p><div><p itemprop="x" content="two">ignored</p></div><p itemprop="x">th<b>r</b>ee</p><p itemprop="y">no</p></div>"#,
    ).unwrap();
    let scope = Scope::find(&doc, "t").unwrap();
    assert_eq!(scope.get_values("x"), vec!["one", "two", "three"]);
    assert_eq!(scope.select_props("x").len(), 3);
    assert_eq!(scope.select_types("t").len(), 0);
    let root = Scope::new(&doc, 0);
    assert_eq!(root.select_types("t").len(), 1);
    assert_eq!(root.select_types("t")[0].node, scope.node);
}

#[test]
fn document_nodes_follow_the_tree() {
    let doc = Document::parse("<p id=a>x<b>y</b></p><i>z</i>").unwrap();
    let body = Document::select_flags("<p id=a>x<b>y</b></p><i>z</i>", "body").unwrap();
    assert_eq!(body.len(), doc.len());
    let at = Document::first_flagged(&body, 0, doc.len()).unwrap();
    assert_eq!(doc.text_contents(at), "xyz");
    let kids = doc.children(at);
    assert_eq!(kids.len(), 2);
    assert_eq!(doc.attribute(kids[0], "id"), Some("a"));
    assert_eq!(doc.attribute(kids[1], "id"), None);
    assert_eq!(doc.text_contents(kids[0]), "xy");
    assert_eq!(doc.text_contents(kids[1]), "z");
    assert_eq!(doc.children(kids[0]).len(), 2);
    assert_eq!(doc.subtree_end(0), doc.len());
    assert!(Document::select_flags("<p>", "p[").is_none());
}
