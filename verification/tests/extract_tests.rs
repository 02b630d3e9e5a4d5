use iplayer_catalog::dom::Attr;
use iplayer_catalog::dom::DocNode;
use iplayer_catalog::dom::IplayerDocument;
use iplayer_catalog::dom::Locator;
use iplayer_catalog::dom::Selector;
use iplayer_catalog::extract::IplayerNode;
use iplayer_catalog::extract::IplayerSelection;
use iplayer_catalog::extract::Programme;
use iplayer_catalog::schema::Field;
use iplayer_catalog::schema::Schema;

fn node(tag: &str, classes: &[&str], attrs: &[(&str, &str)], text: &str, parent: usize) -> DocNode {
    DocNode {
        tag: tag.to_string(),
        classes: classes.iter().map(|c| c.to_string()).collect(),
        attrs: attrs
            .iter()
            .map(|(n, v)| Attr { name: n.to_string(), value: v.to_string() })
            .collect(),
        text: text.to_string(),
        parent,
    }
}

fn class(c: &str) -> Selector {
    Selector::Class(c.to_string())
}

fn tag(t: &str) -> Selector {
    Selector::Tag(t.to_string())
}

fn loc(sels: Vec<Selector>) -> Locator {
    Locator { path: sels }
}

fn test_schema() -> Schema {
    Schema {
        entry: loc(vec![class("content-item")]),
        title: loc(vec![class("content-item__title")]),
        subtitle: Some(loc(vec![
            class("content-item__info-primary"),
            class("content-item__description"),
        ])),
        synopsis: loc(vec![
            class("content-item__info__secondary"),
            class("content-item__description"),
        ]),
        thumbnail: loc(vec![class("rs-image"), tag("picture"), tag("source")]),
        link: loc(vec![tag("a")]),
        pointer: loc(vec![class("lnk")]),
        id_attr: Some("data-ip-id".to_string()),
        id_link_attr: Some("data-ip-id".to_string()),
        pagination: loc(vec![class("page"), tag("a")]),
    }
}

const ORIGIN: &str = "http://www.bbc.co.uk";

fn new_doc() -> Vec<DocNode> {
    vec![node("html", &[], &[], "", 0)]
}

fn add_item_entry(
    nodes: &mut Vec<DocNode>,
    title: &str,
    subtitle: Option<&str>,
    synopsis: &str,
    href: &str,
    srcset: &str,
    id: Option<&str>,
) -> usize {
    let e = nodes.len();
    let id_attrs: Vec<(&str, &str)> = match id {
        Some(v) => vec![("data-ip-id", v)],
        None => vec![],
    };
    nodes.push(node("div", &["content-item"], &id_attrs, "", 0));
    nodes.push(node("div", &["content-item__title"], &[], title, e));
    if let Some(st) = subtitle {
        let p = nodes.len();
        nodes.push(node("div", &["content-item__info-primary"], &[], "", e));
        nodes.push(node("div", &["content-item__description"], &[], st, p));
    }
    let p2 = nodes.len();
    nodes.push(node("div", &["content-item__info__secondary"], &[], "", e));
    nodes.push(node("div", &["content-item__description"], &[], synopsis, p2));
    nodes.push(node("a", &[], &[("href", href)], "", e));
    let ri = nodes.len();
    nodes.push(node("div", &["rs-image"], &[], "", e));
    let pi = nodes.len();
    nodes.push(node("picture", &[], &[], "", ri));
    nodes.push(node("source", &[], &[("srcset", srcset)], "", pi));
    e
}

fn add_pointer_entry(nodes: &mut Vec<DocNode>, target: &str) -> usize {
    let e = nodes.len();
    nodes.push(node("div", &["content-item"], &[], "", 0));
    nodes.push(node("div", &["lnk"], &[("href", target)], "view more", e));
    e
}

fn add_pagination(nodes: &mut Vec<DocNode>, target: &str) {
    let p = nodes.len();
    nodes.push(node("div", &["page"], &[], "", 0));
    nodes.push(node("a", &[], &[("href", target)], "next", p));
}

fn doc_of(nodes: Vec<DocNode>) -> IplayerDocument {
    let doc = IplayerDocument { nodes };
    assert!(doc.check_wf());
    doc
}

#[test]
fn classify_item_and_pointer_exclusive() {
    let mut nodes = new_doc();
    let item = add_item_entry(
        &mut nodes,
        "A Title",
        Some("A Subtitle"),
        "A synopsis.",
        "/iplayer/episode/e1",
        "thumb1.jpg 100w, thumb2.jpg 200w",
        Some("p001"),
    );
    let ptr = add_pointer_entry(&mut nodes, "/iplayer/episodes/more");
    let doc = doc_of(nodes);
    let schema = test_schema();

    let item_node = IplayerNode { doc: &doc, node: item };
    match IplayerSelection::new(item_node, &schema, ORIGIN) {
        Ok(IplayerSelection::Programme(p)) => {
            assert_eq!(p.title, "A Title");
            assert_eq!(p.id, "p001");
        }
        other => panic!("expected a programme, got {:?}", other.is_ok()),
    }

    let ptr_node = IplayerNode { doc: &doc, node: ptr };
    match IplayerSelection::new(ptr_node, &schema, ORIGIN) {
        Ok(IplayerSelection::ExtraProgPage(t)) => {
            assert_eq!(t, "/iplayer/episodes/more");
        }
        other => panic!("expected a pointer, got {:?}", other.is_ok()),
    }
}

#[test]
fn pointer_with_empty_link_is_extracted_as_item() {
    let mut nodes = new_doc();
    let e = add_item_entry(
        &mut nodes,
        "T",
        None,
        "S",
        "/x",
        "t.jpg 10w",
        Some("id9"),
    );
    // an empty pointer link is not a present, non-empty link
    nodes.push(node("div", &["lnk"], &[("href", "")], "", e));
    let doc = doc_of(nodes);
    let inode = IplayerNode { doc: &doc, node: e };
    match IplayerSelection::new(inode, &test_schema(), ORIGIN) {
        Ok(IplayerSelection::Programme(p)) => assert_eq!(p.id, "id9"),
        _ => panic!("expected a programme"),
    }
}

#[test]
fn extraction_error_title() {
    let mut nodes = new_doc();
    let e = nodes.len();
    nodes.push(node("div", &["content-item"], &[], "", 0));
    nodes.push(node("a", &[], &[("href", "/x")], "", e));
    let doc = doc_of(nodes);
    let inode = IplayerNode { doc: &doc, node: e };
    let err = Programme::new(inode, &test_schema(), ORIGIN).unwrap_err();
    assert_eq!(err.field, Field::Title);
}

#[test]
fn extraction_error_synopsis() {
    let mut nodes = new_doc();
    let e = nodes.len();
    nodes.push(node("div", &["content-item"], &[], "", 0));
    nodes.push(node("div", &["content-item__title"], &[], "T", e));
    let doc = doc_of(nodes);
    let inode = IplayerNode { doc: &doc, node: e };
    let err = Programme::new(inode, &test_schema(), ORIGIN).unwrap_err();
    assert_eq!(err.field, Field::Synopsis);
}

#[test]
fn extraction_error_link() {
    let mut nodes = new_doc();
    let e = nodes.len();
    nodes.push(node("div", &["content-item"], &[], "", 0));
    nodes.push(node("div", &["content-item__title"], &[], "T", e));
    let p2 = nodes.len();
    nodes.push(node("div", &["content-item__info__secondary"], &[], "", e));
    nodes.push(node("div", &["content-item__description"], &[], "S", p2));
    let doc = doc_of(nodes);
    let inode = IplayerNode { doc: &doc, node: e };
    let err = Programme::new(inode, &test_schema(), ORIGIN).unwrap_err();
    assert_eq!(err.field, Field::Link);
}

#[test]
fn extraction_error_thumbnail_missing_and_empty() {
    // no source node at all
    let mut nodes = new_doc();
    let e = nodes.len();
    nodes.push(node("div", &["content-item"], &[], "", 0));
    nodes.push(node("div", &["content-item__title"], &[], "T", e));
    let p2 = nodes.len();
    nodes.push(node("div", &["content-item__info__secondary"], &[], "", e));
    nodes.push(node("div", &["content-item__description"], &[], "S", p2));
    nodes.push(node("a", &[], &[("href", "/x")], "", e));
    let doc = doc_of(nodes);
    let inode = IplayerNode { doc: &doc, node: e };
    let err = Programme::new(inode, &test_schema(), ORIGIN).unwrap_err();
    assert_eq!(err.field, Field::Thumbnail);

    // a responsive-image set with no candidate at all
    let mut nodes2 = new_doc();
    let e2 = add_item_entry(&mut nodes2, "T", None, "S", "/x", "   ", Some("i"));
    let doc2 = doc_of(nodes2);
    let inode2 = IplayerNode { doc: &doc2, node: e2 };
    let err2 = Programme::new(inode2, &test_schema(), ORIGIN).unwrap_err();
    assert_eq!(err2.field, Field::Thumbnail);
}

#[test]
fn extraction_error_id() {
    let mut nodes = new_doc();
    let e = add_item_entry(&mut nodes, "T", None, "S", "/x", "t.jpg 10w", None);
    let doc = doc_of(nodes);
    let inode = IplayerNode { doc: &doc, node: e };
    let err = Programme::new(inode, &test_schema(), ORIGIN).unwrap_err();
    assert_eq!(err.field, Field::Id);
}

#[test]
fn id_fallback_chain() {
    // own attribute wins
    let mut nodes = new_doc();
    nodes[0]
        .attrs
        .push(Attr { name: "data-ip-id".to_string(), value: "from-parent".to_string() });
    let e = add_item_entry(&mut nodes, "T", None, "S", "/x", "t.jpg 10w", Some("own"));
    let doc = doc_of(nodes);
    let p = Programme::new(IplayerNode { doc: &doc, node: e }, &test_schema(), ORIGIN).unwrap();
    assert_eq!(p.id, "own");

    // then the parent's attribute
    let mut nodes2 = new_doc();
    nodes2[0]
        .attrs
        .push(Attr { name: "data-ip-id".to_string(), value: "from-parent".to_string() });
    let e2 = add_item_entry(&mut nodes2, "T", None, "S", "/x", "t.jpg 10w", None);
    let doc2 = doc_of(nodes2);
    let p2 = Programme::new(IplayerNode { doc: &doc2, node: e2 }, &test_schema(), ORIGIN).unwrap();
    assert_eq!(p2.id, "from-parent");

    // then a data attribute on the embedded link
    let mut nodes3 = new_doc();
    let e3 = nodes3.len();
    nodes3.push(node("div", &["content-item"], &[], "", 0));
    nodes3.push(node("div", &["content-item__title"], &[], "T", e3));
    let p4 = nodes3.len();
    nodes3.push(node("div", &["content-item__info__secondary"], &[], "", e3));
    nodes3.push(node("div", &["content-item__description"], &[], "S", p4));
    nodes3.push(node("a", &[], &[("href", "/x"), ("data-ip-id", "from-link")], "", e3));
    let ri = nodes3.len();
    nodes3.push(node("div", &["rs-image"], &[], "", e3));
    let pi = nodes3.len();
    nodes3.push(node("picture", &[], &[], "", ri));
    nodes3.push(node("source", &[], &[("srcset", "t.jpg 10w")], "", pi));
    let doc3 = doc_of(nodes3);
    let p3 = Programme::new(IplayerNode { doc: &doc3, node: e3 }, &test_schema(), ORIGIN).unwrap();
    assert_eq!(p3.id, "from-link");
}

#[test]
fn subtitle_is_optional() {
    let mut nodes = new_doc();
    let with = add_item_entry(
        &mut nodes,
        "T1",
        Some("Sub"),
        "S1",
        "/a",
        "t.jpg 10w",
        Some("i1"),
    );
    let without = add_item_entry(&mut nodes, "T2", None, "S2", "/b", "t.jpg 10w", Some("i2"));
    let doc = doc_of(nodes);
    let schema = test_schema();
    let p1 = Programme::new(IplayerNode { doc: &doc, node: with }, &schema, ORIGIN).unwrap();
    assert_eq!(p1.subtitle, Some("Sub".to_string()));
    let p2 = Programme::new(IplayerNode { doc: &doc, node: without }, &schema, ORIGIN).unwrap();
    assert_eq!(p2.subtitle, None);

    // a schema that locates no subtitles reads none even when present
    let mut schema2 = test_schema();
    schema2.subtitle = None;
    let p3 = Programme::new(IplayerNode { doc: &doc, node: with }, &schema2, ORIGIN).unwrap();
    assert_eq!(p3.subtitle, None);
}

#[test]
fn url_absolutization_in_extraction() {
    let mut nodes = new_doc();
    let rel = add_item_entry(&mut nodes, "T1", None, "S", "/iplayer/x", "t.jpg 1w", Some("a"));
    let abs = add_item_entry(
        &mut nodes,
        "T2",
        None,
        "S",
        "http://www.bbc.co.uk/iplayer/y",
        "t.jpg 1w",
        Some("b"),
    );
    let doc = doc_of(nodes);
    let schema = test_schema();
    let p1 = Programme::new(IplayerNode { doc: &doc, node: rel }, &schema, "http://example.test")
        .unwrap();
    assert_eq!(p1.url, "http://example.test/iplayer/x");
    let p2 = Programme::new(IplayerNode { doc: &doc, node: abs }, &schema, "http://example.test")
        .unwrap();
    assert_eq!(p2.url, "http://www.bbc.co.uk/iplayer/y");
}

#[test]
fn new_from_program_page_takes_title() {
    let mut nodes = new_doc();
    let e = add_item_entry(&mut nodes, "ignored", None, "Syn", "/x", "pic.jpg 5w", Some("pp1"));
    let doc = doc_of(nodes);
    let p = Programme::new_from_program_page(
        IplayerNode { doc: &doc, node: e },
        &test_schema(),
        ORIGIN,
        "Hero Title".to_string(),
    )
    .unwrap();
    assert_eq!(p.title, "Hero Title");
    assert_eq!(p.synopsis, "Syn");
    assert_eq!(p.id, "pp1");
    assert_eq!(p.thumbnail, "pic.jpg");
}

#[test]
fn selection_results_and_next_pages() {
    let mut nodes = new_doc();
    add_item_entry(&mut nodes, "T1", None, "S1", "/a", "t.jpg 1w", Some("i1"));
    add_pointer_entry(&mut nodes, "/more/1");
    add_item_entry(&mut nodes, "T2", None, "S2", "/b", "t.jpg 1w", Some("i2"));
    add_pagination(&mut nodes, "page2.html");
    // a pagination link with an empty target is dropped
    add_pagination(&mut nodes, "");
    let doc = doc_of(nodes);
    let schema = test_schema();

    let sels = doc.selection_results(&schema, ORIGIN);
    assert_eq!(sels.len(), 3);
    assert!(matches!(&sels[0], Ok(IplayerSelection::Programme(p)) if p.title == "T1"));
    assert!(matches!(&sels[1], Ok(IplayerSelection::ExtraProgPage(t)) if t == "/more/1"));
    assert!(matches!(&sels[2], Ok(IplayerSelection::Programme(p)) if p.title == "T2"));

    let pages = doc.next_pages(&schema);
    assert_eq!(pages, vec!["page2.html".to_string()]);
}

#[test]
fn schema_validation_errors() {
    let empty = loc(vec![]);

    let mut parts = test_schema();
    parts.entry = loc(vec![]);
    assert_eq!(Schema::new(parts).unwrap_err().field, Field::Entry);

    let mut parts = test_schema();
    parts.title = loc(vec![]);
    assert_eq!(Schema::new(parts).unwrap_err().field, Field::Title);

    let mut parts = test_schema();
    parts.subtitle = Some(empty);
    assert_eq!(Schema::new(parts).unwrap_err().field, Field::Subtitle);

    let mut parts = test_schema();
    parts.synopsis = loc(vec![]);
    assert_eq!(Schema::new(parts).unwrap_err().field, Field::Synopsis);

    let mut parts = test_schema();
    parts.thumbnail = loc(vec![]);
    assert_eq!(Schema::new(parts).unwrap_err().field, Field::Thumbnail);

    let mut parts = test_schema();
    parts.link = loc(vec![]);
    assert_eq!(Schema::new(parts).unwrap_err().field, Field::Link);

    let mut parts = test_schema();
    parts.pointer = loc(vec![]);
    assert_eq!(Schema::new(parts).unwrap_err().field, Field::Pointer);

    let mut parts = test_schema();
    parts.id_attr = Some(String::new());
    assert_eq!(Schema::new(parts).unwrap_err().field, Field::Id);

    let mut parts = test_schema();
    parts.pagination = loc(vec![]);
    assert_eq!(Schema::new(parts).unwrap_err().field, Field::Pagination);

    let ok = Schema::new(test_schema());
    assert!(ok.is_ok());
    // absent optional parts are valid too
    let mut parts = test_schema();
    parts.subtitle = None;
    parts.id_attr = None;
    parts.id_link_attr = None;
    assert!(Schema::new(parts).is_ok());
}
