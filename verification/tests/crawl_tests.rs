use iplayer_catalog::catalog::CrawlTarget;
use iplayer_catalog::catalog::ProgrammeDB;
use iplayer_catalog::crawl::CrawlSession;
use iplayer_catalog::crawl::DocumentStore;
use iplayer_catalog::crawl::StoreEntry;
use iplayer_catalog::crawl::crawl;
use iplayer_catalog::dom::Attr;
use iplayer_catalog::dom::DocNode;
use iplayer_catalog::dom::IplayerDocument;
use iplayer_catalog::dom::Locator;
use iplayer_catalog::dom::Selector;
use iplayer_catalog::schema::Field;
use iplayer_catalog::schema::Schema;

fn node(tag: &str, classes: &[&str], attrs: &[(&str, &str)], text: &str, parent: usize) -> DocNode {
    DocNode {
        tag: tag.to_string(),
        classes: classes.iter().map(|c| c.to_string()).collect(),
        attrs: attrs
            .iter()
            .map(|(n, v)| Attr { name: n.to_string(), value: v.to_string() })
            .collect(),
        text: text.to_string(),
        parent,
    }
}

fn class(c: &str) -> Selector {
    Selector::Class(c.to_string())
}

fn tag(t: &str) -> Selector {
    Selector::Tag(t.to_string())
}

fn loc(sels: Vec<Selector>) -> Locator {
    Locator { path: sels }
}

fn test_schema() -> Schema {
    Schema {
        entry: loc(vec![class("content-item")]),
        title: loc(vec![class("content-item__title")]),
        subtitle: None,
        synopsis: loc(vec![
            class("content-item__info__secondary"),
            class("content-item__description"),
        ]),
        thumbnail: loc(vec![class("rs-image"), tag("picture"), tag("source")]),
        link: loc(vec![tag("a")]),
        pointer: loc(vec![class("lnk")]),
        id_attr: Some("data-ip-id".to_string()),
        id_link_attr: None,
        pagination: loc(vec![class("page"), tag("a")]),
    }
}

const ORIGIN: &str = "http://example.test";

fn new_doc() -> Vec<DocNode> {
    vec![node("html", &[], &[], "", 0)]
}

fn add_item_entry(nodes: &mut Vec<DocNode>, title: &str, id: &str) {
    let e = nodes.len();
    nodes.push(node("div", &["content-item"], &[("data-ip-id", id)], "", 0));
    nodes.push(node("div", &["content-item__title"], &[], title, e));
    let p2 = nodes.len();
    nodes.push(node("div", &["content-item__info__secondary"], &[], "", e));
    nodes.push(node("div", &["content-item__description"], &[], "synopsis", p2));
    nodes.push(node("a", &[], &[("href", "/ep")], "", e));
    let ri = nodes.len();
    nodes.push(node("div", &["rs-image"], &[], "", e));
    let pi = nodes.len();
    nodes.push(node("picture", &[], &[], "", ri));
    nodes.push(node("source", &[], &[("srcset", "t.jpg 1w")], "", pi));
}

fn add_pointer_entry(nodes: &mut Vec<DocNode>, target: &str) {
    let e = nodes.len();
    nodes.push(node("div", &["content-item"], &[], "", 0));
    nodes.push(node("div", &["lnk"], &[("href", target)], "view more", e));
}

fn add_pagination(nodes: &mut Vec<DocNode>, target: &str) {
    let p = nodes.len();
    nodes.push(node("div", &["page"], &[], "", 0));
    nodes.push(node("a", &[], &[("href", target)], "next", p));
}

fn doc_of(nodes: Vec<DocNode>) -> IplayerDocument {
    let doc = IplayerDocument { nodes };
    assert!(doc.check_wf());
    doc
}

fn store_of(entries: Vec<(&str, IplayerDocument)>) -> DocumentStore {
    let store = DocumentStore {
        entries: entries
            .into_iter()
            .map(|(u, d)| StoreEntry { url: u.to_string(), doc: d })
            .collect(),
    };
    assert!(store.check_wf());
    store
}

/// One subpage holding exactly one further item.
fn subpage(title: &str, id: &str) -> IplayerDocument {
    let mut nodes = new_doc();
    add_item_entry(&mut nodes, title, id);
    doc_of(nodes)
}

/// A root listing page with 4 direct items and 13 pointers to distinct
/// subpages.
fn scenario_root() -> IplayerDocument {
    let mut nodes = new_doc();
    for i in 0..4 {
        add_item_entry(&mut nodes, &format!("root item {}", i), &format!("root-{}", i));
    }
    for i in 0..13 {
        add_pointer_entry(&mut nodes, &format!("/sub/{}", i));
    }
    doc_of(nodes)
}

fn scenario_store(missing: &[usize]) -> DocumentStore {
    let mut entries: Vec<(String, IplayerDocument)> = Vec::new();
    entries.push(("/root".to_string(), scenario_root()));
    for i in 0..13 {
        if !missing.contains(&i) {
            entries.push((
                format!("/sub/{}", i),
                subpage(&format!("sub item {}", i), &format!("sub-{}", i)),
            ));
        }
    }
    let store = DocumentStore {
        entries: entries
            .into_iter()
            .map(|(u, d)| StoreEntry { url: u, doc: d })
            .collect(),
    };
    assert!(store.check_wf());
    store
}

#[test]
fn end_to_end_seventeen_items() {
    let store = scenario_store(&[]);
    let result = crawl(&store, &test_schema(), ORIGIN, "/root");
    assert_eq!(result.items.len(), 17);
    assert_eq!(result.failed.len(), 0);
    // the four root items come first, in discovery order
    for i in 0..4 {
        assert_eq!(result.items[i].id, format!("root-{}", i));
        assert_eq!(result.items[i].index, i);
    }
    // every subpage contributed its item exactly once
    for i in 0..13 {
        assert_eq!(
            result.items.iter().filter(|p| p.id == format!("sub-{}", i)).count(),
            1
        );
    }
}

#[test]
fn partial_failure_two_subpages() {
    let store = scenario_store(&[3, 7]);
    let result = crawl(&store, &test_schema(), ORIGIN, "/root");
    assert_eq!(result.items.len(), 15);
    assert_eq!(
        result.failed,
        vec!["/sub/3".to_string(), "/sub/7".to_string()]
    );
}

#[test]
fn dedup_across_pages() {
    // the same identifier on the root page and on a deeper page
    let mut root = new_doc();
    add_item_entry(&mut root, "first seen", "dup");
    add_pointer_entry(&mut root, "/deep");
    let mut deep = new_doc();
    add_item_entry(&mut deep, "seen again", "dup");
    add_item_entry(&mut deep, "fresh", "other");
    let store = store_of(vec![("/root", doc_of(root)), ("/deep", doc_of(deep))]);

    let result = crawl(&store, &test_schema(), ORIGIN, "/root");
    let dups: Vec<_> = result.items.iter().filter(|p| p.id == "dup").collect();
    assert_eq!(dups.len(), 1);
    // the first occurrence wins
    assert_eq!(dups[0].title, "first seen");
    assert_eq!(result.items.len(), 2);
}

#[test]
fn crawl_is_idempotent() {
    let store = scenario_store(&[5]);
    let first = crawl(&store, &test_schema(), ORIGIN, "/root");
    let second = crawl(&store, &test_schema(), ORIGIN, "/root");
    let ids1: Vec<&String> = first.items.iter().map(|p| &p.id).collect();
    let ids2: Vec<&String> = second.items.iter().map(|p| &p.id).collect();
    assert_eq!(ids1, ids2);
    assert_eq!(first.failed, second.failed);
}

#[test]
fn cyclic_pagination_terminates() {
    let mut page1 = new_doc();
    add_item_entry(&mut page1, "one", "a");
    add_pagination(&mut page1, "/p2");
    let mut page2 = new_doc();
    add_item_entry(&mut page2, "two", "b");
    add_pagination(&mut page2, "/p1");
    let store = store_of(vec![("/p1", doc_of(page1)), ("/p2", doc_of(page2))]);

    let result = crawl(&store, &test_schema(), ORIGIN, "/p1");
    assert_eq!(result.items.len(), 2);
    assert_eq!(result.failed.len(), 0);
}

#[test]
fn pagination_chain_is_followed() {
    let mut page1 = new_doc();
    add_item_entry(&mut page1, "one", "a");
    add_pagination(&mut page1, "films2.html");
    let mut page2 = new_doc();
    add_item_entry(&mut page2, "two", "b");
    let store = store_of(vec![("films1.html", doc_of(page1)), ("films2.html", doc_of(page2))]);

    let result = crawl(&store, &test_schema(), ORIGIN, "films1.html");
    assert_eq!(result.items.len(), 2);
    assert_eq!(result.items[1].id, "b");
    assert_eq!(result.items[1].index, 1);
}

#[test]
fn session_stepping_matches_crawl() {
    let store = scenario_store(&[3, 7]);
    let schema = test_schema();

    // drive the crawl by hand, as a live caller would around a fetch
    let mut sess = CrawlSession::new("/root");
    loop {
        let uri = match sess.next_fetch() {
            Some(u) => u,
            None => break,
        };
        let mut found: Option<&IplayerDocument> = None;
        for e in &store.entries {
            if e.url == uri {
                found = Some(&e.doc);
                break;
            }
        }
        match found {
            Some(doc) => sess.deliver_document(doc, &schema, ORIGIN),
            None => sess.deliver_failure(uri),
        }
    }
    let by_hand = sess.into_result();
    let at_once = crawl(&store, &schema, ORIGIN, "/root");
    assert_eq!(by_hand.items.len(), at_once.items.len());
    assert_eq!(by_hand.failed, at_once.failed);
    for (a, b) in by_hand.items.iter().zip(at_once.items.iter()) {
        assert_eq!(a.id, b.id);
        assert_eq!(a.index, b.index);
    }
}

#[test]
fn broken_entry_is_recorded_and_skipped() {
    // one entry with no title beside one sound item
    let mut root = new_doc();
    add_item_entry(&mut root, "good", "g1");
    let e = root.len();
    root.push(node("div", &["content-item"], &[], "", 0));
    root.push(node("a", &[], &[("href", "/broken")], "", e));
    let store = store_of(vec![("/root", doc_of(root))]);
    let result = crawl(&store, &test_schema(), ORIGIN, "/root");
    assert_eq!(result.items.len(), 1);
    assert_eq!(result.items[0].id, "g1");
    assert_eq!(result.failed.len(), 0);
    assert_eq!(result.entry_errors.len(), 1);
    assert_eq!(result.entry_errors[0].field, Field::Title);
}

#[test]
fn visited_uri_fetched_once() {
    // two pointers to one subpage: its item appears once
    let mut root = new_doc();
    add_pointer_entry(&mut root, "/same");
    add_pointer_entry(&mut root, "/same");
    let store = store_of(vec![("/root", doc_of(root)), ("/same", subpage("only", "o1"))]);
    let result = crawl(&store, &test_schema(), ORIGIN, "/root");
    assert_eq!(result.items.len(), 1);
    assert_eq!(result.failed.len(), 0);
}

#[test]
fn missing_root_is_the_only_failure() {
    let store = store_of(vec![]);
    let result = crawl(&store, &test_schema(), ORIGIN, "/nowhere");
    assert_eq!(result.items.len(), 0);
    assert_eq!(result.failed, vec!["/nowhere".to_string()]);
    assert_eq!(result.entry_errors.len(), 0);
}

#[test]
fn catalogue_from_store() {
    let food_store = scenario_store(&[2]);
    let mut films_root = new_doc();
    add_item_entry(&mut films_root, "a film", "f1");
    let mut entries = food_store.entries;
    entries.push(StoreEntry { url: "/films".to_string(), doc: doc_of(films_root) });
    let store = DocumentStore { entries };
    assert!(store.check_wf());

    let targets = vec![
        CrawlTarget { name: "Food".to_string(), root: "/root".to_string() },
        CrawlTarget { name: "Films".to_string(), root: "/films".to_string() },
    ];
    let (db, failures) = ProgrammeDB::from_store(&store, &test_schema(), ORIGIN, targets);
    assert_eq!(db.categories.len(), 2);
    assert_eq!(db.categories[0].name(), "Food");
    assert_eq!(db.categories[0].programmes().len(), 16);
    assert_eq!(db.categories[1].name(), "Films");
    assert_eq!(db.categories[1].programmes().len(), 1);
    assert_eq!(failures.len(), 2);
    assert_eq!(failures[0].failed, vec!["/sub/2".to_string()]);
    assert_eq!(failures[1].failed.len(), 0);
}
