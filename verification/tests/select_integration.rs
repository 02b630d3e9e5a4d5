//! The library against a real markup parser: an HTML page is parsed by
//! the select crate, converted to the library's plain document model,
//! and extracted as usual.

use iplayer_catalog::dom::Attr;
use iplayer_catalog::dom::DocNode;
use iplayer_catalog::dom::IplayerDocument;
use iplayer_catalog::dom::Locator;
use iplayer_catalog::dom::Selector;
use iplayer_catalog::extract::IplayerSelection;
use iplayer_catalog::schema::Schema;

/// Flatten a parsed HTML document into the library's node arena: one
/// record per element, in document order, each holding its tag,
/// classes, attributes, text content and nearest element ancestor.
fn convert(sdoc: &select::document::Document) -> IplayerDocument {
    let mut nodes = vec![DocNode {
        tag: "#root".to_string(),
        classes: vec![],
        attrs: vec![],
        text: String::new(),
        parent: 0,
    }];
    let mut arena_of: Vec<Option<usize>> = vec![None; sdoc.nodes.len()];
    for i in 0..sdoc.nodes.len() {
        let n = select::node::Node::new(sdoc, i).unwrap();
        let name = match n.name() {
            Some(name) => name,
            None => continue,
        };
        let mut parent_arena = 0;
        let mut up = n.parent();
        while let Some(pn) = up {
            if let Some(idx) = arena_of[pn.index()] {
                parent_arena = idx;
                break;
            }
            up = pn.parent();
        }
        let classes: Vec<String> = n
            .attr("class")
            .map(|c| c.split_whitespace().map(|s| s.to_string()).collect())
            .unwrap_or_default();
        let attrs: Vec<Attr> = n
            .attrs()
            .map(|(an, av)| Attr { name: an.to_string(), value: av.to_string() })
            .collect();
        let arena_idx = nodes.len();
        if parent_arena >= arena_idx {
            parent_arena = 0;
        }
        nodes.push(DocNode {
            tag: name.to_string(),
            classes,
            attrs,
            text: n.text(),
            parent: parent_arena,
        });
        arena_of[i] = Some(arena_idx);
    }
    IplayerDocument { nodes }
}

fn class(c: &str) -> Selector {
    Selector::Class(c.to_string())
}

fn tag(t: &str) -> Selector {
    Selector::Tag(t.to_string())
}

fn schema() -> Schema {
    Schema {
        entry: Locator { path: vec![class("content-item")] },
        title: Locator { path: vec![class("content-item__title")] },
        subtitle: Some(Locator {
            path: vec![class("content-item__info-primary"), class("content-item__description")],
        }),
        synopsis: Locator {
            path: vec![class("content-item__info__secondary"), class("content-item__description")],
        },
        thumbnail: Locator { path: vec![class("rs-image"), tag("picture"), tag("source")] },
        link: Locator { path: vec![tag("a")] },
        pointer: Locator { path: vec![class("lnk")] },
        id_attr: Some("data-ip-id".to_string()),
        id_link_attr: None,
        pagination: Locator { path: vec![class("page"), tag("a")] },
    }
}

const PAGE: &str = r#"<html><body>
<h1>Food</h1>
<div class="content-item" data-ip-id="b0b53xqs">
  <div class="content-item__title">The Big Crash Diet Experiment</div>
  <div class="content-item__info-primary"><div class="content-item__description">Series 1</div></div>
  <div class="content-item__info__secondary"><div class="content-item__description">Crash dieting, tested.</div></div>
  <a href="/iplayer/episode/b0b53xqs/the-big-crash-diet-experiment"></a>
  <div class="rs-image"><picture><source srcset="https://img.test/304x171/a.jpg 304w, https://img.test/608x342/a.jpg 608w"></picture></div>
</div>
<div class="content-item">
  <div class="lnk" href="testhtml/britains_best_home_cook.html">View all</div>
</div>
<div class="page"><a href="food2.html">2</a></div>
</body></html>"#;

#[test]
fn extraction_from_parsed_html() {
    let sdoc = select::document::Document::from(PAGE);
    let doc = convert(&sdoc);
    assert!(doc.check_wf());

    let s = schema();
    let sels = doc.selection_results(&s, "http://www.bbc.co.uk");
    assert_eq!(sels.len(), 2);
    match &sels[0] {
        Ok(IplayerSelection::Programme(p)) => {
            assert_eq!(p.title, "The Big Crash Diet Experiment");
            assert_eq!(p.subtitle, Some("Series 1".to_string()));
            assert_eq!(p.synopsis, "Crash dieting, tested.");
            assert_eq!(p.id, "b0b53xqs");
            assert_eq!(
                p.url,
                "http://www.bbc.co.uk/iplayer/episode/b0b53xqs/the-big-crash-diet-experiment"
            );
            assert_eq!(p.thumbnail, "https://img.test/304x171/a.jpg");
        }
        _ => panic!("expected a programme"),
    }
    match &sels[1] {
        Ok(IplayerSelection::ExtraProgPage(t)) => {
            assert_eq!(t, "testhtml/britains_best_home_cook.html")
        }
        _ => panic!("expected a pointer"),
    }

    let pages = doc.next_pages(&s);
    assert_eq!(pages, vec!["food2.html".to_string()]);
}
