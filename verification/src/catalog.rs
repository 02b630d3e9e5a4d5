//! The catalogue aggregate: named categories of programmes plus a
//! snapshot timestamp, built fresh each crawl run and never mutated in
//! place. One category is crawled per configured root URI; one
//! category's failures never block another's crawl.

use vstd::prelude::*;
use crate::crawl::CrawlResult;
use crate::crawl::DocumentStore;
use crate::crawl::crawl;
use crate::crawl::spec_crawl;
use crate::crawl::unique_ids;
use crate::dom::IplayerDocument;
use crate::extract::Programme;
use crate::extract::ProgrammeView;
use crate::schema::ExtractionError;
use crate::schema::Schema;

verus! {

/// One page unreachable or unparsable: the URI it stands under and the
/// collaborator's reason. Recorded per category; the crawl continues.
pub struct FetchError {
    pub uri: String,
    pub cause: String,
}

/// The collaborator that turns a URI into a parsed document: a live
/// network fetch or a static fixture loader, the library is agnostic
/// to which is wired in. Nothing is promised of the outcome; the
/// crawler states what holds whatever comes back.
pub trait DocumentLoader {
    fn load_document(&self) -> Result<IplayerDocument, FetchError>;
}

/// A URI on the live listing site.
pub struct BeebURL<'a> {
    pub url: &'a str,
}

/// A URI naming a local test fixture.
pub struct TestHTMLURL<'a> {
    pub url: &'a str,
}

/// One named category of programmes, created once per root listing URI
/// and only ever appended to while that root is crawled.
pub struct Category {
    name: String,
    programmes: Vec<Programme>,
}

pub ghost struct CategoryView {
    pub name: Seq<char>,
    pub programmes: Seq<ProgrammeView>,
}

impl View for Category {
    type V = CategoryView;

    closed spec fn view(&self) -> CategoryView {
        CategoryView {
            name: self.name@,
            programmes: self.programmes@.map_values(|p: Programme| p@),
        }
    }
}

impl Category {
    /// A category from its name and programmes.
    pub fn new(name: String, programmes: Vec<Programme>) -> (r: Category)
        ensures
            r@.name == name@,
            r@.programmes == programmes@.map_values(|p: Programme| p@),
    {
        Category { name, programmes }
    }

    /// The category's name.
    pub fn name(&self) -> (r: &String)
        ensures
            r@ == self@.name,
    {
        &self.name
    }

    /// The category's programmes, in discovery order.
    pub fn programmes(&self) -> (r: &Vec<Programme>)
        ensures
            r@.map_values(|p: Programme| p@) == self@.programmes,
    {
        &self.programmes
    }
}

/// One category's failure report: the URIs whose fetch failed and the
/// extraction failures of skipped entries, under the category's name.
pub struct CategoryFailures {
    pub name: String,
    pub failed: Vec<String>,
    pub entry_errors: Vec<ExtractionError>,
}

/// One category to crawl: its name and its root listing URI.
pub struct CrawlTarget {
    pub name: String,
    pub root: String,
}

/// The milliseconds since the Unix epoch, or zero for a clock before
/// it. Relies on std::time::SystemTime::now and duration_since: the
/// value depends on the wall clock, so nothing is promised of it.
#[verifier::external_body]
fn now_millis() -> u64 {
    match std::time::SystemTime::now().duration_since(std::time::UNIX_EPOCH) {
        Ok(d) => d.as_millis() as u64,
        Err(_) => 0,
    }
}

/// The terminal catalogue: every crawled category plus the snapshot
/// time, immutable once constructed and replaced rather than mutated.
pub struct ProgrammeDB {
    pub categories: Vec<Category>,
    pub saved: u64,
}

impl ProgrammeDB {
    /// A catalogue of the given categories, stamped with the time of
    /// construction; nothing is stated of the stamp, which the wall
    /// clock decides.
    pub fn new(cats: Vec<Category>) -> (r: ProgrammeDB)
        ensures
            r.categories@.map_values(|c: Category| c@) == cats@.map_values(|c: Category| c@),
    {
        ProgrammeDB { categories: cats, saved: now_millis() }
    }

    /// Crawl every configured root over one fixed store and assemble
    /// the catalogue: one category per target, each holding exactly the
    /// programmes its crawl resolved, deduplicated by identifier,
    /// beside the per-category failed URIs. Categories are independent:
    /// one category's failures never block another's crawl.
    pub fn from_store(
        store: &DocumentStore,
        schema: &Schema,
        origin: &str,
        targets: Vec<CrawlTarget>,
    ) -> (r: (ProgrammeDB, Vec<CategoryFailures>))
        requires
            store.wf(),
        ensures
            r.0.categories@.len() == targets@.len(),
            r.1@.len() == targets@.len(),
            forall|i: int|
                0 <= i < targets@.len() ==> {
                    let fin = spec_crawl(
                        store@,
                        schema@,
                        origin@,
                        (#[trigger] targets@[i]).root@,
                    );
                    &&& r.0.categories@[i]@.name == targets@[i].name@
                    &&& r.0.categories@[i]@.programmes == fin.items
                    &&& unique_ids(r.0.categories@[i]@.programmes)
                    &&& r.1@[i].name@ == targets@[i].name@
                    &&& r.1@[i].failed@.map_values(|s: String| s@) == fin.failed
                    &&& r.1@[i].entry_errors@ == fin.entry_errors
                },
    {
        let mut cats: Vec<Category> = Vec::new();
        let mut fails: Vec<CategoryFailures> = Vec::new();
        let mut targets = targets;
        let ghost all = targets@;
        let tlen = targets.len();
        proof {
            assert(all.len() == tlen);
        }
        let mut i: usize = 0;
        while targets.len() > 0
            invariant
                store.wf(),
                all.len() <= usize::MAX,
                i + targets@.len() == all.len(),
                targets@ =~= all.skip(i as int),
                cats@.len() == i,
                fails@.len() == i,
                forall|k: int|
                    0 <= k < i ==> {
                        let fin = spec_crawl(
                            store@,
                            schema@,
                            origin@,
                            (#[trigger] all[k]).root@,
                        );
                        &&& cats@[k]@.name == all[k].name@
                        &&& cats@[k]@.programmes == fin.items
                        &&& unique_ids(cats@[k]@.programmes)
                        &&& fails@[k].name@ == all[k].name@
                        &&& fails@[k].failed@.map_values(|s: String| s@) == fin.failed
                        &&& fails@[k].entry_errors@ == fin.entry_errors
                    },
            decreases targets.len(),
        {
            let t = targets.remove(0);
            proof {
                assert(all.skip(i as int)[0] == all[i as int]);
                assert(targets@ =~= all.skip(i as int + 1));
            }
            let fail_name = t.name.clone();
            let result: CrawlResult = crawl(store, schema, origin, t.root.as_str());
            let cat = Category::new(t.name, result.items);
            cats.push(cat);
            fails.push(
                CategoryFailures {
                    name: fail_name,
                    failed: result.failed,
                    entry_errors: result.entry_errors,
                },
            );
            i = i + 1;
        }
        let db = ProgrammeDB::new(cats);
        proof {
            assert(i == all.len());
            assert(db.categories@.map_values(|c: Category| c@).len() == cats@.map_values(
                |c: Category| c@,
            ).len());
            assert forall|k: int| 0 <= k < cats@.len() implies (#[trigger] db.categories@[k])@
                == cats@[k]@ by {
                assert(db.categories@.map_values(|c: Category| c@)[k] == cats@.map_values(
                    |c: Category| c@,
                )[k]);
            }
        }
        (db, fails)
    }
}

} // verus!
