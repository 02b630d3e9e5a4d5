//! The catalogue crawler: starting from one root listing URI it walks
//! pagination links and forward pointers to closure, deduplicating
//! programmes by identifier. A visited set guards against cyclic link
//! graphs, a failed fetch is recorded and skipped rather than aborting
//! the crawl, and the result is always the pair of collected programmes
//! and failed URIs.

use vstd::prelude::*;
use crate::dom::IplayerDocument;
use crate::dom::NodeView;
use crate::extract::IplayerSelection;
use crate::extract::Programme;
use crate::extract::ProgrammeView;
use crate::extract::SelectionView;
use crate::extract::pointers_of;
use crate::extract::sel_res_view;
use crate::extract::spec_pagination_links;
use crate::extract::spec_selection_results;
use crate::schema::ExtractionError;
use crate::schema::Schema;
use crate::schema::SchemaView;

verus! {

/// One fixed document of a crawl: a URI and the parsed listing page it
/// denotes.
pub struct StoreEntry {
    pub url: String,
    pub doc: IplayerDocument,
}

#[verifier::ext_equal]
pub ghost struct StoreEntryView {
    pub url: Seq<char>,
    pub doc: Seq<NodeView>,
}

impl View for StoreEntry {
    type V = StoreEntryView;

    open spec fn view(&self) -> StoreEntryView {
        StoreEntryView { url: self.url@, doc: self.doc@ }
    }
}

/// A fixed, finite set of documents keyed by URI: what one crawl run
/// works over, whether the documents were fetched up front or loaded
/// as fixtures.
pub struct DocumentStore {
    pub entries: Vec<StoreEntry>,
}

impl View for DocumentStore {
    type V = Seq<StoreEntryView>;

    open spec fn view(&self) -> Seq<StoreEntryView> {
        self.entries@.map_values(|e: StoreEntry| e@)
    }
}

/// The document the store holds for a URI: the first entry with that
/// URI wins.
pub open spec fn store_lookup(s: Seq<StoreEntryView>, url: Seq<char>) -> Option<Seq<NodeView>>
    decreases s.len(),
{
    if s.len() == 0 {
        None
    } else if s[0].url == url {
        Some(s[0].doc)
    } else {
        store_lookup(s.drop_first(), url)
    }
}

impl DocumentStore {
    pub open spec fn wf(&self) -> bool {
        forall|i: int| 0 <= i < self@.len() ==> crate::dom::wf_doc((#[trigger] self@[i]).doc)
    }

    /// Whether every document of the store is well formed.
    pub fn check_wf(&self) -> (r: bool)
        ensures
            r == self.wf(),
    {
        let mut i: usize = 0;
        while i < self.entries.len()
            invariant
                i <= self.entries.len(),
                forall|k: int| 0 <= k < i ==> crate::dom::wf_doc((#[trigger] self@[k]).doc),
            decreases self.entries.len() - i,
        {
            if !self.entries[i].doc.check_wf() {
                assert(!crate::dom::wf_doc(self@[i as int].doc));
                return false;
            }
            assert(crate::dom::wf_doc(self@[i as int].doc));
            i = i + 1;
        }
        true
    }
}

/// The frontier links one document contributes to a crawl: its
/// pagination links, then its entries' pointer targets, in document
/// order.
pub open spec fn doc_links(d: Seq<NodeView>, schema: SchemaView, origin: Seq<char>) -> Seq<
    Seq<char>,
> {
    spec_pagination_links(d, schema) + pointers_of(spec_selection_results(d, schema, origin))
}

/// Every frontier link any document of the store can contribute.
pub open spec fn store_links(
    s: Seq<StoreEntryView>,
    schema: SchemaView,
    origin: Seq<char>,
) -> Seq<Seq<char>>
    decreases s.len(),
{
    if s.len() == 0 {
        Seq::empty()
    } else {
        doc_links(s[0].doc, schema, origin) + store_links(s.drop_first(), schema, origin)
    }
}

/// The state of one crawl: the pending-fetch frontier, the URIs
/// already taken up, the programmes resolved so far, the URIs whose
/// fetch failed, and the next discovery index.
#[verifier::ext_equal]
pub ghost struct CrawlStateView {
    pub frontier: Seq<Seq<char>>,
    pub visited: Seq<Seq<char>>,
    pub items: Seq<ProgrammeView>,
    pub failed: Seq<Seq<char>>,
    pub entry_errors: Seq<ExtractionError>,
    pub next_index: int,
}

/// Whether some resolved programme already carries the identifier.
pub open spec fn has_id(items: Seq<ProgrammeView>, id: Seq<char>) -> bool {
    exists|i: int| 0 <= i < items.len() && items[i].id == id
}

/// No two resolved programmes share an identifier.
pub open spec fn unique_ids(items: Seq<ProgrammeView>) -> bool {
    forall|i: int, j: int| 0 <= i < j < items.len() ==> items[i].id != items[j].id
}

/// The discovery counter, saturating at the machine limit.
pub open spec fn sat_inc(n: int) -> int {
    if n < usize::MAX as int {
        n + 1
    } else {
        n
    }
}

/// The extraction failures among a document's classification
/// outcomes, in order: each names the first required field of its
/// entry whose locator resolved to nothing.
pub open spec fn errors_of(sels: Seq<Result<SelectionView, ExtractionError>>) -> Seq<
    ExtractionError,
>
    decreases sels.len(),
{
    if sels.len() == 0 {
        Seq::empty()
    } else {
        let rest = errors_of(sels.drop_first());
        match sels[0] {
            Err(e) => seq![e] + rest,
            _ => rest,
        }
    }
}

/// Fold a document's classification outcomes into the resolved
/// programmes: each programme is stamped with the next discovery index;
/// the first occurrence of an identifier wins and later duplicates are
/// silently dropped; pointers and failed entries change nothing here.
pub open spec fn spec_add_items(
    sels: Seq<Result<SelectionView, ExtractionError>>,
    items: Seq<ProgrammeView>,
    next: int,
) -> (Seq<ProgrammeView>, int)
    decreases sels.len(),
{
    if sels.len() == 0 {
        (items, next)
    } else {
        let step = match sels[0] {
            Ok(SelectionView::Programme(p)) => {
                let stamped = ProgrammeView { index: next, ..p };
                if has_id(items, p.id) {
                    (items, sat_inc(next))
                } else {
                    (items.push(stamped), sat_inc(next))
                }
            },
            _ => (items, next),
        };
        spec_add_items(sels.drop_first(), step.0, step.1)
    }
}

/// Take up the next pending URI: heads of the frontier already visited
/// are dropped; the first unvisited head is marked visited and handed
/// out; an exhausted frontier yields nothing.
pub open spec fn spec_next_fetch(st: CrawlStateView) -> (CrawlStateView, Option<Seq<char>>)
    decreases st.frontier.len(),
{
    if st.frontier.len() == 0 {
        (st, None)
    } else {
        let u = st.frontier[0];
        let st1 = CrawlStateView { frontier: st.frontier.drop_first(), ..st };
        if st.visited.contains(u) {
            spec_next_fetch(st1)
        } else {
            (CrawlStateView { visited: st1.visited.push(u), ..st1 }, Some(u))
        }
    }
}

/// Deliver a fetched document for the URI just taken up: its
/// pagination links and pointer targets join the frontier and its
/// programmes are folded into the resolved set.
pub open spec fn spec_deliver_doc(
    st: CrawlStateView,
    d: Seq<NodeView>,
    schema: SchemaView,
    origin: Seq<char>,
) -> CrawlStateView {
    let sels = spec_selection_results(d, schema, origin);
    let folded = spec_add_items(sels, st.items, st.next_index);
    CrawlStateView {
        frontier: st.frontier + spec_pagination_links(d, schema) + pointers_of(sels),
        visited: st.visited,
        items: folded.0,
        failed: st.failed,
        entry_errors: st.entry_errors + errors_of(sels),
        next_index: folded.1,
    }
}

/// Record a failed fetch and carry on: the crawl never aborts for one
/// bad page.
pub open spec fn spec_deliver_failure(st: CrawlStateView, url: Seq<char>) -> CrawlStateView {
    CrawlStateView { failed: st.failed.push(url), ..st }
}

/// How many candidate URIs are still unvisited: the crawl's termination
/// measure.
pub open spec fn count_unvisited(cands: Seq<Seq<char>>, visited: Seq<Seq<char>>) -> nat
    decreases cands.len(),
{
    if cands.len() == 0 {
        0
    } else {
        (if visited.contains(cands[0]) {
            0nat
        } else {
            1nat
        }) + count_unvisited(cands.drop_first(), visited)
    }
}

pub proof fn lemma_count_monotone(cands: Seq<Seq<char>>, v1: Seq<Seq<char>>, v2: Seq<Seq<char>>)
    requires
        forall|x: Seq<char>| v1.contains(x) ==> v2.contains(x),
    ensures
        count_unvisited(cands, v2) <= count_unvisited(cands, v1),
    decreases cands.len(),
{
    if cands.len() > 0 {
        lemma_count_monotone(cands.drop_first(), v1, v2);
    }
}

pub proof fn lemma_push_contains(v: Seq<Seq<char>>, u: Seq<char>, x: Seq<char>)
    ensures
        v.push(u).contains(x) <==> (v.contains(x) || x == u),
{
    if v.contains(x) {
        let i = choose|i: int| 0 <= i < v.len() && v[i] == x;
        assert(v.push(u)[i] == x);
    }
    if x == u {
        assert(v.push(u)[v.len() as int] == x);
    }
    if v.push(u).contains(x) {
        let i = choose|i: int| 0 <= i < v.push(u).len() && v.push(u)[i] == x;
        if i < v.len() {
            assert(v[i] == x);
        }
    }
}

pub proof fn lemma_count_visit(cands: Seq<Seq<char>>, visited: Seq<Seq<char>>, u: Seq<char>)
    requires
        cands.contains(u),
        !visited.contains(u),
    ensures
        count_unvisited(cands, visited.push(u)) < count_unvisited(cands, visited),
    decreases cands.len(),
{
    lemma_push_contains(visited, u, cands[0]);
    if cands[0] == u {
        assert(visited.push(u).contains(cands[0]));
        assert(!visited.contains(cands[0]));
        assert forall|x: Seq<char>| visited.contains(x) implies visited.push(u).contains(x) by {
            lemma_push_contains(visited, u, x);
        }
        lemma_count_monotone(cands.drop_first(), visited, visited.push(u));
    } else {
        let i = choose|i: int| 0 <= i < cands.len() && cands[i] == u;
        assert(i > 0);
        assert(cands.drop_first()[i - 1] == u);
        assert(cands.drop_first().contains(u));
        lemma_count_visit(cands.drop_first(), visited, u);
    }
}

/// What spec_next_fetch does to a state, spelled out.
pub proof fn lemma_next_fetch(st: CrawlStateView)
    ensures
        ({
            let r = spec_next_fetch(st);
            &&& r.0.items == st.items
            &&& r.0.failed == st.failed
            &&& r.0.entry_errors == st.entry_errors
            &&& r.0.next_index == st.next_index
            &&& forall|x: Seq<char>| r.0.frontier.contains(x) ==> st.frontier.contains(x)
            &&& r.1 matches Some(u) ==> st.frontier.contains(u) && !st.visited.contains(u)
                && r.0.visited == st.visited.push(u)
            &&& r.1 is None ==> r.0.visited == st.visited && r.0.frontier.len() == 0
        }),
    decreases st.frontier.len(),
{
    if st.frontier.len() > 0 {
        let u = st.frontier[0];
        let st1 = CrawlStateView { frontier: st.frontier.drop_first(), ..st };
        if st.visited.contains(u) {
            lemma_next_fetch(st1);
            assert forall|x: Seq<char>| st1.frontier.contains(x) implies st.frontier.contains(
                x,
            ) by {
                let i = choose|i: int| 0 <= i < st1.frontier.len() && st1.frontier[i] == x;
                assert(st.frontier[i + 1] == x);
            }
        } else {
            assert(st.frontier.contains(u)) by {
                assert(st.frontier[0] == u);
            }
        }
    }
}

/// Whether every frontier entry of the state is a known candidate URI.
pub open spec fn frontier_in_cands(st: CrawlStateView, cands: Seq<Seq<char>>) -> bool {
    forall|x: Seq<char>| st.frontier.contains(x) ==> cands.contains(x)
}

/// Whether every link any store document can contribute is a known
/// candidate URI.
pub open spec fn links_in_cands(
    store: Seq<StoreEntryView>,
    schema: SchemaView,
    origin: Seq<char>,
    cands: Seq<Seq<char>>,
) -> bool {
    forall|x: Seq<char>| store_links(store, schema, origin).contains(x) ==> cands.contains(x)
}

pub proof fn lemma_concat_contains(a: Seq<Seq<char>>, b: Seq<Seq<char>>, x: Seq<char>)
    ensures
        (a + b).contains(x) <==> (a.contains(x) || b.contains(x)),
{
    if a.contains(x) {
        let i = choose|i: int| 0 <= i < a.len() && a[i] == x;
        assert((a + b)[i] == x);
    }
    if b.contains(x) {
        let i = choose|i: int| 0 <= i < b.len() && b[i] == x;
        assert((a + b)[a.len() + i] == x);
    }
    if (a + b).contains(x) {
        let i = choose|i: int| 0 <= i < (a + b).len() && (a + b)[i] == x;
        if i < a.len() {
            assert(a[i] == x);
        } else {
            assert(b[i - a.len()] == x);
        }
    }
}

/// A document found in the store only contributes links that the whole
/// store contributes.
pub proof fn lemma_store_links_cover(
    s: Seq<StoreEntryView>,
    schema: SchemaView,
    origin: Seq<char>,
    url: Seq<char>,
    x: Seq<char>,
)
    requires
        store_lookup(s, url) matches Some(d) && doc_links(d, schema, origin).contains(x),
    ensures
        store_links(s, schema, origin).contains(x),
    decreases s.len(),
{
    let d = store_lookup(s, url).unwrap();
    if s[0].url == url {
        lemma_concat_contains(
            doc_links(s[0].doc, schema, origin),
            store_links(s.drop_first(), schema, origin),
            x,
        );
    } else {
        lemma_store_links_cover(s.drop_first(), schema, origin, url, x);
        lemma_concat_contains(
            doc_links(s[0].doc, schema, origin),
            store_links(s.drop_first(), schema, origin),
            x,
        );
    }
}

/// One crawl over a fixed store, to closure: pop a URI; skip it when
/// already visited; otherwise mark it visited and either fold in the
/// document the store holds for it or record the fetch failure; stop
/// when the frontier is exhausted. Terminates on every finite store,
/// cyclic link graphs included, because every fetch visits a URI not
/// visited before.
pub open spec fn spec_crawl_rec(
    store: Seq<StoreEntryView>,
    schema: SchemaView,
    origin: Seq<char>,
    cands: Seq<Seq<char>>,
    st: CrawlStateView,
) -> CrawlStateView
    decreases count_unvisited(cands, st.visited), st.frontier.len()
        when frontier_in_cands(st, cands) && links_in_cands(store, schema, origin, cands)
{
    let step = spec_next_fetch(st);
    match step.1 {
        None => step.0,
        Some(u) => {
            proof {
                lemma_next_fetch(st);
                lemma_count_visit(cands, st.visited, u);
            }
            match store_lookup(store, u) {
                None => spec_crawl_rec(
                    store,
                    schema,
                    origin,
                    cands,
                    spec_deliver_failure(step.0, u),
                ),
                Some(d) => spec_crawl_rec(
                    store,
                    schema,
                    origin,
                    cands,
                    spec_deliver_doc(step.0, d, schema, origin),
                ),
            }
        },
    }
}

/// The candidate URIs of a crawl from the given root: the root itself
/// and every link any store document can contribute. Their number
/// bounds the visited set.
pub open spec fn crawl_cands(
    store: Seq<StoreEntryView>,
    schema: SchemaView,
    origin: Seq<char>,
    root: Seq<char>,
) -> Seq<Seq<char>> {
    seq![root] + store_links(store, schema, origin)
}

/// The initial crawl state: the frontier seeded with the root, all else
/// empty.
pub open spec fn initial_state(root: Seq<char>) -> CrawlStateView {
    CrawlStateView {
        frontier: seq![root],
        visited: Seq::empty(),
        items: Seq::empty(),
        failed: Seq::empty(),
        entry_errors: Seq::empty(),
        next_index: 0,
    }
}

/// The final state of one crawl of the store from the given root.
pub open spec fn spec_crawl(
    store: Seq<StoreEntryView>,
    schema: SchemaView,
    origin: Seq<char>,
    root: Seq<char>,
) -> CrawlStateView {
    spec_crawl_rec(
        store,
        schema,
        origin,
        crawl_cands(store, schema, origin, root),
        initial_state(root),
    )
}


/// The caller-visible result of one crawl: never a single error for
/// partial failure, always the resolved programmes beside the URIs
/// whose fetch failed.
pub struct CrawlResult {
    pub items: Vec<Programme>,
    pub failed: Vec<String>,
    pub entry_errors: Vec<ExtractionError>,
}

/// One crawl in progress. A live caller alternates `next_fetch` with
/// `deliver_document` or `deliver_failure` until `next_fetch` yields
/// nothing; the state at any point is valid output, so a cancelled
/// crawl still hands back its partial result.
pub struct CrawlSession {
    pub frontier: Vec<String>,
    pub visited: Vec<String>,
    pub items: Vec<Programme>,
    pub failed: Vec<String>,
    pub entry_errors: Vec<ExtractionError>,
    pub next_index: usize,
}

impl View for CrawlSession {
    type V = CrawlStateView;

    open spec fn view(&self) -> CrawlStateView {
        CrawlStateView {
            frontier: self.frontier@.map_values(|s: String| s@),
            visited: self.visited@.map_values(|s: String| s@),
            items: self.items@.map_values(|p: Programme| p@),
            failed: self.failed@.map_values(|s: String| s@),
            entry_errors: self.entry_errors@,
            next_index: self.next_index as int,
        }
    }
}

fn vec_contains_str(v: &Vec<String>, s: &String) -> (r: bool)
    ensures
        r == v@.map_values(|x: String| x@).contains(s@),
{
    let ghost m = v@.map_values(|x: String| x@);
    let mut i: usize = 0;
    while i < v.len()
        invariant
            i <= v.len(),
            m == v@.map_values(|x: String| x@),
            forall|k: int| 0 <= k < i ==> m[k] != s@,
        decreases v.len() - i,
    {
        if v[i] == *s {
            assert(m[i as int] == s@);
            return true;
        }
        i = i + 1;
    }
    assert(!m.contains(s@));
    false
}

fn has_id_exec(items: &Vec<Programme>, id: &String) -> (r: bool)
    ensures
        r == has_id(items@.map_values(|p: Programme| p@), id@),
{
    let ghost m = items@.map_values(|p: Programme| p@);
    let mut i: usize = 0;
    while i < items.len()
        invariant
            i <= items.len(),
            m == items@.map_values(|p: Programme| p@),
            forall|k: int| 0 <= k < i ==> m[k].id != id@,
        decreases items.len() - i,
    {
        if items[i].id == *id {
            assert(m[i as int].id == id@);
            return true;
        }
        i = i + 1;
    }
    false
}

impl CrawlSession {
    /// A fresh crawl: the frontier seeded with the root URI, everything
    /// else empty.
    pub fn new(root: &str) -> (r: CrawlSession)
        ensures
            r@ == initial_state(root@),
    {
        let mut frontier: Vec<String> = Vec::new();
        frontier.push(String::from_str(root));
        let r = CrawlSession {
            frontier,
            visited: Vec::new(),
            items: Vec::new(),
            failed: Vec::new(),
            entry_errors: Vec::new(),
            next_index: 0,
        };
        proof {
            assert(r@.frontier =~= seq![root@]);
            assert(r@ =~= initial_state(root@));
        }
        r
    }

    /// Take up the next pending URI, skipping any already visited; the
    /// returned URI is marked visited at once, so no URI is ever taken
    /// up twice. Yields nothing exactly when the frontier is exhausted.
    pub fn next_fetch(&mut self) -> (r: Option<String>)
        ensures
            ({
                let step = spec_next_fetch(old(self)@);
                &&& final(self)@ == step.0
                &&& match r {
                    Some(u) => step.1 == Some(u@),
                    None => step.1 is None,
                }
            }),
    {
        loop
            invariant
                spec_next_fetch(old(self)@) == spec_next_fetch(self@),
            decreases self.frontier.len(),
        {
            let ghost pre = self@;
            if self.frontier.len() == 0 {
                return None;
            }
            let u = self.frontier.remove(0);
            proof {
                assert(pre.frontier[0] == u@);
                assert(self@.frontier =~= pre.frontier.drop_first());
                assert(self@ =~= CrawlStateView { frontier: pre.frontier.drop_first(), ..pre });
            }
            if vec_contains_str(&self.visited, &u) {
                proof {
                    assert(pre.visited.contains(u@));
                    assert(spec_next_fetch(pre) == spec_next_fetch(self@));
                }
            } else {
                self.visited.push(u.clone());
                proof {
                    let st1 = CrawlStateView { frontier: pre.frontier.drop_first(), ..pre };
                    assert(self@.visited =~= st1.visited.push(u@));
                    assert(self@ =~= CrawlStateView { visited: st1.visited.push(u@), ..st1 });
                    assert(spec_next_fetch(pre) == (self@, Some(u@)));
                }
                return Some(u);
            }
        }
    }

    /// Deliver the document fetched for the URI just taken up: its
    /// pagination links and pointer targets join the frontier; each of
    /// its programmes is stamped with the next discovery index and the
    /// first occurrence of an identifier wins, later duplicates being
    /// silently dropped; entries that fail extraction are skipped.
    pub fn deliver_document(&mut self, doc: &IplayerDocument, schema: &Schema, origin: &str)
        requires
            doc.wf(),
        ensures
            final(self)@ == spec_deliver_doc(old(self)@, doc@, schema@, origin@),
    {
        let ghost st0 = self@;
        let mut pages = doc.next_pages(schema);
        let ghost pages_view = pages@.map_values(|s: String| s@);
        self.frontier.append(&mut pages);
        proof {
            assert(self@.frontier =~= st0.frontier + spec_pagination_links(doc@, schema@));
        }
        let mut sels = doc.selection_results(schema, origin);
        let ghost sels_all = sels@.map_values(
            |x: Result<IplayerSelection, ExtractionError>| sel_res_view(x),
        );
        while sels.len() > 0
            invariant
                spec_add_items(sels_all, st0.items, st0.next_index) == spec_add_items(
                    sels@.map_values(
                        |x: Result<IplayerSelection, ExtractionError>| sel_res_view(x),
                    ),
                    self@.items,
                    self@.next_index,
                ),
                st0.frontier + spec_pagination_links(doc@, schema@) + pointers_of(sels_all)
                    =~= self@.frontier + pointers_of(
                    sels@.map_values(
                        |x: Result<IplayerSelection, ExtractionError>| sel_res_view(x),
                    ),
                ),
                self@.visited == st0.visited,
                self@.failed == st0.failed,
                st0.entry_errors + errors_of(sels_all) =~= self@.entry_errors + errors_of(
                    sels@.map_values(
                        |x: Result<IplayerSelection, ExtractionError>| sel_res_view(x),
                    ),
                ),
                0 <= self@.next_index <= usize::MAX as int,
            decreases sels.len(),
        {
            let ghost pre_sels = sels@.map_values(
                |x: Result<IplayerSelection, ExtractionError>| sel_res_view(x),
            );
            let ghost pre_state = self@;
            let s = sels.remove(0);
            proof {
                assert(pre_sels[0] == sel_res_view(s));
                assert(sels@.map_values(
                    |x: Result<IplayerSelection, ExtractionError>| sel_res_view(x),
                ) =~= pre_sels.drop_first());
            }
            match s {
                Ok(IplayerSelection::Programme(p)) => {
                    let mut p = p;
                    let ghost pv = p@;
                    p.index = self.next_index;
                    proof {
                        assert(p@ =~= ProgrammeView { index: pre_state.next_index, ..pv });
                    }
                    if !has_id_exec(&self.items, &p.id) {
                        self.items.push(p);
                        proof {
                            assert(self@.items =~= pre_state.items.push(
                                ProgrammeView { index: pre_state.next_index, ..pv },
                            ));
                        }
                    }
                    self.next_index = if self.next_index < usize::MAX {
                        self.next_index + 1
                    } else {
                        self.next_index
                    };
                    proof {
                        assert(self@.next_index == sat_inc(pre_state.next_index));
                        assert(self@.frontier =~= pre_state.frontier);
                    }
                },
                Ok(IplayerSelection::ExtraProgPage(t)) => {
                    let ghost tv = t@;
                    self.frontier.push(t);
                    proof {
                        assert(self@.frontier =~= pre_state.frontier.push(tv));
                        assert(pointers_of(pre_sels) =~= seq![tv] + pointers_of(
                            pre_sels.drop_first(),
                        ));
                        assert(pre_state.frontier + pointers_of(pre_sels) =~= self@.frontier
                            + pointers_of(pre_sels.drop_first()));
                    }
                },
                Err(e) => {
                    self.entry_errors.push(e);
                    proof {
                        assert(errors_of(pre_sels) =~= seq![e] + errors_of(
                            pre_sels.drop_first(),
                        ));
                        assert(pre_state.entry_errors + errors_of(pre_sels)
                            =~= self@.entry_errors + errors_of(pre_sels.drop_first()));
                    }
                },
            }
        }
        proof {
            let fin_sels = sels@.map_values(
                |x: Result<IplayerSelection, ExtractionError>| sel_res_view(x),
            );
            assert(fin_sels.len() == 0);
            assert(pointers_of(fin_sels).len() == 0);
            assert(errors_of(fin_sels).len() == 0);
            assert(self@.entry_errors =~= st0.entry_errors + errors_of(sels_all));
            assert(self@.frontier =~= st0.frontier + spec_pagination_links(doc@, schema@)
                + pointers_of(sels_all));
            assert(self@ =~= spec_deliver_doc(st0, doc@, schema@, origin@));
        }
    }

    /// Record the URI whose fetch failed and carry on: one bad page
    /// never aborts the crawl.
    pub fn deliver_failure(&mut self, url: String)
        ensures
            final(self)@ == spec_deliver_failure(old(self)@, url@),
    {
        let ghost st0 = self@;
        let ghost uv = url@;
        self.failed.push(url);
        proof {
            assert(self@.failed =~= st0.failed.push(uv));
            assert(self@ =~= spec_deliver_failure(st0, uv));
        }
    }

    /// The crawl's output: the resolved programmes and the failed URIs.
    pub fn into_result(self) -> (r: CrawlResult)
        ensures
            r.items@.map_values(|p: Programme| p@) == self@.items,
            r.failed@.map_values(|s: String| s@) == self@.failed,
            r.entry_errors@ == self@.entry_errors,
    {
        CrawlResult { items: self.items, failed: self.failed, entry_errors: self.entry_errors }
    }
}

fn store_get<'a>(store: &'a DocumentStore, url: &String) -> (r: Option<&'a IplayerDocument>)
    requires
        store.wf(),
    ensures
        r matches Some(d) ==> store_lookup(store@, url@) == Some(d@) && d.wf(),
        r is None ==> store_lookup(store@, url@) is None,
{
    let ghost sv = store@;
    proof {
        assert(sv.skip(0) =~= sv);
    }
    let mut i: usize = 0;
    while i < store.entries.len()
        invariant
            store.wf(),
            i <= store.entries.len(),
            sv == store@,
            store_lookup(sv, url@) == store_lookup(sv.skip(i as int), url@),
        decreases store.entries.len() - i,
    {
        proof {
            assert(sv.skip(i as int)[0] == sv[i as int]);
            assert(sv.skip(i as int).drop_first() =~= sv.skip(i as int + 1));
        }
        if crate::dom::str_eq(store.entries[i].url.as_str(), url.as_str()) {
            assert(sv[i as int].url == url@);
            assert(crate::dom::wf_doc(sv[i as int].doc));
            return Some(&store.entries[i].doc);
        }
        i = i + 1;
    }
    proof {
        assert(sv.skip(sv.len() as int).len() == 0);
    }
    None
}

/// Crawl a fixed store of documents from one root URI to closure:
/// pagination links and pointers are followed, a URI is fetched at most
/// once even over a cyclic link graph, programmes are deduplicated by
/// identifier with the first occurrence winning, and a URI the store
/// has no document for is recorded as failed while the crawl continues.
pub fn crawl(store: &DocumentStore, schema: &Schema, origin: &str, root: &str) -> (r: CrawlResult)
    requires
        store.wf(),
    ensures
        ({
            let fin = spec_crawl(store@, schema@, origin@, root@);
            &&& r.items@.map_values(|p: Programme| p@) == fin.items
            &&& r.failed@.map_values(|s: String| s@) == fin.failed
            &&& r.entry_errors@ == fin.entry_errors
            &&& unique_ids(r.items@.map_values(|p: Programme| p@))
        }),
{
    proof {
        lemma_crawl_unique_ids(store@, schema@, origin@, root@);
    }
    let ghost cands = crawl_cands(store@, schema@, origin@, root@);
    let mut sess = CrawlSession::new(root);
    proof {
        assert(cands[0] == root@);
        assert(cands.contains(root@));
        assert forall|x: Seq<char>| sess@.frontier.contains(x) implies cands.contains(x) by {
            assert(sess@.frontier[0] == root@);
        }
        assert forall|x: Seq<char>|
            store_links(store@, schema@, origin@).contains(x) implies cands.contains(x) by {
            lemma_concat_contains(seq![root@], store_links(store@, schema@, origin@), x);
        }
    }
    loop
        invariant
            store.wf(),
            cands == crawl_cands(store@, schema@, origin@, root@),
            frontier_in_cands(sess@, cands),
            links_in_cands(store@, schema@, origin@, cands),
            spec_crawl_rec(store@, schema@, origin@, cands, sess@) == spec_crawl(
                store@,
                schema@,
                origin@,
                root@,
            ),
        ensures
            sess@ == spec_crawl(store@, schema@, origin@, root@),
        decreases count_unvisited(cands, sess@.visited), sess@.frontier.len(),
    {
        let ghost pre = sess@;
        let fetched = sess.next_fetch();
        proof {
            lemma_next_fetch(pre);
        }
        match fetched {
            None => {
                proof {
                    assert(spec_crawl_rec(store@, schema@, origin@, cands, pre) == sess@);
                }
                break ;
            },
            Some(u) => {
                proof {
                    assert(pre.frontier.contains(u@));
                    assert(cands.contains(u@));
                    lemma_count_visit(cands, pre.visited, u@);
                    assert forall|x: Seq<char>| sess@.frontier.contains(x) implies cands.contains(
                        x,
                    ) by {}
                }
                match store_get(store, &u) {
                    Some(doc) => {
                        let ghost st1 = sess@;
                        sess.deliver_document(doc, schema, origin);
                        proof {
                            let sels = spec_selection_results(doc@, schema@, origin@);
                            assert forall|x: Seq<char>|
                                sess@.frontier.contains(x) implies cands.contains(x) by {
                                lemma_concat_contains(
                                    st1.frontier + spec_pagination_links(doc@, schema@),
                                    pointers_of(sels),
                                    x,
                                );
                                lemma_concat_contains(
                                    st1.frontier,
                                    spec_pagination_links(doc@, schema@),
                                    x,
                                );
                                if !st1.frontier.contains(x) {
                                    lemma_concat_contains(
                                        spec_pagination_links(doc@, schema@),
                                        pointers_of(sels),
                                        x,
                                    );
                                    lemma_store_links_cover(store@, schema@, origin@, u@, x);
                                }
                            }
                            assert(spec_crawl_rec(store@, schema@, origin@, cands, pre)
                                == spec_crawl_rec(store@, schema@, origin@, cands, sess@));
                        }
                    },
                    None => {
                        sess.deliver_failure(u);
                        proof {
                            assert(spec_crawl_rec(store@, schema@, origin@, cands, pre)
                                == spec_crawl_rec(store@, schema@, origin@, cands, sess@));
                        }
                    },
                }
            },
        }
    }
    sess.into_result()
}


/// The identifiers of a sequence of programmes, in order.
pub open spec fn item_ids(items: Seq<ProgrammeView>) -> Seq<Seq<char>> {
    items.map_values(|p: ProgrammeView| p.id)
}

/// The identifiers of the programmes among a document's classification
/// outcomes, in order, duplicates included.
pub open spec fn extracted_ids(sels: Seq<Result<SelectionView, ExtractionError>>) -> Seq<
    Seq<char>,
> {
    item_ids(crate::extract::programmes_of(sels))
}

/// How many resolved programmes carry the identifier.
pub open spec fn id_count(items: Seq<ProgrammeView>, x: Seq<char>) -> nat
    decreases items.len(),
{
    if items.len() == 0 {
        0
    } else {
        (if items[0].id == x {
            1nat
        } else {
            0nat
        }) + id_count(items.drop_first(), x)
    }
}

proof fn lemma_has_id_push(items: Seq<ProgrammeView>, p: ProgrammeView, x: Seq<char>)
    ensures
        has_id(items.push(p), x) <==> (has_id(items, x) || p.id == x),
{
    if has_id(items, x) {
        let i = choose|i: int| 0 <= i < items.len() && items[i].id == x;
        assert(items.push(p)[i].id == x);
    }
    if p.id == x {
        assert(items.push(p)[items.len() as int].id == x);
    }
    if has_id(items.push(p), x) {
        let i = choose|i: int| 0 <= i < items.push(p).len() && items.push(p)[i].id == x;
        if i < items.len() {
            assert(items[i].id == x);
        }
    }
}

proof fn lemma_unique_push(items: Seq<ProgrammeView>, p: ProgrammeView)
    requires
        unique_ids(items),
        !has_id(items, p.id),
    ensures
        unique_ids(items.push(p)),
{
    let pushed = items.push(p);
    assert forall|i: int, j: int| 0 <= i < j < pushed.len() implies pushed[i].id
        != pushed[j].id by {
        if j == items.len() {
            assert(pushed[i] == items[i]);
            if items[i].id == p.id {
                assert(has_id(items, p.id));
            }
        } else {
            assert(pushed[i] == items[i]);
            assert(pushed[j] == items[j]);
        }
    }
}

/// Folding classification outcomes into a resolved set with no
/// duplicate identifiers leaves it without duplicate identifiers.
pub proof fn lemma_add_items_unique(
    sels: Seq<Result<SelectionView, ExtractionError>>,
    items: Seq<ProgrammeView>,
    next: int,
)
    requires
        unique_ids(items),
    ensures
        unique_ids(spec_add_items(sels, items, next).0),
    decreases sels.len(),
{
    if sels.len() > 0 {
        match sels[0] {
            Ok(SelectionView::Programme(p)) => {
                let stamped = ProgrammeView { index: next, ..p };
                if has_id(items, p.id) {
                    lemma_add_items_unique(sels.drop_first(), items, sat_inc(next));
                } else {
                    lemma_unique_push(items, stamped);
                    lemma_add_items_unique(
                        sels.drop_first(),
                        items.push(stamped),
                        sat_inc(next),
                    );
                }
            },
            _ => {
                lemma_add_items_unique(sels.drop_first(), items, next);
            },
        }
    }
}

/// An identifier stands in the folded resolved set exactly when it was
/// already resolved or some programme among the outcomes carries it.
pub proof fn lemma_add_items_membership(
    sels: Seq<Result<SelectionView, ExtractionError>>,
    items: Seq<ProgrammeView>,
    next: int,
    x: Seq<char>,
)
    ensures
        has_id(spec_add_items(sels, items, next).0, x) <==> (has_id(items, x) || extracted_ids(
            sels,
        ).contains(x)),
    decreases sels.len(),
{
    if sels.len() == 0 {
        assert(extracted_ids(sels).len() == 0);
    } else {
        let rest = sels.drop_first();
        match sels[0] {
            Ok(SelectionView::Programme(p)) => {
                let stamped = ProgrammeView { index: next, ..p };
                assert(crate::extract::programmes_of(sels) == seq![p]
                    + crate::extract::programmes_of(rest));
                assert(extracted_ids(sels) =~= seq![p.id] + extracted_ids(rest));
                lemma_concat_contains(seq![p.id], extracted_ids(rest), x);
                assert(seq![p.id].contains(x) <==> p.id == x) by {
                    if p.id == x {
                        assert(seq![p.id][0] == x);
                    }
                }
                if has_id(items, p.id) {
                    lemma_add_items_membership(rest, items, sat_inc(next), x);
                } else {
                    lemma_add_items_membership(rest, items.push(stamped), sat_inc(next), x);
                    lemma_has_id_push(items, stamped, x);
                }
            },
            _ => {
                assert(extracted_ids(sels) =~= extracted_ids(rest));
                lemma_add_items_membership(rest, items, next, x);
            },
        }
    }
}

/// In a resolved set without duplicate identifiers, an identifier is
/// carried by exactly one programme when it is present at all.
pub proof fn lemma_unique_count(items: Seq<ProgrammeView>, x: Seq<char>)
    requires
        unique_ids(items),
    ensures
        id_count(items, x) == if has_id(items, x) {
            1nat
        } else {
            0nat
        },
    decreases items.len(),
{
    if items.len() == 0 {
        assert(!has_id(items, x));
    } else {
        let rest = items.drop_first();
        assert(unique_ids(rest)) by {
            assert forall|i: int, j: int| 0 <= i < j < rest.len() implies rest[i].id
                != rest[j].id by {
                assert(rest[i] == items[i + 1]);
                assert(rest[j] == items[j + 1]);
            }
        }
        lemma_unique_count(rest, x);
        if items[0].id == x {
            assert(has_id(items, x));
            assert(!has_id(rest, x)) by {
                if has_id(rest, x) {
                    let k = choose|k: int| 0 <= k < rest.len() && rest[k].id == x;
                    assert(items[k + 1].id == x);
                    assert(items[0].id == items[k + 1].id);
                }
            }
        } else {
            assert(has_id(items, x) <==> has_id(rest, x)) by {
                if has_id(items, x) {
                    let k = choose|k: int| 0 <= k < items.len() && items[k].id == x;
                    assert(k > 0);
                    assert(rest[k - 1].id == x);
                }
                if has_id(rest, x) {
                    let k = choose|k: int| 0 <= k < rest.len() && rest[k].id == x;
                    assert(items[k + 1].id == x);
                }
            }
        }
    }
}

proof fn lemma_deliver_doc_in_cands(
    store: Seq<StoreEntryView>,
    schema: SchemaView,
    origin: Seq<char>,
    cands: Seq<Seq<char>>,
    st: CrawlStateView,
    u: Seq<char>,
)
    requires
        frontier_in_cands(st, cands),
        links_in_cands(store, schema, origin, cands),
        store_lookup(store, u) is Some,
    ensures
        frontier_in_cands(
            spec_deliver_doc(st, store_lookup(store, u).unwrap(), schema, origin),
            cands,
        ),
{
    let d = store_lookup(store, u).unwrap();
    let sels = spec_selection_results(d, schema, origin);
    assert forall|x: Seq<char>|
        spec_deliver_doc(st, d, schema, origin).frontier.contains(x) implies cands.contains(
        x,
    ) by {
        lemma_concat_contains(st.frontier + spec_pagination_links(d, schema), pointers_of(sels), x);
        lemma_concat_contains(st.frontier, spec_pagination_links(d, schema), x);
        if !st.frontier.contains(x) {
            lemma_concat_contains(spec_pagination_links(d, schema), pointers_of(sels), x);
            lemma_store_links_cover(store, schema, origin, u, x);
        }
    }
}

proof fn lemma_add_items_append_only(
    sels: Seq<Result<SelectionView, ExtractionError>>,
    items: Seq<ProgrammeView>,
    next: int,
)
    ensures
        spec_add_items(sels, items, next).0.len() >= items.len(),
        forall|i: int|
            0 <= i < items.len() ==> spec_add_items(sels, items, next).0[i] == items[i],
    decreases sels.len(),
{
    if sels.len() > 0 {
        match sels[0] {
            Ok(SelectionView::Programme(p)) => {
                let stamped = ProgrammeView { index: next, ..p };
                if has_id(items, p.id) {
                    lemma_add_items_append_only(sels.drop_first(), items, sat_inc(next));
                } else {
                    lemma_add_items_append_only(
                        sels.drop_first(),
                        items.push(stamped),
                        sat_inc(next),
                    );
                    assert forall|i: int| 0 <= i < items.len() implies spec_add_items(
                        sels,
                        items,
                        next,
                    ).0[i] == items[i] by {
                        assert(items.push(stamped)[i] == items[i]);
                    }
                }
            },
            _ => {
                lemma_add_items_append_only(sels.drop_first(), items, next);
            },
        }
    }
}

/// The resolved set is append-only over a crawl: a programme once
/// resolved keeps its place and is never dropped, replaced or
/// reordered by anything resolved later.
pub proof fn lemma_crawl_rec_append_only(
    store: Seq<StoreEntryView>,
    schema: SchemaView,
    origin: Seq<char>,
    cands: Seq<Seq<char>>,
    st: CrawlStateView,
)
    requires
        frontier_in_cands(st, cands),
        links_in_cands(store, schema, origin, cands),
    ensures
        spec_crawl_rec(store, schema, origin, cands, st).items.len() >= st.items.len(),
        forall|i: int|
            0 <= i < st.items.len() ==> spec_crawl_rec(store, schema, origin, cands, st).items[i]
                == st.items[i],
    decreases count_unvisited(cands, st.visited), st.frontier.len(),
{
    let step = spec_next_fetch(st);
    lemma_next_fetch(st);
    match step.1 {
        None => {},
        Some(u) => {
            lemma_count_visit(cands, st.visited, u);
            match store_lookup(store, u) {
                None => {
                    lemma_crawl_rec_append_only(
                        store,
                        schema,
                        origin,
                        cands,
                        spec_deliver_failure(step.0, u),
                    );
                },
                Some(d) => {
                    lemma_deliver_doc_in_cands(store, schema, origin, cands, step.0, u);
                    lemma_add_items_append_only(
                        spec_selection_results(d, schema, origin),
                        step.0.items,
                        step.0.next_index,
                    );
                    lemma_crawl_rec_append_only(
                        store,
                        schema,
                        origin,
                        cands,
                        spec_deliver_doc(step.0, d, schema, origin),
                    );
                },
            }
        },
    }
}

/// Dedup holds over a whole crawl: the resolved set never carries two
/// programmes with one identifier.
pub proof fn lemma_crawl_rec_unique(
    store: Seq<StoreEntryView>,
    schema: SchemaView,
    origin: Seq<char>,
    cands: Seq<Seq<char>>,
    st: CrawlStateView,
)
    requires
        frontier_in_cands(st, cands),
        links_in_cands(store, schema, origin, cands),
        unique_ids(st.items),
    ensures
        unique_ids(spec_crawl_rec(store, schema, origin, cands, st).items),
    decreases count_unvisited(cands, st.visited), st.frontier.len(),
{
    let step = spec_next_fetch(st);
    lemma_next_fetch(st);
    match step.1 {
        None => {},
        Some(u) => {
            lemma_count_visit(cands, st.visited, u);
            match store_lookup(store, u) {
                None => {
                    lemma_crawl_rec_unique(
                        store,
                        schema,
                        origin,
                        cands,
                        spec_deliver_failure(step.0, u),
                    );
                },
                Some(d) => {
                    lemma_deliver_doc_in_cands(store, schema, origin, cands, step.0, u);
                    lemma_add_items_unique(
                        spec_selection_results(d, schema, origin),
                        step.0.items,
                        step.0.next_index,
                    );
                    lemma_crawl_rec_unique(
                        store,
                        schema,
                        origin,
                        cands,
                        spec_deliver_doc(step.0, d, schema, origin),
                    );
                },
            }
        },
    }
}

proof fn lemma_initial_conditions(
    store: Seq<StoreEntryView>,
    schema: SchemaView,
    origin: Seq<char>,
    root: Seq<char>,
)
    ensures
        frontier_in_cands(initial_state(root), crawl_cands(store, schema, origin, root)),
        links_in_cands(store, schema, origin, crawl_cands(store, schema, origin, root)),
{
    let cands = crawl_cands(store, schema, origin, root);
    assert(cands[0] == root);
    assert(cands.contains(root));
    assert forall|x: Seq<char>| initial_state(root).frontier.contains(x) implies cands.contains(
        x,
    ) by {
        assert(initial_state(root).frontier[0] == root);
    }
    assert forall|x: Seq<char>|
        store_links(store, schema, origin).contains(x) implies cands.contains(x) by {
        lemma_concat_contains(seq![root], store_links(store, schema, origin), x);
    }
}

/// Dedup: over a whole crawl, no two resolved programmes share an
/// identifier.
pub proof fn lemma_crawl_unique_ids(
    store: Seq<StoreEntryView>,
    schema: SchemaView,
    origin: Seq<char>,
    root: Seq<char>,
)
    ensures
        unique_ids(spec_crawl(store, schema, origin, root).items),
{
    lemma_initial_conditions(store, schema, origin, root);
    lemma_crawl_rec_unique(
        store,
        schema,
        origin,
        crawl_cands(store, schema, origin, root),
        initial_state(root),
    );
}

/// Dedup across listing pages: when entries on two pages of one crawl
/// carry the same identifier, exactly one programme with that
/// identifier stands in the resolved set after both pages are folded
/// in.
pub proof fn lemma_dedup_two_pages(
    sels1: Seq<Result<SelectionView, ExtractionError>>,
    sels2: Seq<Result<SelectionView, ExtractionError>>,
    items: Seq<ProgrammeView>,
    next: int,
    x: Seq<char>,
)
    requires
        unique_ids(items),
        extracted_ids(sels1).contains(x),
        extracted_ids(sels2).contains(x),
    ensures
        ({
            let once = spec_add_items(sels1, items, next);
            let twice = spec_add_items(sels2, once.0, once.1);
            id_count(twice.0, x) == 1
        }),
{
    let once = spec_add_items(sels1, items, next);
    let twice = spec_add_items(sels2, once.0, once.1);
    lemma_add_items_unique(sels1, items, next);
    lemma_add_items_membership(sels1, items, next, x);
    lemma_add_items_unique(sels2, once.0, once.1);
    lemma_add_items_membership(sels2, once.0, once.1, x);
    lemma_unique_count(twice.0, x);
}

/// Partial failure is exact: a URI is recorded as failed only when it
/// was not failed already and the store holds no document for it; no
/// fetchable page ever lands in the failure report.
pub proof fn lemma_crawl_rec_failed(
    store: Seq<StoreEntryView>,
    schema: SchemaView,
    origin: Seq<char>,
    cands: Seq<Seq<char>>,
    st: CrawlStateView,
)
    requires
        frontier_in_cands(st, cands),
        links_in_cands(store, schema, origin, cands),
    ensures
        forall|x: Seq<char>|
            spec_crawl_rec(store, schema, origin, cands, st).failed.contains(x) ==> (
            st.failed.contains(x) || store_lookup(store, x) is None),
    decreases count_unvisited(cands, st.visited), st.frontier.len(),
{
    let step = spec_next_fetch(st);
    lemma_next_fetch(st);
    match step.1 {
        None => {},
        Some(u) => {
            lemma_count_visit(cands, st.visited, u);
            match store_lookup(store, u) {
                None => {
                    let st2 = spec_deliver_failure(step.0, u);
                    lemma_crawl_rec_failed(store, schema, origin, cands, st2);
                    assert forall|x: Seq<char>|
                        spec_crawl_rec(store, schema, origin, cands, st).failed.contains(
                        x,
                    ) implies (st.failed.contains(x) || store_lookup(store, x) is None) by {
                        if st2.failed.contains(x) {
                            lemma_push_contains(step.0.failed, u, x);
                        }
                    }
                },
                Some(d) => {
                    let st2 = spec_deliver_doc(step.0, d, schema, origin);
                    lemma_deliver_doc_in_cands(store, schema, origin, cands, step.0, u);
                    lemma_crawl_rec_failed(store, schema, origin, cands, st2);
                    assert(st2.failed == st.failed);
                    assert(spec_crawl_rec(store, schema, origin, cands, st) == spec_crawl_rec(
                        store,
                        schema,
                        origin,
                        cands,
                        st2,
                    ));
                },
            }
        },
    }
}

/// Partial failure is exact over a whole crawl: the failure report
/// holds only URIs the store has no document for.
pub proof fn lemma_crawl_failed_only_unfetchable(
    store: Seq<StoreEntryView>,
    schema: SchemaView,
    origin: Seq<char>,
    root: Seq<char>,
)
    ensures
        forall|x: Seq<char>|
            spec_crawl(store, schema, origin, root).failed.contains(x) ==> store_lookup(
                store,
                x,
            ) is None,
{
    lemma_initial_conditions(store, schema, origin, root);
    lemma_crawl_rec_failed(
        store,
        schema,
        origin,
        crawl_cands(store, schema, origin, root),
        initial_state(root),
    );
    assert forall|x: Seq<char>|
        spec_crawl(store, schema, origin, root).failed.contains(x) implies store_lookup(
        store,
        x,
    ) is None by {
        assert(!initial_state(root).failed.contains(x));
    }
}

proof fn lemma_visited_nodup_push(visited: Seq<Seq<char>>, u: Seq<char>)
    requires
        visited.no_duplicates(),
        !visited.contains(u),
    ensures
        visited.push(u).no_duplicates(),
{
    let pushed = visited.push(u);
    assert forall|i: int, j: int| 0 <= i < pushed.len() && 0 <= j < pushed.len() && i != j
        implies pushed[i] != pushed[j] by {
        if i < visited.len() && j < visited.len() {
            assert(pushed[i] == visited[i]);
            assert(pushed[j] == visited[j]);
        } else if j == visited.len() && i < visited.len() {
            if visited[i] == u {
                assert(visited.contains(u));
            }
        } else if i == visited.len() && j < visited.len() {
            if visited[j] == u {
                assert(visited.contains(u));
            }
        }
    }
}

proof fn lemma_crawl_rec_visited(
    store: Seq<StoreEntryView>,
    schema: SchemaView,
    origin: Seq<char>,
    cands: Seq<Seq<char>>,
    st: CrawlStateView,
)
    requires
        frontier_in_cands(st, cands),
        links_in_cands(store, schema, origin, cands),
        st.visited.no_duplicates(),
    ensures
        spec_crawl_rec(store, schema, origin, cands, st).visited.no_duplicates(),
        forall|x: Seq<char>|
            spec_crawl_rec(store, schema, origin, cands, st).visited.contains(x) ==> (
            st.visited.contains(x) || cands.contains(x)),
    decreases count_unvisited(cands, st.visited), st.frontier.len(),
{
    let step = spec_next_fetch(st);
    lemma_next_fetch(st);
    match step.1 {
        None => {},
        Some(u) => {
            lemma_count_visit(cands, st.visited, u);
            lemma_visited_nodup_push(st.visited, u);
            assert(cands.contains(u));
            let st2 = if store_lookup(store, u) is Some {
                spec_deliver_doc(step.0, store_lookup(store, u).unwrap(), schema, origin)
            } else {
                spec_deliver_failure(step.0, u)
            };
            match store_lookup(store, u) {
                None => {
                    lemma_crawl_rec_visited(store, schema, origin, cands, st2);
                },
                Some(d) => {
                    lemma_deliver_doc_in_cands(store, schema, origin, cands, step.0, u);
                    lemma_crawl_rec_visited(store, schema, origin, cands, st2);
                },
            }
            assert forall|x: Seq<char>|
                spec_crawl_rec(store, schema, origin, cands, st).visited.contains(
                x,
            ) implies (st.visited.contains(x) || cands.contains(x)) by {
                assert(st2.visited == st.visited.push(u));
                lemma_push_contains(st.visited, u, x);
            }
        },
    }
}

/// Over a finite store the crawl terminates, and the visited set never
/// exceeds the link graph's node count: the root plus every link any
/// store document can contribute. Termination itself is witnessed by
/// the crawl being a total function of the store.
pub proof fn lemma_crawl_visited_bounded(
    store: Seq<StoreEntryView>,
    schema: SchemaView,
    origin: Seq<char>,
    root: Seq<char>,
)
    ensures
        spec_crawl(store, schema, origin, root).visited.len() <= 1 + store_links(
            store,
            schema,
            origin,
        ).len(),
{
    broadcast use vstd::seq_lib::seq_to_set_is_finite;

    let cands = crawl_cands(store, schema, origin, root);
    lemma_initial_conditions(store, schema, origin, root);
    lemma_crawl_rec_visited(store, schema, origin, cands, initial_state(root));
    let fin = spec_crawl(store, schema, origin, root);
    fin.visited.unique_seq_to_set();
    assert(fin.visited.to_set().subset_of(cands.to_set())) by {
        assert forall|x: Seq<char>| fin.visited.to_set().contains(x) implies cands.to_set()
            .contains(x) by {
            assert(fin.visited.contains(x));
            assert(!initial_state(root).visited.contains(x));
        }
    }
    vstd::set_lib::lemma_len_subset(fin.visited.to_set(), cands.to_set());
    cands.lemma_cardinality_of_set();
}

/// Idempotence: two crawls of one unchanged store from one root
/// resolve sets of programmes with identical identifier membership,
/// whatever order concurrency would have delivered the documents in.
pub proof fn lemma_crawl_idempotent(
    store: Seq<StoreEntryView>,
    schema: SchemaView,
    origin: Seq<char>,
    root: Seq<char>,
    run1: CrawlStateView,
    run2: CrawlStateView,
)
    requires
        run1 == spec_crawl(store, schema, origin, root),
        run2 == spec_crawl(store, schema, origin, root),
    ensures
        item_ids(run1.items) == item_ids(run2.items),
        forall|x: Seq<char>| has_id(run1.items, x) <==> has_id(run2.items, x),
{
}

} // verus!
