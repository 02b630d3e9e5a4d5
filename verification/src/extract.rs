//! The entry classifier and extractor: one listing-entry node plus a
//! layout schema yield either a materialised programme or a forward
//! pointer to a deeper listing page. A pointer entry never carries
//! partial programme data, and a missing required field is a hard
//! extraction failure for that entry, never a guess.

use vstd::prelude::*;
use crate::dom::IplayerDocument;
use crate::dom::NodeView;
use crate::dom::SelectorView;
use crate::dom::attr_lookup;
use crate::dom::find_all;
use crate::dom::find_first;
use crate::dom::first_match;
use crate::dom::match_list;
use crate::dom::node_attr;
use crate::schema::ExtractionError;
use crate::schema::Field;
use crate::schema::Schema;
use crate::schema::SchemaView;
use crate::text::absolutized;
use crate::text::absolutize;
use crate::text::first_candidate;
use crate::text::first_srcset_candidate;

verus! {

/// The attribute that carries a link target.
pub open spec fn href_attr() -> Seq<char> {
    "href"@
}

/// The attribute that carries a responsive-image set.
pub open spec fn srcset_attr() -> Seq<char> {
    "srcset"@
}

/// One catalogued media item.
#[derive(Debug)]
pub struct Programme {
    pub id: String,
    pub title: String,
    pub subtitle: Option<String>,
    pub synopsis: String,
    pub thumbnail: String,
    pub url: String,
    pub index: usize,
}

#[verifier::ext_equal]
pub ghost struct ProgrammeView {
    pub id: Seq<char>,
    pub title: Seq<char>,
    pub subtitle: Option<Seq<char>>,
    pub synopsis: Seq<char>,
    pub thumbnail: Seq<char>,
    pub url: Seq<char>,
    pub index: int,
}

impl View for Programme {
    type V = ProgrammeView;

    open spec fn view(&self) -> ProgrammeView {
        ProgrammeView {
            id: self.id@,
            title: self.title@,
            subtitle: match self.subtitle {
                Some(s) => Some(s@),
                None => None,
            },
            synopsis: self.synopsis@,
            thumbnail: self.thumbnail@,
            url: self.url@,
            index: self.index as int,
        }
    }
}

/// One entry node of a listing document, addressed within its document.
#[derive(Clone, Copy)]
pub struct IplayerNode<'a> {
    pub doc: &'a IplayerDocument,
    pub node: usize,
}

impl<'a> IplayerNode<'a> {
    pub open spec fn wf(&self) -> bool {
        self.doc.wf() && self.node < self.doc@.len()
    }
}

/// The outcome of classifying one listing entry: a materialised
/// programme or a forward pointer to a deeper listing page, never both.
pub enum IplayerSelection {
    Programme(Programme),
    ExtraProgPage(String),
}

#[verifier::ext_equal]
pub ghost enum SelectionView {
    Programme(ProgrammeView),
    ExtraProgPage(Seq<char>),
}

impl View for IplayerSelection {
    type V = SelectionView;

    open spec fn view(&self) -> SelectionView {
        match self {
            IplayerSelection::Programme(p) => SelectionView::Programme(p@),
            IplayerSelection::ExtraProgPage(t) => SelectionView::ExtraProgPage(t@),
        }
    }
}

/// The text of the first node the locator finds within the entry.
pub open spec fn spec_text_at(d: Seq<NodeView>, scope: int, loc: Seq<SelectorView>) -> Option<
    Seq<char>,
> {
    match first_match(d, scope, loc) {
        Some(n) => Some(d[n].text),
        None => None,
    }
}

/// The named attribute of the first node the locator finds within the
/// entry: absent when no node matches or the attribute is missing.
pub open spec fn spec_attr_at(
    d: Seq<NodeView>,
    scope: int,
    loc: Seq<SelectorView>,
    name: Seq<char>,
) -> Option<Seq<char>> {
    match first_match(d, scope, loc) {
        Some(n) => attr_lookup(d[n].attrs, name),
        None => None,
    }
}

/// The pointer target of an entry: present exactly when the pointer
/// locator resolves to a node whose link attribute is present and
/// non-empty.
pub open spec fn spec_pointer_target(d: Seq<NodeView>, entry: int, schema: SchemaView) -> Option<
    Seq<char>,
> {
    match spec_attr_at(d, entry, schema.pointer, href_attr()) {
        Some(t) => if t.len() > 0 {
            Some(t)
        } else {
            None
        },
        None => None,
    }
}

/// The entry's subtitle, when the schema locates subtitles at all.
pub open spec fn spec_subtitle(d: Seq<NodeView>, entry: int, schema: SchemaView) -> Option<
    Seq<char>,
> {
    match schema.subtitle {
        Some(l) => spec_text_at(d, entry, l),
        None => None,
    }
}

/// The entry's canonical URL: the link attribute absolutised against
/// the origin.
pub open spec fn spec_url(
    d: Seq<NodeView>,
    entry: int,
    schema: SchemaView,
    origin: Seq<char>,
) -> Option<Seq<char>> {
    match spec_attr_at(d, entry, schema.link, href_attr()) {
        Some(raw) => Some(absolutized(origin, raw)),
        None => None,
    }
}

/// The entry's thumbnail: the first candidate of the responsive-image
/// set, absent when the set is missing or holds no candidate.
pub open spec fn spec_thumbnail(d: Seq<NodeView>, entry: int, schema: SchemaView) -> Option<
    Seq<char>,
> {
    match spec_attr_at(d, entry, schema.thumbnail, srcset_attr()) {
        Some(set) => if first_candidate(set).len() > 0 {
            Some(first_candidate(set))
        } else {
            None
        },
        None => None,
    }
}

/// The identifier recovered from the entry's embedded link, when the
/// schema names a data attribute for it.
pub open spec fn spec_link_id(d: Seq<NodeView>, entry: int, schema: SchemaView) -> Option<
    Seq<char>,
> {
    match schema.id_link_attr {
        Some(a) => spec_attr_at(d, entry, schema.link, a),
        None => None,
    }
}

/// The entry's identifier, by the fixed fallback chain: the identifier
/// attribute on the entry itself, then the same attribute on its
/// parent, then a data attribute on the entry's embedded link. The
/// first present value wins.
pub open spec fn spec_item_id(d: Seq<NodeView>, entry: int, schema: SchemaView) -> Option<
    Seq<char>,
> {
    match schema.id_attr {
        Some(a) => match attr_lookup(d[entry].attrs, a) {
            Some(v) => Some(v),
            None => match attr_lookup(d[d[entry].parent].attrs, a) {
                Some(v) => Some(v),
                None => spec_link_id(d, entry, schema),
            },
        },
        None => spec_link_id(d, entry, schema),
    }
}

/// The programme extracted from one entry, or the first required field
/// whose locator resolved to nothing, in the fixed evaluation order:
/// title, synopsis, link, thumbnail, identifier. The produced
/// programme's sequence index is zero; a crawler numbers programmes in
/// discovery order.
pub open spec fn spec_programme(
    d: Seq<NodeView>,
    entry: int,
    schema: SchemaView,
    origin: Seq<char>,
) -> Result<ProgrammeView, ExtractionError> {
    match spec_text_at(d, entry, schema.title) {
        None => Err(ExtractionError { field: Field::Title }),
        Some(title) => match spec_text_at(d, entry, schema.synopsis) {
            None => Err(ExtractionError { field: Field::Synopsis }),
            Some(synopsis) => match spec_url(d, entry, schema, origin) {
                None => Err(ExtractionError { field: Field::Link }),
                Some(url) => match spec_thumbnail(d, entry, schema) {
                    None => Err(ExtractionError { field: Field::Thumbnail }),
                    Some(thumbnail) => match spec_item_id(d, entry, schema) {
                        None => Err(ExtractionError { field: Field::Id }),
                        Some(id) => Ok(
                            ProgrammeView {
                                id,
                                title,
                                subtitle: spec_subtitle(d, entry, schema),
                                synopsis,
                                thumbnail,
                                url,
                                index: 0,
                            },
                        ),
                    },
                },
            },
        },
    }
}

/// The programme extracted from one entry of a single-programme page,
/// whose title was read elsewhere on the page and is handed in: every
/// other field is extracted as usual, in the fixed evaluation order
/// synopsis, link, thumbnail, identifier.
pub open spec fn spec_programme_with_title(
    d: Seq<NodeView>,
    entry: int,
    schema: SchemaView,
    origin: Seq<char>,
    title: Seq<char>,
) -> Result<ProgrammeView, ExtractionError> {
    match spec_text_at(d, entry, schema.synopsis) {
        None => Err(ExtractionError { field: Field::Synopsis }),
        Some(synopsis) => match spec_url(d, entry, schema, origin) {
            None => Err(ExtractionError { field: Field::Link }),
            Some(url) => match spec_thumbnail(d, entry, schema) {
                None => Err(ExtractionError { field: Field::Thumbnail }),
                Some(thumbnail) => match spec_item_id(d, entry, schema) {
                    None => Err(ExtractionError { field: Field::Id }),
                    Some(id) => Ok(
                        ProgrammeView {
                            id,
                            title,
                            subtitle: spec_subtitle(d, entry, schema),
                            synopsis,
                            thumbnail,
                            url,
                            index: 0,
                        },
                    ),
                },
            },
        },
    }
}

/// Classification of one entry: a pointer when the pointer locator
/// resolves to a present, non-empty link, with no other field read;
/// otherwise the extracted programme or that extraction's failure.
pub open spec fn spec_classify(
    d: Seq<NodeView>,
    entry: int,
    schema: SchemaView,
    origin: Seq<char>,
) -> Result<SelectionView, ExtractionError> {
    match spec_pointer_target(d, entry, schema) {
        Some(t) => Ok(SelectionView::ExtraProgPage(t)),
        None => match spec_programme(d, entry, schema, origin) {
            Ok(p) => Ok(SelectionView::Programme(p)),
            Err(e) => Err(e),
        },
    }
}

pub open spec fn sel_res_view(r: Result<IplayerSelection, ExtractionError>) -> Result<
    SelectionView,
    ExtractionError,
> {
    match r {
        Ok(s) => Ok(s@),
        Err(e) => Err(e),
    }
}

pub open spec fn prog_res_view(r: Result<Programme, ExtractionError>) -> Result<
    ProgrammeView,
    ExtractionError,
> {
    match r {
        Ok(p) => Ok(p@),
        Err(e) => Err(e),
    }
}

/// The classification of every entry node of a document, in document
/// order.
pub open spec fn spec_selection_results(
    d: Seq<NodeView>,
    schema: SchemaView,
    origin: Seq<char>,
) -> Seq<Result<SelectionView, ExtractionError>> {
    match_list(d, 0, schema.entry).map_values(|n: int| spec_classify(d, n, schema, origin))
}

/// The present, non-empty link attributes of the given nodes, in order.
pub open spec fn links_of(d: Seq<NodeView>, nodes: Seq<int>) -> Seq<Seq<char>>
    decreases nodes.len(),
{
    if nodes.len() == 0 {
        Seq::empty()
    } else {
        let rest = links_of(d, nodes.drop_first());
        match attr_lookup(d[nodes[0]].attrs, href_attr()) {
            Some(h) => if h.len() > 0 {
                seq![h] + rest
            } else {
                rest
            },
            None => rest,
        }
    }
}

/// The document's pagination links, in document order; may be empty.
pub open spec fn spec_pagination_links(d: Seq<NodeView>, schema: SchemaView) -> Seq<Seq<char>> {
    links_of(d, match_list(d, 0, schema.pagination))
}

impl<'a> IplayerNode<'a> {
    /// The entry's title: the text of the first node the title locator
    /// finds.
    pub fn find_title(&self, schema: &Schema) -> (r: Result<String, ExtractionError>)
        requires
            self.wf(),
        ensures
            r matches Ok(t) ==> spec_text_at(self.doc@, self.node as int, schema@.title) == Some(
                t@,
            ),
            r matches Err(e) ==> spec_text_at(self.doc@, self.node as int, schema@.title) is None
                && e.field == Field::Title,
    {
        match find_first(self.doc, self.node, &schema.title) {
            Some(n) => Ok(self.doc.nodes[n].text.clone()),
            None => Err(ExtractionError { field: Field::Title }),
        }
    }

    /// The entry's subtitle: absent rather than failing, and never read
    /// at all when the schema has no subtitle locator.
    pub fn find_subtitle(&self, schema: &Schema) -> (r: Option<String>)
        requires
            self.wf(),
        ensures
            r matches Some(t) ==> spec_subtitle(self.doc@, self.node as int, schema@) == Some(t@),
            r is None ==> spec_subtitle(self.doc@, self.node as int, schema@) is None,
    {
        match &schema.subtitle {
            Some(loc) => match find_first(self.doc, self.node, loc) {
                Some(n) => Some(self.doc.nodes[n].text.clone()),
                None => None,
            },
            None => None,
        }
    }

    /// The entry's synopsis: the text of the first node the synopsis
    /// locator finds.
    pub fn find_synopsis(&self, schema: &Schema) -> (r: Result<String, ExtractionError>)
        requires
            self.wf(),
        ensures
            r matches Ok(t) ==> spec_text_at(self.doc@, self.node as int, schema@.synopsis)
                == Some(t@),
            r matches Err(e) ==> spec_text_at(self.doc@, self.node as int, schema@.synopsis)
                is None && e.field == Field::Synopsis,
    {
        match find_first(self.doc, self.node, &schema.synopsis) {
            Some(n) => Ok(self.doc.nodes[n].text.clone()),
            None => Err(ExtractionError { field: Field::Synopsis }),
        }
    }

    /// The entry's canonical URL: the embedded link's target,
    /// absolutised against the origin.
    pub fn find_url(&self, schema: &Schema, origin: &str) -> (r: Result<String, ExtractionError>)
        requires
            self.wf(),
        ensures
            r matches Ok(u) ==> spec_url(self.doc@, self.node as int, schema@, origin@) == Some(
                u@,
            ),
            r matches Err(e) ==> spec_url(self.doc@, self.node as int, schema@, origin@) is None
                && e.field == Field::Link,
    {
        match find_first(self.doc, self.node, &schema.link) {
            Some(n) => match node_attr(&self.doc.nodes[n], "href") {
                Some(raw) => Ok(absolutize(origin, raw.as_str())),
                None => Err(ExtractionError { field: Field::Link }),
            },
            None => Err(ExtractionError { field: Field::Link }),
        }
    }

    /// The entry's thumbnail: the first candidate of the located
    /// responsive-image set.
    pub fn find_thumbnail(&self, schema: &Schema) -> (r: Result<String, ExtractionError>)
        requires
            self.wf(),
        ensures
            r matches Ok(t) ==> spec_thumbnail(self.doc@, self.node as int, schema@) == Some(t@),
            r matches Err(e) ==> spec_thumbnail(self.doc@, self.node as int, schema@) is None
                && e.field == Field::Thumbnail,
    {
        match find_first(self.doc, self.node, &schema.thumbnail) {
            Some(n) => match node_attr(&self.doc.nodes[n], "srcset") {
                Some(set) => {
                    let cand = first_srcset_candidate(set.as_str());
                    if cand.unicode_len() > 0 {
                        Ok(cand)
                    } else {
                        Err(ExtractionError { field: Field::Thumbnail })
                    }
                },
                None => Err(ExtractionError { field: Field::Thumbnail }),
            },
            None => Err(ExtractionError { field: Field::Thumbnail }),
        }
    }

    /// The entry's identifier, by the fixed fallback chain: entry
    /// attribute, parent's attribute, link data attribute.
    pub fn find_id(&self, schema: &Schema) -> (r: Result<String, ExtractionError>)
        requires
            self.wf(),
        ensures
            r matches Ok(v) ==> spec_item_id(self.doc@, self.node as int, schema@) == Some(v@),
            r matches Err(e) ==> spec_item_id(self.doc@, self.node as int, schema@) is None
                && e.field == Field::Id,
    {
        if let Some(a) = &schema.id_attr {
            if let Some(v) = node_attr(&self.doc.nodes[self.node], a.as_str()) {
                return Ok(v);
            }
            let p = self.doc.nodes[self.node].parent;
            assert(self.doc@[self.node as int] == self.doc.nodes@[self.node as int]@);
            assert(0 <= self.doc@[self.node as int].parent < self.doc@.len());
            if let Some(v) = node_attr(&self.doc.nodes[p], a.as_str()) {
                return Ok(v);
            }
        }
        self.find_link_id(schema)
    }

    fn find_link_id(&self, schema: &Schema) -> (r: Result<String, ExtractionError>)
        requires
            self.wf(),
        ensures
            r matches Ok(v) ==> spec_link_id(self.doc@, self.node as int, schema@) == Some(v@),
            r matches Err(e) ==> spec_link_id(self.doc@, self.node as int, schema@) is None
                && e.field == Field::Id,
    {
        if let Some(a) = &schema.id_link_attr {
            match find_first(self.doc, self.node, &schema.link) {
                Some(n) => match node_attr(&self.doc.nodes[n], a.as_str()) {
                    Some(v) => Ok(v),
                    None => Err(ExtractionError { field: Field::Id }),
                },
                None => Err(ExtractionError { field: Field::Id }),
            }
        } else {
            Err(ExtractionError { field: Field::Id })
        }
    }

    fn find_pointer_target(&self, schema: &Schema) -> (r: Option<String>)
        requires
            self.wf(),
        ensures
            r matches Some(t) ==> spec_pointer_target(self.doc@, self.node as int, schema@)
                == Some(t@),
            r is None ==> spec_pointer_target(self.doc@, self.node as int, schema@) is None,
    {
        match find_first(self.doc, self.node, &schema.pointer) {
            Some(n) => match node_attr(&self.doc.nodes[n], "href") {
                Some(t) => if t.unicode_len() > 0 {
                    Some(t)
                } else {
                    None
                },
                None => None,
            },
            None => None,
        }
    }
}

impl Programme {
    /// Extract a programme from one entry node under the given schema,
    /// or fail naming the first required field whose locator resolved
    /// to nothing. The sequence index is zero; a crawler numbers
    /// programmes in discovery order.
    pub fn new(inode: IplayerNode<'_>, schema: &Schema, origin: &str) -> (r: Result<
        Programme,
        ExtractionError,
    >)
        requires
            inode.wf(),
        ensures
            prog_res_view(r) == spec_programme(inode.doc@, inode.node as int, schema@, origin@),
    {
        let title = match inode.find_title(schema) {
            Ok(t) => t,
            Err(e) => return Err(e),
        };
        let synopsis = match inode.find_synopsis(schema) {
            Ok(s) => s,
            Err(e) => return Err(e),
        };
        let url = match inode.find_url(schema, origin) {
            Ok(u) => u,
            Err(e) => return Err(e),
        };
        let thumbnail = match inode.find_thumbnail(schema) {
            Ok(t) => t,
            Err(e) => return Err(e),
        };
        let id = match inode.find_id(schema) {
            Ok(v) => v,
            Err(e) => return Err(e),
        };
        let subtitle = inode.find_subtitle(schema);
        Ok(Programme { id, title, subtitle, synopsis, thumbnail, url, index: 0 })
    }

    /// Extract a programme from the single entry of a programme page,
    /// taking the title read elsewhere on that page; the remaining
    /// fields are extracted as from a listing entry.
    pub fn new_from_program_page(inode: IplayerNode<'_>, schema: &Schema, origin: &str, title: String) -> (r: Result<
        Programme,
        ExtractionError,
    >)
        requires
            inode.wf(),
        ensures
            prog_res_view(r) == spec_programme_with_title(
                inode.doc@,
                inode.node as int,
                schema@,
                origin@,
                title@,
            ),
    {
        let synopsis = match inode.find_synopsis(schema) {
            Ok(s) => s,
            Err(e) => return Err(e),
        };
        let url = match inode.find_url(schema, origin) {
            Ok(u) => u,
            Err(e) => return Err(e),
        };
        let thumbnail = match inode.find_thumbnail(schema) {
            Ok(t) => t,
            Err(e) => return Err(e),
        };
        let id = match inode.find_id(schema) {
            Ok(v) => v,
            Err(e) => return Err(e),
        };
        let subtitle = inode.find_subtitle(schema);
        Ok(Programme { id, title, subtitle, synopsis, thumbnail, url, index: 0 })
    }
}

impl IplayerSelection {
    /// Classify one entry: a pointer when the pointer locator resolves
    /// to a present, non-empty link — no other field is read — and the
    /// extracted programme otherwise.
    pub fn new(inode: IplayerNode<'_>, schema: &Schema, origin: &str) -> (r: Result<
        IplayerSelection,
        ExtractionError,
    >)
        requires
            inode.wf(),
        ensures
            sel_res_view(r) == spec_classify(inode.doc@, inode.node as int, schema@, origin@),
    {
        match inode.find_pointer_target(schema) {
            Some(t) => Ok(IplayerSelection::ExtraProgPage(t)),
            None => match Programme::new(inode, schema, origin) {
                Ok(p) => Ok(IplayerSelection::Programme(p)),
                Err(e) => Err(e),
            },
        }
    }
}

impl IplayerDocument {
    /// Classify every entry node of the document, in document order.
    pub fn selection_results(&self, schema: &Schema, origin: &str) -> (r: Vec<
        Result<IplayerSelection, ExtractionError>,
    >)
        requires
            self.wf(),
        ensures
            r@.map_values(|x: Result<IplayerSelection, ExtractionError>| sel_res_view(x))
                == spec_selection_results(self@, schema@, origin@),
    {
        let ghost ml = match_list(self@, 0, schema@.entry);
        let entries = find_all(self, 0, &schema.entry);
        let mut out: Vec<Result<IplayerSelection, ExtractionError>> = Vec::new();
        let mut k: usize = 0;
        while k < entries.len()
            invariant
                self.wf(),
                k <= entries.len(),
                ml == match_list(self@, 0, schema@.entry),
                entries@.map_values(|x: usize| x as int) == ml,
                forall|j: int| 0 <= j < entries@.len() ==> #[trigger] entries@[j] < self@.len(),
                out@.len() == k,
                forall|j: int|
                    0 <= j < k ==> #[trigger] sel_res_view(out@[j]) == spec_classify(
                        self@,
                        ml[j],
                        schema@,
                        origin@,
                    ),
            decreases entries.len() - k,
        {
            let inode = IplayerNode { doc: self, node: entries[k] };
            assert(entries@[k as int] < self@.len());
            let sel = IplayerSelection::new(inode, schema, origin);
            out.push(sel);
            k = k + 1;
        }
        proof {
            assert(out@.map_values(|x: Result<IplayerSelection, ExtractionError>| sel_res_view(x))
                =~= spec_selection_results(self@, schema@, origin@));
        }
        out
    }

    /// The document's pagination links, in document order; a listing
    /// page need not paginate.
    pub fn next_pages(&self, schema: &Schema) -> (r: Vec<String>)
        requires
            self.wf(),
        ensures
            r@.map_values(|s: String| s@) == spec_pagination_links(self@, schema@),
    {
        let ghost ml = match_list(self@, 0, schema@.pagination);
        let pages = find_all(self, 0, &schema.pagination);
        let mut out: Vec<String> = Vec::new();
        let mut k: usize = 0;
        proof {
            assert(ml.skip(0) =~= ml);
        }
        while k < pages.len()
            invariant
                self.wf(),
                k <= pages.len(),
                ml == match_list(self@, 0, schema@.pagination),
                pages@.map_values(|x: usize| x as int) == ml,
                forall|j: int| 0 <= j < pages@.len() ==> #[trigger] pages@[j] < self@.len(),
                links_of(self@, ml) =~= out@.map_values(|s: String| s@) + links_of(
                    self@,
                    ml.skip(k as int),
                ),
            decreases pages.len() - k,
        {
            assert(pages@[k as int] < self@.len());
            let ghost tail = ml.skip(k as int);
            proof {
                assert(tail.len() > 0);
                assert(tail[0] == ml[k as int]);
                assert(tail.drop_first() =~= ml.skip(k as int + 1));
            }
            match node_attr(&self.nodes[pages[k]], "href") {
                Some(h) => {
                    if h.unicode_len() > 0 {
                        out.push(h);
                        proof {
                            assert(links_of(self@, ml) =~= out@.map_values(|s: String| s@)
                                + links_of(self@, ml.skip(k as int + 1)));
                        }
                    } else {
                        proof {
                            assert(links_of(self@, ml) =~= out@.map_values(|s: String| s@)
                                + links_of(self@, ml.skip(k as int + 1)));
                        }
                    }
                },
                None => {
                    proof {
                        assert(links_of(self@, ml) =~= out@.map_values(|s: String| s@) + links_of(
                            self@,
                            ml.skip(k as int + 1),
                        ));
                    }
                },
            }
            k = k + 1;
        }
        proof {
            assert(ml.skip(ml.len() as int).len() == 0);
            assert(out@.map_values(|s: String| s@) =~= spec_pagination_links(self@, schema@));
        }
        out
    }
}


/// The programmes among a sequence of classification outcomes, in
/// order; failed entries and pointers contribute nothing.
pub open spec fn programmes_of(sels: Seq<Result<SelectionView, ExtractionError>>) -> Seq<
    ProgrammeView,
>
    decreases sels.len(),
{
    if sels.len() == 0 {
        Seq::empty()
    } else {
        let rest = programmes_of(sels.drop_first());
        match sels[0] {
            Ok(SelectionView::Programme(p)) => seq![p] + rest,
            _ => rest,
        }
    }
}

/// The pointer targets among a sequence of classification outcomes, in
/// order; failed entries and programmes contribute nothing.
pub open spec fn pointers_of(sels: Seq<Result<SelectionView, ExtractionError>>) -> Seq<Seq<char>>
    decreases sels.len(),
{
    if sels.len() == 0 {
        Seq::empty()
    } else {
        let rest = pointers_of(sels.drop_first());
        match sels[0] {
            Ok(SelectionView::ExtraProgPage(t)) => seq![t] + rest,
            _ => rest,
        }
    }
}

/// An entry is classified as a pointer exactly when its pointer
/// locator resolves to a present, non-empty link, and then no
/// programme is produced from it; an entry that yields a programme has
/// no pointer target. The two outcomes exclude each other on every
/// entry.
pub proof fn lemma_selection_exclusive(
    d: Seq<NodeView>,
    entry: int,
    schema: SchemaView,
    origin: Seq<char>,
)
    ensures
        spec_pointer_target(d, entry, schema) matches Some(t) ==> spec_classify(
            d,
            entry,
            schema,
            origin,
        ) == Ok::<SelectionView, ExtractionError>(SelectionView::ExtraProgPage(t)),
        spec_pointer_target(d, entry, schema) is None ==> !(spec_classify(
            d,
            entry,
            schema,
            origin,
        ) matches Ok(s) && s is ExtraProgPage),
        (spec_classify(d, entry, schema, origin) matches Ok(s) && s is Programme)
            ==> spec_pointer_target(d, entry, schema) is None,
{
}

/// The classifications of several documents of one category, in
/// document order within each document, main document first.
pub open spec fn mcd_sel_results(
    docs: Seq<Seq<NodeView>>,
    schema: SchemaView,
    origin: Seq<char>,
) -> Seq<Result<SelectionView, ExtractionError>>
    decreases docs.len(),
{
    if docs.len() == 0 {
        Seq::empty()
    } else {
        spec_selection_results(docs[0], schema, origin) + mcd_sel_results(
            docs.drop_first(),
            schema,
            origin,
        )
    }
}

/// A fetched single-programme page; its one entry is extracted
/// through [`Programme::new_from_program_page`], the title having been
/// read elsewhere on the page.
pub struct ProgramPage {
    pub doc: IplayerDocument,
}

/// A main category listing document together with the further listing
/// pages of the same category that were already fetched.
pub struct MainCategoryDocument {
    pub maindoc: IplayerDocument,
    pub nextdocs: Vec<IplayerDocument>,
}

impl MainCategoryDocument {
    pub open spec fn wf(&self) -> bool {
        self.maindoc.wf() && forall|i: int|
            0 <= i < self.nextdocs@.len() ==> (#[trigger] self.nextdocs@[i]).wf()
    }

    /// The main document followed by the further documents.
    pub open spec fn docs_view(&self) -> Seq<Seq<NodeView>> {
        seq![self.maindoc@] + self.nextdocs@.map_values(|d: IplayerDocument| d@)
    }

    /// The main document followed by every further document, each by
    /// reference.
    pub fn all_docs(&self) -> (r: Vec<&IplayerDocument>)
        ensures
            r@.map_values(|d: &IplayerDocument| d@) == self.docs_view(),
    {
        let ghost docs = self.docs_view();
        let mut res: Vec<&IplayerDocument> = Vec::new();
        res.push(&self.maindoc);
        proof {
            assert(res@.map_values(|d: &IplayerDocument| d@) =~= docs.take(1));
        }
        let mut i: usize = 0;
        while i < self.nextdocs.len()
            invariant
                i <= self.nextdocs.len(),
                docs == self.docs_view(),
                docs.len() == 1 + self.nextdocs@.len(),
                res@.map_values(|d: &IplayerDocument| d@) =~= docs.take(1 + i as int),
            decreases self.nextdocs.len() - i,
        {
            let ghost pre = res@;
            let d = &self.nextdocs[i];
            proof {
                assert(d@ == self.nextdocs@[i as int]@);
            }
            res.push(d);
            proof {
                assert(res@ =~= pre.push(d));
                assert(res@.map_values(|x: &IplayerDocument| x@) =~= pre.map_values(
                    |x: &IplayerDocument| x@,
                ).push(d@));
                assert(docs[1 + i as int] == self.nextdocs@[i as int]@);
                assert(docs.take(2 + i as int) =~= docs.take(1 + i as int).push(
                    docs[1 + i as int],
                ));
                assert(res@.map_values(|x: &IplayerDocument| x@) =~= docs.take(2 + i as int));
            }
            i = i + 1;
        }
        proof {
            assert(docs.take(docs.len() as int) =~= docs);
        }
        res
    }

    /// Classify every entry of every document of the category, main
    /// document first, each document in document order.
    pub fn selection_results(&self, schema: &Schema, origin: &str) -> (r: Vec<
        Result<IplayerSelection, ExtractionError>,
    >)
        requires
            self.wf(),
        ensures
            r@.map_values(|x: Result<IplayerSelection, ExtractionError>| sel_res_view(x))
                == mcd_sel_results(self.docs_view(), schema@, origin@),
    {
        let ghost docs = self.docs_view();
        let mut out = self.maindoc.selection_results(schema, origin);
        proof {
            assert(docs[0] == self.maindoc@);
            assert(docs.drop_first() =~= self.nextdocs@.map_values(|d: IplayerDocument| d@));
            assert(mcd_sel_results(docs, schema@, origin@) =~= out@.map_values(
                |x: Result<IplayerSelection, ExtractionError>| sel_res_view(x),
            ) + mcd_sel_results(docs.skip(1), schema@, origin@));
        }
        let mut i: usize = 0;
        while i < self.nextdocs.len()
            invariant
                self.wf(),
                i <= self.nextdocs.len(),
                docs == self.docs_view(),
                docs.len() == 1 + self.nextdocs@.len(),
                mcd_sel_results(docs, schema@, origin@) =~= out@.map_values(
                    |x: Result<IplayerSelection, ExtractionError>| sel_res_view(x),
                ) + mcd_sel_results(docs.skip(1 + i as int), schema@, origin@),
            decreases self.nextdocs.len() - i,
        {
            proof {
                assert(self.nextdocs@[i as int].wf());
                assert(docs.skip(1 + i as int)[0] == docs[1 + i as int]);
                assert(docs[1 + i as int] == self.nextdocs@[i as int]@);
                assert(docs.skip(1 + i as int).drop_first() =~= docs.skip(2 + i as int));
            }
            let mut part = self.nextdocs[i].selection_results(schema, origin);
            let ghost old_out = out@;
            let ghost part_view = part@;
            out.append(&mut part);
            proof {
                assert(out@ =~= old_out + part_view);
                assert(out@.map_values(
                    |x: Result<IplayerSelection, ExtractionError>| sel_res_view(x),
                ) =~= old_out.map_values(
                    |x: Result<IplayerSelection, ExtractionError>| sel_res_view(x),
                ) + part_view.map_values(
                    |x: Result<IplayerSelection, ExtractionError>| sel_res_view(x),
                ));
                assert(mcd_sel_results(docs, schema@, origin@) =~= out@.map_values(
                    |x: Result<IplayerSelection, ExtractionError>| sel_res_view(x),
                ) + mcd_sel_results(docs.skip(2 + i as int), schema@, origin@));
            }
            i = i + 1;
        }
        proof {
            assert(docs.skip(1 + self.nextdocs@.len() as int).len() == 0);
            assert(mcd_sel_results(docs, schema@, origin@) =~= out@.map_values(
                |x: Result<IplayerSelection, ExtractionError>| sel_res_view(x),
            ));
        }
        out
    }

    /// The programmes of the category's documents, in discovery order,
    /// before any dedup; entries that failed extraction are skipped.
    pub fn programmes(&self, schema: &Schema, origin: &str) -> (r: Vec<Programme>)
        requires
            self.wf(),
        ensures
            r@.map_values(|p: Programme| p@) == programmes_of(
                mcd_sel_results(self.docs_view(), schema@, origin@),
            ),
    {
        let mut sels = self.selection_results(schema, origin);
        let ghost all = sels@.map_values(
            |x: Result<IplayerSelection, ExtractionError>| sel_res_view(x),
        );
        let mut progs: Vec<Programme> = Vec::new();
        while sels.len() > 0
            invariant
                programmes_of(all) =~= progs@.map_values(|p: Programme| p@) + programmes_of(
                    sels@.map_values(
                        |x: Result<IplayerSelection, ExtractionError>| sel_res_view(x),
                    ),
                ),
            decreases sels.len(),
        {
            let ghost pre = sels@.map_values(
                |x: Result<IplayerSelection, ExtractionError>| sel_res_view(x),
            );
            let s = sels.remove(0);
            proof {
                assert(pre[0] == sel_res_view(s));
                assert(sels@.map_values(
                    |x: Result<IplayerSelection, ExtractionError>| sel_res_view(x),
                ) =~= pre.drop_first());
            }
            match s {
                Ok(IplayerSelection::Programme(p)) => {
                    progs.push(p);
                },
                _ => {},
            }
        }
        proof {
            assert(progs@.map_values(|p: Programme| p@) =~= programmes_of(all));
        }
        progs
    }

    /// The pointer targets of the category's documents, in discovery
    /// order: the deeper listing pages still to fetch.
    pub fn extra_program_pages(&self, schema: &Schema, origin: &str) -> (r: Vec<String>)
        requires
            self.wf(),
        ensures
            r@.map_values(|s: String| s@) == pointers_of(
                mcd_sel_results(self.docs_view(), schema@, origin@),
            ),
    {
        let mut sels = self.selection_results(schema, origin);
        let ghost all = sels@.map_values(
            |x: Result<IplayerSelection, ExtractionError>| sel_res_view(x),
        );
        let mut pages: Vec<String> = Vec::new();
        while sels.len() > 0
            invariant
                pointers_of(all) =~= pages@.map_values(|s: String| s@) + pointers_of(
                    sels@.map_values(
                        |x: Result<IplayerSelection, ExtractionError>| sel_res_view(x),
                    ),
                ),
            decreases sels.len(),
        {
            let ghost pre = sels@.map_values(
                |x: Result<IplayerSelection, ExtractionError>| sel_res_view(x),
            );
            let s = sels.remove(0);
            proof {
                assert(pre[0] == sel_res_view(s));
                assert(sels@.map_values(
                    |x: Result<IplayerSelection, ExtractionError>| sel_res_view(x),
                ) =~= pre.drop_first());
            }
            match s {
                Ok(IplayerSelection::ExtraProgPage(t)) => {
                    pages.push(t);
                },
                _ => {},
            }
        }
        proof {
            assert(pages@.map_values(|s: String| s@) =~= pointers_of(all));
        }
        pages
    }

    /// The pagination links of the main document.
    pub fn next_pages(&self, schema: &Schema) -> (r: Vec<String>)
        requires
            self.wf(),
        ensures
            r@.map_values(|s: String| s@) == spec_pagination_links(self.maindoc@, schema@),
    {
        self.maindoc.next_pages(schema)
    }
}

} // verus!
