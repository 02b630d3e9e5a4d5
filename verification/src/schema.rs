//! The layout schema: a declarative description of where each field of
//! a listing entry, a pointer and a pagination link lives in one
//! site-markup version. Distinct schema values coexist to absorb markup
//! drift; the caller selects the schema, the library never guesses one.

use vstd::prelude::*;
use crate::dom::Locator;
use crate::dom::SelectorView;

verus! {

/// A field of a listing entry, or the schema part that locates it.
#[derive(Clone, Copy, PartialEq, Eq, Structural, Debug)]
pub enum Field {
    Entry,
    Title,
    Subtitle,
    Synopsis,
    Thumbnail,
    Link,
    Pointer,
    Id,
    Pagination,
}

/// A misconfigured layout schema: the named required locator is absent.
/// Fatal; nothing is crawled under such a schema.
#[derive(Clone, Copy, PartialEq, Eq, Structural, Debug)]
pub struct SchemaError {
    pub field: Field,
}

/// One listing entry is unparsable under the given schema: the named
/// required field's locator resolved to nothing. The entry is skipped;
/// the crawl continues.
#[derive(Clone, Copy, PartialEq, Eq, Structural, Debug)]
pub struct ExtractionError {
    pub field: Field,
}

/// Where each field lives in one site-markup version. Subtitle and
/// identifier are optional parts; every other locator is required.
#[derive(Debug)]
pub struct Schema {
    pub entry: Locator,
    pub title: Locator,
    pub subtitle: Option<Locator>,
    pub synopsis: Locator,
    pub thumbnail: Locator,
    pub link: Locator,
    pub pointer: Locator,
    pub id_attr: Option<String>,
    pub id_link_attr: Option<String>,
    pub pagination: Locator,
}

#[verifier::ext_equal]
pub ghost struct SchemaView {
    pub entry: Seq<SelectorView>,
    pub title: Seq<SelectorView>,
    pub subtitle: Option<Seq<SelectorView>>,
    pub synopsis: Seq<SelectorView>,
    pub thumbnail: Seq<SelectorView>,
    pub link: Seq<SelectorView>,
    pub pointer: Seq<SelectorView>,
    pub id_attr: Option<Seq<char>>,
    pub id_link_attr: Option<Seq<char>>,
    pub pagination: Seq<SelectorView>,
}

impl View for Schema {
    type V = SchemaView;

    open spec fn view(&self) -> SchemaView {
        SchemaView {
            entry: self.entry@,
            title: self.title@,
            subtitle: match self.subtitle {
                Some(l) => Some(l@),
                None => None,
            },
            synopsis: self.synopsis@,
            thumbnail: self.thumbnail@,
            link: self.link@,
            pointer: self.pointer@,
            id_attr: match self.id_attr {
                Some(a) => Some(a@),
                None => None,
            },
            id_link_attr: match self.id_link_attr {
                Some(a) => Some(a@),
                None => None,
            },
            pagination: self.pagination@,
        }
    }
}

/// The first absent required locator of a prospective schema, in a
/// fixed field order, if any.
pub open spec fn first_schema_fault(s: SchemaView) -> Option<Field> {
    if s.entry.len() == 0 {
        Some(Field::Entry)
    } else if s.title.len() == 0 {
        Some(Field::Title)
    } else if s.subtitle matches Some(l) && l.len() == 0 {
        Some(Field::Subtitle)
    } else if s.synopsis.len() == 0 {
        Some(Field::Synopsis)
    } else if s.thumbnail.len() == 0 {
        Some(Field::Thumbnail)
    } else if s.link.len() == 0 {
        Some(Field::Link)
    } else if s.pointer.len() == 0 {
        Some(Field::Pointer)
    } else if s.id_attr matches Some(a) && a.len() == 0 {
        Some(Field::Id)
    } else if s.id_link_attr matches Some(a) && a.len() == 0 {
        Some(Field::Id)
    } else if s.pagination.len() == 0 {
        Some(Field::Pagination)
    } else {
        None
    }
}

pub open spec fn schema_wf(s: SchemaView) -> bool {
    first_schema_fault(s) is None
}

impl Schema {
    pub open spec fn wf(&self) -> bool {
        schema_wf(self@)
    }

    /// Validate a prospective schema: a schema whose required locators
    /// are all present is returned unchanged; otherwise the error names
    /// the first absent one in a fixed field order.
    pub fn new(parts: Schema) -> (r: Result<Schema, SchemaError>)
        ensures
            first_schema_fault(parts@) matches Some(f) ==> (r matches Err(e) && e.field == f),
            first_schema_fault(parts@) is None ==> (r matches Ok(s) && s@ == parts@ && s.wf()),
    {
        if parts.entry.path.len() == 0 {
            return Err(SchemaError { field: Field::Entry });
        }
        if parts.title.path.len() == 0 {
            return Err(SchemaError { field: Field::Title });
        }
        if let Some(l) = &parts.subtitle {
            if l.path.len() == 0 {
                return Err(SchemaError { field: Field::Subtitle });
            }
        }
        if parts.synopsis.path.len() == 0 {
            return Err(SchemaError { field: Field::Synopsis });
        }
        if parts.thumbnail.path.len() == 0 {
            return Err(SchemaError { field: Field::Thumbnail });
        }
        if parts.link.path.len() == 0 {
            return Err(SchemaError { field: Field::Link });
        }
        if parts.pointer.path.len() == 0 {
            return Err(SchemaError { field: Field::Pointer });
        }
        if let Some(a) = &parts.id_attr {
            if a.unicode_len() == 0 {
                return Err(SchemaError { field: Field::Id });
            }
        }
        if let Some(a) = &parts.id_link_attr {
            if a.unicode_len() == 0 {
                return Err(SchemaError { field: Field::Id });
            }
        }
        if parts.pagination.path.len() == 0 {
            return Err(SchemaError { field: Field::Pagination });
        }
        Ok(parts)
    }
}

} // verus!
