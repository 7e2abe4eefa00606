//! The tab record: one logical browsing context, backed by one renderer
//! surface addressed through its `label`.

use vstd::prelude::*;

verus! {

/// Mathematical image of a [`TabRecord`]: every field as a plain value.
pub struct TabV {
    pub id: Seq<char>,
    pub label: Seq<char>,
    pub url: Seq<char>,
    pub title: Option<Seq<char>>,
    pub favicon: Option<Seq<char>>,
    pub loading: Option<bool>,
}

/// Metadata of one open tab. `id` is the process-unique identifier, `label`
/// addresses the renderer surface, and the three optional fields are filled
/// in by the page's own self-reports (tri-state `loading`: unknown, loading,
/// loaded).
pub struct TabRecord {
    pub id: String,
    pub label: String,
    pub url: String,
    pub title: Option<String>,
    pub favicon: Option<String>,
    pub loading: Option<bool>,
}

impl View for TabRecord {
    type V = TabV;

    open spec fn view(&self) -> TabV {
        TabV {
            id: self.id@,
            label: self.label@,
            url: self.url@,
            title: match self.title {
                Option::Some(t) => Option::Some(t@),
                Option::None => Option::None,
            },
            favicon: match self.favicon {
                Option::Some(f) => Option::Some(f@),
                Option::None => Option::None,
            },
            loading: self.loading,
        }
    }
}

impl Clone for TabRecord {
    /// Callers receive copies of records, never views into the store.
    fn clone(&self) -> (r: Self)
        ensures
            r == *self,
    {
        TabRecord {
            id: self.id.clone(),
            label: self.label.clone(),
            url: self.url.clone(),
            title: match &self.title {
                Option::Some(t) => Option::Some(t.clone()),
                Option::None => Option::None,
            },
            favicon: match &self.favicon {
                Option::Some(f) => Option::Some(f.clone()),
                Option::None => Option::None,
            },
            loading: self.loading,
        }
    }
}

} // verus!
