use vstd::prelude::*;

verus! {

/// A provider as the OMO commands see it: its identifier and the optional
/// category it is filed under.
pub struct Provider {
    pub id: String,
    pub category: Option<String>,
}

/// The mathematical value of a [`Provider`].
pub struct ProviderView {
    pub id: Seq<char>,
    pub category: Option<Seq<char>>,
}

impl View for Provider {
    type V = ProviderView;

    open spec fn view(&self) -> ProviderView {
        ProviderView { id: self.id@, category: self.category.deep_view() }
    }
}

impl Clone for Provider {
    fn clone(&self) -> (r: Self)
        ensures
            r == *self,
    {
        let category = match &self.category {
            Some(c) => Some(c.clone()),
            None => None,
        };
        Provider { id: self.id.clone(), category }
    }
}

impl Provider {
    /// Builds a provider from its identifier and optional category.
    pub fn new(id: &str, category: Option<&str>) -> (r: Provider)
        ensures
            r@.id == id@,
            r@.category == (match category {
                Some(c) => Some(c@),
                None => None::<Seq<char>>,
            }),
    {
        let category = match category {
            Some(c) => Some(c.to_owned()),
            None => None,
        };
        Provider { id: id.to_owned(), category }
    }
}

/// The view of an optional provider.
pub open spec fn option_view(o: Option<Provider>) -> Option<ProviderView> {
    match o {
        Some(p) => Some(p@),
        None => None,
    }
}

/// The views of a sequence of providers.
pub open spec fn providers_view(ps: Seq<Provider>) -> Seq<ProviderView> {
    ps.map_values(|p: Provider| p@)
}

/// Whether `p` is filed under exactly the category `category`.
pub open spec fn in_category(p: ProviderView, category: Seq<char>) -> bool {
    p.category == Some(category)
}

/// Text equality of two strings, by their character sequences.
pub(crate) fn same_text(a: &String, b: &String) -> (r: bool)
    ensures
        r == (a@ == b@),
{
    *a == *b
}

/// Whether an optional category is exactly `category`.
pub(crate) fn category_is(c: &Option<String>, category: &String) -> (r: bool)
    ensures
        r == (c.deep_view() == Some(category@)),
{
    match c {
        Some(s) => same_text(s, category),
        None => false,
    }
}

} // verus!
