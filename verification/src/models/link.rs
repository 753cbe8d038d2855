use vstd::prelude::*;

verus! {

/// An external link attached to a card: a URL and an optional description.
#[derive(Debug, PartialEq)]
pub struct Link {
    id: u32,
    url: Option<String>,
    description: Option<String>,
}

pub struct LinkV {
    pub id: u32,
    pub url: Option<Seq<char>>,
    pub description: Option<Seq<char>>,
}

impl DeepView for Link {
    type V = LinkV;

    closed spec fn deep_view(&self) -> LinkV {
        LinkV {
            id: self.id,
            url: self.url.deep_view(),
            description: self.description.deep_view(),
        }
    }
}

impl Link {
    /// A fresh link to the given URL.
    pub fn from(url: String, description: Option<String>) -> (r: Link)
        ensures
            r.deep_view() == (LinkV {
                id: 0,
                url: Option::Some(url@),
                description: description.deep_view(),
            }),
    {
        Link { id: 0, url: Option::Some(url), description }
    }

    /// A link built from its parts, as the API hands them over.
    pub fn from_parts(id: u32, url: Option<String>, description: Option<String>) -> (r: Link)
        ensures
            r.deep_view() == (LinkV {
                id,
                url: url.deep_view(),
                description: description.deep_view(),
            }),
    {
        Link { id, url, description }
    }

    pub fn get_id(&self) -> (r: u32)
        ensures
            r == self.deep_view().id,
    {
        self.id
    }

    pub fn get_url(&self) -> (r: &Option<String>)
        ensures
            r.deep_view() == self.deep_view().url,
    {
        &self.url
    }

    pub fn get_description(&self) -> (r: &Option<String>)
        ensures
            r.deep_view() == self.deep_view().description,
    {
        &self.description
    }

    /// The text shown for an optional field: the value, or nothing.
    pub fn display_option_string(s: &Option<String>) -> (r: String)
        ensures
            r@ == match s.deep_view() {
                Option::Some(v) => v,
                Option::None => Seq::<char>::empty(),
            },
    {
        match s {
            Option::Some(v) => v.clone(),
            Option::None => {
                let r = String::new();
                proof {
                    assert(r@ =~= Seq::<char>::empty());
                }
                r
            },
        }
    }
}

} // verus!
