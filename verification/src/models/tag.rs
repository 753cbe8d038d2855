use vstd::prelude::*;

verus! {

/// A global card tag. A tag freshly entered by the user has no id yet; one
/// fetched from the API carries its id.
#[derive(Debug, PartialEq)]
pub struct Tag {
    id: Option<u32>,
    name: String,
}

pub struct TagV {
    pub id: Option<u32>,
    pub name: Seq<char>,
}

impl DeepView for Tag {
    type V = TagV;

    closed spec fn deep_view(&self) -> TagV {
        TagV { id: self.id, name: self.name.deep_view() }
    }
}

impl Tag {
    /// A tag as the snapshot file or the API hands it over.
    pub fn new(id: Option<u32>, name: String) -> (r: Tag)
        ensures
            r.deep_view() == (TagV { id, name: name@ }),
    {
        Tag { id, name }
    }

    /// A fresh, not yet uploaded tag named by the given text.
    pub fn from_string(text: String) -> (r: Tag)
        ensures
            r.deep_view() == (TagV { id: Option::None, name: text@ }),
    {
        Tag { id: Option::None, name: text }
    }

    pub fn get_id(&self) -> (r: Option<u32>)
        ensures
            r == self.deep_view().id,
    {
        self.id
    }

    pub fn get_name(&self) -> (r: &str)
        ensures
            r@ == self.deep_view().name,
    {
        self.name.as_str()
    }

    /// A field-for-field copy of this tag.
    pub fn duplicate(&self) -> (r: Tag)
        ensures
            r.deep_view() == self.deep_view(),
    {
        Tag { id: self.id, name: self.name.clone() }
    }
}

/// A field-for-field copy of a list of tags.
pub fn duplicate_tags(v: &Vec<Tag>) -> (r: Vec<Tag>)
    ensures
        r.deep_view() == v.deep_view(),
{
    let mut out: Vec<Tag> = Vec::new();
    let mut i: usize = 0;
    while i < v.len()
        invariant
            i <= v.len(),
            out.deep_view() =~= v.deep_view().subrange(0, i as int),
        decreases v.len() - i,
    {
        let ghost out0 = out.deep_view();
        let d = v[i].duplicate();
        proof {
            assert(d.deep_view() == v.deep_view()[i as int]);
        }
        out.push(d);
        proof {
            assert(out.deep_view() =~= out0.push(d.deep_view()));
        }
        i = i + 1;
    }
    proof {
        assert(out.deep_view() =~= v.deep_view());
    }
    out
}

} // verus!
