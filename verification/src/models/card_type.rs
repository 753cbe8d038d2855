use vstd::prelude::*;

verus! {

/// A card type: a short letter shown in listings plus a full name.
#[derive(Debug, PartialEq)]
pub struct CardType {
    id: u32,
    name: String,
    letter: String,
    archived: bool,
}

pub struct CardTypeV {
    pub id: u32,
    pub name: Seq<char>,
    pub letter: Seq<char>,
    pub archived: bool,
}

impl DeepView for CardType {
    type V = CardTypeV;

    closed spec fn deep_view(&self) -> CardTypeV {
        CardTypeV {
            id: self.id,
            name: self.name.deep_view(),
            letter: self.letter.deep_view(),
            archived: self.archived,
        }
    }
}

impl CardType {
    /// An empty card type: id zero, empty texts, not archived.
    pub fn new() -> (r: CardType)
        ensures
            r.deep_view() == (CardTypeV {
                id: 0,
                name: Seq::<char>::empty(),
                letter: Seq::<char>::empty(),
                archived: false,
            }),
    {
        let t = CardType { id: 0, name: String::new(), letter: String::new(), archived: false };
        proof {
            assert(t.deep_view().name =~= Seq::<char>::empty());
            assert(t.deep_view().letter =~= Seq::<char>::empty());
            assert(t.deep_view() == (CardTypeV {
                id: 0,
                name: Seq::<char>::empty(),
                letter: Seq::<char>::empty(),
                archived: false,
            }));
        }
        t
    }

    /// A card type built from its parts.
    pub fn from_parts(id: u32, name: String, letter: String, archived: bool) -> (r: CardType)
        ensures
            r.deep_view() == (CardTypeV { id, name: name@, letter: letter@, archived }),
    {
        CardType { id, name, letter, archived }
    }

    pub fn get_id(&self) -> (r: u32)
        ensures
            r == self.deep_view().id,
    {
        self.id
    }

    pub fn get_name(&self) -> (r: &str)
        ensures
            r@ == self.deep_view().name,
    {
        self.name.as_str()
    }

    pub fn get_letter(&self) -> (r: &str)
        ensures
            r@ == self.deep_view().letter,
    {
        self.letter.as_str()
    }

    pub fn get_archived(&self) -> (r: bool)
        ensures
            r == self.deep_view().archived,
    {
        self.archived
    }

    /// A field-for-field copy of this card type.
    pub fn duplicate(&self) -> (r: CardType)
        ensures
            r.deep_view() == self.deep_view(),
    {
        CardType {
            id: self.id,
            name: self.name.clone(),
            letter: self.letter.clone(),
            archived: self.archived,
        }
    }
}

/// A field-for-field copy of a list of card types.
pub fn duplicate_card_types(v: &Vec<CardType>) -> (r: Vec<CardType>)
    ensures
        r.deep_view() == v.deep_view(),
{
    let mut out: Vec<CardType> = Vec::new();
    let mut i: usize = 0;
    while i < v.len()
        invariant
            i <= v.len(),
            out.deep_view() =~= v.deep_view().subrange(0, i as int),
        decreases v.len() - i,
    {
        let ghost out0 = out.deep_view();
        let d = v[i].duplicate();
        proof {
            assert(d.deep_view() == v.deep_view()[i as int]);
        }
        out.push(d);
        proof {
            assert(out.deep_view() =~= out0.push(d.deep_view()));
        }
        i = i + 1;
    }
    proof {
        assert(out.deep_view() =~= v.deep_view());
    }
    out
}

} // verus!
