use vstd::prelude::*;

use crate::models::card::{RelatedCard, RelatedCardV};
use crate::models::user::{User, UserV};

verus! {

/// A block relation on a card: why it is blocked, who set the block, and the
/// card on the other side of the relation.
#[derive(Debug, PartialEq)]
pub struct Blocker {
    id: u32,
    reason: Option<String>,
    blocker: Option<User>,
    released: bool,
    created: String,
    updated: String,
    card: Option<RelatedCard>,
}

pub struct BlockerV {
    pub id: u32,
    pub reason: Option<Seq<char>>,
    pub blocker: Option<UserV>,
    pub released: bool,
    pub created: Seq<char>,
    pub updated: Seq<char>,
    pub card: Option<RelatedCardV>,
}

impl DeepView for Blocker {
    type V = BlockerV;

    closed spec fn deep_view(&self) -> BlockerV {
        BlockerV {
            id: self.id,
            reason: self.reason.deep_view(),
            blocker: self.blocker.deep_view(),
            released: self.released,
            created: self.created.deep_view(),
            updated: self.updated.deep_view(),
            card: self.card.deep_view(),
        }
    }
}

impl Blocker {
    /// A blocker built from its parts, as the API hands them over.
    pub fn from_parts(
        id: u32,
        reason: Option<String>,
        blocker: Option<User>,
        released: bool,
        created: String,
        updated: String,
        card: Option<RelatedCard>,
    ) -> (r: Blocker)
        ensures
            r.deep_view() == (BlockerV {
                id,
                reason: reason.deep_view(),
                blocker: blocker.deep_view(),
                released,
                created: created@,
                updated: updated@,
                card: card.deep_view(),
            }),
    {
        Blocker { id, reason, blocker, released, created, updated, card }
    }

    /// The block's reason, or nothing where none was given.
    pub fn get_reason(&self) -> (r: &str)
        ensures
            r@ == match self.deep_view().reason {
                Option::Some(s) => s,
                Option::None => Seq::<char>::empty(),
            },
    {
        match &self.reason {
            Option::Some(reason) => reason.as_str(),
            Option::None => {
                let r = "";
                proof {
                    reveal_strlit("");
                    assert(r@ =~= Seq::<char>::empty());
                }
                r
            },
        }
    }

    /// A copy of the card on the other side of the relation, if any.
    pub fn get_card(&self) -> (r: Option<RelatedCard>)
        ensures
            r.deep_view() == self.deep_view().card,
    {
        match &self.card {
            Option::Some(card) => Option::Some(card.duplicate()),
            Option::None => Option::None,
        }
    }

    /// A field-for-field copy of this blocker.
    pub fn duplicate(&self) -> (r: Blocker)
        ensures
            r.deep_view() == self.deep_view(),
    {
        let blocker = match &self.blocker {
            Option::Some(u) => Option::Some(u.duplicate()),
            Option::None => Option::None,
        };
        let card = match &self.card {
            Option::Some(c) => Option::Some(c.duplicate()),
            Option::None => Option::None,
        };
        let reason = match &self.reason {
            Option::Some(r) => Option::Some(r.clone()),
            Option::None => Option::None,
        };
        Blocker {
            id: self.id,
            reason,
            blocker,
            released: self.released,
            created: self.created.clone(),
            updated: self.updated.clone(),
            card,
        }
    }
}

/// A field-for-field copy of a list of blockers.
pub fn duplicate_blockers(v: &Vec<Blocker>) -> (r: Vec<Blocker>)
    ensures
        r.deep_view() == v.deep_view(),
{
    let mut out: Vec<Blocker> = Vec::new();
    let mut i: usize = 0;
    while i < v.len()
        invariant
            i <= v.len(),
            out.deep_view() =~= v.deep_view().subrange(0, i as int),
        decreases v.len() - i,
    {
        let ghost out0 = out.deep_view();
        let d = v[i].duplicate();
        proof {
            assert(d.deep_view() == v.deep_view()[i as int]);
        }
        out.push(d);
        proof {
            assert(out.deep_view() =~= out0.push(d.deep_view()));
        }
        i = i + 1;
    }
    proof {
        assert(out.deep_view() =~= v.deep_view());
    }
    out
}

} // verus!
