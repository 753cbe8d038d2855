use vstd::prelude::*;

use crate::models::card_type::{CardType, CardTypeV};
use crate::models::checklist::{duplicate_checklists, Checklist, ChecklistV};
use crate::models::column::{Column, ColumnV};
use crate::models::common::{board_lookup_ok, column_id_known, Info};
use crate::models::lane::{Lane, LaneV};
use crate::models::tag::{duplicate_tags, Tag, TagV};
use crate::models::user::{User, UserV};
use crate::text::{spec_join, spec_nat_digits, str_eq, u32_to_string};

verus! {

/// A card as a related parent or child of another card.
#[derive(Debug, PartialEq)]
pub struct RelatedCard {
    pub id: u32,
    pub title: String,
    pub board_id: u32,
    pub column_id: u32,
    pub lane_id: u32,
    pub card_type: CardType,
    pub condition: u8,
    pub state: u8,
}

pub struct RelatedCardV {
    pub id: u32,
    pub title: Seq<char>,
    pub board_id: u32,
    pub column_id: u32,
    pub lane_id: u32,
    pub card_type: CardTypeV,
    pub condition: u8,
    pub state: u8,
}

impl DeepView for RelatedCard {
    type V = RelatedCardV;

    open spec fn deep_view(&self) -> RelatedCardV {
        RelatedCardV {
            id: self.id,
            title: self.title.deep_view(),
            board_id: self.board_id,
            column_id: self.column_id,
            lane_id: self.lane_id,
            card_type: self.card_type.deep_view(),
            condition: self.condition,
            state: self.state,
        }
    }
}

impl RelatedCard {
    pub fn get_id(&self) -> (r: u32)
        ensures
            r == self.deep_view().id,
    {
        self.id
    }

    pub fn get_title(&self) -> (r: &str)
        ensures
            r@ == self.deep_view().title,
    {
        self.title.as_str()
    }

    /// A field-for-field copy of this related card.
    pub fn duplicate(&self) -> (r: RelatedCard)
        ensures
            r.deep_view() == self.deep_view(),
    {
        RelatedCard {
            id: self.id,
            title: self.title.clone(),
            board_id: self.board_id,
            column_id: self.column_id,
            lane_id: self.lane_id,
            card_type: self.card_type.duplicate(),
            condition: self.condition,
            state: self.state,
        }
    }
}

/// A field-for-field copy of a list of related cards.
pub fn duplicate_related_cards(v: &Vec<RelatedCard>) -> (r: Vec<RelatedCard>)
    ensures
        r.deep_view() == v.deep_view(),
{
    let mut out: Vec<RelatedCard> = Vec::new();
    let mut i: usize = 0;
    while i < v.len()
        invariant
            i <= v.len(),
            out.deep_view() =~= v.deep_view().subrange(0, i as int),
        decreases v.len() - i,
    {
        let ghost out0 = out.deep_view();
        let d = v[i].duplicate();
        proof {
            assert(d.deep_view() == v.deep_view()[i as int]);
        }
        out.push(d);
        proof {
            assert(out.deep_view() =~= out0.push(d.deep_view()));
        }
        i = i + 1;
    }
    proof {
        assert(out.deep_view() =~= v.deep_view());
    }
    out
}

/// The value of a custom card property: free text, or a list of chosen ids.
#[derive(Debug, PartialEq)]
pub enum PropertiesValue {
    S(String),
    V(Vec<u32>),
}

pub enum PropertiesValueV {
    S(Seq<char>),
    V(Seq<u32>),
}

impl DeepView for PropertiesValue {
    type V = PropertiesValueV;

    open spec fn deep_view(&self) -> PropertiesValueV {
        match self {
            PropertiesValue::S(s) => PropertiesValueV::S(s.deep_view()),
            PropertiesValue::V(v) => PropertiesValueV::V(v@),
        }
    }
}

/// One custom property of a card, keyed by the service's `id_<n>` name.
#[derive(Debug, PartialEq)]
pub struct Property {
    pub key: String,
    pub value: PropertiesValue,
}

pub struct PropertyV {
    pub key: Seq<char>,
    pub value: PropertiesValueV,
}

impl DeepView for Property {
    type V = PropertyV;

    open spec fn deep_view(&self) -> PropertyV {
        PropertyV { key: self.key.deep_view(), value: self.value.deep_view() }
    }
}

/// Whether a property value matches a chosen-value id: a text value carries
/// the id's decimal form, a list value contains the id.
pub open spec fn property_value_matches(v: PropertiesValueV, id: u32) -> bool {
    match v {
        PropertiesValueV::S(s) => s == spec_nat_digits(id as nat),
        PropertiesValueV::V(ids) => ids.contains(id),
    }
}

/// A card, as fetched from the service and as sent back in a partial update.
#[derive(Debug, PartialEq)]
pub struct Card {
    pub id: u32,
    pub title: String,
    pub column: Column,
    pub column_id: u32,
    pub board_id: u32,
    pub lane_id: u32,
    pub lane: Lane,
    pub blocked: bool,
    pub blocking_card: Option<bool>,
    pub block_reason: String,
    pub properties: Option<Vec<Property>>,
    pub card_type: CardType,
    pub sort_order: i64,
    pub members: Option<Vec<User>>,
    pub tags: Option<Vec<Tag>>,
    pub description: Option<String>,
    pub archived: bool,
    pub created: String,
    pub last_moved_at: String,
    pub checklists: Option<Vec<Checklist>>,
    pub parents: Option<Vec<RelatedCard>>,
    pub children: Option<Vec<RelatedCard>>,
}

pub struct CardV {
    pub id: u32,
    pub title: Seq<char>,
    pub column: ColumnV,
    pub column_id: u32,
    pub board_id: u32,
    pub lane_id: u32,
    pub lane: LaneV,
    pub blocked: bool,
    pub blocking_card: Option<bool>,
    pub block_reason: Seq<char>,
    pub properties: Option<Seq<PropertyV>>,
    pub card_type: CardTypeV,
    pub sort_order: i64,
    pub members: Option<Seq<UserV>>,
    pub tags: Option<Seq<TagV>>,
    pub description: Option<Seq<char>>,
    pub archived: bool,
    pub created: Seq<char>,
    pub last_moved_at: Seq<char>,
    pub checklists: Option<Seq<ChecklistV>>,
    pub parents: Option<Seq<RelatedCardV>>,
    pub children: Option<Seq<RelatedCardV>>,
}

impl DeepView for Card {
    type V = CardV;

    open spec fn deep_view(&self) -> CardV {
        CardV {
            id: self.id,
            title: self.title.deep_view(),
            column: self.column.deep_view(),
            column_id: self.column_id,
            board_id: self.board_id,
            lane_id: self.lane_id,
            lane: self.lane.deep_view(),
            blocked: self.blocked,
            blocking_card: self.blocking_card,
            block_reason: self.block_reason.deep_view(),
            properties: self.properties.deep_view(),
            card_type: self.card_type.deep_view(),
            sort_order: self.sort_order,
            members: self.members.deep_view(),
            tags: self.tags.deep_view(),
            description: self.description.deep_view(),
            archived: self.archived,
            created: self.created.deep_view(),
            last_moved_at: self.last_moved_at.deep_view(),
            checklists: self.checklists.deep_view(),
            parents: self.parents.deep_view(),
            children: self.children.deep_view(),
        }
    }
}

/// The refusal to move a card to a column no board of the snapshot knows.
#[derive(Debug)]
pub struct MoveError {
    column_id: u32,
}

impl MoveError {
    pub closed spec fn spec_column_id(&self) -> u32 {
        self.column_id
    }

    pub fn new(column_id: u32) -> (r: MoveError)
        ensures
            r.spec_column_id() == column_id,
    {
        MoveError { column_id }
    }

    pub fn get_column_id(&self) -> (r: u32)
        ensures
            r == self.spec_column_id(),
    {
        self.column_id
    }

    /// The message shown to the user.
    pub fn message(&self) -> (r: String)
        ensures
            r@ == "Not found board_id for column_id: "@ + spec_nat_digits(
                self.spec_column_id() as nat,
            ),
    {
        let mut msg = "Not found board_id for column_id: ".to_owned();
        msg.append(u32_to_string(self.column_id).as_str());
        msg
    }
}

impl Card {
    /// A copy of this card's tags; a card without a tag list yields the empty
    /// list.
    pub fn get_tags(&self) -> (r: Vec<Tag>)
        ensures
            r.deep_view() == match self.deep_view().tags {
                Option::Some(tags) => tags,
                Option::None => Seq::<TagV>::empty(),
            },
    {
        match &self.tags {
            Option::Some(tags) => duplicate_tags(tags),
            Option::None => Vec::new(),
        }
    }

    /// A copy of this card's members, in the same way.
    pub fn get_members(&self) -> (r: Vec<User>)
        ensures
            r.deep_view() == match self.deep_view().members {
                Option::Some(members) => members,
                Option::None => Seq::<UserV>::empty(),
            },
    {
        match &self.members {
            Option::Some(members) => crate::models::space::duplicate_users(members),
            Option::None => Vec::new(),
        }
    }

    /// A copy of this card's parents, in the same way.
    pub fn get_parents(&self) -> (r: Vec<RelatedCard>)
        ensures
            r.deep_view() == match self.deep_view().parents {
                Option::Some(parents) => parents,
                Option::None => Seq::<RelatedCardV>::empty(),
            },
    {
        match &self.parents {
            Option::Some(parents) => duplicate_related_cards(parents),
            Option::None => Vec::new(),
        }
    }

    /// A copy of this card's children, in the same way.
    pub fn get_childrens(&self) -> (r: Vec<RelatedCard>)
        ensures
            r.deep_view() == match self.deep_view().children {
                Option::Some(children) => children,
                Option::None => Seq::<RelatedCardV>::empty(),
            },
    {
        match &self.children {
            Option::Some(children) => duplicate_related_cards(children),
            Option::None => Vec::new(),
        }
    }

    /// The card's tag names, comma-joined.
    pub fn get_string_tags(&self) -> (r: String)
        ensures
            r@ == spec_join(
                (match self.deep_view().tags {
                    Option::Some(tags) => tags,
                    Option::None => Seq::<TagV>::empty(),
                }).map_values(|t: TagV| t.name),
                ", "@,
            ),
    {
        let tags = self.get_tags();
        let ghost names = tags.deep_view().map_values(|t: TagV| t.name);
        let mut out = String::new();
        proof {
            assert(out@ + spec_join(names.take(0), ", "@) =~= Seq::<char>::empty());
            assert(out@ == spec_join(names.take(0), ", "@));
        }
        let mut i: usize = 0;
        while i < tags.len()
            invariant
                i <= tags.len(),
                names == tags.deep_view().map_values(|t: TagV| t.name),
                tags.deep_view().len() == tags@.len(),
                out@ == spec_join(names.take(i as int), ", "@),
            decreases tags.len() - i,
        {
            if i > 0 {
                out.append(", ");
            }
            out.append(tags[i].get_name());
            proof {
                assert(names.take(i as int + 1).drop_last() =~= names.take(i as int));
                assert(names.take(i as int + 1).last() == names[i as int]);
                assert(names[i as int] == tags.deep_view()[i as int].name);
                if i == 0 {
                    assert(spec_join(names.take(1), ", "@) == names[0]);
                    assert(out@ =~= spec_join(names.take(i as int + 1), ", "@));
                } else {
                    assert(spec_join(names.take(i as int + 1), ", "@) == spec_join(
                        names.take(i as int),
                        ", "@,
                    ) + ", "@ + names[i as int]);
                    assert(out@ =~= spec_join(names.take(i as int + 1), ", "@));
                }
            }
            i = i + 1;
        }
        proof {
            assert(names.take(i as int) =~= names);
        }
        out
    }

    /// Whether this card carries the custom property with the given id.
    pub fn is_property(&self, property_id: u32) -> (r: bool)
        ensures
            r == match self.deep_view().properties {
                Option::Some(props) => exists|i: int|
                    #![trigger props[i]]
                    0 <= i < props.len() && props[i].key == "id_"@ + spec_nat_digits(
                        property_id as nat,
                    ),
                Option::None => false,
            },
    {
        match &self.properties {
            Option::Some(props) => {
                let mut needle = "id_".to_owned();
                needle.append(u32_to_string(property_id).as_str());
                let ghost propsv = self.deep_view().properties->0;
                let mut i: usize = 0;
                while i < props.len()
                    invariant
                        i <= props.len(),
                        propsv == props.deep_view(),
                        self.deep_view().properties == Option::Some(propsv),
                        propsv.len() == props@.len(),
                        needle@ == "id_"@ + spec_nat_digits(property_id as nat),
                        forall|k: int|
                            #![trigger propsv[k]]
                            0 <= k < i ==> propsv[k].key != needle@,
                    decreases props.len() - i,
                {
                    if str_eq(props[i].key.as_str(), needle.as_str()) {
                        proof {
                            let ps = self.deep_view().properties->0;
                            assert(ps == propsv);
                            assert(ps[i as int].key == "id_"@ + spec_nat_digits(
                                property_id as nat,
                            ));
                        }
                        return true;
                    }
                    i = i + 1;
                }
                false
            },
            Option::None => false,
        }
    }

    /// Whether any custom property of this card carries the given chosen
    /// value.
    pub fn is_property_value(&self, property_value_id: u32) -> (r: bool)
        ensures
            r == match self.deep_view().properties {
                Option::Some(props) => exists|i: int|
                    #![trigger props[i]]
                    0 <= i < props.len() && property_value_matches(
                        props[i].value,
                        property_value_id,
                    ),
                Option::None => false,
            },
    {
        match &self.properties {
            Option::Some(props) => {
                let needle = u32_to_string(property_value_id);
                let ghost propsv = self.deep_view().properties->0;
                let mut i: usize = 0;
                while i < props.len()
                    invariant
                        i <= props.len(),
                        propsv == props.deep_view(),
                        self.deep_view().properties == Option::Some(propsv),
                        propsv.len() == props@.len(),
                        needle@ == spec_nat_digits(property_value_id as nat),
                        forall|k: int|
                            #![trigger propsv[k]]
                            0 <= k < i ==> !property_value_matches(
                                propsv[k].value,
                                property_value_id,
                            ),
                    decreases props.len() - i,
                {
                    let hit: bool = match &props[i].value {
                        PropertiesValue::S(s) => str_eq(s.as_str(), needle.as_str()),
                        PropertiesValue::V(ids) => {
                            let mut k: usize = 0;
                            let mut found = false;
                            loop
                                invariant
                                    k <= ids.len(),
                                    !found ==> forall|m: int| 0 <= m < k ==> ids@[m]
                                        != property_value_id,
                                    found ==> ids@.contains(property_value_id),
                                ensures
                                    found == ids@.contains(property_value_id),
                                decreases ids.len() - k,
                            {
                                if k == ids.len() {
                                    proof {
                                        if !found {
                                            assert(forall|m: int|
                                                0 <= m < ids@.len() ==> ids@[m]
                                                    != property_value_id);
                                            assert(!ids@.contains(property_value_id));
                                        }
                                    }
                                    break ;
                                }
                                if ids[k] == property_value_id {
                                    found = true;
                                    proof {
                                        assert(ids@.contains(property_value_id));
                                    }
                                    break ;
                                }
                                k = k + 1;
                            }
                            found
                        },
                    };
                    if hit {
                        proof {
                            let ps = self.deep_view().properties->0;
                            assert(ps == propsv);
                            assert(property_value_matches(ps[i as int].value, property_value_id));
                        }
                        return true;
                    }
                    proof {
                        assert(!property_value_matches(propsv[i as int].value, property_value_id));
                    }
                    i = i + 1;
                }
                false
            },
            Option::None => false,
        }
    }

    /// Whether one of this card's members carries the given name.
    pub fn is_member(&self, username: &str) -> (r: bool)
        ensures
            r == match self.deep_view().members {
                Option::Some(members) => exists|i: int|
                    #![trigger members[i]]
                    0 <= i < members.len() && members[i].username == username@,
                Option::None => false,
            },
    {
        match &self.members {
            Option::Some(members) => {
                let ghost membersv = self.deep_view().members->0;
                let mut i: usize = 0;
                while i < members.len()
                    invariant
                        i <= members.len(),
                        membersv == members.deep_view(),
                        self.deep_view().members == Option::Some(membersv),
                        membersv.len() == members@.len(),
                        forall|k: int|
                            #![trigger membersv[k]]
                            0 <= k < i ==> membersv[k].username != username@,
                    decreases members.len() - i,
                {
                    if members[i].is_username(username) {
                        proof {
                            let ms = self.deep_view().members->0;
                            assert(ms == membersv);
                            assert(ms[i as int].username == username@);
                        }
                        return true;
                    }
                    i = i + 1;
                }
                false
            },
            Option::None => false,
        }
    }

    pub fn set_column_id(&mut self, column_id: u32)
        ensures
            final(self).deep_view() == (CardV { column_id, ..old(self).deep_view() }),
    {
        self.column_id = column_id;
    }

    pub fn set_board_id(&mut self, board_id: u32)
        ensures
            final(self).deep_view() == (CardV { board_id, ..old(self).deep_view() }),
    {
        self.board_id = board_id;
    }

    pub fn set_lane_id(&mut self, lane_id: u32)
        ensures
            final(self).deep_view() == (CardV { lane_id, ..old(self).deep_view() }),
    {
        self.lane_id = lane_id;
    }

    pub fn set_title(&mut self, title: String)
        ensures
            final(self).deep_view() == (CardV { title: title@, ..old(self).deep_view() }),
    {
        self.title = title;
    }

    /// Replaces the description, or appends to it: appending keeps whatever
    /// text is there, an absent description counting as empty.
    pub fn set_description(&mut self, text: String, append: bool)
        ensures
            final(self).deep_view() == (CardV {
                description: Option::Some(
                    if append {
                        (match old(self).deep_view().description {
                            Option::Some(d) => d,
                            Option::None => Seq::<char>::empty(),
                        }) + text@
                    } else {
                        text@
                    },
                ),
                ..old(self).deep_view()
            }),
    {
        if append {
            let mut base = match &self.description {
                Option::Some(d) => d.clone(),
                Option::None => String::new(),
            };
            base.append(text.as_str());
            proof {
                assert(base@ =~= (match old(self).deep_view().description {
                    Option::Some(d) => d,
                    Option::None => Seq::<char>::empty(),
                }) + text@);
            }
            self.description = Option::Some(base);
        } else {
            self.description = Option::Some(text);
        }
    }

    /// Applies an edit: each present value replaces the card's field. A new
    /// column also sets the owning board looked up in the snapshot, but a
    /// column the snapshot does not know leaves the board as it was — editing
    /// needs no board, only a move does.
    pub fn apply_edit(
        &mut self,
        info: &Info,
        description: Option<String>,
        add_description: Option<String>,
        title: Option<String>,
        column_id: Option<u32>,
        lane_id: Option<u32>,
    )
        ensures
            ({
                let old_v = old(self).deep_view();
                let new_v = final(self).deep_view();
                let after_desc = if description is Some {
                    Option::Some(description->0@)
                } else {
                    old_v.description
                };
                let after_add = if add_description is Some {
                    Option::Some(
                        (match after_desc {
                            Option::Some(d) => d,
                            Option::None => Seq::<char>::empty(),
                        }) + add_description->0@,
                    )
                } else {
                    after_desc
                };
                &&& new_v == (CardV {
                    description: after_add,
                    title: if title is Some {
                        title->0@
                    } else {
                        old_v.title
                    },
                    column_id: if column_id is Some {
                        column_id->0
                    } else {
                        old_v.column_id
                    },
                    lane_id: if lane_id is Some {
                        lane_id->0
                    } else {
                        old_v.lane_id
                    },
                    board_id: new_v.board_id,
                    ..old_v
                })
                &&& match column_id {
                    Option::Some(cid) => {
                        &&& (column_id_known(info.deep_view(), cid) ==> board_lookup_ok(
                            info.deep_view(),
                            cid,
                            Option::Some(new_v.board_id),
                        ))
                        &&& (!column_id_known(info.deep_view(), cid) ==> new_v.board_id
                            == old_v.board_id)
                    },
                    Option::None => new_v.board_id == old_v.board_id,
                }
            }),
    {
        match description {
            Option::Some(desc) => self.set_description(desc, false),
            Option::None => {},
        }
        match add_description {
            Option::Some(add_desc) => self.set_description(add_desc, true),
            Option::None => {},
        }
        match title {
            Option::Some(t) => self.set_title(t),
            Option::None => {},
        }
        match column_id {
            Option::Some(cid) => {
                self.set_column_id(cid);
                let board_id = info.get_board_id_by_column_id(cid);
                match board_id {
                    Option::Some(b) => self.set_board_id(b),
                    Option::None => {},
                }
            },
            Option::None => {},
        }
        match lane_id {
            Option::Some(lid) => self.set_lane_id(lid),
            Option::None => {},
        }
    }

    /// Applies a move to the given column and lane. A move must know its
    /// board: when the snapshot knows the column, the card's column, lane and
    /// owning board are set; when it does not, the operation fails before
    /// anything is changed, naming the column — and before any update could
    /// be sent.
    pub fn apply_move(&mut self, info: &Info, column_id: u32, lane_id: u32) -> (r: Result<
        (),
        MoveError,
    >)
        ensures
            r is Ok <==> column_id_known(info.deep_view(), column_id),
            match r {
                Result::Ok(_) => ({
                    &&& final(self).deep_view() == (CardV {
                        column_id,
                        lane_id,
                        board_id: final(self).deep_view().board_id,
                        ..old(self).deep_view()
                    })
                    &&& board_lookup_ok(
                        info.deep_view(),
                        column_id,
                        Option::Some(final(self).deep_view().board_id),
                    )
                }),
                Result::Err(e) => {
                    &&& final(self).deep_view() == old(self).deep_view()
                    &&& e.spec_column_id() == column_id
                },
            },
    {
        let board_id = info.get_board_id_by_column_id(column_id);
        match board_id {
            Option::Some(b) => {
                self.set_column_id(column_id);
                self.set_lane_id(lane_id);
                self.set_board_id(b);
                Result::Ok(())
            },
            Option::None => Result::Err(MoveError::new(column_id)),
        }
    }
}

/// The first user of the snapshot, across every space, with the given name,
/// marked responsible and ready to be added to a card — or nothing, where no
/// user carries the name; the move then goes on without a member change.
pub fn resolve_responsible(info: &Info, username: &str) -> (r: Option<User>)
    ensures
        match r {
            Option::Some(u) => ({
                let found = crate::models::common::find_user(
                    crate::models::common::users_pool(info.deep_view(), Option::None),
                    username@,
                );
                &&& found is Some
                &&& u.deep_view() == (UserV {
                    role: crate::models::user::Role::Responsible,
                    ..found->0
                })
            }),
            Option::None => crate::models::common::find_user(
                crate::models::common::users_pool(info.deep_view(), Option::None),
                username@,
            ) is None,
        },
{
    let user = info.get_user(username, Option::None);
    match user {
        Option::Some(mut u) => {
            u.set_responsible();
            Option::Some(u)
        },
        Option::None => Option::None,
    }
}

/// The member collection of a card, relative to the card's own URL.
pub fn members_url(card_url: &str) -> (r: String)
    ensures
        r@ == card_url@ + "/members"@,
{
    let mut url = card_url.to_owned();
    url.append("/members");
    url
}

/// One member of a card's member collection.
pub fn member_url(members_url: &str, user_id: u32) -> (r: String)
    ensures
        r@ == members_url@ + "/"@ + spec_nat_digits(user_id as nat),
{
    let mut url = members_url.to_owned();
    url.append("/");
    url.append(u32_to_string(user_id).as_str());
    url
}

/// Cards in ascending `sort_order`.
pub open spec fn cards_sorted(s: Seq<CardV>) -> bool {
    forall|i: int, j: int| 0 <= i < j < s.len() ==> s[i].sort_order <= s[j].sort_order
}

/// Sorts cards ascending by their display rank. The result holds exactly the
/// given cards; the relative order of equal ranks is left open.
pub fn sort_cards(v: Vec<Card>) -> (r: Vec<Card>)
    ensures
        cards_sorted(r.deep_view()),
        r.deep_view().to_multiset() == v.deep_view().to_multiset(),
{
    broadcast use vstd::seq_lib::group_to_multiset_ensures;

    let ghost orig = v.deep_view();
    let mut rest = v;
    let mut out: Vec<Card> = Vec::new();
    proof {
        assert(out.deep_view().to_multiset().add(rest.deep_view().to_multiset()) =~= orig.to_multiset());
    }
    loop
        invariant
            cards_sorted(out.deep_view()),
            out.deep_view().to_multiset().add(rest.deep_view().to_multiset()) == orig.to_multiset(),
        ensures
            rest.deep_view().len() == 0,
            cards_sorted(out.deep_view()),
            out.deep_view().to_multiset().add(rest.deep_view().to_multiset()) == orig.to_multiset(),
        decreases rest.len(),
    {
        let ghost rest0 = rest.deep_view();
        let popped = rest.pop();
        match popped {
            Option::None => {
                break ;
            },
            Option::Some(x) => {
                proof {
                    assert(rest.deep_view() =~= rest0.drop_last());
                    assert(x.deep_view() == rest0.last());
                    assert(rest.deep_view().push(x.deep_view()) =~= rest0);
                    vstd::seq_lib::to_multiset_build::<CardV>(rest.deep_view(), x.deep_view());
                    assert(rest0.to_multiset() == rest.deep_view().to_multiset().insert(
                        x.deep_view(),
                    ));
                }
                let mut j: usize = 0;
                loop
                    invariant
                        j <= out.len(),
                        cards_sorted(out.deep_view()),
                        forall|k: int|
                            0 <= k < j ==> out.deep_view()[k].sort_order
                                <= x.deep_view().sort_order,
                    ensures
                        j <= out.len(),
                        forall|k: int|
                            0 <= k < j ==> out.deep_view()[k].sort_order
                                <= x.deep_view().sort_order,
                        j < out.len() ==> out.deep_view()[j as int].sort_order
                            > x.deep_view().sort_order,
                    decreases out.len() - j,
                {
                    if j == out.len() {
                        break ;
                    }
                    if out[j].sort_order > x.sort_order {
                        break ;
                    }
                    j = j + 1;
                }
                let ghost out_before = out.deep_view();
                out.insert(j, x);
                proof {
                    let s = out.deep_view();
                    assert(s =~= out_before.insert(j as int, x.deep_view()));
                    assert forall|a: int, b: int| 0 <= a < b < s.len() implies s[a].sort_order
                        <= s[b].sort_order by {
                        if b <= j {
                        } else if a >= j + 1 {
                        } else if a == j {
                            assert(s[b] == out_before[b - 1]);
                        } else {
                            assert(s[a] == out_before[a]);
                            assert(s[b] == out_before[b - 1]);
                        }
                    }
                    vstd::seq_lib::to_multiset_insert::<CardV>(out_before, j as int, x.deep_view());
                    assert(s.to_multiset() == out_before.to_multiset().insert(x.deep_view()));
                    assert(s.to_multiset().add(rest.deep_view().to_multiset())
                        =~= out_before.to_multiset().add(rest0.to_multiset()));
                }
            },
        }
    }
    proof {
        assert(rest.deep_view().to_multiset().len() == 0);
        assert(out.deep_view().to_multiset().add(rest.deep_view().to_multiset()) =~= out.deep_view().to_multiset());
    }
    out
}

/// The text shown for an optional description: the text, or nothing.
pub fn display_description(o: &Option<String>) -> (r: String)
    ensures
        r@ == match o.deep_view() {
            Option::Some(s) => s,
            Option::None => Seq::<char>::empty(),
        },
{
    match o {
        Option::Some(descr) => descr.clone(),
        Option::None => {
            let r = String::new();
            proof {
                assert(r@ =~= Seq::<char>::empty());
            }
            r
        },
    }
}

/// The text shown for an optional id: its decimal form, or nothing.
pub fn display_id(id: &Option<u32>) -> (r: String)
    ensures
        r@ == match id {
            Option::Some(v) => spec_nat_digits(*v as nat),
            Option::None => Seq::<char>::empty(),
        },
{
    match id {
        Option::Some(v) => u32_to_string(*v),
        Option::None => {
            let r = String::new();
            proof {
                assert(r@ =~= Seq::<char>::empty());
            }
            r
        },
    }
}

/// The text shown for an optional tag list: the names, comma-joined.
pub fn display_tags(tags: &Option<Vec<Tag>>) -> (r: String)
    ensures
        r@ == match tags.deep_view() {
            Option::Some(ts) => spec_join(ts.map_values(|t: TagV| t.name), ", "@),
            Option::None => Seq::<char>::empty(),
        },
{
    match tags {
        Option::Some(ts) => {
            let ghost names = ts.deep_view().map_values(|t: TagV| t.name);
            let mut out = String::new();
            proof {
                assert(out@ + spec_join(names.take(0), ", "@) =~= Seq::<char>::empty());
                assert(out@ == spec_join(names.take(0), ", "@));
            }
            let mut i: usize = 0;
            while i < ts.len()
                invariant
                    i <= ts.len(),
                    names == ts.deep_view().map_values(|t: TagV| t.name),
                    ts.deep_view().len() == ts@.len(),
                    out@ == spec_join(names.take(i as int), ", "@),
                decreases ts.len() - i,
            {
                if i > 0 {
                    out.append(", ");
                }
                out.append(ts[i].get_name());
                proof {
                    assert(names.take(i as int + 1).drop_last() =~= names.take(i as int));
                    assert(names.take(i as int + 1).last() == names[i as int]);
                    assert(names[i as int] == ts.deep_view()[i as int].name);
                    if i == 0 {
                        assert(spec_join(names.take(1), ", "@) == names[0]);
                        assert(out@ =~= spec_join(names.take(i as int + 1), ", "@));
                    } else {
                        assert(spec_join(names.take(i as int + 1), ", "@) == spec_join(
                            names.take(i as int),
                            ", "@,
                        ) + ", "@ + names[i as int]);
                        assert(out@ =~= spec_join(names.take(i as int + 1), ", "@));
                    }
                }
                i = i + 1;
            }
            proof {
                assert(names.take(i as int) =~= names);
            }
            out
        },
        Option::None => {
            let r = String::new();
            proof {
                assert(r@ =~= Seq::<char>::empty());
            }
            r
        },
    }
}

/// The text shown for an optional member list: the names, one per line with a
/// comma between records.
pub fn display_members(o: &Option<Vec<User>>) -> (r: String)
    ensures
        r@ == match o.deep_view() {
            Option::Some(ms) => spec_join(ms.map_values(|u: UserV| u.username), ",\n"@),
            Option::None => Seq::<char>::empty(),
        },
{
    match o {
        Option::Some(ms) => {
            let ghost names = ms.deep_view().map_values(|u: UserV| u.username);
            let mut out = String::new();
            proof {
                assert(out@ + spec_join(names.take(0), ",\n"@) =~= Seq::<char>::empty());
                assert(out@ == spec_join(names.take(0), ",\n"@));
            }
            let mut i: usize = 0;
            while i < ms.len()
                invariant
                    i <= ms.len(),
                    names == ms.deep_view().map_values(|u: UserV| u.username),
                    ms.deep_view().len() == ms@.len(),
                    out@ == spec_join(names.take(i as int), ",\n"@),
                decreases ms.len() - i,
            {
                if i > 0 {
                    out.append(",\n");
                }
                out.append(ms[i].get_username());
                proof {
                    assert(names.take(i as int + 1).drop_last() =~= names.take(i as int));
                    assert(names.take(i as int + 1).last() == names[i as int]);
                    assert(names[i as int] == ms.deep_view()[i as int].username);
                    if i == 0 {
                        assert(spec_join(names.take(1), ",\n"@) == names[0]);
                        assert(out@ =~= spec_join(names.take(i as int + 1), ",\n"@));
                    } else {
                        assert(spec_join(names.take(i as int + 1), ",\n"@) == spec_join(
                            names.take(i as int),
                            ",\n"@,
                        ) + ",\n"@ + names[i as int]);
                        assert(out@ =~= spec_join(names.take(i as int + 1), ",\n"@));
                    }
                }
                i = i + 1;
            }
            proof {
                assert(names.take(i as int) =~= names);
            }
            out
        },
        Option::None => {
            let r = String::new();
            proof {
                assert(r@ =~= Seq::<char>::empty());
            }
            r
        },
    }
}

} // verus!
