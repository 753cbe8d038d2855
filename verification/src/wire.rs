use vstd::prelude::*;

use crate::codec::{
    lemma_parse_bool_render, lemma_parse_i64_render, lemma_parse_role_render,
    lemma_parse_str_render, lemma_parse_u32_render, lemma_parse_u64_render, lemma_parse_u8_render,
    lemma_split_concat, parse_bool, parse_bool_at, parse_i64, parse_i64_at, parse_role,
    parse_role_at, parse_str, parse_str_at, parse_u32, parse_u32_at, parse_u64, parse_u64_at,
    parse_u8, parse_u8_at, render_bool, render_i64, render_role, render_str, render_u32,
    render_u64, render_u8, str_ok, write_bool, write_i64, write_role, write_str, write_u32,
    write_u64, write_u8,
};
use crate::models::board::{Board, BoardV};
use crate::models::card_type::{CardType, CardTypeV};
use crate::models::column::{Column, ColumnV, SubColumn, SubColumnV};
use crate::models::common::{Info, InfoV};
use crate::models::config::{Config, ConfigV};
use crate::models::lane::{Lane, LaneV};
use crate::models::space::{Space, SpaceV};
use crate::models::tag::{Tag, TagV};
use crate::models::user::{Role, User, UserV};

verus! {

// The typed layer of the cache file form: every persisted type is written as
// the file form of its fields in order, and reading a written value back is
// proved to yield the value.

/// An optional value: a presence token, then the value where present.
pub open spec fn render_opt_u32(v: Option<u32>) -> Seq<char> {
    match v {
        Option::Some(x) => render_bool(true) + render_u32(x),
        Option::None => render_bool(false),
    }
}

pub open spec fn parse_opt_u32_at(s: Seq<char>, pos: int) -> Option<(Option<u32>, int)> {
    match parse_bool_at(s, pos) {
        Option::Some((tag, p)) => if tag {
            match parse_u32_at(s, p) {
                Option::Some((x, p2)) => Option::Some((Option::Some(x), p2)),
                Option::None => Option::None,
            }
        } else {
            Option::Some((Option::None, p))
        },
        Option::None => Option::None,
    }
}

pub proof fn lemma_parse_opt_u32_render(s: Seq<char>, pos: int, v: Option<u32>)
    requires
        0 <= pos,
        
        pos + render_opt_u32(v).len() <= s.len(),
        s.subrange(pos, pos + render_opt_u32(v).len()) == render_opt_u32(v),
    ensures
        parse_opt_u32_at(s, pos) == Option::Some((v, pos + render_opt_u32(v).len())),
{
    match v {
        Option::Some(x) => {
            let a = render_bool(true);
            let b = render_u32(x);
            assert(render_opt_u32(v) == a + b);
            lemma_split_concat(s, pos, a, b);
            lemma_parse_bool_render(s, pos, true);
            lemma_parse_u32_render(s, pos + a.len(), x);
        },
        Option::None => {
            lemma_parse_bool_render(s, pos, false);
        },
    }
}

pub fn write_opt_u32(out: &mut String, v: Option<u32>)
    ensures
        final(out)@ == old(out)@ + render_opt_u32(v),
{
    match v {
        Option::Some(x) => {
            write_bool(out, true);
            write_u32(out, x);
            proof {
                assert(out@ =~= old(out)@ + render_opt_u32(v));
            }
        },
        Option::None => {
            write_bool(out, false);
        },
    }
}

pub fn parse_opt_u32(s: &str, pos: usize) -> (r: Option<(Option<u32>, usize)>)
    requires
        pos <= s@.len(),
    ensures
        match r {
            Option::Some((v, p)) => ({
                &&& parse_opt_u32_at(s@, pos as int) == Option::Some((v, p as int))
                &&& pos <= p <= s@.len()
            }),
            Option::None => parse_opt_u32_at(s@, pos as int) is None,
        },
{
    match parse_bool(s, pos) {
        Option::Some((tag, p)) => {
            if tag {
                match parse_u32(s, p) {
                    Option::Some((x, p2)) => Option::Some((Option::Some(x), p2)),
                    Option::None => Option::None,
                }
            } else {
                Option::Some((Option::None, p))
            }
        },
        Option::None => Option::None,
    }
}

/// An optional value: a presence token, then the value where present.
pub open spec fn render_opt_str(v: Option<Seq<char>>) -> Seq<char> {
    match v {
        Option::Some(x) => render_bool(true) + render_str(x),
        Option::None => render_bool(false),
    }
}

pub open spec fn opt_str_ok(v: Option<Seq<char>>) -> bool {
    match v {
        Option::Some(x) => str_ok(x),
        Option::None => true,
    }
}

pub open spec fn parse_opt_str_at(s: Seq<char>, pos: int) -> Option<(Option<Seq<char>>, int)> {
    match parse_bool_at(s, pos) {
        Option::Some((tag, p)) => if tag {
            match parse_str_at(s, p) {
                Option::Some((x, p2)) => Option::Some((Option::Some(x), p2)),
                Option::None => Option::None,
            }
        } else {
            Option::Some((Option::None, p))
        },
        Option::None => Option::None,
    }
}

pub proof fn lemma_parse_opt_str_render(s: Seq<char>, pos: int, v: Option<Seq<char>>)
    requires
        0 <= pos,
        opt_str_ok(v),
        pos + render_opt_str(v).len() <= s.len(),
        s.subrange(pos, pos + render_opt_str(v).len()) == render_opt_str(v),
    ensures
        parse_opt_str_at(s, pos) == Option::Some((v, pos + render_opt_str(v).len())),
{
    match v {
        Option::Some(x) => {
            let a = render_bool(true);
            let b = render_str(x);
            assert(render_opt_str(v) == a + b);
            lemma_split_concat(s, pos, a, b);
            lemma_parse_bool_render(s, pos, true);
            lemma_parse_str_render(s, pos + a.len(), x);
        },
        Option::None => {
            lemma_parse_bool_render(s, pos, false);
        },
    }
}

pub fn write_opt_str(out: &mut String, v: Option<&String>)
    ensures
        final(out)@ == old(out)@ + render_opt_str(v.deep_view()),
{
    match v {
        Option::Some(x) => {
            write_bool(out, true);
            write_str(out, x.as_str());
            proof {
                assert(v.deep_view() == Option::Some(x.deep_view()));
            }
            proof {
                assert(out@ =~= old(out)@ + render_opt_str(v.deep_view()));
            }
        },
        Option::None => {
            write_bool(out, false);
        },
    }
}

pub fn parse_opt_str(s: &str, pos: usize) -> (r: Option<(Option<String>, usize)>)
    requires
        pos <= s@.len(),
    ensures
        match r {
            Option::Some((v, p)) => ({
                &&& parse_opt_str_at(s@, pos as int) == Option::Some((v.deep_view(), p as int))
                &&& pos <= p <= s@.len()
            }),
            Option::None => parse_opt_str_at(s@, pos as int) is None,
        },
{
    match parse_bool(s, pos) {
        Option::Some((tag, p)) => {
            if tag {
                match parse_str(s, p) {
                    Option::Some((x, p2)) => Option::Some((Option::Some(x), p2)),
                    Option::None => Option::None,
                }
            } else {
                Option::Some((Option::None, p))
            }
        },
        Option::None => Option::None,
    }
}

/// The file form of a tag.
pub open spec fn render_tag(v: TagV) -> Seq<char> {
    render_opt_u32(v.id) + render_str(v.name)
}

pub open spec fn tag_ok(v: TagV) -> bool {
    str_ok(v.name)
}

pub open spec fn parse_tag_at(s: Seq<char>, pos: int) -> Option<(TagV, int)> {
    match parse_opt_u32_at(s, pos) {
        Option::None => Option::None,
        Option::Some((f0, p0)) => match parse_str_at(s, p0) {
        Option::None => Option::None,
        Option::Some((f1, p1)) => Option::Some(((TagV { id: f0, name: f1 }), p1)),
    },
    }
}

pub proof fn lemma_parse_tag_render(s: Seq<char>, pos: int, v: TagV)
    requires
        0 <= pos,
        tag_ok(v),
        pos + render_tag(v).len() <= s.len(),
        s.subrange(pos, pos + render_tag(v).len()) == render_tag(v),
    ensures
        parse_tag_at(s, pos) == Option::Some((v, pos + render_tag(v).len())),
{
    let a0 = render_opt_u32(v.id);
    let a1 = render_str(v.name);
    assert((render_tag(v)) =~= a0 + (a1));
    assert(s.subrange(pos, pos + a0.len() + (a1).len()) == a0 + (a1));
    lemma_split_concat(s, pos, a0, (a1));
    lemma_parse_opt_u32_render(s, pos, v.id);
    lemma_parse_str_render(s, pos + a0.len(), v.name);
    assert(v == (TagV { id: v.id, name: v.name }));
}

pub fn write_tag(out: &mut String, v: &Tag)
    ensures
        final(out)@ == old(out)@ + render_tag(v.deep_view()),
{
    write_opt_u32(out, v.get_id());
    write_str(out, v.get_name());
    proof {
        assert(out@ =~= old(out)@ + render_tag(v.deep_view()));
    }
}

pub fn parse_tag(s: &str, pos: usize) -> (r: Option<(Tag, usize)>)
    requires
        pos <= s@.len(),
    ensures
        match r {
            Option::Some((v, p)) => ({
                &&& parse_tag_at(s@, pos as int) == Option::Some((v.deep_view(), p as int))
                &&& pos <= p <= s@.len()
            }),
            Option::None => parse_tag_at(s@, pos as int) is None,
        },
{
    match parse_opt_u32(s, pos) {
        Option::None => Option::None,
        Option::Some((x0, q0)) => match parse_str(s, q0) {
        Option::None => Option::None,
        Option::Some((x1, q1)) => {
                let built = Tag::new(x0, x1);
                Option::Some((built, q1))
            },
    },
    }
}

/// The file form of a card type.
pub open spec fn render_card_type(v: CardTypeV) -> Seq<char> {
    render_u32(v.id) + render_str(v.name) + render_str(v.letter) + render_bool(v.archived)
}

pub open spec fn card_type_ok(v: CardTypeV) -> bool {
    &&& str_ok(v.name)
    &&& str_ok(v.letter)
}

pub open spec fn parse_card_type_at(s: Seq<char>, pos: int) -> Option<(CardTypeV, int)> {
    match parse_u32_at(s, pos) {
        Option::None => Option::None,
        Option::Some((f0, p0)) => match parse_str_at(s, p0) {
        Option::None => Option::None,
        Option::Some((f1, p1)) => match parse_str_at(s, p1) {
        Option::None => Option::None,
        Option::Some((f2, p2)) => match parse_bool_at(s, p2) {
        Option::None => Option::None,
        Option::Some((f3, p3)) => Option::Some(((CardTypeV { id: f0, name: f1, letter: f2, archived: f3 }), p3)),
    },
    },
    },
    }
}

pub proof fn lemma_parse_card_type_render(s: Seq<char>, pos: int, v: CardTypeV)
    requires
        0 <= pos,
        card_type_ok(v),
        pos + render_card_type(v).len() <= s.len(),
        s.subrange(pos, pos + render_card_type(v).len()) == render_card_type(v),
    ensures
        parse_card_type_at(s, pos) == Option::Some((v, pos + render_card_type(v).len())),
{
    let a0 = render_u32(v.id);
    let a1 = render_str(v.name);
    let a2 = render_str(v.letter);
    let a3 = render_bool(v.archived);
    assert((render_card_type(v)) =~= a0 + (a1 + a2 + a3));
    assert(s.subrange(pos, pos + a0.len() + (a1 + a2 + a3).len()) == a0 + (a1 + a2 + a3));
    lemma_split_concat(s, pos, a0, (a1 + a2 + a3));
    lemma_parse_u32_render(s, pos, v.id);
    assert((a1 + a2 + a3) =~= a1 + (a2 + a3));
    assert(s.subrange(pos + a0.len(), pos + a0.len() + a1.len() + (a2 + a3).len()) == a1 + (a2 + a3));
    lemma_split_concat(s, pos + a0.len(), a1, (a2 + a3));
    lemma_parse_str_render(s, pos + a0.len(), v.name);
    assert((a2 + a3) =~= a2 + (a3));
    assert(s.subrange(pos + a0.len() + a1.len(), pos + a0.len() + a1.len() + a2.len() + (a3).len()) == a2 + (a3));
    lemma_split_concat(s, pos + a0.len() + a1.len(), a2, (a3));
    lemma_parse_str_render(s, pos + a0.len() + a1.len(), v.letter);
    lemma_parse_bool_render(s, pos + a0.len() + a1.len() + a2.len(), v.archived);
    assert(v == (CardTypeV { id: v.id, name: v.name, letter: v.letter, archived: v.archived }));
}

pub fn write_card_type(out: &mut String, v: &CardType)
    ensures
        final(out)@ == old(out)@ + render_card_type(v.deep_view()),
{
    write_u32(out, v.get_id());
    write_str(out, v.get_name());
    write_str(out, v.get_letter());
    write_bool(out, v.get_archived());
    proof {
        assert(out@ =~= old(out)@ + render_card_type(v.deep_view()));
    }
}

pub fn parse_card_type(s: &str, pos: usize) -> (r: Option<(CardType, usize)>)
    requires
        pos <= s@.len(),
    ensures
        match r {
            Option::Some((v, p)) => ({
                &&& parse_card_type_at(s@, pos as int) == Option::Some((v.deep_view(), p as int))
                &&& pos <= p <= s@.len()
            }),
            Option::None => parse_card_type_at(s@, pos as int) is None,
        },
{
    match parse_u32(s, pos) {
        Option::None => Option::None,
        Option::Some((x0, q0)) => match parse_str(s, q0) {
        Option::None => Option::None,
        Option::Some((x1, q1)) => match parse_str(s, q1) {
        Option::None => Option::None,
        Option::Some((x2, q2)) => match parse_bool(s, q2) {
        Option::None => Option::None,
        Option::Some((x3, q3)) => {
                let built = CardType::from_parts(x0, x1, x2, x3);
                Option::Some((built, q3))
            },
    },
    },
    },
    }
}

/// The file form of a user.
pub open spec fn render_user(v: UserV) -> Seq<char> {
    render_u32(v.id) + render_str(v.username) + render_role(v.role)
}

pub open spec fn user_ok(v: UserV) -> bool {
    str_ok(v.username)
}

pub open spec fn parse_user_at(s: Seq<char>, pos: int) -> Option<(UserV, int)> {
    match parse_u32_at(s, pos) {
        Option::None => Option::None,
        Option::Some((f0, p0)) => match parse_str_at(s, p0) {
        Option::None => Option::None,
        Option::Some((f1, p1)) => match parse_role_at(s, p1) {
        Option::None => Option::None,
        Option::Some((f2, p2)) => Option::Some(((UserV { id: f0, username: f1, role: f2 }), p2)),
    },
    },
    }
}

pub proof fn lemma_parse_user_render(s: Seq<char>, pos: int, v: UserV)
    requires
        0 <= pos,
        user_ok(v),
        pos + render_user(v).len() <= s.len(),
        s.subrange(pos, pos + render_user(v).len()) == render_user(v),
    ensures
        parse_user_at(s, pos) == Option::Some((v, pos + render_user(v).len())),
{
    let a0 = render_u32(v.id);
    let a1 = render_str(v.username);
    let a2 = render_role(v.role);
    assert((render_user(v)) =~= a0 + (a1 + a2));
    assert(s.subrange(pos, pos + a0.len() + (a1 + a2).len()) == a0 + (a1 + a2));
    lemma_split_concat(s, pos, a0, (a1 + a2));
    lemma_parse_u32_render(s, pos, v.id);
    assert((a1 + a2) =~= a1 + (a2));
    assert(s.subrange(pos + a0.len(), pos + a0.len() + a1.len() + (a2).len()) == a1 + (a2));
    lemma_split_concat(s, pos + a0.len(), a1, (a2));
    lemma_parse_str_render(s, pos + a0.len(), v.username);
    lemma_parse_role_render(s, pos + a0.len() + a1.len(), v.role);
    assert(v == (UserV { id: v.id, username: v.username, role: v.role }));
}

pub fn write_user(out: &mut String, v: &User)
    ensures
        final(out)@ == old(out)@ + render_user(v.deep_view()),
{
    write_u32(out, v.get_id());
    write_str(out, v.get_username());
    write_role(out, v.get_role());
    proof {
        assert(out@ =~= old(out)@ + render_user(v.deep_view()));
    }
}

pub fn parse_user(s: &str, pos: usize) -> (r: Option<(User, usize)>)
    requires
        pos <= s@.len(),
    ensures
        match r {
            Option::Some((v, p)) => ({
                &&& parse_user_at(s@, pos as int) == Option::Some((v.deep_view(), p as int))
                &&& pos <= p <= s@.len()
            }),
            Option::None => parse_user_at(s@, pos as int) is None,
        },
{
    match parse_u32(s, pos) {
        Option::None => Option::None,
        Option::Some((x0, q0)) => match parse_str(s, q0) {
        Option::None => Option::None,
        Option::Some((x1, q1)) => match parse_role(s, q1) {
        Option::None => Option::None,
        Option::Some((x2, q2)) => {
                let built = User::new(x0, x1, x2);
                Option::Some((built, q2))
            },
    },
    },
    }
}

/// The file form of a lane.
pub open spec fn render_lane(v: LaneV) -> Seq<char> {
    render_u32(v.id) + render_str(v.title) + render_u32(v.board_id) + render_u8(v.condition) + render_i64(v.sort_order)
}

pub open spec fn lane_ok(v: LaneV) -> bool {
    str_ok(v.title)
}

pub open spec fn parse_lane_at(s: Seq<char>, pos: int) -> Option<(LaneV, int)> {
    match parse_u32_at(s, pos) {
        Option::None => Option::None,
        Option::Some((f0, p0)) => match parse_str_at(s, p0) {
        Option::None => Option::None,
        Option::Some((f1, p1)) => match parse_u32_at(s, p1) {
        Option::None => Option::None,
        Option::Some((f2, p2)) => match parse_u8_at(s, p2) {
        Option::None => Option::None,
        Option::Some((f3, p3)) => match parse_i64_at(s, p3) {
        Option::None => Option::None,
        Option::Some((f4, p4)) => Option::Some(((LaneV { id: f0, title: f1, board_id: f2, condition: f3, sort_order: f4 }), p4)),
    },
    },
    },
    },
    }
}

pub proof fn lemma_parse_lane_render(s: Seq<char>, pos: int, v: LaneV)
    requires
        0 <= pos,
        lane_ok(v),
        pos + render_lane(v).len() <= s.len(),
        s.subrange(pos, pos + render_lane(v).len()) == render_lane(v),
    ensures
        parse_lane_at(s, pos) == Option::Some((v, pos + render_lane(v).len())),
{
    let a0 = render_u32(v.id);
    let a1 = render_str(v.title);
    let a2 = render_u32(v.board_id);
    let a3 = render_u8(v.condition);
    let a4 = render_i64(v.sort_order);
    assert((render_lane(v)) =~= a0 + (a1 + a2 + a3 + a4));
    assert(s.subrange(pos, pos + a0.len() + (a1 + a2 + a3 + a4).len()) == a0 + (a1 + a2 + a3 + a4));
    lemma_split_concat(s, pos, a0, (a1 + a2 + a3 + a4));
    lemma_parse_u32_render(s, pos, v.id);
    assert((a1 + a2 + a3 + a4) =~= a1 + (a2 + a3 + a4));
    assert(s.subrange(pos + a0.len(), pos + a0.len() + a1.len() + (a2 + a3 + a4).len()) == a1 + (a2 + a3 + a4));
    lemma_split_concat(s, pos + a0.len(), a1, (a2 + a3 + a4));
    lemma_parse_str_render(s, pos + a0.len(), v.title);
    assert((a2 + a3 + a4) =~= a2 + (a3 + a4));
    assert(s.subrange(pos + a0.len() + a1.len(), pos + a0.len() + a1.len() + a2.len() + (a3 + a4).len()) == a2 + (a3 + a4));
    lemma_split_concat(s, pos + a0.len() + a1.len(), a2, (a3 + a4));
    lemma_parse_u32_render(s, pos + a0.len() + a1.len(), v.board_id);
    assert((a3 + a4) =~= a3 + (a4));
    assert(s.subrange(pos + a0.len() + a1.len() + a2.len(), pos + a0.len() + a1.len() + a2.len() + a3.len() + (a4).len()) == a3 + (a4));
    lemma_split_concat(s, pos + a0.len() + a1.len() + a2.len(), a3, (a4));
    lemma_parse_u8_render(s, pos + a0.len() + a1.len() + a2.len(), v.condition);
    lemma_parse_i64_render(s, pos + a0.len() + a1.len() + a2.len() + a3.len(), v.sort_order);
    assert(v == (LaneV { id: v.id, title: v.title, board_id: v.board_id, condition: v.condition, sort_order: v.sort_order }));
}

pub fn write_lane(out: &mut String, v: &Lane)
    ensures
        final(out)@ == old(out)@ + render_lane(v.deep_view()),
{
    write_u32(out, v.get_id());
    write_str(out, v.get_title());
    write_u32(out, v.get_board_id());
    write_u8(out, v.get_condition());
    write_i64(out, v.get_sort_order());
    proof {
        assert(out@ =~= old(out)@ + render_lane(v.deep_view()));
    }
}

pub fn parse_lane(s: &str, pos: usize) -> (r: Option<(Lane, usize)>)
    requires
        pos <= s@.len(),
    ensures
        match r {
            Option::Some((v, p)) => ({
                &&& parse_lane_at(s@, pos as int) == Option::Some((v.deep_view(), p as int))
                &&& pos <= p <= s@.len()
            }),
            Option::None => parse_lane_at(s@, pos as int) is None,
        },
{
    match parse_u32(s, pos) {
        Option::None => Option::None,
        Option::Some((x0, q0)) => match parse_str(s, q0) {
        Option::None => Option::None,
        Option::Some((x1, q1)) => match parse_u32(s, q1) {
        Option::None => Option::None,
        Option::Some((x2, q2)) => match parse_u8(s, q2) {
        Option::None => Option::None,
        Option::Some((x3, q3)) => match parse_i64(s, q3) {
        Option::None => Option::None,
        Option::Some((x4, q4)) => {
                let built = Lane::from_parts(x0, x1, x2, x3, x4);
                Option::Some((built, q4))
            },
    },
    },
    },
    },
    }
}

/// The file form of a subcolumn.
pub open spec fn render_subcolumn(v: SubColumnV) -> Seq<char> {
    render_u32(v.id) + render_str(v.title) + render_u32(v.board_id) + render_i64(v.sort_order)
}

pub open spec fn subcolumn_ok(v: SubColumnV) -> bool {
    str_ok(v.title)
}

pub open spec fn parse_subcolumn_at(s: Seq<char>, pos: int) -> Option<(SubColumnV, int)> {
    match parse_u32_at(s, pos) {
        Option::None => Option::None,
        Option::Some((f0, p0)) => match parse_str_at(s, p0) {
        Option::None => Option::None,
        Option::Some((f1, p1)) => match parse_u32_at(s, p1) {
        Option::None => Option::None,
        Option::Some((f2, p2)) => match parse_i64_at(s, p2) {
        Option::None => Option::None,
        Option::Some((f3, p3)) => Option::Some(((SubColumnV { id: f0, title: f1, board_id: f2, sort_order: f3 }), p3)),
    },
    },
    },
    }
}

pub proof fn lemma_parse_subcolumn_render(s: Seq<char>, pos: int, v: SubColumnV)
    requires
        0 <= pos,
        subcolumn_ok(v),
        pos + render_subcolumn(v).len() <= s.len(),
        s.subrange(pos, pos + render_subcolumn(v).len()) == render_subcolumn(v),
    ensures
        parse_subcolumn_at(s, pos) == Option::Some((v, pos + render_subcolumn(v).len())),
{
    let a0 = render_u32(v.id);
    let a1 = render_str(v.title);
    let a2 = render_u32(v.board_id);
    let a3 = render_i64(v.sort_order);
    assert((render_subcolumn(v)) =~= a0 + (a1 + a2 + a3));
    assert(s.subrange(pos, pos + a0.len() + (a1 + a2 + a3).len()) == a0 + (a1 + a2 + a3));
    lemma_split_concat(s, pos, a0, (a1 + a2 + a3));
    lemma_parse_u32_render(s, pos, v.id);
    assert((a1 + a2 + a3) =~= a1 + (a2 + a3));
    assert(s.subrange(pos + a0.len(), pos + a0.len() + a1.len() + (a2 + a3).len()) == a1 + (a2 + a3));
    lemma_split_concat(s, pos + a0.len(), a1, (a2 + a3));
    lemma_parse_str_render(s, pos + a0.len(), v.title);
    assert((a2 + a3) =~= a2 + (a3));
    assert(s.subrange(pos + a0.len() + a1.len(), pos + a0.len() + a1.len() + a2.len() + (a3).len()) == a2 + (a3));
    lemma_split_concat(s, pos + a0.len() + a1.len(), a2, (a3));
    lemma_parse_u32_render(s, pos + a0.len() + a1.len(), v.board_id);
    lemma_parse_i64_render(s, pos + a0.len() + a1.len() + a2.len(), v.sort_order);
    assert(v == (SubColumnV { id: v.id, title: v.title, board_id: v.board_id, sort_order: v.sort_order }));
}

pub fn write_subcolumn(out: &mut String, v: &SubColumn)
    ensures
        final(out)@ == old(out)@ + render_subcolumn(v.deep_view()),
{
    write_u32(out, v.get_id());
    write_str(out, v.get_title());
    write_u32(out, v.get_board_id());
    write_i64(out, v.get_sort_order());
    proof {
        assert(out@ =~= old(out)@ + render_subcolumn(v.deep_view()));
    }
}

pub fn parse_subcolumn(s: &str, pos: usize) -> (r: Option<(SubColumn, usize)>)
    requires
        pos <= s@.len(),
    ensures
        match r {
            Option::Some((v, p)) => ({
                &&& parse_subcolumn_at(s@, pos as int) == Option::Some((v.deep_view(), p as int))
                &&& pos <= p <= s@.len()
            }),
            Option::None => parse_subcolumn_at(s@, pos as int) is None,
        },
{
    match parse_u32(s, pos) {
        Option::None => Option::None,
        Option::Some((x0, q0)) => match parse_str(s, q0) {
        Option::None => Option::None,
        Option::Some((x1, q1)) => match parse_u32(s, q1) {
        Option::None => Option::None,
        Option::Some((x2, q2)) => match parse_i64(s, q2) {
        Option::None => Option::None,
        Option::Some((x3, q3)) => {
                let built = SubColumn::from_parts(x0, x1, x2, x3);
                Option::Some((built, q3))
            },
    },
    },
    },
    }
}

/// The file form of a list: its length, then the items.
pub open spec fn render_subcolumn_items(items: Seq<SubColumnV>) -> Seq<char>
    decreases items.len(),
{
    if items.len() == 0 {
        Seq::empty()
    } else {
        render_subcolumn(items.first()) + render_subcolumn_items(items.drop_first())
    }
}

pub open spec fn render_vec_subcolumn(items: Seq<SubColumnV>) -> Seq<char> {
    render_u64(items.len() as u64) + render_subcolumn_items(items)
}

pub open spec fn vec_subcolumn_ok(items: Seq<SubColumnV>) -> bool {
    items.len() <= u64::MAX && (forall|i: int| #![trigger items[i]] 0 <= i < items.len() ==> subcolumn_ok(items[i]))
}

pub open spec fn parse_subcolumn_items_at(s: Seq<char>, pos: int, count: int) -> Option<
    (Seq<SubColumnV>, int),
>
    decreases count,
{
    if count <= 0 {
        Option::Some((Seq::empty(), pos))
    } else {
        match parse_subcolumn_at(s, pos) {
            Option::Some((x, p)) => match parse_subcolumn_items_at(s, p, count - 1) {
                Option::Some((rest, p2)) => Option::Some((seq![x] + rest, p2)),
                Option::None => Option::None,
            },
            Option::None => Option::None,
        }
    }
}

pub open spec fn parse_vec_subcolumn_at(s: Seq<char>, pos: int) -> Option<(Seq<SubColumnV>, int)> {
    match parse_u64_at(s, pos) {
        Option::Some((cnt, p)) => parse_subcolumn_items_at(s, p, cnt as int),
        Option::None => Option::None,
    }
}

proof fn lemma_parse_subcolumn_items_render(s: Seq<char>, pos: int, items: Seq<SubColumnV>)
    requires
        0 <= pos,
        forall|i: int| #![trigger items[i]] 0 <= i < items.len() ==> subcolumn_ok(items[i]),
        pos + render_subcolumn_items(items).len() <= s.len(),
        s.subrange(pos, pos + render_subcolumn_items(items).len()) == render_subcolumn_items(items),
    ensures
        parse_subcolumn_items_at(s, pos, items.len() as int) == Option::Some(
            (items, pos + render_subcolumn_items(items).len()),
        ),
    decreases items.len(),
{
    if items.len() == 0 {
        assert(items =~= Seq::<SubColumnV>::empty());
    } else {
        let a = render_subcolumn(items.first());
        let b = render_subcolumn_items(items.drop_first());
        assert(render_subcolumn_items(items) == a + b);
        lemma_split_concat(s, pos, a, b);
        assert(items[0] == items.first());
        assert(subcolumn_ok(items.first()));
        lemma_parse_subcolumn_render(s, pos, items.first());
        let rest = items.drop_first();
        assert forall|i: int| #![trigger rest[i]] 0 <= i < rest.len() implies subcolumn_ok(rest[i]) by {
            assert(rest[i] == items[i + 1]);
        }
        lemma_parse_subcolumn_items_render(s, pos + a.len(), rest);
        assert(seq![items.first()] + rest =~= items);
    }
}

pub proof fn lemma_parse_vec_subcolumn_render(s: Seq<char>, pos: int, items: Seq<SubColumnV>)
    requires
        0 <= pos,
        vec_subcolumn_ok(items),
        pos + render_vec_subcolumn(items).len() <= s.len(),
        s.subrange(pos, pos + render_vec_subcolumn(items).len()) == render_vec_subcolumn(items),
    ensures
        parse_vec_subcolumn_at(s, pos) == Option::Some((items, pos + render_vec_subcolumn(items).len())),
{
    let a = render_u64(items.len() as u64);
    let b = render_subcolumn_items(items);
    assert(render_vec_subcolumn(items) == a + b);
    lemma_split_concat(s, pos, a, b);
    lemma_parse_u64_render(s, pos, items.len() as u64);
    lemma_parse_subcolumn_items_render(s, pos + a.len(), items);
}

fn write_subcolumn_items(out: &mut String, items: &Vec<SubColumn>)
    ensures
        final(out)@ == old(out)@ + render_subcolumn_items(items.deep_view()),
{
    let ghost itemsv = items.deep_view();
    let mut i: usize = 0;
    proof {
        assert(itemsv.skip(0) =~= itemsv);
    }
    while i < items.len()
        invariant
            i <= items.len(),
            itemsv == items.deep_view(),
            itemsv.len() == items@.len(),
            out@ + render_subcolumn_items(itemsv.skip(i as int)) == old(out)@ + render_subcolumn_items(
                itemsv,
            ),
        decreases items.len() - i,
    {
        let ghost out0 = out@;
        write_subcolumn(out, &items[i]);
        proof {
            let rem = itemsv.skip(i as int);
            assert(rem.first() == itemsv[i as int]);
            assert(rem.drop_first() =~= itemsv.skip(i as int + 1));
            assert(render_subcolumn_items(rem) == render_subcolumn(rem.first()) + render_subcolumn_items(
                rem.drop_first(),
            ));
            assert(out@ + render_subcolumn_items(itemsv.skip(i as int + 1)) =~= out0
                + render_subcolumn_items(rem));
        }
        i = i + 1;
    }
    proof {
        assert(itemsv.skip(i as int) =~= Seq::<SubColumnV>::empty());
        assert(render_subcolumn_items(itemsv.skip(i as int)) =~= Seq::<char>::empty());
        assert(out@ =~= old(out)@ + render_subcolumn_items(itemsv));
    }
}

pub fn write_vec_subcolumn(out: &mut String, items: &Vec<SubColumn>)
    ensures
        final(out)@ == old(out)@ + render_vec_subcolumn(items.deep_view()),
{
    proof {
        assert(items.deep_view().len() == items@.len());
    }
    write_u64(out, items.len() as u64);
    write_subcolumn_items(out, items);
    proof {
        assert(out@ =~= old(out)@ + render_vec_subcolumn(items.deep_view()));
    }
}

fn parse_subcolumn_items(s: &str, pos: usize, count: u64) -> (r: Option<(Vec<SubColumn>, usize)>)
    requires
        pos <= s@.len(),
    ensures
        match r {
            Option::Some((v, p)) => ({
                &&& parse_subcolumn_items_at(s@, pos as int, count as int) == Option::Some(
                    (v.deep_view(), p as int),
                )
                &&& pos <= p <= s@.len()
            }),
            Option::None => parse_subcolumn_items_at(s@, pos as int, count as int) is None,
        },
{
    let mut acc: Vec<SubColumn> = Vec::new();
    let mut cur: usize = pos;
    let mut rem: u64 = count;
    proof {
        assert(acc.deep_view() =~= Seq::<SubColumnV>::empty());
        let t = parse_subcolumn_items_at(s@, pos as int, count as int);
        if t is Some {
            let t0 = t->0;
            assert(acc.deep_view() + t0.0 =~= t0.0);
        }
    }
    loop
        invariant
            pos <= cur <= s@.len(),
            rem <= count,
            parse_subcolumn_items_at(s@, pos as int, count as int) == (match parse_subcolumn_items_at(
                s@,
                cur as int,
                rem as int,
            ) {
                Option::Some((rest, p)) => Option::Some((acc.deep_view() + rest, p)),
                Option::None => Option::None,
            }),
        ensures
            rem == 0,
            pos <= cur <= s@.len(),
            parse_subcolumn_items_at(s@, pos as int, count as int) == Option::Some(
                (acc.deep_view(), cur as int),
            ),
        decreases rem,
    {
        if rem == 0 {
            proof {
                assert(acc.deep_view() + Seq::<SubColumnV>::empty() =~= acc.deep_view());
            }
            break ;
        }
        match parse_subcolumn(s, cur) {
            Option::Some((x, p)) => {
                let ghost accv = acc.deep_view();
                let ghost xv = x.deep_view();
                acc.push(x);
                proof {
                    assert(acc.deep_view() =~= accv.push(xv));
                    let t = parse_subcolumn_items_at(s@, p as int, rem as int - 1);
                    if t is Some {
                        let t0 = t->0;
                        assert(accv + (seq![xv] + t0.0) =~= accv.push(xv) + t0.0);
                    }
                }
                cur = p;
                rem = rem - 1;
            },
            Option::None => {
                return Option::None;
            },
        }
    }
    Option::Some((acc, cur))
}

pub fn parse_vec_subcolumn(s: &str, pos: usize) -> (r: Option<(Vec<SubColumn>, usize)>)
    requires
        pos <= s@.len(),
    ensures
        match r {
            Option::Some((v, p)) => ({
                &&& parse_vec_subcolumn_at(s@, pos as int) == Option::Some((v.deep_view(), p as int))
                &&& pos <= p <= s@.len()
            }),
            Option::None => parse_vec_subcolumn_at(s@, pos as int) is None,
        },
{
    match parse_u64(s, pos) {
        Option::Some((cnt, p)) => parse_subcolumn_items(s, p, cnt),
        Option::None => Option::None,
    }
}

/// An optional value: a presence token, then the value where present.
pub open spec fn render_opt_vec_subcolumn(v: Option<Seq<SubColumnV>>) -> Seq<char> {
    match v {
        Option::Some(x) => render_bool(true) + render_vec_subcolumn(x),
        Option::None => render_bool(false),
    }
}

pub open spec fn opt_vec_subcolumn_ok(v: Option<Seq<SubColumnV>>) -> bool {
    match v {
        Option::Some(x) => vec_subcolumn_ok(x),
        Option::None => true,
    }
}

pub open spec fn parse_opt_vec_subcolumn_at(s: Seq<char>, pos: int) -> Option<(Option<Seq<SubColumnV>>, int)> {
    match parse_bool_at(s, pos) {
        Option::Some((tag, p)) => if tag {
            match parse_vec_subcolumn_at(s, p) {
                Option::Some((x, p2)) => Option::Some((Option::Some(x), p2)),
                Option::None => Option::None,
            }
        } else {
            Option::Some((Option::None, p))
        },
        Option::None => Option::None,
    }
}

pub proof fn lemma_parse_opt_vec_subcolumn_render(s: Seq<char>, pos: int, v: Option<Seq<SubColumnV>>)
    requires
        0 <= pos,
        opt_vec_subcolumn_ok(v),
        pos + render_opt_vec_subcolumn(v).len() <= s.len(),
        s.subrange(pos, pos + render_opt_vec_subcolumn(v).len()) == render_opt_vec_subcolumn(v),
    ensures
        parse_opt_vec_subcolumn_at(s, pos) == Option::Some((v, pos + render_opt_vec_subcolumn(v).len())),
{
    match v {
        Option::Some(x) => {
            let a = render_bool(true);
            let b = render_vec_subcolumn(x);
            assert(render_opt_vec_subcolumn(v) == a + b);
            lemma_split_concat(s, pos, a, b);
            lemma_parse_bool_render(s, pos, true);
            lemma_parse_vec_subcolumn_render(s, pos + a.len(), x);
        },
        Option::None => {
            lemma_parse_bool_render(s, pos, false);
        },
    }
}

pub fn write_opt_vec_subcolumn(out: &mut String, v: &Option<Vec<SubColumn>>)
    ensures
        final(out)@ == old(out)@ + render_opt_vec_subcolumn(v.deep_view()),
{
    match v {
        Option::Some(x) => {
            write_bool(out, true);
            write_vec_subcolumn(out, x);
            proof {
                assert(v.deep_view() == Option::Some(x.deep_view()));
            }
            proof {
                assert(out@ =~= old(out)@ + render_opt_vec_subcolumn(v.deep_view()));
            }
        },
        Option::None => {
            write_bool(out, false);
        },
    }
}

pub fn parse_opt_vec_subcolumn(s: &str, pos: usize) -> (r: Option<(Option<Vec<SubColumn>>, usize)>)
    requires
        pos <= s@.len(),
    ensures
        match r {
            Option::Some((v, p)) => ({
                &&& parse_opt_vec_subcolumn_at(s@, pos as int) == Option::Some((v.deep_view(), p as int))
                &&& pos <= p <= s@.len()
            }),
            Option::None => parse_opt_vec_subcolumn_at(s@, pos as int) is None,
        },
{
    match parse_bool(s, pos) {
        Option::Some((tag, p)) => {
            if tag {
                match parse_vec_subcolumn(s, p) {
                    Option::Some((x, p2)) => Option::Some((Option::Some(x), p2)),
                    Option::None => Option::None,
                }
            } else {
                Option::Some((Option::None, p))
            }
        },
        Option::None => Option::None,
    }
}

/// The file form of a column.
pub open spec fn render_column(v: ColumnV) -> Seq<char> {
    render_u32(v.id) + render_str(v.title) + render_u32(v.board_id) + render_i64(v.sort_order) + render_opt_u32(v.column_id) + render_opt_vec_subcolumn(v.subcolumns)
}

pub open spec fn column_ok(v: ColumnV) -> bool {
    &&& str_ok(v.title)
    &&& opt_vec_subcolumn_ok(v.subcolumns)
}

pub open spec fn parse_column_at(s: Seq<char>, pos: int) -> Option<(ColumnV, int)> {
    match parse_u32_at(s, pos) {
        Option::None => Option::None,
        Option::Some((f0, p0)) => match parse_str_at(s, p0) {
        Option::None => Option::None,
        Option::Some((f1, p1)) => match parse_u32_at(s, p1) {
        Option::None => Option::None,
        Option::Some((f2, p2)) => match parse_i64_at(s, p2) {
        Option::None => Option::None,
        Option::Some((f3, p3)) => match parse_opt_u32_at(s, p3) {
        Option::None => Option::None,
        Option::Some((f4, p4)) => match parse_opt_vec_subcolumn_at(s, p4) {
        Option::None => Option::None,
        Option::Some((f5, p5)) => Option::Some(((ColumnV { id: f0, title: f1, board_id: f2, sort_order: f3, column_id: f4, subcolumns: f5 }), p5)),
    },
    },
    },
    },
    },
    }
}

#[verifier::rlimit(100)]
pub proof fn lemma_parse_column_render(s: Seq<char>, pos: int, v: ColumnV)
    requires
        0 <= pos,
        column_ok(v),
        pos + render_column(v).len() <= s.len(),
        s.subrange(pos, pos + render_column(v).len()) == render_column(v),
    ensures
        parse_column_at(s, pos) == Option::Some((v, pos + render_column(v).len())),
{
    let a0 = render_u32(v.id);
    let a1 = render_str(v.title);
    let a2 = render_u32(v.board_id);
    let a3 = render_i64(v.sort_order);
    let a4 = render_opt_u32(v.column_id);
    let a5 = render_opt_vec_subcolumn(v.subcolumns);
    assert((render_column(v)) =~= a0 + (a1 + a2 + a3 + a4 + a5));
    assert(s.subrange(pos, pos + a0.len() + (a1 + a2 + a3 + a4 + a5).len()) == a0 + (a1 + a2 + a3 + a4 + a5));
    lemma_split_concat(s, pos, a0, (a1 + a2 + a3 + a4 + a5));
    lemma_parse_u32_render(s, pos, v.id);
    assert((a1 + a2 + a3 + a4 + a5) =~= a1 + (a2 + a3 + a4 + a5));
    assert(s.subrange(pos + a0.len(), pos + a0.len() + a1.len() + (a2 + a3 + a4 + a5).len()) == a1 + (a2 + a3 + a4 + a5));
    lemma_split_concat(s, pos + a0.len(), a1, (a2 + a3 + a4 + a5));
    lemma_parse_str_render(s, pos + a0.len(), v.title);
    assert((a2 + a3 + a4 + a5) =~= a2 + (a3 + a4 + a5));
    assert(s.subrange(pos + a0.len() + a1.len(), pos + a0.len() + a1.len() + a2.len() + (a3 + a4 + a5).len()) == a2 + (a3 + a4 + a5));
    lemma_split_concat(s, pos + a0.len() + a1.len(), a2, (a3 + a4 + a5));
    lemma_parse_u32_render(s, pos + a0.len() + a1.len(), v.board_id);
    assert((a3 + a4 + a5) =~= a3 + (a4 + a5));
    assert(s.subrange(pos + a0.len() + a1.len() + a2.len(), pos + a0.len() + a1.len() + a2.len() + a3.len() + (a4 + a5).len()) == a3 + (a4 + a5));
    lemma_split_concat(s, pos + a0.len() + a1.len() + a2.len(), a3, (a4 + a5));
    lemma_parse_i64_render(s, pos + a0.len() + a1.len() + a2.len(), v.sort_order);
    assert((a4 + a5) =~= a4 + (a5));
    assert(s.subrange(pos + a0.len() + a1.len() + a2.len() + a3.len(), pos + a0.len() + a1.len() + a2.len() + a3.len() + a4.len() + (a5).len()) == a4 + (a5));
    lemma_split_concat(s, pos + a0.len() + a1.len() + a2.len() + a3.len(), a4, (a5));
    lemma_parse_opt_u32_render(s, pos + a0.len() + a1.len() + a2.len() + a3.len(), v.column_id);
    lemma_parse_opt_vec_subcolumn_render(s, pos + a0.len() + a1.len() + a2.len() + a3.len() + a4.len(), v.subcolumns);
    assert(v == (ColumnV { id: v.id, title: v.title, board_id: v.board_id, sort_order: v.sort_order, column_id: v.column_id, subcolumns: v.subcolumns }));
}

pub fn write_column(out: &mut String, v: &Column)
    ensures
        final(out)@ == old(out)@ + render_column(v.deep_view()),
{
    write_u32(out, v.get_id());
    write_str(out, v.get_title());
    write_u32(out, v.get_board_id());
    write_i64(out, v.get_sort_order());
    write_opt_u32(out, v.get_column_id());
    write_opt_vec_subcolumn(out, v.get_subcolumns());
    proof {
        assert(out@ =~= old(out)@ + render_column(v.deep_view()));
    }
}

pub fn parse_column(s: &str, pos: usize) -> (r: Option<(Column, usize)>)
    requires
        pos <= s@.len(),
    ensures
        match r {
            Option::Some((v, p)) => ({
                &&& parse_column_at(s@, pos as int) == Option::Some((v.deep_view(), p as int))
                &&& pos <= p <= s@.len()
            }),
            Option::None => parse_column_at(s@, pos as int) is None,
        },
{
    match parse_u32(s, pos) {
        Option::None => Option::None,
        Option::Some((x0, q0)) => match parse_str(s, q0) {
        Option::None => Option::None,
        Option::Some((x1, q1)) => match parse_u32(s, q1) {
        Option::None => Option::None,
        Option::Some((x2, q2)) => match parse_i64(s, q2) {
        Option::None => Option::None,
        Option::Some((x3, q3)) => match parse_opt_u32(s, q3) {
        Option::None => Option::None,
        Option::Some((x4, q4)) => match parse_opt_vec_subcolumn(s, q4) {
        Option::None => Option::None,
        Option::Some((x5, q5)) => {
                let built = Column::from_parts(x0, x1, x2, x3, x4, x5);
                Option::Some((built, q5))
            },
    },
    },
    },
    },
    },
    }
}

/// The file form of a list: its length, then the items.
pub open spec fn render_column_items(items: Seq<ColumnV>) -> Seq<char>
    decreases items.len(),
{
    if items.len() == 0 {
        Seq::empty()
    } else {
        render_column(items.first()) + render_column_items(items.drop_first())
    }
}

pub open spec fn render_vec_column(items: Seq<ColumnV>) -> Seq<char> {
    render_u64(items.len() as u64) + render_column_items(items)
}

pub open spec fn vec_column_ok(items: Seq<ColumnV>) -> bool {
    items.len() <= u64::MAX && (forall|i: int| #![trigger items[i]] 0 <= i < items.len() ==> column_ok(items[i]))
}

pub open spec fn parse_column_items_at(s: Seq<char>, pos: int, count: int) -> Option<
    (Seq<ColumnV>, int),
>
    decreases count,
{
    if count <= 0 {
        Option::Some((Seq::empty(), pos))
    } else {
        match parse_column_at(s, pos) {
            Option::Some((x, p)) => match parse_column_items_at(s, p, count - 1) {
                Option::Some((rest, p2)) => Option::Some((seq![x] + rest, p2)),
                Option::None => Option::None,
            },
            Option::None => Option::None,
        }
    }
}

pub open spec fn parse_vec_column_at(s: Seq<char>, pos: int) -> Option<(Seq<ColumnV>, int)> {
    match parse_u64_at(s, pos) {
        Option::Some((cnt, p)) => parse_column_items_at(s, p, cnt as int),
        Option::None => Option::None,
    }
}

proof fn lemma_parse_column_items_render(s: Seq<char>, pos: int, items: Seq<ColumnV>)
    requires
        0 <= pos,
        forall|i: int| #![trigger items[i]] 0 <= i < items.len() ==> column_ok(items[i]),
        pos + render_column_items(items).len() <= s.len(),
        s.subrange(pos, pos + render_column_items(items).len()) == render_column_items(items),
    ensures
        parse_column_items_at(s, pos, items.len() as int) == Option::Some(
            (items, pos + render_column_items(items).len()),
        ),
    decreases items.len(),
{
    if items.len() == 0 {
        assert(items =~= Seq::<ColumnV>::empty());
    } else {
        let a = render_column(items.first());
        let b = render_column_items(items.drop_first());
        assert(render_column_items(items) == a + b);
        lemma_split_concat(s, pos, a, b);
        assert(items[0] == items.first());
        assert(column_ok(items.first()));
        lemma_parse_column_render(s, pos, items.first());
        let rest = items.drop_first();
        assert forall|i: int| #![trigger rest[i]] 0 <= i < rest.len() implies column_ok(rest[i]) by {
            assert(rest[i] == items[i + 1]);
        }
        lemma_parse_column_items_render(s, pos + a.len(), rest);
        assert(seq![items.first()] + rest =~= items);
    }
}

pub proof fn lemma_parse_vec_column_render(s: Seq<char>, pos: int, items: Seq<ColumnV>)
    requires
        0 <= pos,
        vec_column_ok(items),
        pos + render_vec_column(items).len() <= s.len(),
        s.subrange(pos, pos + render_vec_column(items).len()) == render_vec_column(items),
    ensures
        parse_vec_column_at(s, pos) == Option::Some((items, pos + render_vec_column(items).len())),
{
    let a = render_u64(items.len() as u64);
    let b = render_column_items(items);
    assert(render_vec_column(items) == a + b);
    lemma_split_concat(s, pos, a, b);
    lemma_parse_u64_render(s, pos, items.len() as u64);
    lemma_parse_column_items_render(s, pos + a.len(), items);
}

fn write_column_items(out: &mut String, items: &Vec<Column>)
    ensures
        final(out)@ == old(out)@ + render_column_items(items.deep_view()),
{
    let ghost itemsv = items.deep_view();
    let mut i: usize = 0;
    proof {
        assert(itemsv.skip(0) =~= itemsv);
    }
    while i < items.len()
        invariant
            i <= items.len(),
            itemsv == items.deep_view(),
            itemsv.len() == items@.len(),
            out@ + render_column_items(itemsv.skip(i as int)) == old(out)@ + render_column_items(
                itemsv,
            ),
        decreases items.len() - i,
    {
        let ghost out0 = out@;
        write_column(out, &items[i]);
        proof {
            let rem = itemsv.skip(i as int);
            assert(rem.first() == itemsv[i as int]);
            assert(rem.drop_first() =~= itemsv.skip(i as int + 1));
            assert(render_column_items(rem) == render_column(rem.first()) + render_column_items(
                rem.drop_first(),
            ));
            assert(out@ + render_column_items(itemsv.skip(i as int + 1)) =~= out0
                + render_column_items(rem));
        }
        i = i + 1;
    }
    proof {
        assert(itemsv.skip(i as int) =~= Seq::<ColumnV>::empty());
        assert(render_column_items(itemsv.skip(i as int)) =~= Seq::<char>::empty());
        assert(out@ =~= old(out)@ + render_column_items(itemsv));
    }
}

pub fn write_vec_column(out: &mut String, items: &Vec<Column>)
    ensures
        final(out)@ == old(out)@ + render_vec_column(items.deep_view()),
{
    proof {
        assert(items.deep_view().len() == items@.len());
    }
    write_u64(out, items.len() as u64);
    write_column_items(out, items);
    proof {
        assert(out@ =~= old(out)@ + render_vec_column(items.deep_view()));
    }
}

fn parse_column_items(s: &str, pos: usize, count: u64) -> (r: Option<(Vec<Column>, usize)>)
    requires
        pos <= s@.len(),
    ensures
        match r {
            Option::Some((v, p)) => ({
                &&& parse_column_items_at(s@, pos as int, count as int) == Option::Some(
                    (v.deep_view(), p as int),
                )
                &&& pos <= p <= s@.len()
            }),
            Option::None => parse_column_items_at(s@, pos as int, count as int) is None,
        },
{
    let mut acc: Vec<Column> = Vec::new();
    let mut cur: usize = pos;
    let mut rem: u64 = count;
    proof {
        assert(acc.deep_view() =~= Seq::<ColumnV>::empty());
        let t = parse_column_items_at(s@, pos as int, count as int);
        if t is Some {
            let t0 = t->0;
            assert(acc.deep_view() + t0.0 =~= t0.0);
        }
    }
    loop
        invariant
            pos <= cur <= s@.len(),
            rem <= count,
            parse_column_items_at(s@, pos as int, count as int) == (match parse_column_items_at(
                s@,
                cur as int,
                rem as int,
            ) {
                Option::Some((rest, p)) => Option::Some((acc.deep_view() + rest, p)),
                Option::None => Option::None,
            }),
        ensures
            rem == 0,
            pos <= cur <= s@.len(),
            parse_column_items_at(s@, pos as int, count as int) == Option::Some(
                (acc.deep_view(), cur as int),
            ),
        decreases rem,
    {
        if rem == 0 {
            proof {
                assert(acc.deep_view() + Seq::<ColumnV>::empty() =~= acc.deep_view());
            }
            break ;
        }
        match parse_column(s, cur) {
            Option::Some((x, p)) => {
                let ghost accv = acc.deep_view();
                let ghost xv = x.deep_view();
                acc.push(x);
                proof {
                    assert(acc.deep_view() =~= accv.push(xv));
                    let t = parse_column_items_at(s@, p as int, rem as int - 1);
                    if t is Some {
                        let t0 = t->0;
                        assert(accv + (seq![xv] + t0.0) =~= accv.push(xv) + t0.0);
                    }
                }
                cur = p;
                rem = rem - 1;
            },
            Option::None => {
                return Option::None;
            },
        }
    }
    Option::Some((acc, cur))
}

pub fn parse_vec_column(s: &str, pos: usize) -> (r: Option<(Vec<Column>, usize)>)
    requires
        pos <= s@.len(),
    ensures
        match r {
            Option::Some((v, p)) => ({
                &&& parse_vec_column_at(s@, pos as int) == Option::Some((v.deep_view(), p as int))
                &&& pos <= p <= s@.len()
            }),
            Option::None => parse_vec_column_at(s@, pos as int) is None,
        },
{
    match parse_u64(s, pos) {
        Option::Some((cnt, p)) => parse_column_items(s, p, cnt),
        Option::None => Option::None,
    }
}

/// An optional value: a presence token, then the value where present.
pub open spec fn render_opt_vec_column(v: Option<Seq<ColumnV>>) -> Seq<char> {
    match v {
        Option::Some(x) => render_bool(true) + render_vec_column(x),
        Option::None => render_bool(false),
    }
}

pub open spec fn opt_vec_column_ok(v: Option<Seq<ColumnV>>) -> bool {
    match v {
        Option::Some(x) => vec_column_ok(x),
        Option::None => true,
    }
}

pub open spec fn parse_opt_vec_column_at(s: Seq<char>, pos: int) -> Option<(Option<Seq<ColumnV>>, int)> {
    match parse_bool_at(s, pos) {
        Option::Some((tag, p)) => if tag {
            match parse_vec_column_at(s, p) {
                Option::Some((x, p2)) => Option::Some((Option::Some(x), p2)),
                Option::None => Option::None,
            }
        } else {
            Option::Some((Option::None, p))
        },
        Option::None => Option::None,
    }
}

pub proof fn lemma_parse_opt_vec_column_render(s: Seq<char>, pos: int, v: Option<Seq<ColumnV>>)
    requires
        0 <= pos,
        opt_vec_column_ok(v),
        pos + render_opt_vec_column(v).len() <= s.len(),
        s.subrange(pos, pos + render_opt_vec_column(v).len()) == render_opt_vec_column(v),
    ensures
        parse_opt_vec_column_at(s, pos) == Option::Some((v, pos + render_opt_vec_column(v).len())),
{
    match v {
        Option::Some(x) => {
            let a = render_bool(true);
            let b = render_vec_column(x);
            assert(render_opt_vec_column(v) == a + b);
            lemma_split_concat(s, pos, a, b);
            lemma_parse_bool_render(s, pos, true);
            lemma_parse_vec_column_render(s, pos + a.len(), x);
        },
        Option::None => {
            lemma_parse_bool_render(s, pos, false);
        },
    }
}

pub fn write_opt_vec_column(out: &mut String, v: &Option<Vec<Column>>)
    ensures
        final(out)@ == old(out)@ + render_opt_vec_column(v.deep_view()),
{
    match v {
        Option::Some(x) => {
            write_bool(out, true);
            write_vec_column(out, x);
            proof {
                assert(v.deep_view() == Option::Some(x.deep_view()));
            }
            proof {
                assert(out@ =~= old(out)@ + render_opt_vec_column(v.deep_view()));
            }
        },
        Option::None => {
            write_bool(out, false);
        },
    }
}

pub fn parse_opt_vec_column(s: &str, pos: usize) -> (r: Option<(Option<Vec<Column>>, usize)>)
    requires
        pos <= s@.len(),
    ensures
        match r {
            Option::Some((v, p)) => ({
                &&& parse_opt_vec_column_at(s@, pos as int) == Option::Some((v.deep_view(), p as int))
                &&& pos <= p <= s@.len()
            }),
            Option::None => parse_opt_vec_column_at(s@, pos as int) is None,
        },
{
    match parse_bool(s, pos) {
        Option::Some((tag, p)) => {
            if tag {
                match parse_vec_column(s, p) {
                    Option::Some((x, p2)) => Option::Some((Option::Some(x), p2)),
                    Option::None => Option::None,
                }
            } else {
                Option::Some((Option::None, p))
            }
        },
        Option::None => Option::None,
    }
}

/// The file form of a list: its length, then the items.
pub open spec fn render_lane_items(items: Seq<LaneV>) -> Seq<char>
    decreases items.len(),
{
    if items.len() == 0 {
        Seq::empty()
    } else {
        render_lane(items.first()) + render_lane_items(items.drop_first())
    }
}

pub open spec fn render_vec_lane(items: Seq<LaneV>) -> Seq<char> {
    render_u64(items.len() as u64) + render_lane_items(items)
}

pub open spec fn vec_lane_ok(items: Seq<LaneV>) -> bool {
    items.len() <= u64::MAX && (forall|i: int| #![trigger items[i]] 0 <= i < items.len() ==> lane_ok(items[i]))
}

pub open spec fn parse_lane_items_at(s: Seq<char>, pos: int, count: int) -> Option<
    (Seq<LaneV>, int),
>
    decreases count,
{
    if count <= 0 {
        Option::Some((Seq::empty(), pos))
    } else {
        match parse_lane_at(s, pos) {
            Option::Some((x, p)) => match parse_lane_items_at(s, p, count - 1) {
                Option::Some((rest, p2)) => Option::Some((seq![x] + rest, p2)),
                Option::None => Option::None,
            },
            Option::None => Option::None,
        }
    }
}

pub open spec fn parse_vec_lane_at(s: Seq<char>, pos: int) -> Option<(Seq<LaneV>, int)> {
    match parse_u64_at(s, pos) {
        Option::Some((cnt, p)) => parse_lane_items_at(s, p, cnt as int),
        Option::None => Option::None,
    }
}

proof fn lemma_parse_lane_items_render(s: Seq<char>, pos: int, items: Seq<LaneV>)
    requires
        0 <= pos,
        forall|i: int| #![trigger items[i]] 0 <= i < items.len() ==> lane_ok(items[i]),
        pos + render_lane_items(items).len() <= s.len(),
        s.subrange(pos, pos + render_lane_items(items).len()) == render_lane_items(items),
    ensures
        parse_lane_items_at(s, pos, items.len() as int) == Option::Some(
            (items, pos + render_lane_items(items).len()),
        ),
    decreases items.len(),
{
    if items.len() == 0 {
        assert(items =~= Seq::<LaneV>::empty());
    } else {
        let a = render_lane(items.first());
        let b = render_lane_items(items.drop_first());
        assert(render_lane_items(items) == a + b);
        lemma_split_concat(s, pos, a, b);
        assert(items[0] == items.first());
        assert(lane_ok(items.first()));
        lemma_parse_lane_render(s, pos, items.first());
        let rest = items.drop_first();
        assert forall|i: int| #![trigger rest[i]] 0 <= i < rest.len() implies lane_ok(rest[i]) by {
            assert(rest[i] == items[i + 1]);
        }
        lemma_parse_lane_items_render(s, pos + a.len(), rest);
        assert(seq![items.first()] + rest =~= items);
    }
}

pub proof fn lemma_parse_vec_lane_render(s: Seq<char>, pos: int, items: Seq<LaneV>)
    requires
        0 <= pos,
        vec_lane_ok(items),
        pos + render_vec_lane(items).len() <= s.len(),
        s.subrange(pos, pos + render_vec_lane(items).len()) == render_vec_lane(items),
    ensures
        parse_vec_lane_at(s, pos) == Option::Some((items, pos + render_vec_lane(items).len())),
{
    let a = render_u64(items.len() as u64);
    let b = render_lane_items(items);
    assert(render_vec_lane(items) == a + b);
    lemma_split_concat(s, pos, a, b);
    lemma_parse_u64_render(s, pos, items.len() as u64);
    lemma_parse_lane_items_render(s, pos + a.len(), items);
}

fn write_lane_items(out: &mut String, items: &Vec<Lane>)
    ensures
        final(out)@ == old(out)@ + render_lane_items(items.deep_view()),
{
    let ghost itemsv = items.deep_view();
    let mut i: usize = 0;
    proof {
        assert(itemsv.skip(0) =~= itemsv);
    }
    while i < items.len()
        invariant
            i <= items.len(),
            itemsv == items.deep_view(),
            itemsv.len() == items@.len(),
            out@ + render_lane_items(itemsv.skip(i as int)) == old(out)@ + render_lane_items(
                itemsv,
            ),
        decreases items.len() - i,
    {
        let ghost out0 = out@;
        write_lane(out, &items[i]);
        proof {
            let rem = itemsv.skip(i as int);
            assert(rem.first() == itemsv[i as int]);
            assert(rem.drop_first() =~= itemsv.skip(i as int + 1));
            assert(render_lane_items(rem) == render_lane(rem.first()) + render_lane_items(
                rem.drop_first(),
            ));
            assert(out@ + render_lane_items(itemsv.skip(i as int + 1)) =~= out0
                + render_lane_items(rem));
        }
        i = i + 1;
    }
    proof {
        assert(itemsv.skip(i as int) =~= Seq::<LaneV>::empty());
        assert(render_lane_items(itemsv.skip(i as int)) =~= Seq::<char>::empty());
        assert(out@ =~= old(out)@ + render_lane_items(itemsv));
    }
}

pub fn write_vec_lane(out: &mut String, items: &Vec<Lane>)
    ensures
        final(out)@ == old(out)@ + render_vec_lane(items.deep_view()),
{
    proof {
        assert(items.deep_view().len() == items@.len());
    }
    write_u64(out, items.len() as u64);
    write_lane_items(out, items);
    proof {
        assert(out@ =~= old(out)@ + render_vec_lane(items.deep_view()));
    }
}

fn parse_lane_items(s: &str, pos: usize, count: u64) -> (r: Option<(Vec<Lane>, usize)>)
    requires
        pos <= s@.len(),
    ensures
        match r {
            Option::Some((v, p)) => ({
                &&& parse_lane_items_at(s@, pos as int, count as int) == Option::Some(
                    (v.deep_view(), p as int),
                )
                &&& pos <= p <= s@.len()
            }),
            Option::None => parse_lane_items_at(s@, pos as int, count as int) is None,
        },
{
    let mut acc: Vec<Lane> = Vec::new();
    let mut cur: usize = pos;
    let mut rem: u64 = count;
    proof {
        assert(acc.deep_view() =~= Seq::<LaneV>::empty());
        let t = parse_lane_items_at(s@, pos as int, count as int);
        if t is Some {
            let t0 = t->0;
            assert(acc.deep_view() + t0.0 =~= t0.0);
        }
    }
    loop
        invariant
            pos <= cur <= s@.len(),
            rem <= count,
            parse_lane_items_at(s@, pos as int, count as int) == (match parse_lane_items_at(
                s@,
                cur as int,
                rem as int,
            ) {
                Option::Some((rest, p)) => Option::Some((acc.deep_view() + rest, p)),
                Option::None => Option::None,
            }),
        ensures
            rem == 0,
            pos <= cur <= s@.len(),
            parse_lane_items_at(s@, pos as int, count as int) == Option::Some(
                (acc.deep_view(), cur as int),
            ),
        decreases rem,
    {
        if rem == 0 {
            proof {
                assert(acc.deep_view() + Seq::<LaneV>::empty() =~= acc.deep_view());
            }
            break ;
        }
        match parse_lane(s, cur) {
            Option::Some((x, p)) => {
                let ghost accv = acc.deep_view();
                let ghost xv = x.deep_view();
                acc.push(x);
                proof {
                    assert(acc.deep_view() =~= accv.push(xv));
                    let t = parse_lane_items_at(s@, p as int, rem as int - 1);
                    if t is Some {
                        let t0 = t->0;
                        assert(accv + (seq![xv] + t0.0) =~= accv.push(xv) + t0.0);
                    }
                }
                cur = p;
                rem = rem - 1;
            },
            Option::None => {
                return Option::None;
            },
        }
    }
    Option::Some((acc, cur))
}

pub fn parse_vec_lane(s: &str, pos: usize) -> (r: Option<(Vec<Lane>, usize)>)
    requires
        pos <= s@.len(),
    ensures
        match r {
            Option::Some((v, p)) => ({
                &&& parse_vec_lane_at(s@, pos as int) == Option::Some((v.deep_view(), p as int))
                &&& pos <= p <= s@.len()
            }),
            Option::None => parse_vec_lane_at(s@, pos as int) is None,
        },
{
    match parse_u64(s, pos) {
        Option::Some((cnt, p)) => parse_lane_items(s, p, cnt),
        Option::None => Option::None,
    }
}

/// An optional value: a presence token, then the value where present.
pub open spec fn render_opt_vec_lane(v: Option<Seq<LaneV>>) -> Seq<char> {
    match v {
        Option::Some(x) => render_bool(true) + render_vec_lane(x),
        Option::None => render_bool(false),
    }
}

pub open spec fn opt_vec_lane_ok(v: Option<Seq<LaneV>>) -> bool {
    match v {
        Option::Some(x) => vec_lane_ok(x),
        Option::None => true,
    }
}

pub open spec fn parse_opt_vec_lane_at(s: Seq<char>, pos: int) -> Option<(Option<Seq<LaneV>>, int)> {
    match parse_bool_at(s, pos) {
        Option::Some((tag, p)) => if tag {
            match parse_vec_lane_at(s, p) {
                Option::Some((x, p2)) => Option::Some((Option::Some(x), p2)),
                Option::None => Option::None,
            }
        } else {
            Option::Some((Option::None, p))
        },
        Option::None => Option::None,
    }
}

pub proof fn lemma_parse_opt_vec_lane_render(s: Seq<char>, pos: int, v: Option<Seq<LaneV>>)
    requires
        0 <= pos,
        opt_vec_lane_ok(v),
        pos + render_opt_vec_lane(v).len() <= s.len(),
        s.subrange(pos, pos + render_opt_vec_lane(v).len()) == render_opt_vec_lane(v),
    ensures
        parse_opt_vec_lane_at(s, pos) == Option::Some((v, pos + render_opt_vec_lane(v).len())),
{
    match v {
        Option::Some(x) => {
            let a = render_bool(true);
            let b = render_vec_lane(x);
            assert(render_opt_vec_lane(v) == a + b);
            lemma_split_concat(s, pos, a, b);
            lemma_parse_bool_render(s, pos, true);
            lemma_parse_vec_lane_render(s, pos + a.len(), x);
        },
        Option::None => {
            lemma_parse_bool_render(s, pos, false);
        },
    }
}

pub fn write_opt_vec_lane(out: &mut String, v: &Option<Vec<Lane>>)
    ensures
        final(out)@ == old(out)@ + render_opt_vec_lane(v.deep_view()),
{
    match v {
        Option::Some(x) => {
            write_bool(out, true);
            write_vec_lane(out, x);
            proof {
                assert(v.deep_view() == Option::Some(x.deep_view()));
            }
            proof {
                assert(out@ =~= old(out)@ + render_opt_vec_lane(v.deep_view()));
            }
        },
        Option::None => {
            write_bool(out, false);
        },
    }
}

pub fn parse_opt_vec_lane(s: &str, pos: usize) -> (r: Option<(Option<Vec<Lane>>, usize)>)
    requires
        pos <= s@.len(),
    ensures
        match r {
            Option::Some((v, p)) => ({
                &&& parse_opt_vec_lane_at(s@, pos as int) == Option::Some((v.deep_view(), p as int))
                &&& pos <= p <= s@.len()
            }),
            Option::None => parse_opt_vec_lane_at(s@, pos as int) is None,
        },
{
    match parse_bool(s, pos) {
        Option::Some((tag, p)) => {
            if tag {
                match parse_vec_lane(s, p) {
                    Option::Some((x, p2)) => Option::Some((Option::Some(x), p2)),
                    Option::None => Option::None,
                }
            } else {
                Option::Some((Option::None, p))
            }
        },
        Option::None => Option::None,
    }
}

/// The file form of a board.
pub open spec fn render_board(v: BoardV) -> Seq<char> {
    render_u32(v.id) + render_u32(v.space_id) + render_str(v.title) + render_opt_vec_column(v.columns) + render_opt_vec_lane(v.lanes)
}

pub open spec fn board_ok(v: BoardV) -> bool {
    &&& str_ok(v.title)
    &&& opt_vec_column_ok(v.columns)
    &&& opt_vec_lane_ok(v.lanes)
}

pub open spec fn parse_board_at(s: Seq<char>, pos: int) -> Option<(BoardV, int)> {
    match parse_u32_at(s, pos) {
        Option::None => Option::None,
        Option::Some((f0, p0)) => match parse_u32_at(s, p0) {
        Option::None => Option::None,
        Option::Some((f1, p1)) => match parse_str_at(s, p1) {
        Option::None => Option::None,
        Option::Some((f2, p2)) => match parse_opt_vec_column_at(s, p2) {
        Option::None => Option::None,
        Option::Some((f3, p3)) => match parse_opt_vec_lane_at(s, p3) {
        Option::None => Option::None,
        Option::Some((f4, p4)) => Option::Some(((BoardV { id: f0, space_id: f1, title: f2, columns: f3, lanes: f4 }), p4)),
    },
    },
    },
    },
    }
}

#[verifier::rlimit(100)]
pub proof fn lemma_parse_board_render(s: Seq<char>, pos: int, v: BoardV)
    requires
        0 <= pos,
        board_ok(v),
        pos + render_board(v).len() <= s.len(),
        s.subrange(pos, pos + render_board(v).len()) == render_board(v),
    ensures
        parse_board_at(s, pos) == Option::Some((v, pos + render_board(v).len())),
{
    let a0 = render_u32(v.id);
    let a1 = render_u32(v.space_id);
    let a2 = render_str(v.title);
    let a3 = render_opt_vec_column(v.columns);
    let a4 = render_opt_vec_lane(v.lanes);
    assert((render_board(v)) =~= a0 + (a1 + a2 + a3 + a4));
    assert(s.subrange(pos, pos + a0.len() + (a1 + a2 + a3 + a4).len()) == a0 + (a1 + a2 + a3 + a4));
    lemma_split_concat(s, pos, a0, (a1 + a2 + a3 + a4));
    lemma_parse_u32_render(s, pos, v.id);
    assert((a1 + a2 + a3 + a4) =~= a1 + (a2 + a3 + a4));
    assert(s.subrange(pos + a0.len(), pos + a0.len() + a1.len() + (a2 + a3 + a4).len()) == a1 + (a2 + a3 + a4));
    lemma_split_concat(s, pos + a0.len(), a1, (a2 + a3 + a4));
    lemma_parse_u32_render(s, pos + a0.len(), v.space_id);
    assert((a2 + a3 + a4) =~= a2 + (a3 + a4));
    assert(s.subrange(pos + a0.len() + a1.len(), pos + a0.len() + a1.len() + a2.len() + (a3 + a4).len()) == a2 + (a3 + a4));
    lemma_split_concat(s, pos + a0.len() + a1.len(), a2, (a3 + a4));
    lemma_parse_str_render(s, pos + a0.len() + a1.len(), v.title);
    assert((a3 + a4) =~= a3 + (a4));
    assert(s.subrange(pos + a0.len() + a1.len() + a2.len(), pos + a0.len() + a1.len() + a2.len() + a3.len() + (a4).len()) == a3 + (a4));
    lemma_split_concat(s, pos + a0.len() + a1.len() + a2.len(), a3, (a4));
    lemma_parse_opt_vec_column_render(s, pos + a0.len() + a1.len() + a2.len(), v.columns);
    lemma_parse_opt_vec_lane_render(s, pos + a0.len() + a1.len() + a2.len() + a3.len(), v.lanes);
    assert(v == (BoardV { id: v.id, space_id: v.space_id, title: v.title, columns: v.columns, lanes: v.lanes }));
}

pub fn write_board(out: &mut String, v: &Board)
    ensures
        final(out)@ == old(out)@ + render_board(v.deep_view()),
{
    write_u32(out, v.get_id());
    write_u32(out, v.get_space_id());
    write_str(out, v.get_title());
    write_opt_vec_column(out, v.borrow_columns());
    write_opt_vec_lane(out, v.borrow_lanes());
    proof {
        assert(out@ =~= old(out)@ + render_board(v.deep_view()));
    }
}

pub fn parse_board(s: &str, pos: usize) -> (r: Option<(Board, usize)>)
    requires
        pos <= s@.len(),
    ensures
        match r {
            Option::Some((v, p)) => ({
                &&& parse_board_at(s@, pos as int) == Option::Some((v.deep_view(), p as int))
                &&& pos <= p <= s@.len()
            }),
            Option::None => parse_board_at(s@, pos as int) is None,
        },
{
    match parse_u32(s, pos) {
        Option::None => Option::None,
        Option::Some((x0, q0)) => match parse_u32(s, q0) {
        Option::None => Option::None,
        Option::Some((x1, q1)) => match parse_str(s, q1) {
        Option::None => Option::None,
        Option::Some((x2, q2)) => match parse_opt_vec_column(s, q2) {
        Option::None => Option::None,
        Option::Some((x3, q3)) => match parse_opt_vec_lane(s, q3) {
        Option::None => Option::None,
        Option::Some((x4, q4)) => {
                let built = Board::from_parts(x0, x1, x2, x3, x4);
                Option::Some((built, q4))
            },
    },
    },
    },
    },
    }
}

/// The file form of a list: its length, then the items.
pub open spec fn render_board_items(items: Seq<BoardV>) -> Seq<char>
    decreases items.len(),
{
    if items.len() == 0 {
        Seq::empty()
    } else {
        render_board(items.first()) + render_board_items(items.drop_first())
    }
}

pub open spec fn render_vec_board(items: Seq<BoardV>) -> Seq<char> {
    render_u64(items.len() as u64) + render_board_items(items)
}

pub open spec fn vec_board_ok(items: Seq<BoardV>) -> bool {
    items.len() <= u64::MAX && (forall|i: int| #![trigger items[i]] 0 <= i < items.len() ==> board_ok(items[i]))
}

pub open spec fn parse_board_items_at(s: Seq<char>, pos: int, count: int) -> Option<
    (Seq<BoardV>, int),
>
    decreases count,
{
    if count <= 0 {
        Option::Some((Seq::empty(), pos))
    } else {
        match parse_board_at(s, pos) {
            Option::Some((x, p)) => match parse_board_items_at(s, p, count - 1) {
                Option::Some((rest, p2)) => Option::Some((seq![x] + rest, p2)),
                Option::None => Option::None,
            },
            Option::None => Option::None,
        }
    }
}

pub open spec fn parse_vec_board_at(s: Seq<char>, pos: int) -> Option<(Seq<BoardV>, int)> {
    match parse_u64_at(s, pos) {
        Option::Some((cnt, p)) => parse_board_items_at(s, p, cnt as int),
        Option::None => Option::None,
    }
}

proof fn lemma_parse_board_items_render(s: Seq<char>, pos: int, items: Seq<BoardV>)
    requires
        0 <= pos,
        forall|i: int| #![trigger items[i]] 0 <= i < items.len() ==> board_ok(items[i]),
        pos + render_board_items(items).len() <= s.len(),
        s.subrange(pos, pos + render_board_items(items).len()) == render_board_items(items),
    ensures
        parse_board_items_at(s, pos, items.len() as int) == Option::Some(
            (items, pos + render_board_items(items).len()),
        ),
    decreases items.len(),
{
    if items.len() == 0 {
        assert(items =~= Seq::<BoardV>::empty());
    } else {
        let a = render_board(items.first());
        let b = render_board_items(items.drop_first());
        assert(render_board_items(items) == a + b);
        lemma_split_concat(s, pos, a, b);
        assert(items[0] == items.first());
        assert(board_ok(items.first()));
        lemma_parse_board_render(s, pos, items.first());
        let rest = items.drop_first();
        assert forall|i: int| #![trigger rest[i]] 0 <= i < rest.len() implies board_ok(rest[i]) by {
            assert(rest[i] == items[i + 1]);
        }
        lemma_parse_board_items_render(s, pos + a.len(), rest);
        assert(seq![items.first()] + rest =~= items);
    }
}

pub proof fn lemma_parse_vec_board_render(s: Seq<char>, pos: int, items: Seq<BoardV>)
    requires
        0 <= pos,
        vec_board_ok(items),
        pos + render_vec_board(items).len() <= s.len(),
        s.subrange(pos, pos + render_vec_board(items).len()) == render_vec_board(items),
    ensures
        parse_vec_board_at(s, pos) == Option::Some((items, pos + render_vec_board(items).len())),
{
    let a = render_u64(items.len() as u64);
    let b = render_board_items(items);
    assert(render_vec_board(items) == a + b);
    lemma_split_concat(s, pos, a, b);
    lemma_parse_u64_render(s, pos, items.len() as u64);
    lemma_parse_board_items_render(s, pos + a.len(), items);
}

fn write_board_items(out: &mut String, items: &Vec<Board>)
    ensures
        final(out)@ == old(out)@ + render_board_items(items.deep_view()),
{
    let ghost itemsv = items.deep_view();
    let mut i: usize = 0;
    proof {
        assert(itemsv.skip(0) =~= itemsv);
    }
    while i < items.len()
        invariant
            i <= items.len(),
            itemsv == items.deep_view(),
            itemsv.len() == items@.len(),
            out@ + render_board_items(itemsv.skip(i as int)) == old(out)@ + render_board_items(
                itemsv,
            ),
        decreases items.len() - i,
    {
        let ghost out0 = out@;
        write_board(out, &items[i]);
        proof {
            let rem = itemsv.skip(i as int);
            assert(rem.first() == itemsv[i as int]);
            assert(rem.drop_first() =~= itemsv.skip(i as int + 1));
            assert(render_board_items(rem) == render_board(rem.first()) + render_board_items(
                rem.drop_first(),
            ));
            assert(out@ + render_board_items(itemsv.skip(i as int + 1)) =~= out0
                + render_board_items(rem));
        }
        i = i + 1;
    }
    proof {
        assert(itemsv.skip(i as int) =~= Seq::<BoardV>::empty());
        assert(render_board_items(itemsv.skip(i as int)) =~= Seq::<char>::empty());
        assert(out@ =~= old(out)@ + render_board_items(itemsv));
    }
}

pub fn write_vec_board(out: &mut String, items: &Vec<Board>)
    ensures
        final(out)@ == old(out)@ + render_vec_board(items.deep_view()),
{
    proof {
        assert(items.deep_view().len() == items@.len());
    }
    write_u64(out, items.len() as u64);
    write_board_items(out, items);
    proof {
        assert(out@ =~= old(out)@ + render_vec_board(items.deep_view()));
    }
}

fn parse_board_items(s: &str, pos: usize, count: u64) -> (r: Option<(Vec<Board>, usize)>)
    requires
        pos <= s@.len(),
    ensures
        match r {
            Option::Some((v, p)) => ({
                &&& parse_board_items_at(s@, pos as int, count as int) == Option::Some(
                    (v.deep_view(), p as int),
                )
                &&& pos <= p <= s@.len()
            }),
            Option::None => parse_board_items_at(s@, pos as int, count as int) is None,
        },
{
    let mut acc: Vec<Board> = Vec::new();
    let mut cur: usize = pos;
    let mut rem: u64 = count;
    proof {
        assert(acc.deep_view() =~= Seq::<BoardV>::empty());
        let t = parse_board_items_at(s@, pos as int, count as int);
        if t is Some {
            let t0 = t->0;
            assert(acc.deep_view() + t0.0 =~= t0.0);
        }
    }
    loop
        invariant
            pos <= cur <= s@.len(),
            rem <= count,
            parse_board_items_at(s@, pos as int, count as int) == (match parse_board_items_at(
                s@,
                cur as int,
                rem as int,
            ) {
                Option::Some((rest, p)) => Option::Some((acc.deep_view() + rest, p)),
                Option::None => Option::None,
            }),
        ensures
            rem == 0,
            pos <= cur <= s@.len(),
            parse_board_items_at(s@, pos as int, count as int) == Option::Some(
                (acc.deep_view(), cur as int),
            ),
        decreases rem,
    {
        if rem == 0 {
            proof {
                assert(acc.deep_view() + Seq::<BoardV>::empty() =~= acc.deep_view());
            }
            break ;
        }
        match parse_board(s, cur) {
            Option::Some((x, p)) => {
                let ghost accv = acc.deep_view();
                let ghost xv = x.deep_view();
                acc.push(x);
                proof {
                    assert(acc.deep_view() =~= accv.push(xv));
                    let t = parse_board_items_at(s@, p as int, rem as int - 1);
                    if t is Some {
                        let t0 = t->0;
                        assert(accv + (seq![xv] + t0.0) =~= accv.push(xv) + t0.0);
                    }
                }
                cur = p;
                rem = rem - 1;
            },
            Option::None => {
                return Option::None;
            },
        }
    }
    Option::Some((acc, cur))
}

pub fn parse_vec_board(s: &str, pos: usize) -> (r: Option<(Vec<Board>, usize)>)
    requires
        pos <= s@.len(),
    ensures
        match r {
            Option::Some((v, p)) => ({
                &&& parse_vec_board_at(s@, pos as int) == Option::Some((v.deep_view(), p as int))
                &&& pos <= p <= s@.len()
            }),
            Option::None => parse_vec_board_at(s@, pos as int) is None,
        },
{
    match parse_u64(s, pos) {
        Option::Some((cnt, p)) => parse_board_items(s, p, cnt),
        Option::None => Option::None,
    }
}

/// An optional value: a presence token, then the value where present.
pub open spec fn render_opt_vec_board(v: Option<Seq<BoardV>>) -> Seq<char> {
    match v {
        Option::Some(x) => render_bool(true) + render_vec_board(x),
        Option::None => render_bool(false),
    }
}

pub open spec fn opt_vec_board_ok(v: Option<Seq<BoardV>>) -> bool {
    match v {
        Option::Some(x) => vec_board_ok(x),
        Option::None => true,
    }
}

pub open spec fn parse_opt_vec_board_at(s: Seq<char>, pos: int) -> Option<(Option<Seq<BoardV>>, int)> {
    match parse_bool_at(s, pos) {
        Option::Some((tag, p)) => if tag {
            match parse_vec_board_at(s, p) {
                Option::Some((x, p2)) => Option::Some((Option::Some(x), p2)),
                Option::None => Option::None,
            }
        } else {
            Option::Some((Option::None, p))
        },
        Option::None => Option::None,
    }
}

pub proof fn lemma_parse_opt_vec_board_render(s: Seq<char>, pos: int, v: Option<Seq<BoardV>>)
    requires
        0 <= pos,
        opt_vec_board_ok(v),
        pos + render_opt_vec_board(v).len() <= s.len(),
        s.subrange(pos, pos + render_opt_vec_board(v).len()) == render_opt_vec_board(v),
    ensures
        parse_opt_vec_board_at(s, pos) == Option::Some((v, pos + render_opt_vec_board(v).len())),
{
    match v {
        Option::Some(x) => {
            let a = render_bool(true);
            let b = render_vec_board(x);
            assert(render_opt_vec_board(v) == a + b);
            lemma_split_concat(s, pos, a, b);
            lemma_parse_bool_render(s, pos, true);
            lemma_parse_vec_board_render(s, pos + a.len(), x);
        },
        Option::None => {
            lemma_parse_bool_render(s, pos, false);
        },
    }
}

pub fn write_opt_vec_board(out: &mut String, v: &Option<Vec<Board>>)
    ensures
        final(out)@ == old(out)@ + render_opt_vec_board(v.deep_view()),
{
    match v {
        Option::Some(x) => {
            write_bool(out, true);
            write_vec_board(out, x);
            proof {
                assert(v.deep_view() == Option::Some(x.deep_view()));
            }
            proof {
                assert(out@ =~= old(out)@ + render_opt_vec_board(v.deep_view()));
            }
        },
        Option::None => {
            write_bool(out, false);
        },
    }
}

pub fn parse_opt_vec_board(s: &str, pos: usize) -> (r: Option<(Option<Vec<Board>>, usize)>)
    requires
        pos <= s@.len(),
    ensures
        match r {
            Option::Some((v, p)) => ({
                &&& parse_opt_vec_board_at(s@, pos as int) == Option::Some((v.deep_view(), p as int))
                &&& pos <= p <= s@.len()
            }),
            Option::None => parse_opt_vec_board_at(s@, pos as int) is None,
        },
{
    match parse_bool(s, pos) {
        Option::Some((tag, p)) => {
            if tag {
                match parse_vec_board(s, p) {
                    Option::Some((x, p2)) => Option::Some((Option::Some(x), p2)),
                    Option::None => Option::None,
                }
            } else {
                Option::Some((Option::None, p))
            }
        },
        Option::None => Option::None,
    }
}

/// The file form of a list: its length, then the items.
pub open spec fn render_user_items(items: Seq<UserV>) -> Seq<char>
    decreases items.len(),
{
    if items.len() == 0 {
        Seq::empty()
    } else {
        render_user(items.first()) + render_user_items(items.drop_first())
    }
}

pub open spec fn render_vec_user(items: Seq<UserV>) -> Seq<char> {
    render_u64(items.len() as u64) + render_user_items(items)
}

pub open spec fn vec_user_ok(items: Seq<UserV>) -> bool {
    items.len() <= u64::MAX && (forall|i: int| #![trigger items[i]] 0 <= i < items.len() ==> user_ok(items[i]))
}

pub open spec fn parse_user_items_at(s: Seq<char>, pos: int, count: int) -> Option<
    (Seq<UserV>, int),
>
    decreases count,
{
    if count <= 0 {
        Option::Some((Seq::empty(), pos))
    } else {
        match parse_user_at(s, pos) {
            Option::Some((x, p)) => match parse_user_items_at(s, p, count - 1) {
                Option::Some((rest, p2)) => Option::Some((seq![x] + rest, p2)),
                Option::None => Option::None,
            },
            Option::None => Option::None,
        }
    }
}

pub open spec fn parse_vec_user_at(s: Seq<char>, pos: int) -> Option<(Seq<UserV>, int)> {
    match parse_u64_at(s, pos) {
        Option::Some((cnt, p)) => parse_user_items_at(s, p, cnt as int),
        Option::None => Option::None,
    }
}

proof fn lemma_parse_user_items_render(s: Seq<char>, pos: int, items: Seq<UserV>)
    requires
        0 <= pos,
        forall|i: int| #![trigger items[i]] 0 <= i < items.len() ==> user_ok(items[i]),
        pos + render_user_items(items).len() <= s.len(),
        s.subrange(pos, pos + render_user_items(items).len()) == render_user_items(items),
    ensures
        parse_user_items_at(s, pos, items.len() as int) == Option::Some(
            (items, pos + render_user_items(items).len()),
        ),
    decreases items.len(),
{
    if items.len() == 0 {
        assert(items =~= Seq::<UserV>::empty());
    } else {
        let a = render_user(items.first());
        let b = render_user_items(items.drop_first());
        assert(render_user_items(items) == a + b);
        lemma_split_concat(s, pos, a, b);
        assert(items[0] == items.first());
        assert(user_ok(items.first()));
        lemma_parse_user_render(s, pos, items.first());
        let rest = items.drop_first();
        assert forall|i: int| #![trigger rest[i]] 0 <= i < rest.len() implies user_ok(rest[i]) by {
            assert(rest[i] == items[i + 1]);
        }
        lemma_parse_user_items_render(s, pos + a.len(), rest);
        assert(seq![items.first()] + rest =~= items);
    }
}

pub proof fn lemma_parse_vec_user_render(s: Seq<char>, pos: int, items: Seq<UserV>)
    requires
        0 <= pos,
        vec_user_ok(items),
        pos + render_vec_user(items).len() <= s.len(),
        s.subrange(pos, pos + render_vec_user(items).len()) == render_vec_user(items),
    ensures
        parse_vec_user_at(s, pos) == Option::Some((items, pos + render_vec_user(items).len())),
{
    let a = render_u64(items.len() as u64);
    let b = render_user_items(items);
    assert(render_vec_user(items) == a + b);
    lemma_split_concat(s, pos, a, b);
    lemma_parse_u64_render(s, pos, items.len() as u64);
    lemma_parse_user_items_render(s, pos + a.len(), items);
}

fn write_user_items(out: &mut String, items: &Vec<User>)
    ensures
        final(out)@ == old(out)@ + render_user_items(items.deep_view()),
{
    let ghost itemsv = items.deep_view();
    let mut i: usize = 0;
    proof {
        assert(itemsv.skip(0) =~= itemsv);
    }
    while i < items.len()
        invariant
            i <= items.len(),
            itemsv == items.deep_view(),
            itemsv.len() == items@.len(),
            out@ + render_user_items(itemsv.skip(i as int)) == old(out)@ + render_user_items(
                itemsv,
            ),
        decreases items.len() - i,
    {
        let ghost out0 = out@;
        write_user(out, &items[i]);
        proof {
            let rem = itemsv.skip(i as int);
            assert(rem.first() == itemsv[i as int]);
            assert(rem.drop_first() =~= itemsv.skip(i as int + 1));
            assert(render_user_items(rem) == render_user(rem.first()) + render_user_items(
                rem.drop_first(),
            ));
            assert(out@ + render_user_items(itemsv.skip(i as int + 1)) =~= out0
                + render_user_items(rem));
        }
        i = i + 1;
    }
    proof {
        assert(itemsv.skip(i as int) =~= Seq::<UserV>::empty());
        assert(render_user_items(itemsv.skip(i as int)) =~= Seq::<char>::empty());
        assert(out@ =~= old(out)@ + render_user_items(itemsv));
    }
}

pub fn write_vec_user(out: &mut String, items: &Vec<User>)
    ensures
        final(out)@ == old(out)@ + render_vec_user(items.deep_view()),
{
    proof {
        assert(items.deep_view().len() == items@.len());
    }
    write_u64(out, items.len() as u64);
    write_user_items(out, items);
    proof {
        assert(out@ =~= old(out)@ + render_vec_user(items.deep_view()));
    }
}

fn parse_user_items(s: &str, pos: usize, count: u64) -> (r: Option<(Vec<User>, usize)>)
    requires
        pos <= s@.len(),
    ensures
        match r {
            Option::Some((v, p)) => ({
                &&& parse_user_items_at(s@, pos as int, count as int) == Option::Some(
                    (v.deep_view(), p as int),
                )
                &&& pos <= p <= s@.len()
            }),
            Option::None => parse_user_items_at(s@, pos as int, count as int) is None,
        },
{
    let mut acc: Vec<User> = Vec::new();
    let mut cur: usize = pos;
    let mut rem: u64 = count;
    proof {
        assert(acc.deep_view() =~= Seq::<UserV>::empty());
        let t = parse_user_items_at(s@, pos as int, count as int);
        if t is Some {
            let t0 = t->0;
            assert(acc.deep_view() + t0.0 =~= t0.0);
        }
    }
    loop
        invariant
            pos <= cur <= s@.len(),
            rem <= count,
            parse_user_items_at(s@, pos as int, count as int) == (match parse_user_items_at(
                s@,
                cur as int,
                rem as int,
            ) {
                Option::Some((rest, p)) => Option::Some((acc.deep_view() + rest, p)),
                Option::None => Option::None,
            }),
        ensures
            rem == 0,
            pos <= cur <= s@.len(),
            parse_user_items_at(s@, pos as int, count as int) == Option::Some(
                (acc.deep_view(), cur as int),
            ),
        decreases rem,
    {
        if rem == 0 {
            proof {
                assert(acc.deep_view() + Seq::<UserV>::empty() =~= acc.deep_view());
            }
            break ;
        }
        match parse_user(s, cur) {
            Option::Some((x, p)) => {
                let ghost accv = acc.deep_view();
                let ghost xv = x.deep_view();
                acc.push(x);
                proof {
                    assert(acc.deep_view() =~= accv.push(xv));
                    let t = parse_user_items_at(s@, p as int, rem as int - 1);
                    if t is Some {
                        let t0 = t->0;
                        assert(accv + (seq![xv] + t0.0) =~= accv.push(xv) + t0.0);
                    }
                }
                cur = p;
                rem = rem - 1;
            },
            Option::None => {
                return Option::None;
            },
        }
    }
    Option::Some((acc, cur))
}

pub fn parse_vec_user(s: &str, pos: usize) -> (r: Option<(Vec<User>, usize)>)
    requires
        pos <= s@.len(),
    ensures
        match r {
            Option::Some((v, p)) => ({
                &&& parse_vec_user_at(s@, pos as int) == Option::Some((v.deep_view(), p as int))
                &&& pos <= p <= s@.len()
            }),
            Option::None => parse_vec_user_at(s@, pos as int) is None,
        },
{
    match parse_u64(s, pos) {
        Option::Some((cnt, p)) => parse_user_items(s, p, cnt),
        Option::None => Option::None,
    }
}

/// An optional value: a presence token, then the value where present.
pub open spec fn render_opt_vec_user(v: Option<Seq<UserV>>) -> Seq<char> {
    match v {
        Option::Some(x) => render_bool(true) + render_vec_user(x),
        Option::None => render_bool(false),
    }
}

pub open spec fn opt_vec_user_ok(v: Option<Seq<UserV>>) -> bool {
    match v {
        Option::Some(x) => vec_user_ok(x),
        Option::None => true,
    }
}

pub open spec fn parse_opt_vec_user_at(s: Seq<char>, pos: int) -> Option<(Option<Seq<UserV>>, int)> {
    match parse_bool_at(s, pos) {
        Option::Some((tag, p)) => if tag {
            match parse_vec_user_at(s, p) {
                Option::Some((x, p2)) => Option::Some((Option::Some(x), p2)),
                Option::None => Option::None,
            }
        } else {
            Option::Some((Option::None, p))
        },
        Option::None => Option::None,
    }
}

pub proof fn lemma_parse_opt_vec_user_render(s: Seq<char>, pos: int, v: Option<Seq<UserV>>)
    requires
        0 <= pos,
        opt_vec_user_ok(v),
        pos + render_opt_vec_user(v).len() <= s.len(),
        s.subrange(pos, pos + render_opt_vec_user(v).len()) == render_opt_vec_user(v),
    ensures
        parse_opt_vec_user_at(s, pos) == Option::Some((v, pos + render_opt_vec_user(v).len())),
{
    match v {
        Option::Some(x) => {
            let a = render_bool(true);
            let b = render_vec_user(x);
            assert(render_opt_vec_user(v) == a + b);
            lemma_split_concat(s, pos, a, b);
            lemma_parse_bool_render(s, pos, true);
            lemma_parse_vec_user_render(s, pos + a.len(), x);
        },
        Option::None => {
            lemma_parse_bool_render(s, pos, false);
        },
    }
}

pub fn write_opt_vec_user(out: &mut String, v: &Option<Vec<User>>)
    ensures
        final(out)@ == old(out)@ + render_opt_vec_user(v.deep_view()),
{
    match v {
        Option::Some(x) => {
            write_bool(out, true);
            write_vec_user(out, x);
            proof {
                assert(v.deep_view() == Option::Some(x.deep_view()));
            }
            proof {
                assert(out@ =~= old(out)@ + render_opt_vec_user(v.deep_view()));
            }
        },
        Option::None => {
            write_bool(out, false);
        },
    }
}

pub fn parse_opt_vec_user(s: &str, pos: usize) -> (r: Option<(Option<Vec<User>>, usize)>)
    requires
        pos <= s@.len(),
    ensures
        match r {
            Option::Some((v, p)) => ({
                &&& parse_opt_vec_user_at(s@, pos as int) == Option::Some((v.deep_view(), p as int))
                &&& pos <= p <= s@.len()
            }),
            Option::None => parse_opt_vec_user_at(s@, pos as int) is None,
        },
{
    match parse_bool(s, pos) {
        Option::Some((tag, p)) => {
            if tag {
                match parse_vec_user(s, p) {
                    Option::Some((x, p2)) => Option::Some((Option::Some(x), p2)),
                    Option::None => Option::None,
                }
            } else {
                Option::Some((Option::None, p))
            }
        },
        Option::None => Option::None,
    }
}

/// The file form of a space.
pub open spec fn render_space(v: SpaceV) -> Seq<char> {
    render_u32(v.id) + render_str(v.title) + render_opt_vec_board(v.boards) + render_opt_vec_user(v.users)
}

pub open spec fn space_ok(v: SpaceV) -> bool {
    &&& str_ok(v.title)
    &&& opt_vec_board_ok(v.boards)
    &&& opt_vec_user_ok(v.users)
}

pub open spec fn parse_space_at(s: Seq<char>, pos: int) -> Option<(SpaceV, int)> {
    match parse_u32_at(s, pos) {
        Option::None => Option::None,
        Option::Some((f0, p0)) => match parse_str_at(s, p0) {
        Option::None => Option::None,
        Option::Some((f1, p1)) => match parse_opt_vec_board_at(s, p1) {
        Option::None => Option::None,
        Option::Some((f2, p2)) => match parse_opt_vec_user_at(s, p2) {
        Option::None => Option::None,
        Option::Some((f3, p3)) => Option::Some(((SpaceV { id: f0, title: f1, boards: f2, users: f3 }), p3)),
    },
    },
    },
    }
}

#[verifier::rlimit(100)]
pub proof fn lemma_parse_space_render(s: Seq<char>, pos: int, v: SpaceV)
    requires
        0 <= pos,
        space_ok(v),
        pos + render_space(v).len() <= s.len(),
        s.subrange(pos, pos + render_space(v).len()) == render_space(v),
    ensures
        parse_space_at(s, pos) == Option::Some((v, pos + render_space(v).len())),
{
    let a0 = render_u32(v.id);
    let a1 = render_str(v.title);
    let a2 = render_opt_vec_board(v.boards);
    let a3 = render_opt_vec_user(v.users);
    assert((render_space(v)) =~= a0 + (a1 + a2 + a3));
    assert(s.subrange(pos, pos + a0.len() + (a1 + a2 + a3).len()) == a0 + (a1 + a2 + a3));
    lemma_split_concat(s, pos, a0, (a1 + a2 + a3));
    lemma_parse_u32_render(s, pos, v.id);
    assert((a1 + a2 + a3) =~= a1 + (a2 + a3));
    assert(s.subrange(pos + a0.len(), pos + a0.len() + a1.len() + (a2 + a3).len()) == a1 + (a2 + a3));
    lemma_split_concat(s, pos + a0.len(), a1, (a2 + a3));
    lemma_parse_str_render(s, pos + a0.len(), v.title);
    assert((a2 + a3) =~= a2 + (a3));
    assert(s.subrange(pos + a0.len() + a1.len(), pos + a0.len() + a1.len() + a2.len() + (a3).len()) == a2 + (a3));
    lemma_split_concat(s, pos + a0.len() + a1.len(), a2, (a3));
    lemma_parse_opt_vec_board_render(s, pos + a0.len() + a1.len(), v.boards);
    lemma_parse_opt_vec_user_render(s, pos + a0.len() + a1.len() + a2.len(), v.users);
    assert(v == (SpaceV { id: v.id, title: v.title, boards: v.boards, users: v.users }));
}

pub fn write_space(out: &mut String, v: &Space)
    ensures
        final(out)@ == old(out)@ + render_space(v.deep_view()),
{
    write_u32(out, v.get_id());
    write_str(out, v.get_title());
    write_opt_vec_board(out, v.borrow_boards());
    write_opt_vec_user(out, v.borrow_users());
    proof {
        assert(out@ =~= old(out)@ + render_space(v.deep_view()));
    }
}

pub fn parse_space(s: &str, pos: usize) -> (r: Option<(Space, usize)>)
    requires
        pos <= s@.len(),
    ensures
        match r {
            Option::Some((v, p)) => ({
                &&& parse_space_at(s@, pos as int) == Option::Some((v.deep_view(), p as int))
                &&& pos <= p <= s@.len()
            }),
            Option::None => parse_space_at(s@, pos as int) is None,
        },
{
    match parse_u32(s, pos) {
        Option::None => Option::None,
        Option::Some((x0, q0)) => match parse_str(s, q0) {
        Option::None => Option::None,
        Option::Some((x1, q1)) => match parse_opt_vec_board(s, q1) {
        Option::None => Option::None,
        Option::Some((x2, q2)) => match parse_opt_vec_user(s, q2) {
        Option::None => Option::None,
        Option::Some((x3, q3)) => {
                let built = Space::from_parts(x0, x1, x2, x3);
                Option::Some((built, q3))
            },
    },
    },
    },
    }
}

/// The file form of a list: its length, then the items.
pub open spec fn render_space_items(items: Seq<SpaceV>) -> Seq<char>
    decreases items.len(),
{
    if items.len() == 0 {
        Seq::empty()
    } else {
        render_space(items.first()) + render_space_items(items.drop_first())
    }
}

pub open spec fn render_vec_space(items: Seq<SpaceV>) -> Seq<char> {
    render_u64(items.len() as u64) + render_space_items(items)
}

pub open spec fn vec_space_ok(items: Seq<SpaceV>) -> bool {
    items.len() <= u64::MAX && (forall|i: int| #![trigger items[i]] 0 <= i < items.len() ==> space_ok(items[i]))
}

pub open spec fn parse_space_items_at(s: Seq<char>, pos: int, count: int) -> Option<
    (Seq<SpaceV>, int),
>
    decreases count,
{
    if count <= 0 {
        Option::Some((Seq::empty(), pos))
    } else {
        match parse_space_at(s, pos) {
            Option::Some((x, p)) => match parse_space_items_at(s, p, count - 1) {
                Option::Some((rest, p2)) => Option::Some((seq![x] + rest, p2)),
                Option::None => Option::None,
            },
            Option::None => Option::None,
        }
    }
}

pub open spec fn parse_vec_space_at(s: Seq<char>, pos: int) -> Option<(Seq<SpaceV>, int)> {
    match parse_u64_at(s, pos) {
        Option::Some((cnt, p)) => parse_space_items_at(s, p, cnt as int),
        Option::None => Option::None,
    }
}

proof fn lemma_parse_space_items_render(s: Seq<char>, pos: int, items: Seq<SpaceV>)
    requires
        0 <= pos,
        forall|i: int| #![trigger items[i]] 0 <= i < items.len() ==> space_ok(items[i]),
        pos + render_space_items(items).len() <= s.len(),
        s.subrange(pos, pos + render_space_items(items).len()) == render_space_items(items),
    ensures
        parse_space_items_at(s, pos, items.len() as int) == Option::Some(
            (items, pos + render_space_items(items).len()),
        ),
    decreases items.len(),
{
    if items.len() == 0 {
        assert(items =~= Seq::<SpaceV>::empty());
    } else {
        let a = render_space(items.first());
        let b = render_space_items(items.drop_first());
        assert(render_space_items(items) == a + b);
        lemma_split_concat(s, pos, a, b);
        assert(items[0] == items.first());
        assert(space_ok(items.first()));
        lemma_parse_space_render(s, pos, items.first());
        let rest = items.drop_first();
        assert forall|i: int| #![trigger rest[i]] 0 <= i < rest.len() implies space_ok(rest[i]) by {
            assert(rest[i] == items[i + 1]);
        }
        lemma_parse_space_items_render(s, pos + a.len(), rest);
        assert(seq![items.first()] + rest =~= items);
    }
}

pub proof fn lemma_parse_vec_space_render(s: Seq<char>, pos: int, items: Seq<SpaceV>)
    requires
        0 <= pos,
        vec_space_ok(items),
        pos + render_vec_space(items).len() <= s.len(),
        s.subrange(pos, pos + render_vec_space(items).len()) == render_vec_space(items),
    ensures
        parse_vec_space_at(s, pos) == Option::Some((items, pos + render_vec_space(items).len())),
{
    let a = render_u64(items.len() as u64);
    let b = render_space_items(items);
    assert(render_vec_space(items) == a + b);
    lemma_split_concat(s, pos, a, b);
    lemma_parse_u64_render(s, pos, items.len() as u64);
    lemma_parse_space_items_render(s, pos + a.len(), items);
}

fn write_space_items(out: &mut String, items: &Vec<Space>)
    ensures
        final(out)@ == old(out)@ + render_space_items(items.deep_view()),
{
    let ghost itemsv = items.deep_view();
    let mut i: usize = 0;
    proof {
        assert(itemsv.skip(0) =~= itemsv);
    }
    while i < items.len()
        invariant
            i <= items.len(),
            itemsv == items.deep_view(),
            itemsv.len() == items@.len(),
            out@ + render_space_items(itemsv.skip(i as int)) == old(out)@ + render_space_items(
                itemsv,
            ),
        decreases items.len() - i,
    {
        let ghost out0 = out@;
        write_space(out, &items[i]);
        proof {
            let rem = itemsv.skip(i as int);
            assert(rem.first() == itemsv[i as int]);
            assert(rem.drop_first() =~= itemsv.skip(i as int + 1));
            assert(render_space_items(rem) == render_space(rem.first()) + render_space_items(
                rem.drop_first(),
            ));
            assert(out@ + render_space_items(itemsv.skip(i as int + 1)) =~= out0
                + render_space_items(rem));
        }
        i = i + 1;
    }
    proof {
        assert(itemsv.skip(i as int) =~= Seq::<SpaceV>::empty());
        assert(render_space_items(itemsv.skip(i as int)) =~= Seq::<char>::empty());
        assert(out@ =~= old(out)@ + render_space_items(itemsv));
    }
}

pub fn write_vec_space(out: &mut String, items: &Vec<Space>)
    ensures
        final(out)@ == old(out)@ + render_vec_space(items.deep_view()),
{
    proof {
        assert(items.deep_view().len() == items@.len());
    }
    write_u64(out, items.len() as u64);
    write_space_items(out, items);
    proof {
        assert(out@ =~= old(out)@ + render_vec_space(items.deep_view()));
    }
}

fn parse_space_items(s: &str, pos: usize, count: u64) -> (r: Option<(Vec<Space>, usize)>)
    requires
        pos <= s@.len(),
    ensures
        match r {
            Option::Some((v, p)) => ({
                &&& parse_space_items_at(s@, pos as int, count as int) == Option::Some(
                    (v.deep_view(), p as int),
                )
                &&& pos <= p <= s@.len()
            }),
            Option::None => parse_space_items_at(s@, pos as int, count as int) is None,
        },
{
    let mut acc: Vec<Space> = Vec::new();
    let mut cur: usize = pos;
    let mut rem: u64 = count;
    proof {
        assert(acc.deep_view() =~= Seq::<SpaceV>::empty());
        let t = parse_space_items_at(s@, pos as int, count as int);
        if t is Some {
            let t0 = t->0;
            assert(acc.deep_view() + t0.0 =~= t0.0);
        }
    }
    loop
        invariant
            pos <= cur <= s@.len(),
            rem <= count,
            parse_space_items_at(s@, pos as int, count as int) == (match parse_space_items_at(
                s@,
                cur as int,
                rem as int,
            ) {
                Option::Some((rest, p)) => Option::Some((acc.deep_view() + rest, p)),
                Option::None => Option::None,
            }),
        ensures
            rem == 0,
            pos <= cur <= s@.len(),
            parse_space_items_at(s@, pos as int, count as int) == Option::Some(
                (acc.deep_view(), cur as int),
            ),
        decreases rem,
    {
        if rem == 0 {
            proof {
                assert(acc.deep_view() + Seq::<SpaceV>::empty() =~= acc.deep_view());
            }
            break ;
        }
        match parse_space(s, cur) {
            Option::Some((x, p)) => {
                let ghost accv = acc.deep_view();
                let ghost xv = x.deep_view();
                acc.push(x);
                proof {
                    assert(acc.deep_view() =~= accv.push(xv));
                    let t = parse_space_items_at(s@, p as int, rem as int - 1);
                    if t is Some {
                        let t0 = t->0;
                        assert(accv + (seq![xv] + t0.0) =~= accv.push(xv) + t0.0);
                    }
                }
                cur = p;
                rem = rem - 1;
            },
            Option::None => {
                return Option::None;
            },
        }
    }
    Option::Some((acc, cur))
}

pub fn parse_vec_space(s: &str, pos: usize) -> (r: Option<(Vec<Space>, usize)>)
    requires
        pos <= s@.len(),
    ensures
        match r {
            Option::Some((v, p)) => ({
                &&& parse_vec_space_at(s@, pos as int) == Option::Some((v.deep_view(), p as int))
                &&& pos <= p <= s@.len()
            }),
            Option::None => parse_vec_space_at(s@, pos as int) is None,
        },
{
    match parse_u64(s, pos) {
        Option::Some((cnt, p)) => parse_space_items(s, p, cnt),
        Option::None => Option::None,
    }
}

/// The file form of a list: its length, then the items.
pub open spec fn render_tag_items(items: Seq<TagV>) -> Seq<char>
    decreases items.len(),
{
    if items.len() == 0 {
        Seq::empty()
    } else {
        render_tag(items.first()) + render_tag_items(items.drop_first())
    }
}

pub open spec fn render_vec_tag(items: Seq<TagV>) -> Seq<char> {
    render_u64(items.len() as u64) + render_tag_items(items)
}

pub open spec fn vec_tag_ok(items: Seq<TagV>) -> bool {
    items.len() <= u64::MAX && (forall|i: int| #![trigger items[i]] 0 <= i < items.len() ==> tag_ok(items[i]))
}

pub open spec fn parse_tag_items_at(s: Seq<char>, pos: int, count: int) -> Option<
    (Seq<TagV>, int),
>
    decreases count,
{
    if count <= 0 {
        Option::Some((Seq::empty(), pos))
    } else {
        match parse_tag_at(s, pos) {
            Option::Some((x, p)) => match parse_tag_items_at(s, p, count - 1) {
                Option::Some((rest, p2)) => Option::Some((seq![x] + rest, p2)),
                Option::None => Option::None,
            },
            Option::None => Option::None,
        }
    }
}

pub open spec fn parse_vec_tag_at(s: Seq<char>, pos: int) -> Option<(Seq<TagV>, int)> {
    match parse_u64_at(s, pos) {
        Option::Some((cnt, p)) => parse_tag_items_at(s, p, cnt as int),
        Option::None => Option::None,
    }
}

proof fn lemma_parse_tag_items_render(s: Seq<char>, pos: int, items: Seq<TagV>)
    requires
        0 <= pos,
        forall|i: int| #![trigger items[i]] 0 <= i < items.len() ==> tag_ok(items[i]),
        pos + render_tag_items(items).len() <= s.len(),
        s.subrange(pos, pos + render_tag_items(items).len()) == render_tag_items(items),
    ensures
        parse_tag_items_at(s, pos, items.len() as int) == Option::Some(
            (items, pos + render_tag_items(items).len()),
        ),
    decreases items.len(),
{
    if items.len() == 0 {
        assert(items =~= Seq::<TagV>::empty());
    } else {
        let a = render_tag(items.first());
        let b = render_tag_items(items.drop_first());
        assert(render_tag_items(items) == a + b);
        lemma_split_concat(s, pos, a, b);
        assert(items[0] == items.first());
        assert(tag_ok(items.first()));
        lemma_parse_tag_render(s, pos, items.first());
        let rest = items.drop_first();
        assert forall|i: int| #![trigger rest[i]] 0 <= i < rest.len() implies tag_ok(rest[i]) by {
            assert(rest[i] == items[i + 1]);
        }
        lemma_parse_tag_items_render(s, pos + a.len(), rest);
        assert(seq![items.first()] + rest =~= items);
    }
}

pub proof fn lemma_parse_vec_tag_render(s: Seq<char>, pos: int, items: Seq<TagV>)
    requires
        0 <= pos,
        vec_tag_ok(items),
        pos + render_vec_tag(items).len() <= s.len(),
        s.subrange(pos, pos + render_vec_tag(items).len()) == render_vec_tag(items),
    ensures
        parse_vec_tag_at(s, pos) == Option::Some((items, pos + render_vec_tag(items).len())),
{
    let a = render_u64(items.len() as u64);
    let b = render_tag_items(items);
    assert(render_vec_tag(items) == a + b);
    lemma_split_concat(s, pos, a, b);
    lemma_parse_u64_render(s, pos, items.len() as u64);
    lemma_parse_tag_items_render(s, pos + a.len(), items);
}

fn write_tag_items(out: &mut String, items: &Vec<Tag>)
    ensures
        final(out)@ == old(out)@ + render_tag_items(items.deep_view()),
{
    let ghost itemsv = items.deep_view();
    let mut i: usize = 0;
    proof {
        assert(itemsv.skip(0) =~= itemsv);
    }
    while i < items.len()
        invariant
            i <= items.len(),
            itemsv == items.deep_view(),
            itemsv.len() == items@.len(),
            out@ + render_tag_items(itemsv.skip(i as int)) == old(out)@ + render_tag_items(
                itemsv,
            ),
        decreases items.len() - i,
    {
        let ghost out0 = out@;
        write_tag(out, &items[i]);
        proof {
            let rem = itemsv.skip(i as int);
            assert(rem.first() == itemsv[i as int]);
            assert(rem.drop_first() =~= itemsv.skip(i as int + 1));
            assert(render_tag_items(rem) == render_tag(rem.first()) + render_tag_items(
                rem.drop_first(),
            ));
            assert(out@ + render_tag_items(itemsv.skip(i as int + 1)) =~= out0
                + render_tag_items(rem));
        }
        i = i + 1;
    }
    proof {
        assert(itemsv.skip(i as int) =~= Seq::<TagV>::empty());
        assert(render_tag_items(itemsv.skip(i as int)) =~= Seq::<char>::empty());
        assert(out@ =~= old(out)@ + render_tag_items(itemsv));
    }
}

pub fn write_vec_tag(out: &mut String, items: &Vec<Tag>)
    ensures
        final(out)@ == old(out)@ + render_vec_tag(items.deep_view()),
{
    proof {
        assert(items.deep_view().len() == items@.len());
    }
    write_u64(out, items.len() as u64);
    write_tag_items(out, items);
    proof {
        assert(out@ =~= old(out)@ + render_vec_tag(items.deep_view()));
    }
}

fn parse_tag_items(s: &str, pos: usize, count: u64) -> (r: Option<(Vec<Tag>, usize)>)
    requires
        pos <= s@.len(),
    ensures
        match r {
            Option::Some((v, p)) => ({
                &&& parse_tag_items_at(s@, pos as int, count as int) == Option::Some(
                    (v.deep_view(), p as int),
                )
                &&& pos <= p <= s@.len()
            }),
            Option::None => parse_tag_items_at(s@, pos as int, count as int) is None,
        },
{
    let mut acc: Vec<Tag> = Vec::new();
    let mut cur: usize = pos;
    let mut rem: u64 = count;
    proof {
        assert(acc.deep_view() =~= Seq::<TagV>::empty());
        let t = parse_tag_items_at(s@, pos as int, count as int);
        if t is Some {
            let t0 = t->0;
            assert(acc.deep_view() + t0.0 =~= t0.0);
        }
    }
    loop
        invariant
            pos <= cur <= s@.len(),
            rem <= count,
            parse_tag_items_at(s@, pos as int, count as int) == (match parse_tag_items_at(
                s@,
                cur as int,
                rem as int,
            ) {
                Option::Some((rest, p)) => Option::Some((acc.deep_view() + rest, p)),
                Option::None => Option::None,
            }),
        ensures
            rem == 0,
            pos <= cur <= s@.len(),
            parse_tag_items_at(s@, pos as int, count as int) == Option::Some(
                (acc.deep_view(), cur as int),
            ),
        decreases rem,
    {
        if rem == 0 {
            proof {
                assert(acc.deep_view() + Seq::<TagV>::empty() =~= acc.deep_view());
            }
            break ;
        }
        match parse_tag(s, cur) {
            Option::Some((x, p)) => {
                let ghost accv = acc.deep_view();
                let ghost xv = x.deep_view();
                acc.push(x);
                proof {
                    assert(acc.deep_view() =~= accv.push(xv));
                    let t = parse_tag_items_at(s@, p as int, rem as int - 1);
                    if t is Some {
                        let t0 = t->0;
                        assert(accv + (seq![xv] + t0.0) =~= accv.push(xv) + t0.0);
                    }
                }
                cur = p;
                rem = rem - 1;
            },
            Option::None => {
                return Option::None;
            },
        }
    }
    Option::Some((acc, cur))
}

pub fn parse_vec_tag(s: &str, pos: usize) -> (r: Option<(Vec<Tag>, usize)>)
    requires
        pos <= s@.len(),
    ensures
        match r {
            Option::Some((v, p)) => ({
                &&& parse_vec_tag_at(s@, pos as int) == Option::Some((v.deep_view(), p as int))
                &&& pos <= p <= s@.len()
            }),
            Option::None => parse_vec_tag_at(s@, pos as int) is None,
        },
{
    match parse_u64(s, pos) {
        Option::Some((cnt, p)) => parse_tag_items(s, p, cnt),
        Option::None => Option::None,
    }
}

/// The file form of a list: its length, then the items.
pub open spec fn render_card_type_items(items: Seq<CardTypeV>) -> Seq<char>
    decreases items.len(),
{
    if items.len() == 0 {
        Seq::empty()
    } else {
        render_card_type(items.first()) + render_card_type_items(items.drop_first())
    }
}

pub open spec fn render_vec_card_type(items: Seq<CardTypeV>) -> Seq<char> {
    render_u64(items.len() as u64) + render_card_type_items(items)
}

pub open spec fn vec_card_type_ok(items: Seq<CardTypeV>) -> bool {
    items.len() <= u64::MAX && (forall|i: int| #![trigger items[i]] 0 <= i < items.len() ==> card_type_ok(items[i]))
}

pub open spec fn parse_card_type_items_at(s: Seq<char>, pos: int, count: int) -> Option<
    (Seq<CardTypeV>, int),
>
    decreases count,
{
    if count <= 0 {
        Option::Some((Seq::empty(), pos))
    } else {
        match parse_card_type_at(s, pos) {
            Option::Some((x, p)) => match parse_card_type_items_at(s, p, count - 1) {
                Option::Some((rest, p2)) => Option::Some((seq![x] + rest, p2)),
                Option::None => Option::None,
            },
            Option::None => Option::None,
        }
    }
}

pub open spec fn parse_vec_card_type_at(s: Seq<char>, pos: int) -> Option<(Seq<CardTypeV>, int)> {
    match parse_u64_at(s, pos) {
        Option::Some((cnt, p)) => parse_card_type_items_at(s, p, cnt as int),
        Option::None => Option::None,
    }
}

proof fn lemma_parse_card_type_items_render(s: Seq<char>, pos: int, items: Seq<CardTypeV>)
    requires
        0 <= pos,
        forall|i: int| #![trigger items[i]] 0 <= i < items.len() ==> card_type_ok(items[i]),
        pos + render_card_type_items(items).len() <= s.len(),
        s.subrange(pos, pos + render_card_type_items(items).len()) == render_card_type_items(items),
    ensures
        parse_card_type_items_at(s, pos, items.len() as int) == Option::Some(
            (items, pos + render_card_type_items(items).len()),
        ),
    decreases items.len(),
{
    if items.len() == 0 {
        assert(items =~= Seq::<CardTypeV>::empty());
    } else {
        let a = render_card_type(items.first());
        let b = render_card_type_items(items.drop_first());
        assert(render_card_type_items(items) == a + b);
        lemma_split_concat(s, pos, a, b);
        assert(items[0] == items.first());
        assert(card_type_ok(items.first()));
        lemma_parse_card_type_render(s, pos, items.first());
        let rest = items.drop_first();
        assert forall|i: int| #![trigger rest[i]] 0 <= i < rest.len() implies card_type_ok(rest[i]) by {
            assert(rest[i] == items[i + 1]);
        }
        lemma_parse_card_type_items_render(s, pos + a.len(), rest);
        assert(seq![items.first()] + rest =~= items);
    }
}

pub proof fn lemma_parse_vec_card_type_render(s: Seq<char>, pos: int, items: Seq<CardTypeV>)
    requires
        0 <= pos,
        vec_card_type_ok(items),
        pos + render_vec_card_type(items).len() <= s.len(),
        s.subrange(pos, pos + render_vec_card_type(items).len()) == render_vec_card_type(items),
    ensures
        parse_vec_card_type_at(s, pos) == Option::Some((items, pos + render_vec_card_type(items).len())),
{
    let a = render_u64(items.len() as u64);
    let b = render_card_type_items(items);
    assert(render_vec_card_type(items) == a + b);
    lemma_split_concat(s, pos, a, b);
    lemma_parse_u64_render(s, pos, items.len() as u64);
    lemma_parse_card_type_items_render(s, pos + a.len(), items);
}

fn write_card_type_items(out: &mut String, items: &Vec<CardType>)
    ensures
        final(out)@ == old(out)@ + render_card_type_items(items.deep_view()),
{
    let ghost itemsv = items.deep_view();
    let mut i: usize = 0;
    proof {
        assert(itemsv.skip(0) =~= itemsv);
    }
    while i < items.len()
        invariant
            i <= items.len(),
            itemsv == items.deep_view(),
            itemsv.len() == items@.len(),
            out@ + render_card_type_items(itemsv.skip(i as int)) == old(out)@ + render_card_type_items(
                itemsv,
            ),
        decreases items.len() - i,
    {
        let ghost out0 = out@;
        write_card_type(out, &items[i]);
        proof {
            let rem = itemsv.skip(i as int);
            assert(rem.first() == itemsv[i as int]);
            assert(rem.drop_first() =~= itemsv.skip(i as int + 1));
            assert(render_card_type_items(rem) == render_card_type(rem.first()) + render_card_type_items(
                rem.drop_first(),
            ));
            assert(out@ + render_card_type_items(itemsv.skip(i as int + 1)) =~= out0
                + render_card_type_items(rem));
        }
        i = i + 1;
    }
    proof {
        assert(itemsv.skip(i as int) =~= Seq::<CardTypeV>::empty());
        assert(render_card_type_items(itemsv.skip(i as int)) =~= Seq::<char>::empty());
        assert(out@ =~= old(out)@ + render_card_type_items(itemsv));
    }
}

pub fn write_vec_card_type(out: &mut String, items: &Vec<CardType>)
    ensures
        final(out)@ == old(out)@ + render_vec_card_type(items.deep_view()),
{
    proof {
        assert(items.deep_view().len() == items@.len());
    }
    write_u64(out, items.len() as u64);
    write_card_type_items(out, items);
    proof {
        assert(out@ =~= old(out)@ + render_vec_card_type(items.deep_view()));
    }
}

fn parse_card_type_items(s: &str, pos: usize, count: u64) -> (r: Option<(Vec<CardType>, usize)>)
    requires
        pos <= s@.len(),
    ensures
        match r {
            Option::Some((v, p)) => ({
                &&& parse_card_type_items_at(s@, pos as int, count as int) == Option::Some(
                    (v.deep_view(), p as int),
                )
                &&& pos <= p <= s@.len()
            }),
            Option::None => parse_card_type_items_at(s@, pos as int, count as int) is None,
        },
{
    let mut acc: Vec<CardType> = Vec::new();
    let mut cur: usize = pos;
    let mut rem: u64 = count;
    proof {
        assert(acc.deep_view() =~= Seq::<CardTypeV>::empty());
        let t = parse_card_type_items_at(s@, pos as int, count as int);
        if t is Some {
            let t0 = t->0;
            assert(acc.deep_view() + t0.0 =~= t0.0);
        }
    }
    loop
        invariant
            pos <= cur <= s@.len(),
            rem <= count,
            parse_card_type_items_at(s@, pos as int, count as int) == (match parse_card_type_items_at(
                s@,
                cur as int,
                rem as int,
            ) {
                Option::Some((rest, p)) => Option::Some((acc.deep_view() + rest, p)),
                Option::None => Option::None,
            }),
        ensures
            rem == 0,
            pos <= cur <= s@.len(),
            parse_card_type_items_at(s@, pos as int, count as int) == Option::Some(
                (acc.deep_view(), cur as int),
            ),
        decreases rem,
    {
        if rem == 0 {
            proof {
                assert(acc.deep_view() + Seq::<CardTypeV>::empty() =~= acc.deep_view());
            }
            break ;
        }
        match parse_card_type(s, cur) {
            Option::Some((x, p)) => {
                let ghost accv = acc.deep_view();
                let ghost xv = x.deep_view();
                acc.push(x);
                proof {
                    assert(acc.deep_view() =~= accv.push(xv));
                    let t = parse_card_type_items_at(s@, p as int, rem as int - 1);
                    if t is Some {
                        let t0 = t->0;
                        assert(accv + (seq![xv] + t0.0) =~= accv.push(xv) + t0.0);
                    }
                }
                cur = p;
                rem = rem - 1;
            },
            Option::None => {
                return Option::None;
            },
        }
    }
    Option::Some((acc, cur))
}

pub fn parse_vec_card_type(s: &str, pos: usize) -> (r: Option<(Vec<CardType>, usize)>)
    requires
        pos <= s@.len(),
    ensures
        match r {
            Option::Some((v, p)) => ({
                &&& parse_vec_card_type_at(s@, pos as int) == Option::Some((v.deep_view(), p as int))
                &&& pos <= p <= s@.len()
            }),
            Option::None => parse_vec_card_type_at(s@, pos as int) is None,
        },
{
    match parse_u64(s, pos) {
        Option::Some((cnt, p)) => parse_card_type_items(s, p, cnt),
        Option::None => Option::None,
    }
}

/// The file form of the whole snapshot.
pub open spec fn render_info(v: InfoV) -> Seq<char> {
    render_vec_space(v.spaces) + render_vec_board(v.boards) + render_vec_tag(v.tags) + render_vec_card_type(v.card_types)
}

pub open spec fn info_ok(v: InfoV) -> bool {
    &&& vec_space_ok(v.spaces)
    &&& vec_board_ok(v.boards)
    &&& vec_tag_ok(v.tags)
    &&& vec_card_type_ok(v.card_types)
}

pub open spec fn parse_info_at(s: Seq<char>, pos: int) -> Option<(InfoV, int)> {
    match parse_vec_space_at(s, pos) {
        Option::None => Option::None,
        Option::Some((f0, p0)) => match parse_vec_board_at(s, p0) {
        Option::None => Option::None,
        Option::Some((f1, p1)) => match parse_vec_tag_at(s, p1) {
        Option::None => Option::None,
        Option::Some((f2, p2)) => match parse_vec_card_type_at(s, p2) {
        Option::None => Option::None,
        Option::Some((f3, p3)) => Option::Some(((InfoV { spaces: f0, boards: f1, tags: f2, card_types: f3 }), p3)),
    },
    },
    },
    }
}

pub proof fn lemma_parse_info_render(s: Seq<char>, pos: int, v: InfoV)
    requires
        0 <= pos,
        info_ok(v),
        pos + render_info(v).len() <= s.len(),
        s.subrange(pos, pos + render_info(v).len()) == render_info(v),
    ensures
        parse_info_at(s, pos) == Option::Some((v, pos + render_info(v).len())),
{
    let a0 = render_vec_space(v.spaces);
    let a1 = render_vec_board(v.boards);
    let a2 = render_vec_tag(v.tags);
    let a3 = render_vec_card_type(v.card_types);
    assert((render_info(v)) =~= a0 + (a1 + a2 + a3));
    assert(s.subrange(pos, pos + a0.len() + (a1 + a2 + a3).len()) == a0 + (a1 + a2 + a3));
    lemma_split_concat(s, pos, a0, (a1 + a2 + a3));
    lemma_parse_vec_space_render(s, pos, v.spaces);
    assert((a1 + a2 + a3) =~= a1 + (a2 + a3));
    assert(s.subrange(pos + a0.len(), pos + a0.len() + a1.len() + (a2 + a3).len()) == a1 + (a2 + a3));
    lemma_split_concat(s, pos + a0.len(), a1, (a2 + a3));
    lemma_parse_vec_board_render(s, pos + a0.len(), v.boards);
    assert((a2 + a3) =~= a2 + (a3));
    assert(s.subrange(pos + a0.len() + a1.len(), pos + a0.len() + a1.len() + a2.len() + (a3).len()) == a2 + (a3));
    lemma_split_concat(s, pos + a0.len() + a1.len(), a2, (a3));
    lemma_parse_vec_tag_render(s, pos + a0.len() + a1.len(), v.tags);
    lemma_parse_vec_card_type_render(s, pos + a0.len() + a1.len() + a2.len(), v.card_types);
    assert(v == (InfoV { spaces: v.spaces, boards: v.boards, tags: v.tags, card_types: v.card_types }));
}

pub fn write_info(out: &mut String, v: &Info)
    ensures
        final(out)@ == old(out)@ + render_info(v.deep_view()),
{
    write_vec_space(out, v.borrow_spaces());
    write_vec_board(out, v.borrow_boards());
    write_vec_tag(out, v.get_tags());
    write_vec_card_type(out, v.get_card_types());
    proof {
        assert(out@ =~= old(out)@ + render_info(v.deep_view()));
    }
}

pub fn parse_info(s: &str, pos: usize) -> (r: Option<(Info, usize)>)
    requires
        pos <= s@.len(),
    ensures
        match r {
            Option::Some((v, p)) => ({
                &&& parse_info_at(s@, pos as int) == Option::Some((v.deep_view(), p as int))
                &&& pos <= p <= s@.len()
            }),
            Option::None => parse_info_at(s@, pos as int) is None,
        },
{
    match parse_vec_space(s, pos) {
        Option::None => Option::None,
        Option::Some((x0, q0)) => match parse_vec_board(s, q0) {
        Option::None => Option::None,
        Option::Some((x1, q1)) => match parse_vec_tag(s, q1) {
        Option::None => Option::None,
        Option::Some((x2, q2)) => match parse_vec_card_type(s, q2) {
        Option::None => Option::None,
        Option::Some((x3, q3)) => {
                let built = Info::from(x0, x1, x2, x3);
                Option::Some((built, q3))
            },
    },
    },
    },
    }
}

/// The file form of the config.
pub open spec fn render_config(v: ConfigV) -> Seq<char> {
    render_opt_u32(v.space_id) + render_opt_u32(v.board_id) + render_opt_str(v.exclude_board_ids) + render_opt_str(v.exclude_lane_ids) + render_opt_str(v.exclude_column_ids)
}

pub open spec fn config_ok(v: ConfigV) -> bool {
    &&& opt_str_ok(v.exclude_board_ids)
    &&& opt_str_ok(v.exclude_lane_ids)
    &&& opt_str_ok(v.exclude_column_ids)
}

pub open spec fn parse_config_at(s: Seq<char>, pos: int) -> Option<(ConfigV, int)> {
    match parse_opt_u32_at(s, pos) {
        Option::None => Option::None,
        Option::Some((f0, p0)) => match parse_opt_u32_at(s, p0) {
        Option::None => Option::None,
        Option::Some((f1, p1)) => match parse_opt_str_at(s, p1) {
        Option::None => Option::None,
        Option::Some((f2, p2)) => match parse_opt_str_at(s, p2) {
        Option::None => Option::None,
        Option::Some((f3, p3)) => match parse_opt_str_at(s, p3) {
        Option::None => Option::None,
        Option::Some((f4, p4)) => Option::Some(((ConfigV { space_id: f0, board_id: f1, exclude_board_ids: f2, exclude_lane_ids: f3, exclude_column_ids: f4 }), p4)),
    },
    },
    },
    },
    }
}

#[verifier::rlimit(100)]
pub proof fn lemma_parse_config_render(s: Seq<char>, pos: int, v: ConfigV)
    requires
        0 <= pos,
        config_ok(v),
        pos + render_config(v).len() <= s.len(),
        s.subrange(pos, pos + render_config(v).len()) == render_config(v),
    ensures
        parse_config_at(s, pos) == Option::Some((v, pos + render_config(v).len())),
{
    let a0 = render_opt_u32(v.space_id);
    let a1 = render_opt_u32(v.board_id);
    let a2 = render_opt_str(v.exclude_board_ids);
    let a3 = render_opt_str(v.exclude_lane_ids);
    let a4 = render_opt_str(v.exclude_column_ids);
    assert((render_config(v)) =~= a0 + (a1 + a2 + a3 + a4));
    assert(s.subrange(pos, pos + a0.len() + (a1 + a2 + a3 + a4).len()) == a0 + (a1 + a2 + a3 + a4));
    lemma_split_concat(s, pos, a0, (a1 + a2 + a3 + a4));
    lemma_parse_opt_u32_render(s, pos, v.space_id);
    assert((a1 + a2 + a3 + a4) =~= a1 + (a2 + a3 + a4));
    assert(s.subrange(pos + a0.len(), pos + a0.len() + a1.len() + (a2 + a3 + a4).len()) == a1 + (a2 + a3 + a4));
    lemma_split_concat(s, pos + a0.len(), a1, (a2 + a3 + a4));
    lemma_parse_opt_u32_render(s, pos + a0.len(), v.board_id);
    assert((a2 + a3 + a4) =~= a2 + (a3 + a4));
    assert(s.subrange(pos + a0.len() + a1.len(), pos + a0.len() + a1.len() + a2.len() + (a3 + a4).len()) == a2 + (a3 + a4));
    lemma_split_concat(s, pos + a0.len() + a1.len(), a2, (a3 + a4));
    lemma_parse_opt_str_render(s, pos + a0.len() + a1.len(), v.exclude_board_ids);
    assert((a3 + a4) =~= a3 + (a4));
    assert(s.subrange(pos + a0.len() + a1.len() + a2.len(), pos + a0.len() + a1.len() + a2.len() + a3.len() + (a4).len()) == a3 + (a4));
    lemma_split_concat(s, pos + a0.len() + a1.len() + a2.len(), a3, (a4));
    lemma_parse_opt_str_render(s, pos + a0.len() + a1.len() + a2.len(), v.exclude_lane_ids);
    lemma_parse_opt_str_render(s, pos + a0.len() + a1.len() + a2.len() + a3.len(), v.exclude_column_ids);
    assert(v == (ConfigV { space_id: v.space_id, board_id: v.board_id, exclude_board_ids: v.exclude_board_ids, exclude_lane_ids: v.exclude_lane_ids, exclude_column_ids: v.exclude_column_ids }));
}

pub fn write_config(out: &mut String, v: &Config)
    ensures
        final(out)@ == old(out)@ + render_config(v.deep_view()),
{
    write_opt_u32(out, v.get_space_id());
    write_opt_u32(out, v.get_board_id());
    write_opt_str(out, v.get_exclude_board_ids());
    write_opt_str(out, v.get_exclude_lane_ids());
    write_opt_str(out, v.get_exclude_column_ids());
    proof {
        assert(out@ =~= old(out)@ + render_config(v.deep_view()));
    }
}

pub fn parse_config(s: &str, pos: usize) -> (r: Option<(Config, usize)>)
    requires
        pos <= s@.len(),
    ensures
        match r {
            Option::Some((v, p)) => ({
                &&& parse_config_at(s@, pos as int) == Option::Some((v.deep_view(), p as int))
                &&& pos <= p <= s@.len()
            }),
            Option::None => parse_config_at(s@, pos as int) is None,
        },
{
    match parse_opt_u32(s, pos) {
        Option::None => Option::None,
        Option::Some((x0, q0)) => match parse_opt_u32(s, q0) {
        Option::None => Option::None,
        Option::Some((x1, q1)) => match parse_opt_str(s, q1) {
        Option::None => Option::None,
        Option::Some((x2, q2)) => match parse_opt_str(s, q2) {
        Option::None => Option::None,
        Option::Some((x3, q3)) => match parse_opt_str(s, q3) {
        Option::None => Option::None,
        Option::Some((x4, q4)) => {
                let built = Config::from_parts(x0, x1, x2, x3, x4);
                Option::Some((built, q4))
            },
    },
    },
    },
    },
    }
}

impl Info {
    /// The snapshot's file form.
    pub fn to_text(&self) -> (r: String)
        ensures
            r@ == render_info(self.deep_view()),
    {
        let mut out = String::new();
        write_info(&mut out, self);
        proof {
            assert(out@ =~= render_info(self.deep_view()));
        }
        out
    }

    /// The snapshot a file holds. The whole text must be exactly one
    /// snapshot record; anything else is a malformed cache file.
    pub fn from_text(s: &str) -> (r: Option<Info>)
        ensures
            match r {
                Option::Some(info) => parse_info_at(s@, 0) == Option::Some(
                    (info.deep_view(), s@.len() as int),
                ),
                Option::None => match parse_info_at(s@, 0) {
                    Option::Some((v, p)) => p != s@.len(),
                    Option::None => true,
                },
            },
    {
        let n = s.unicode_len();
        match parse_info(s, 0) {
            Option::Some((info, p)) => {
                if p == n {
                    Option::Some(info)
                } else {
                    Option::None
                }
            },
            Option::None => Option::None,
        }
    }
}

impl Config {
    /// The config's file form.
    pub fn to_text(&self) -> (r: String)
        ensures
            r@ == render_config(self.deep_view()),
    {
        let mut out = String::new();
        write_config(&mut out, self);
        proof {
            assert(out@ =~= render_config(self.deep_view()));
        }
        out
    }

    /// The config a file holds, under the same whole-text rule.
    pub fn from_text(s: &str) -> (r: Option<Config>)
        ensures
            match r {
                Option::Some(config) => parse_config_at(s@, 0) == Option::Some(
                    (config.deep_view(), s@.len() as int),
                ),
                Option::None => match parse_config_at(s@, 0) {
                    Option::Some((v, p)) => p != s@.len(),
                    Option::None => true,
                },
            },
    {
        let n = s.unicode_len();
        match parse_config(s, 0) {
            Option::Some((config, p)) => {
                if p == n {
                    Option::Some(config)
                } else {
                    Option::None
                }
            },
            Option::None => Option::None,
        }
    }
}

/// Reloading a written snapshot yields field-for-field the same spaces,
/// boards, tags and card types, and consumes the whole text.
pub proof fn lemma_snapshot_round_trip(info: InfoV)
    requires
        info_ok(info),
    ensures
        parse_info_at(render_info(info), 0) == Option::Some(
            (info, render_info(info).len() as int),
        ),
{
    let s = render_info(info);
    assert(s.subrange(0, s.len() as int) =~= s);
    lemma_parse_info_render(s, 0, info);
}

/// Reloading a written config yields field-for-field the same config.
pub proof fn lemma_config_round_trip(config: ConfigV)
    requires
        config_ok(config),
    ensures
        parse_config_at(render_config(config), 0) == Option::Some(
            (config, render_config(config).len() as int),
        ),
{
    let s = render_config(config);
    assert(s.subrange(0, s.len() as int) =~= s);
    lemma_parse_config_render(s, 0, config);
}

} // verus!
