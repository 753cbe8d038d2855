use vstd::prelude::*;

use crate::models::board::{duplicate_boards, Board, BoardV};
use crate::models::column::{Column, ColumnV};
use crate::models::common::concat_columns;
use crate::models::user::{User, UserV};

verus! {

/// A space: the top-level grouping of boards, with its own user list. The
/// board list is only carried while a snapshot is being built; the user list
/// is filled in from a separate fetch.
#[derive(Debug, PartialEq)]
pub struct Space {
    id: u32,
    title: String,
    boards: Option<Vec<Board>>,
    users: Option<Vec<User>>,
}

pub struct SpaceV {
    pub id: u32,
    pub title: Seq<char>,
    pub boards: Option<Seq<BoardV>>,
    pub users: Option<Seq<UserV>>,
}

impl SpaceV {
    /// The users this space exposes: its user list, or nothing when the list
    /// was never filled in.
    pub open spec fn spec_users(self) -> Seq<UserV> {
        match self.users {
            Option::Some(users) => users,
            Option::None => Seq::empty(),
        }
    }

    /// The ids of the boards this space references, in list order.
    pub open spec fn spec_board_ids(self) -> Seq<u32> {
        match self.boards {
            Option::Some(boards) => boards.map_values(|b: BoardV| b.id),
            Option::None => Seq::empty(),
        }
    }
}

impl DeepView for Space {
    type V = SpaceV;

    closed spec fn deep_view(&self) -> SpaceV {
        SpaceV {
            id: self.id,
            title: self.title.deep_view(),
            boards: self.boards.deep_view(),
            users: self.users.deep_view(),
        }
    }
}

/// A field-for-field copy of a list of users.
pub fn duplicate_users(v: &Vec<User>) -> (r: Vec<User>)
    ensures
        r.deep_view() == v.deep_view(),
{
    let mut out: Vec<User> = Vec::new();
    let mut i: usize = 0;
    while i < v.len()
        invariant
            i <= v.len(),
            out.deep_view() =~= v.deep_view().subrange(0, i as int),
        decreases v.len() - i,
    {
        let ghost out0 = out.deep_view();
        let d = v[i].duplicate();
        proof {
            assert(d.deep_view() == v.deep_view()[i as int]);
        }
        out.push(d);
        proof {
            assert(out.deep_view() =~= out0.push(d.deep_view()));
        }
        i = i + 1;
    }
    proof {
        assert(out.deep_view() =~= v.deep_view());
    }
    out
}

impl Space {
    /// A space built from its parts.
    pub fn from_parts(
        id: u32,
        title: String,
        boards: Option<Vec<Board>>,
        users: Option<Vec<User>>,
    ) -> (r: Space)
        ensures
            r.deep_view() == (SpaceV {
                id,
                title: title@,
                boards: boards.deep_view(),
                users: users.deep_view(),
            }),
    {
        Space { id, title, boards, users }
    }

    pub fn get_id(&self) -> (r: u32)
        ensures
            r == self.deep_view().id,
    {
        self.id
    }

    pub fn get_title(&self) -> (r: &str)
        ensures
            r@ == self.deep_view().title,
    {
        self.title.as_str()
    }

    pub fn borrow_boards(&self) -> (r: &Option<Vec<Board>>)
        ensures
            r.deep_view() == self.deep_view().boards,
    {
        &self.boards
    }

    pub fn borrow_users(&self) -> (r: &Option<Vec<User>>)
        ensures
            r.deep_view() == self.deep_view().users,
    {
        &self.users
    }

    /// The ids of the boards this space references; a space without a board
    /// list yields the empty list.
    pub fn get_boards_ids(&self) -> (r: Vec<u32>)
        ensures
            r@ == self.deep_view().spec_board_ids(),
    {
        let mut out: Vec<u32> = Vec::new();
        match &self.boards {
            Option::Some(boards) => {
                let mut i: usize = 0;
                while i < boards.len()
                    invariant
                        i <= boards.len(),
                        out@ =~= boards.deep_view().map_values(|b: BoardV| b.id).subrange(
                            0,
                            i as int,
                        ),
                    decreases boards.len() - i,
                {
                    let ghost out0 = out@;
                    out.push(boards[i].get_id());
                    proof {
                        assert(out@ =~= out0.push(boards.deep_view()[i as int].id));
                    }
                    i = i + 1;
                }
                proof {
                    assert(out@ =~= self.deep_view().spec_board_ids());
                }
            },
            Option::None => {
                proof {
                    assert(out@ =~= self.deep_view().spec_board_ids());
                }
            },
        }
        out
    }

    /// Every board's columns of this space, in board-list order; a space
    /// without a board list yields the empty list.
    pub fn get_columns(&self) -> (r: Vec<Column>)
        ensures
            r.deep_view() == match self.deep_view().boards {
                Option::Some(bs) => concat_columns(bs),
                Option::None => Seq::<ColumnV>::empty(),
            },
    {
        let mut columns: Vec<Column> = Vec::new();
        match &self.boards {
            Option::Some(boards) => {
                let ghost boardsv = boards.deep_view();
                proof {
                    assert(self.deep_view().boards == Option::Some(boardsv));
                }
                let mut i: usize = 0;
                while i < boards.len()
                    invariant
                        i <= boards.len(),
                        boardsv == boards.deep_view(),
                        boardsv.len() == boards@.len(),
                        columns.deep_view() == concat_columns(boardsv.take(i as int)),
                    decreases boards.len() - i,
                {
                    let ghost cols0 = columns.deep_view();
                    let mut fresh = boards[i].get_columns();
                    let ghost freshv = fresh.deep_view();
                    columns.append(&mut fresh);
                    proof {
                        assert(columns.deep_view() =~= cols0 + freshv);
                        assert(boardsv.take(i as int + 1).drop_last() =~= boardsv.take(i as int));
                        assert(boardsv.take(i as int + 1).last() == boardsv[i as int]);
                        assert(concat_columns(boardsv.take(i as int + 1)) == concat_columns(
                            boardsv.take(i as int),
                        ) + boardsv[i as int].spec_columns());
                    }
                    i = i + 1;
                }
                proof {
                    assert(boardsv.take(i as int) =~= boardsv);
                }
            },
            Option::None => {
                proof {
                    assert(columns.deep_view() =~= Seq::<ColumnV>::empty());
                }
            },
        }
        columns
    }

    /// Replaces this space's user list, as the snapshot builder does after
    /// fetching the space's users.
    pub fn set_users(&mut self, users: Vec<User>)
        ensures
            final(self).deep_view() == (SpaceV {
                users: Option::Some(users.deep_view()),
                ..old(self).deep_view()
            }),
    {
        self.users = Option::Some(users);
    }

    /// Replaces this space's board list.
    pub fn set_boards(&mut self, boards: Vec<Board>)
        ensures
            final(self).deep_view() == (SpaceV {
                boards: Option::Some(boards.deep_view()),
                ..old(self).deep_view()
            }),
    {
        self.boards = Option::Some(boards);
    }

    /// A copy of this space's users; a space without a user list yields the
    /// empty list.
    pub fn get_users(&self) -> (r: Vec<User>)
        ensures
            r.deep_view() == self.deep_view().spec_users(),
    {
        match &self.users {
            Option::Some(users) => duplicate_users(users),
            Option::None => Vec::new(),
        }
    }

    /// A field-for-field copy of this space, boards and users included.
    pub fn duplicate(&self) -> (r: Space)
        ensures
            r.deep_view() == self.deep_view(),
    {
        let boards = match &self.boards {
            Option::Some(boards) => Option::Some(duplicate_boards(boards)),
            Option::None => Option::None,
        };
        let users = match &self.users {
            Option::Some(users) => Option::Some(duplicate_users(users)),
            Option::None => Option::None,
        };
        Space { id: self.id, title: self.title.clone(), boards, users }
    }
}

/// A field-for-field copy of a list of spaces.
pub fn duplicate_spaces(v: &Vec<Space>) -> (r: Vec<Space>)
    ensures
        r.deep_view() == v.deep_view(),
{
    let mut out: Vec<Space> = Vec::new();
    let mut i: usize = 0;
    while i < v.len()
        invariant
            i <= v.len(),
            out.deep_view() =~= v.deep_view().subrange(0, i as int),
        decreases v.len() - i,
    {
        let ghost out0 = out.deep_view();
        let d = v[i].duplicate();
        proof {
            assert(d.deep_view() == v.deep_view()[i as int]);
        }
        out.push(d);
        proof {
            assert(out.deep_view() =~= out0.push(d.deep_view()));
        }
        i = i + 1;
    }
    proof {
        assert(out.deep_view() =~= v.deep_view());
    }
    out
}

} // verus!
