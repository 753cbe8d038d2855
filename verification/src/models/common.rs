use vstd::prelude::*;

use crate::models::board::{duplicate_boards, Board, BoardV};
use crate::models::card_type::{duplicate_card_types, CardType, CardTypeV};
use crate::models::column::{columns_sorted, sort_columns, Column, ColumnV};
use crate::models::lane::{lanes_sorted, sort_lanes, Lane, LaneV};
use crate::models::space::{duplicate_spaces, duplicate_users, Space, SpaceV};
use crate::models::tag::{duplicate_tags, Tag, TagV};
use crate::models::user::{User, UserV};

verus! {

/// The locally cached index of spaces, boards, tags and card types, built
/// once and then only read. Spaces and boards are keyed by their id: the
/// constructor keeps at most one entry per id, the later one winning, as a
/// map insert would.
#[derive(Debug, PartialEq)]
pub struct Info {
    spaces: Vec<Space>,
    boards: Vec<Board>,
    tags: Vec<Tag>,
    card_types: Vec<CardType>,
}

pub struct InfoV {
    pub spaces: Seq<SpaceV>,
    pub boards: Seq<BoardV>,
    pub tags: Seq<TagV>,
    pub card_types: Seq<CardTypeV>,
}

impl DeepView for Info {
    type V = InfoV;

    closed spec fn deep_view(&self) -> InfoV {
        InfoV {
            spaces: self.spaces.deep_view(),
            boards: self.boards.deep_view(),
            tags: self.tags.deep_view(),
            card_types: self.card_types.deep_view(),
        }
    }
}

/// The first space of the list with the given id.
pub open spec fn find_space(spaces: Seq<SpaceV>, id: u32) -> Option<SpaceV>
    decreases spaces.len(),
{
    if spaces.len() == 0 {
        Option::None
    } else if spaces[0].id == id {
        Option::Some(spaces[0])
    } else {
        find_space(spaces.drop_first(), id)
    }
}

/// The first board of the list with the given id.
pub open spec fn find_board(boards: Seq<BoardV>, id: u32) -> Option<BoardV>
    decreases boards.len(),
{
    if boards.len() == 0 {
        Option::None
    } else if boards[0].id == id {
        Option::Some(boards[0])
    } else {
        find_board(boards.drop_first(), id)
    }
}

/// The first user of the list with the given name, exact and case-sensitive.
pub open spec fn find_user(users: Seq<UserV>, username: Seq<char>) -> Option<UserV>
    decreases users.len(),
{
    if users.len() == 0 {
        Option::None
    } else if users[0].username == username {
        Option::Some(users[0])
    } else {
        find_user(users.drop_first(), username)
    }
}

/// All boards' columns, in board-list order.
pub open spec fn concat_columns(boards: Seq<BoardV>) -> Seq<ColumnV>
    decreases boards.len(),
{
    if boards.len() == 0 {
        Seq::empty()
    } else {
        concat_columns(boards.drop_last()) + boards.last().spec_columns()
    }
}

/// All boards' lanes, in board-list order.
pub open spec fn concat_lanes(boards: Seq<BoardV>) -> Seq<LaneV>
    decreases boards.len(),
{
    if boards.len() == 0 {
        Seq::empty()
    } else {
        concat_lanes(boards.drop_last()) + boards.last().spec_lanes()
    }
}

/// All spaces' users, in space-list order.
pub open spec fn concat_users(spaces: Seq<SpaceV>) -> Seq<UserV>
    decreases spaces.len(),
{
    if spaces.len() == 0 {
        Seq::empty()
    } else {
        concat_users(spaces.drop_last()) + spaces.last().spec_users()
    }
}

/// The columns a query ranges over: one board's columns when a board id is
/// given (none if the id is unknown), every board's columns otherwise.
pub open spec fn columns_pool(info: InfoV, board_id: Option<u32>) -> Seq<ColumnV> {
    match board_id {
        Option::Some(id) => match find_board(info.boards, id) {
            Option::Some(b) => b.spec_columns(),
            Option::None => Seq::empty(),
        },
        Option::None => concat_columns(info.boards),
    }
}

/// The lanes a query ranges over, in the same way.
pub open spec fn lanes_pool(info: InfoV, board_id: Option<u32>) -> Seq<LaneV> {
    match board_id {
        Option::Some(id) => match find_board(info.boards, id) {
            Option::Some(b) => b.spec_lanes(),
            Option::None => Seq::empty(),
        },
        Option::None => concat_lanes(info.boards),
    }
}

/// The users a query ranges over: one space's users when a space id is given
/// (none if the id is unknown), every space's users otherwise.
pub open spec fn users_pool(info: InfoV, space_id: Option<u32>) -> Seq<UserV> {
    match space_id {
        Option::Some(id) => match find_space(info.spaces, id) {
            Option::Some(s) => s.spec_users(),
            Option::None => Seq::empty(),
        },
        Option::None => concat_users(info.spaces),
    }
}

/// Whether this column, or one of its subcolumns, carries the given id.
pub open spec fn column_entry_matches(c: ColumnV, column_id: u32) -> bool {
    c.id == column_id || match c.subcolumns {
        Option::Some(subs) => exists|k: int|
            #![trigger subs[k]]
            0 <= k < subs.len() && subs[k].id == column_id,
        Option::None => false,
    }
}

/// Whether this column, or one of its subcolumns, carries the given id and
/// names the given board as its owner.
pub open spec fn column_entry_names_board(c: ColumnV, column_id: u32, board_id: u32) -> bool {
    (c.id == column_id && c.board_id == board_id) || match c.subcolumns {
        Option::Some(subs) => exists|k: int|
            #![trigger subs[k]]
            0 <= k < subs.len() && subs[k].id == column_id && subs[k].board_id == board_id,
        Option::None => false,
    }
}

/// Whether any board of the snapshot holds a column or subcolumn with this id.
pub open spec fn column_id_known(info: InfoV, column_id: u32) -> bool {
    exists|i: int|
        0 <= i < concat_columns(info.boards).len() && column_entry_matches(
            #[trigger] concat_columns(info.boards)[i],
            column_id,
        )
}

/// What the board lookup by column id may answer: nothing exactly when the id
/// is known to no board; otherwise the `board_id` recorded on some column or
/// subcolumn that carries the id. Which one answers is fixed only up to the
/// documented ambiguity of duplicate column ids.
pub open spec fn board_lookup_ok(info: InfoV, column_id: u32, r: Option<u32>) -> bool {
    &&& (r is Some <==> column_id_known(info, column_id))
    &&& match r {
        Option::Some(b) => exists|i: int|
            0 <= i < concat_columns(info.boards).len() && column_entry_names_board(
                #[trigger] concat_columns(info.boards)[i],
                column_id,
                b,
            ),
        Option::None => true,
    }
}

impl Info {
    /// The snapshot assembled from already keyed lists; the caller is expected
    /// to have built them with `register_space` and `register_board`.
    pub fn from(spaces: Vec<Space>, boards: Vec<Board>, tags: Vec<Tag>, card_types: Vec<
        CardType,
    >) -> (r: Info)
        ensures
            r.deep_view() == (InfoV {
                spaces: spaces.deep_view(),
                boards: boards.deep_view(),
                tags: tags.deep_view(),
                card_types: card_types.deep_view(),
            }),
    {
        Info { spaces, boards, tags, card_types }
    }

    pub fn borrow_spaces(&self) -> (r: &Vec<Space>)
        ensures
            r.deep_view() == self.deep_view().spaces,
    {
        &self.spaces
    }

    pub fn borrow_boards(&self) -> (r: &Vec<Board>)
        ensures
            r.deep_view() == self.deep_view().boards,
    {
        &self.boards
    }

    /// A copy of every space, in list order.
    pub fn get_spaces(&self) -> (r: Vec<Space>)
        ensures
            r.deep_view() == self.deep_view().spaces,
    {
        duplicate_spaces(&self.spaces)
    }

    /// A copy of every board, in list order.
    pub fn get_boards(&self) -> (r: Vec<Board>)
        ensures
            r.deep_view() == self.deep_view().boards,
    {
        duplicate_boards(&self.boards)
    }

    pub fn get_tags(&self) -> (r: &Vec<Tag>)
        ensures
            r.deep_view() == self.deep_view().tags,
    {
        &self.tags
    }

    pub fn get_card_types(&self) -> (r: &Vec<CardType>)
        ensures
            r.deep_view() == self.deep_view().card_types,
    {
        &self.card_types
    }

    /// The first board with the given id, if any.
    fn find_board_ref(&self, board_id: u32) -> (r: Option<&Board>)
        ensures
            match r {
                Option::Some(b) => find_board(self.deep_view().boards, board_id) == Option::Some(
                    b.deep_view(),
                ),
                Option::None => find_board(self.deep_view().boards, board_id) is None,
            },
    {
        let ghost boards = self.deep_view().boards;
        proof {
            assert(boards.skip(0) =~= boards);
        }
        let mut i: usize = 0;
        while i < self.boards.len()
            invariant
                i <= self.boards.len(),
                boards == self.deep_view().boards,
                find_board(boards.skip(i as int), board_id) == find_board(boards, board_id),
            decreases self.boards.len() - i,
        {
            if self.boards[i].get_id() == board_id {
                proof {
                    assert(boards.skip(i as int)[0] == boards[i as int]);
                }
                return Option::Some(&self.boards[i]);
            }
            proof {
                assert(boards.skip(i as int)[0] == boards[i as int]);
                assert(boards.skip(i as int).drop_first() =~= boards.skip(i as int + 1));
            }
            i = i + 1;
        }
        proof {
            assert(boards.skip(i as int) =~= Seq::<BoardV>::empty());
        }
        Option::None
    }

    /// The first space with the given id, if any.
    fn find_space_ref(&self, space_id: u32) -> (r: Option<&Space>)
        ensures
            match r {
                Option::Some(s) => find_space(self.deep_view().spaces, space_id) == Option::Some(
                    s.deep_view(),
                ),
                Option::None => find_space(self.deep_view().spaces, space_id) is None,
            },
    {
        let ghost spaces = self.deep_view().spaces;
        proof {
            assert(spaces.skip(0) =~= spaces);
        }
        let mut i: usize = 0;
        while i < self.spaces.len()
            invariant
                i <= self.spaces.len(),
                spaces == self.deep_view().spaces,
                find_space(spaces.skip(i as int), space_id) == find_space(spaces, space_id),
            decreases self.spaces.len() - i,
        {
            if self.spaces[i].get_id() == space_id {
                proof {
                    assert(spaces.skip(i as int)[0] == spaces[i as int]);
                }
                return Option::Some(&self.spaces[i]);
            }
            proof {
                assert(spaces.skip(i as int)[0] == spaces[i as int]);
                assert(spaces.skip(i as int).drop_first() =~= spaces.skip(i as int + 1));
            }
            i = i + 1;
        }
        proof {
            assert(spaces.skip(i as int) =~= Seq::<SpaceV>::empty());
        }
        Option::None
    }

    /// The columns of one board, or of every board, ascending by display rank.
    /// The result holds exactly the columns of the queried pool; the relative
    /// order of equal ranks is left open.
    pub fn get_columns(&self, board_id: Option<u32>) -> (r: Vec<Column>)
        ensures
            columns_sorted(r.deep_view()),
            r.deep_view().to_multiset() == columns_pool(self.deep_view(), board_id).to_multiset(),
    {
        let mut columns: Vec<Column> = Vec::new();
        match board_id {
            Option::Some(id) => {
                match self.find_board_ref(id) {
                    Option::Some(board) => {
                        columns = board.get_columns();
                    },
                    Option::None => {
                        proof {
                            assert(columns.deep_view() =~= columns_pool(
                                self.deep_view(),
                                board_id,
                            ));
                        }
                    },
                }
            },
            Option::None => {
                let ghost boards = self.deep_view().boards;
                let mut i: usize = 0;
                while i < self.boards.len()
                    invariant
                        i <= self.boards.len(),
                        boards == self.deep_view().boards,
                        columns.deep_view() == concat_columns(boards.take(i as int)),
                    decreases self.boards.len() - i,
                {
                    let ghost cols0 = columns.deep_view();
                    let mut fresh = self.boards[i].get_columns();
                    let ghost freshv = fresh.deep_view();
                    columns.append(&mut fresh);
                    proof {
                        assert(columns.deep_view() =~= cols0 + freshv);
                        assert(boards.take(i as int + 1).drop_last() =~= boards.take(i as int));
                        assert(boards.take(i as int + 1).last() == boards[i as int]);
                        assert(concat_columns(boards.take(i as int + 1)) == concat_columns(
                            boards.take(i as int),
                        ) + boards[i as int].spec_columns());
                    }
                    i = i + 1;
                }
                proof {
                    assert(boards.take(i as int) =~= boards);
                }
            },
        }
        sort_columns(columns)
    }

    /// The lanes of one board, or of every board, ascending by display rank,
    /// under the same contract as the columns.
    pub fn get_lanes(&self, board_id: Option<u32>) -> (r: Vec<Lane>)
        ensures
            lanes_sorted(r.deep_view()),
            r.deep_view().to_multiset() == lanes_pool(self.deep_view(), board_id).to_multiset(),
    {
        let mut lanes: Vec<Lane> = Vec::new();
        match board_id {
            Option::Some(id) => {
                match self.find_board_ref(id) {
                    Option::Some(board) => {
                        lanes = board.get_lanes();
                    },
                    Option::None => {
                        proof {
                            assert(lanes.deep_view() =~= lanes_pool(self.deep_view(), board_id));
                        }
                    },
                }
            },
            Option::None => {
                let ghost boards = self.deep_view().boards;
                let mut i: usize = 0;
                while i < self.boards.len()
                    invariant
                        i <= self.boards.len(),
                        boards == self.deep_view().boards,
                        lanes.deep_view() == concat_lanes(boards.take(i as int)),
                    decreases self.boards.len() - i,
                {
                    let ghost lanes0 = lanes.deep_view();
                    let mut fresh = self.boards[i].get_lanes();
                    let ghost freshv = fresh.deep_view();
                    lanes.append(&mut fresh);
                    proof {
                        assert(lanes.deep_view() =~= lanes0 + freshv);
                        assert(boards.take(i as int + 1).drop_last() =~= boards.take(i as int));
                        assert(boards.take(i as int + 1).last() == boards[i as int]);
                        assert(concat_lanes(boards.take(i as int + 1)) == concat_lanes(
                            boards.take(i as int),
                        ) + boards[i as int].spec_lanes());
                    }
                    i = i + 1;
                }
                proof {
                    assert(boards.take(i as int) =~= boards);
                }
            },
        }
        sort_lanes(lanes)
    }

    /// The users of one space, or of every space, in list order.
    pub fn get_users(&self, space_id: Option<u32>) -> (r: Vec<User>)
        ensures
            r.deep_view() == users_pool(self.deep_view(), space_id),
    {
        let mut users: Vec<User> = Vec::new();
        match space_id {
            Option::Some(id) => {
                match self.find_space_ref(id) {
                    Option::Some(space) => {
                        users = space.get_users();
                    },
                    Option::None => {
                        proof {
                            assert(users.deep_view() =~= users_pool(self.deep_view(), space_id));
                        }
                    },
                }
            },
            Option::None => {
                let ghost spaces = self.deep_view().spaces;
                let mut i: usize = 0;
                while i < self.spaces.len()
                    invariant
                        i <= self.spaces.len(),
                        spaces == self.deep_view().spaces,
                        users.deep_view() == concat_users(spaces.take(i as int)),
                    decreases self.spaces.len() - i,
                {
                    let ghost users0 = users.deep_view();
                    let mut fresh = self.spaces[i].get_users();
                    let ghost freshv = fresh.deep_view();
                    users.append(&mut fresh);
                    proof {
                        assert(users.deep_view() =~= users0 + freshv);
                        assert(spaces.take(i as int + 1).drop_last() =~= spaces.take(i as int));
                        assert(spaces.take(i as int + 1).last() == spaces[i as int]);
                        assert(concat_users(spaces.take(i as int + 1)) == concat_users(
                            spaces.take(i as int),
                        ) + spaces[i as int].spec_users());
                    }
                    i = i + 1;
                }
                proof {
                    assert(spaces.take(i as int) =~= spaces);
                }
            },
        }
        users
    }

    /// The first user with the given name among the queried users: one
    /// space's users, or every space's in space order. Nothing exactly when
    /// no queried user carries the name.
    pub fn get_user(&self, username: &str, space_id: Option<u32>) -> (r: Option<User>)
        ensures
            match r {
                Option::Some(u) => find_user(
                    users_pool(self.deep_view(), space_id),
                    username@,
                ) == Option::Some(u.deep_view()),
                Option::None => find_user(users_pool(self.deep_view(), space_id), username@)
                    is None,
            },
    {
        let users = self.get_users(space_id);
        let ghost pool = users_pool(self.deep_view(), space_id);
        proof {
            assert(pool.skip(0) =~= pool);
        }
        let mut i: usize = 0;
        while i < users.len()
            invariant
                i <= users.len(),
                pool == users_pool(self.deep_view(), space_id),
                users.deep_view() == pool,
                find_user(pool.skip(i as int), username@) == find_user(pool, username@),
            decreases users.len() - i,
        {
            if users[i].is_username(username) {
                proof {
                    assert(pool.skip(i as int)[0] == pool[i as int]);
                    assert(find_user(pool.skip(i as int), username@) == Option::Some(
                        pool[i as int],
                    ));
                }
                let d = users[i].duplicate();
                proof {
                    assert(d.deep_view() == pool[i as int]);
                }
                return Option::Some(d);
            }
            proof {
                assert(pool.skip(i as int)[0] == pool[i as int]);
                assert(pool.skip(i as int).drop_first() =~= pool.skip(i as int + 1));
            }
            i = i + 1;
        }
        proof {
            assert(pool.skip(i as int) =~= Seq::<UserV>::empty());
        }
        Option::None
    }

    /// The space id recorded on the first board with the given id, if any.
    pub fn get_space_id_by_board_id(&self, board_id: u32) -> (r: Option<u32>)
        ensures
            r == match find_board(self.deep_view().boards, board_id) {
                Option::Some(b) => Option::Some(b.space_id),
                Option::None => Option::<u32>::None,
            },
    {
        match self.find_board_ref(board_id) {
            Option::Some(board) => Option::Some(board.get_space_id()),
            Option::None => Option::None,
        }
    }

    /// The owning board of a column id, searching every board's columns and,
    /// one level deep, their subcolumns. Nothing exactly when no board knows
    /// the id; a move must treat that as an error.
    pub fn get_board_id_by_column_id(&self, column_id: u32) -> (r: Option<u32>)
        ensures
            board_lookup_ok(self.deep_view(), column_id, r),
    {
        broadcast use vstd::seq_lib::group_to_multiset_ensures;

        let columns = self.get_columns(Option::None);
        let ghost all = concat_columns(self.deep_view().boards);
        let ghost sorted = columns.deep_view();
        let mut i: usize = 0;
        while i < columns.len()
            invariant
                i <= columns.len(),
                sorted == columns.deep_view(),
                all == concat_columns(self.deep_view().boards),
                sorted.to_multiset() == all.to_multiset(),
                forall|k: int| 0 <= k < i ==> !column_entry_matches(sorted[k], column_id),
            decreases columns.len() - i,
        {
            let col = &columns[i];
            proof {
                assert(col.deep_view() == sorted[i as int]);
            }
            let subcols = col.get_subcolumns();
            match subcols {
                Option::Some(subs) => {
                    proof {
                        assert(subcols.deep_view() == Option::Some(subs.deep_view()));
                    }
                    let mut k: usize = 0;
                    while k < subs.len()
                        invariant
                            k <= subs.len(),
                            sorted == columns.deep_view(),
                            all == concat_columns(self.deep_view().boards),
                            sorted.to_multiset() == all.to_multiset(),
                            i < columns.len(),
                            col.deep_view() == sorted[i as int],
                            col.deep_view().subcolumns == Option::Some(subs.deep_view()),
                            forall|m: int|
                                0 <= m < k ==> subs.deep_view()[m].id != column_id,
                        decreases subs.len() - k,
                    {
                        if subs[k].get_id() == column_id {
                            let b = subs[k].get_board_id();
                            proof {
                                assert(sorted.contains(sorted[i as int]));
                                vstd::seq_lib::to_multiset_contains::<ColumnV>(
                                    sorted,
                                    sorted[i as int],
                                );
                                vstd::seq_lib::to_multiset_contains::<ColumnV>(
                                    all,
                                    sorted[i as int],
                                );
                                assert(all.contains(sorted[i as int]));
                                let w = choose|wi: int|
                                    0 <= wi < all.len() && all[wi] == sorted[i as int];
                                let subsv = subs.deep_view();
                                assert(subsv[k as int].id == column_id);
                                assert(subsv[k as int].board_id == b);
                                assert((k as int) < subsv.len());
                                assert(all[w].subcolumns == Option::Some(subsv));
                                let ghost wsubs = all[w].subcolumns->0;
                                assert(wsubs == subsv);
                                assert(wsubs[k as int].id == column_id && wsubs[k as int].board_id
                                    == b);
                                assert((k as int) < wsubs.len());
                                assert(column_entry_names_board(all[w], column_id, b));
                                assert(column_entry_matches(all[w], column_id));
                                assert(column_id_known(self.deep_view(), column_id));
                            }
                            return Option::Some(b);
                        }
                        k = k + 1;
                    }
                },
                Option::None => {},
            }
            if col.get_id() == column_id {
                let b = col.get_board_id();
                proof {
                    assert(sorted.contains(sorted[i as int]));
                    vstd::seq_lib::to_multiset_contains::<ColumnV>(sorted, sorted[i as int]);
                    vstd::seq_lib::to_multiset_contains::<ColumnV>(all, sorted[i as int]);
                    assert(all.contains(sorted[i as int]));
                    let w = choose|wi: int| 0 <= wi < all.len() && all[wi] == sorted[i as int];
                    assert(column_entry_names_board(all[w], column_id, b));
                    assert(column_entry_matches(all[w], column_id));
                    assert(column_id_known(self.deep_view(), column_id));
                }
                return Option::Some(b);
            }
            i = i + 1;
        }
        proof {
            assert forall|j: int|
                0 <= j < all.len() implies !column_entry_matches(
                all[j],
                column_id,
            ) by {
                assert(all.contains(all[j]));
                vstd::seq_lib::to_multiset_contains::<ColumnV>(all, all[j]);
                vstd::seq_lib::to_multiset_contains::<ColumnV>(sorted, all[j]);
                assert(sorted.contains(all[j]));
                let w = choose|wi: int| 0 <= wi < sorted.len() && sorted[wi] == all[j];
                assert(!column_entry_matches(sorted[w], column_id));
            }
        }
        Option::None
    }
}

/// The index of the first board with the given id, or none.
pub open spec fn first_board_idx(boards: Seq<BoardV>, id: u32) -> Option<int>
    decreases boards.len(),
{
    if boards.len() == 0 {
        Option::None
    } else if boards[0].id == id {
        Option::Some(0)
    } else {
        match first_board_idx(boards.drop_first(), id) {
            Option::Some(k) => Option::Some(k + 1),
            Option::None => Option::None,
        }
    }
}

proof fn lemma_first_board_idx_hit(boards: Seq<BoardV>, id: u32, i: int)
    requires
        0 <= i < boards.len(),
        boards[i].id == id,
        forall|k: int| 0 <= k < i ==> boards[k].id != id,
    ensures
        first_board_idx(boards, id) == Option::Some(i),
    decreases i,
{
    if i == 0 {
    } else {
        let t = boards.drop_first();
        assert(t =~= boards.skip(1));
        assert(t[i - 1] == boards[i]);
        assert forall|k: int| 0 <= k < i - 1 implies t[k].id != id by {
            assert(t[k] == boards[k + 1]);
        }
        lemma_first_board_idx_hit(t, id, i - 1);
    }
}

proof fn lemma_first_board_idx_miss(boards: Seq<BoardV>, id: u32)
    requires
        forall|k: int| 0 <= k < boards.len() ==> boards[k].id != id,
    ensures
        first_board_idx(boards, id) is None,
    decreases boards.len(),
{
    if boards.len() > 0 {
        let t = boards.drop_first();
        assert forall|k: int| 0 <= k < t.len() implies t[k].id != id by {
            assert(t[k] == boards[k + 1]);
        }
        lemma_first_board_idx_miss(t, id);
    }
}

/// Files a board under its id, as a map insert would: the first board already
/// carrying the id is replaced, and a fresh id is appended.
pub fn register_board(boards: &mut Vec<Board>, board: Board)
    ensures
        final(boards).deep_view() == match first_board_idx(
            old(boards).deep_view(),
            board.deep_view().id,
        ) {
            Option::Some(i) => old(boards).deep_view().update(i, board.deep_view()),
            Option::None => old(boards).deep_view().push(board.deep_view()),
        },
{
    let ghost s = boards.deep_view();
    let ghost bv = board.deep_view();
    let id = board.get_id();
    let mut i: usize = 0;
    loop
        invariant
            i <= boards.len(),
            s == boards.deep_view(),
            bv == board.deep_view(),
            id == bv.id,
            forall|k: int| 0 <= k < i ==> s[k].id != id,
        ensures
            i <= boards.len(),
            s == boards.deep_view(),
            forall|k: int| 0 <= k < i ==> s[k].id != id,
            i < boards.len() ==> s[i as int].id == id,
            i == boards.len() ==> forall|k: int| 0 <= k < s.len() ==> s[k].id != id,
        decreases boards.len() - i,
    {
        if i == boards.len() {
            break ;
        }
        if boards[i].get_id() == id {
            break ;
        }
        i = i + 1;
    }
    if i < boards.len() {
        proof {
            lemma_first_board_idx_hit(s, id, i as int);
        }
        boards.set(i, board);
        proof {
            assert(boards.deep_view() =~= s.update(i as int, bv));
        }
    } else {
        proof {
            lemma_first_board_idx_miss(s, id);
        }
        boards.push(board);
        proof {
            assert(boards.deep_view() =~= s.push(bv));
        }
    }
}

/// The index of the first space with the given id, or none.
pub open spec fn first_space_idx(spaces: Seq<SpaceV>, id: u32) -> Option<int>
    decreases spaces.len(),
{
    if spaces.len() == 0 {
        Option::None
    } else if spaces[0].id == id {
        Option::Some(0)
    } else {
        match first_space_idx(spaces.drop_first(), id) {
            Option::Some(k) => Option::Some(k + 1),
            Option::None => Option::None,
        }
    }
}

proof fn lemma_first_space_idx_hit(spaces: Seq<SpaceV>, id: u32, i: int)
    requires
        0 <= i < spaces.len(),
        spaces[i].id == id,
        forall|k: int| 0 <= k < i ==> spaces[k].id != id,
    ensures
        first_space_idx(spaces, id) == Option::Some(i),
    decreases i,
{
    if i == 0 {
    } else {
        let t = spaces.drop_first();
        assert(t =~= spaces.skip(1));
        assert(t[i - 1] == spaces[i]);
        assert forall|k: int| 0 <= k < i - 1 implies t[k].id != id by {
            assert(t[k] == spaces[k + 1]);
        }
        lemma_first_space_idx_hit(t, id, i - 1);
    }
}

proof fn lemma_first_space_idx_miss(spaces: Seq<SpaceV>, id: u32)
    requires
        forall|k: int| 0 <= k < spaces.len() ==> spaces[k].id != id,
    ensures
        first_space_idx(spaces, id) is None,
    decreases spaces.len(),
{
    if spaces.len() > 0 {
        let t = spaces.drop_first();
        assert forall|k: int| 0 <= k < t.len() implies t[k].id != id by {
            assert(t[k] == spaces[k + 1]);
        }
        lemma_first_space_idx_miss(t, id);
    }
}

/// Files a space under its id, as a map insert would: the first space already
/// carrying the id is replaced, and a fresh id is appended.
pub fn register_space(spaces: &mut Vec<Space>, space: Space)
    ensures
        final(spaces).deep_view() == match first_space_idx(
            old(spaces).deep_view(),
            space.deep_view().id,
        ) {
            Option::Some(i) => old(spaces).deep_view().update(i, space.deep_view()),
            Option::None => old(spaces).deep_view().push(space.deep_view()),
        },
{
    let ghost s = spaces.deep_view();
    let ghost sv = space.deep_view();
    let id = space.get_id();
    let mut i: usize = 0;
    loop
        invariant
            i <= spaces.len(),
            s == spaces.deep_view(),
            sv == space.deep_view(),
            id == sv.id,
            forall|k: int| 0 <= k < i ==> s[k].id != id,
        ensures
            i <= spaces.len(),
            s == spaces.deep_view(),
            forall|k: int| 0 <= k < i ==> s[k].id != id,
            i < spaces.len() ==> s[i as int].id == id,
            i == spaces.len() ==> forall|k: int| 0 <= k < s.len() ==> s[k].id != id,
        decreases spaces.len() - i,
    {
        if i == spaces.len() {
            break ;
        }
        if spaces[i].get_id() == id {
            break ;
        }
        i = i + 1;
    }
    if i < spaces.len() {
        proof {
            lemma_first_space_idx_hit(s, id, i as int);
        }
        spaces.set(i, space);
        proof {
            assert(spaces.deep_view() =~= s.update(i as int, sv));
        }
    } else {
        proof {
            lemma_first_space_idx_miss(s, id);
        }
        spaces.push(space);
        proof {
            assert(spaces.deep_view() =~= s.push(sv));
        }
    }
}

/// The name search succeeds exactly when some listed user carries the name.
pub proof fn lemma_find_user_some_iff(users: Seq<UserV>, username: Seq<char>)
    ensures
        (find_user(users, username) is Some) <==> (exists|i: int|
            #![trigger users[i]]
            0 <= i < users.len() && users[i].username == username),
    decreases users.len(),
{
    if users.len() > 0 {
        let t = users.drop_first();
        lemma_find_user_some_iff(t, username);
        if users[0].username == username {
        } else {
            if find_user(users, username) is Some {
                let i = choose|i: int|
                    #![trigger t[i]]
                    0 <= i < t.len() && t[i].username == username;
                assert(users[i + 1] == t[i]);
            }
            if exists|i: int| #![trigger users[i]] 0 <= i < users.len() && users[i].username
                == username {
                let i = choose|i: int|
                    #![trigger users[i]]
                    0 <= i < users.len() && users[i].username == username;
                assert(t[i - 1] == users[i]);
            }
        }
    }
}

/// The space search answers with a listed space carrying the id, or with
/// nothing when no listed space carries it.
proof fn lemma_find_space_found(spaces: Seq<SpaceV>, id: u32)
    ensures
        match find_space(spaces, id) {
            Option::Some(sp) => exists|k: int|
                #![trigger spaces[k]]
                0 <= k < spaces.len() && spaces[k] == sp && sp.id == id,
            Option::None => forall|k: int|
                #![trigger spaces[k]]
                0 <= k < spaces.len() ==> spaces[k].id != id,
        },
    decreases spaces.len(),
{
    if spaces.len() > 0 {
        let t = spaces.drop_first();
        lemma_find_space_found(t, id);
        if spaces[0].id == id {
        } else {
            match find_space(t, id) {
                Option::Some(sp) => {
                    let k = choose|k: int|
                        #![trigger t[k]]
                        0 <= k < t.len() && t[k] == sp && sp.id == id;
                    assert(spaces[k + 1] == t[k]);
                },
                Option::None => {
                    assert forall|k: int| 0 <= k < spaces.len() implies (#[trigger] spaces[k]).id
                        != id by {
                        if k > 0 {
                            assert(t[k - 1] == spaces[k]);
                        }
                    }
                },
            }
        }
    }
}

/// A user listed by any space is among the users of the whole snapshot.
proof fn lemma_concat_users_contains(spaces: Seq<SpaceV>, i: int, j: int)
    requires
        0 <= i < spaces.len(),
        0 <= j < spaces[i].spec_users().len(),
    ensures
        exists|m: int|
            #![trigger concat_users(spaces)[m]]
            0 <= m < concat_users(spaces).len() && concat_users(spaces)[m]
                == spaces[i].spec_users()[j],
    decreases spaces.len(),
{
    let t = spaces.drop_last();
    if i == spaces.len() - 1 {
        let m = concat_users(t).len() + j;
        assert(spaces.last() == spaces[i]);
        assert(concat_users(spaces)[m] == spaces[i].spec_users()[j]);
    } else {
        assert(t[i] == spaces[i]);
        lemma_concat_users_contains(t, i, j);
        let m = choose|m: int|
            #![trigger concat_users(t)[m]]
            0 <= m < concat_users(t).len() && concat_users(t)[m] == t[i].spec_users()[j];
        assert(concat_users(spaces)[m] == concat_users(t)[m]);
    }
}

/// A username that occurs only in spaces other than the queried one is found
/// by the unfiltered search, from whatever space holds it, and missed by a
/// search filtered to the queried space.
pub proof fn lemma_get_user_scoped(info: InfoV, username: Seq<char>, other_id: u32)
    requires
        exists|i: int, j: int|
            #![trigger info.spaces[i].spec_users()[j]]
            0 <= i < info.spaces.len() && 0 <= j < info.spaces[i].spec_users().len()
                && info.spaces[i].spec_users()[j].username == username,
        forall|i: int, j: int|
            #![trigger info.spaces[i].spec_users()[j]]
            (0 <= i < info.spaces.len() && 0 <= j < info.spaces[i].spec_users().len()
                && info.spaces[i].spec_users()[j].username == username) ==> info.spaces[i].id
                != other_id,
    ensures
        find_user(users_pool(info, Option::None), username) is Some,
        find_user(users_pool(info, Option::Some(other_id)), username) is None,
{
    let (i, j) = choose|i: int, j: int|
        #![trigger info.spaces[i].spec_users()[j]]
        0 <= i < info.spaces.len() && 0 <= j < info.spaces[i].spec_users().len()
            && info.spaces[i].spec_users()[j].username == username;
    lemma_concat_users_contains(info.spaces, i, j);
    lemma_find_user_some_iff(concat_users(info.spaces), username);
    lemma_find_space_found(info.spaces, other_id);
    match find_space(info.spaces, other_id) {
        Option::Some(sp) => {
            let k = choose|k: int|
                #![trigger info.spaces[k]]
                0 <= k < info.spaces.len() && info.spaces[k] == sp && sp.id == other_id;
            lemma_find_user_some_iff(sp.spec_users(), username);
            if find_user(sp.spec_users(), username) is Some {
                let m = choose|m: int|
                    #![trigger sp.spec_users()[m]]
                    0 <= m < sp.spec_users().len() && sp.spec_users()[m].username == username;
                assert(info.spaces[k].spec_users()[m].username == username);
                assert(info.spaces[k].id != other_id);
            }
        },
        Option::None => {
            lemma_find_user_some_iff(Seq::<UserV>::empty(), username);
        },
    }
}

/// An id present in no board, at either nesting level, is answered with
/// nothing by the board lookup.
pub proof fn lemma_board_lookup_not_found(info: InfoV, column_id: u32, r: Option<u32>)
    requires
        board_lookup_ok(info, column_id, r),
        !column_id_known(info, column_id),
    ensures
        r is None,
{
}

/// Whether every occurrence of the column id on this column, or on one of its
/// subcolumns, names the given board as its owner.
pub open spec fn column_entry_owner_bound(c: ColumnV, column_id: u32, owner: u32) -> bool {
    &&& (c.id == column_id ==> c.board_id == owner)
    &&& match c.subcolumns {
        Option::Some(subs) => forall|k: int|
            0 <= k < subs.len() && (#[trigger] subs[k]).id == column_id ==> subs[k].board_id
                == owner,
        Option::None => true,
    }
}

/// When every column or subcolumn carrying the id names the same board — the
/// resolved, per-board column-id namespace — the lookup answers exactly that
/// owning board, subcolumns included.
pub proof fn lemma_board_lookup_owner(info: InfoV, column_id: u32, r: Option<u32>, owner: u32)
    requires
        board_lookup_ok(info, column_id, r),
        column_id_known(info, column_id),
        forall|i: int|
            0 <= i < concat_columns(info.boards).len() ==> column_entry_owner_bound(
                #[trigger] concat_columns(info.boards)[i],
                column_id,
                owner,
            ),
    ensures
        r == Option::Some(owner),
{
    let all = concat_columns(info.boards);
    assert(r is Some);
    let b = r->0;
    let i = choose|i: int|
        0 <= i < all.len() && column_entry_names_board(#[trigger] all[i], column_id, b);
    assert(column_entry_owner_bound(all[i], column_id, owner));
    if all[i].id == column_id && all[i].board_id == b {
    } else {
        let subs = all[i].subcolumns->0;
        let k = choose|k: int|
            0 <= k < subs.len() && (#[trigger] subs[k]).id == column_id && subs[k].board_id == b;
        assert(subs[k].board_id == owner);
    }
}

} // verus!
