use vstd::prelude::*;

use crate::models::column::{duplicate_columns, Column, ColumnV};
use crate::models::lane::{duplicate_lanes, Lane, LaneV};

verus! {

/// A board of a space: the container of columns and lanes, and the target of
/// a card move. Columns and lanes are absent on a board record that was
/// fetched without detail.
#[derive(Debug, PartialEq)]
pub struct Board {
    id: u32,
    space_id: u32,
    title: String,
    columns: Option<Vec<Column>>,
    lanes: Option<Vec<Lane>>,
}

pub struct BoardV {
    pub id: u32,
    pub space_id: u32,
    pub title: Seq<char>,
    pub columns: Option<Seq<ColumnV>>,
    pub lanes: Option<Seq<LaneV>>,
}

impl BoardV {
    /// The columns this board exposes: its column list, or nothing when the
    /// record carries none.
    pub open spec fn spec_columns(self) -> Seq<ColumnV> {
        match self.columns {
            Option::Some(cols) => cols,
            Option::None => Seq::empty(),
        }
    }

    /// The lanes this board exposes, in the same way.
    pub open spec fn spec_lanes(self) -> Seq<LaneV> {
        match self.lanes {
            Option::Some(lanes) => lanes,
            Option::None => Seq::empty(),
        }
    }
}

impl DeepView for Board {
    type V = BoardV;

    closed spec fn deep_view(&self) -> BoardV {
        BoardV {
            id: self.id,
            space_id: self.space_id,
            title: self.title.deep_view(),
            columns: self.columns.deep_view(),
            lanes: self.lanes.deep_view(),
        }
    }
}

impl Board {
    /// A board built from its parts.
    pub fn from_parts(
        id: u32,
        space_id: u32,
        title: String,
        columns: Option<Vec<Column>>,
        lanes: Option<Vec<Lane>>,
    ) -> (r: Board)
        ensures
            r.deep_view() == (BoardV {
                id,
                space_id,
                title: title@,
                columns: columns.deep_view(),
                lanes: lanes.deep_view(),
            }),
    {
        Board { id, space_id, title, columns, lanes }
    }

    pub fn get_id(&self) -> (r: u32)
        ensures
            r == self.deep_view().id,
    {
        self.id
    }

    pub fn get_space_id(&self) -> (r: u32)
        ensures
            r == self.deep_view().space_id,
    {
        self.space_id
    }

    pub fn get_title(&self) -> (r: &str)
        ensures
            r@ == self.deep_view().title,
    {
        self.title.as_str()
    }

    pub fn borrow_columns(&self) -> (r: &Option<Vec<Column>>)
        ensures
            r.deep_view() == self.deep_view().columns,
    {
        &self.columns
    }

    pub fn borrow_lanes(&self) -> (r: &Option<Vec<Lane>>)
        ensures
            r.deep_view() == self.deep_view().lanes,
    {
        &self.lanes
    }

    /// A copy of this board's columns; a board without a column list yields
    /// the empty list.
    pub fn get_columns(&self) -> (r: Vec<Column>)
        ensures
            r.deep_view() == self.deep_view().spec_columns(),
    {
        match &self.columns {
            Option::Some(cols) => duplicate_columns(cols),
            Option::None => Vec::new(),
        }
    }

    /// A copy of this board's lanes; a board without a lane list yields the
    /// empty list.
    pub fn get_lanes(&self) -> (r: Vec<Lane>)
        ensures
            r.deep_view() == self.deep_view().spec_lanes(),
    {
        match &self.lanes {
            Option::Some(lanes) => duplicate_lanes(lanes),
            Option::None => Vec::new(),
        }
    }

    /// A field-for-field copy of this board, columns and lanes included.
    pub fn duplicate(&self) -> (r: Board)
        ensures
            r.deep_view() == self.deep_view(),
    {
        let columns = match &self.columns {
            Option::Some(cols) => Option::Some(duplicate_columns(cols)),
            Option::None => Option::None,
        };
        let lanes = match &self.lanes {
            Option::Some(lanes) => Option::Some(duplicate_lanes(lanes)),
            Option::None => Option::None,
        };
        Board { id: self.id, space_id: self.space_id, title: self.title.clone(), columns, lanes }
    }
}

/// A field-for-field copy of a list of boards.
pub fn duplicate_boards(v: &Vec<Board>) -> (r: Vec<Board>)
    ensures
        r.deep_view() == v.deep_view(),
{
    let mut out: Vec<Board> = Vec::new();
    let mut i: usize = 0;
    while i < v.len()
        invariant
            i <= v.len(),
            out.deep_view() =~= v.deep_view().subrange(0, i as int),
        decreases v.len() - i,
    {
        let ghost out0 = out.deep_view();
        let d = v[i].duplicate();
        proof {
            assert(d.deep_view() == v.deep_view()[i as int]);
        }
        out.push(d);
        proof {
            assert(out.deep_view() =~= out0.push(d.deep_view()));
        }
        i = i + 1;
    }
    proof {
        assert(out.deep_view() =~= v.deep_view());
    }
    out
}

} // verus!
