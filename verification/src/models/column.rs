use vstd::prelude::*;

verus! {

/// A nested column one level below a parent column. Nesting is known to be
/// exactly one level deep, so subcolumns are a type of their own rather than
/// a recursive structure.
#[derive(Debug, PartialEq)]
pub struct SubColumn {
    id: u32,
    title: String,
    board_id: u32,
    sort_order: i64,
}

pub struct SubColumnV {
    pub id: u32,
    pub title: Seq<char>,
    pub board_id: u32,
    pub sort_order: i64,
}

impl DeepView for SubColumn {
    type V = SubColumnV;

    closed spec fn deep_view(&self) -> SubColumnV {
        SubColumnV {
            id: self.id,
            title: self.title.deep_view(),
            board_id: self.board_id,
            sort_order: self.sort_order,
        }
    }
}

impl SubColumn {
    /// A subcolumn built from its parts.
    pub fn from_parts(id: u32, title: String, board_id: u32, sort_order: i64) -> (r: SubColumn)
        ensures
            r.deep_view() == (SubColumnV { id, title: title@, board_id, sort_order }),
    {
        SubColumn { id, title, board_id, sort_order }
    }

    pub fn get_id(&self) -> (r: u32)
        ensures
            r == self.deep_view().id,
    {
        self.id
    }

    pub fn get_title(&self) -> (r: &str)
        ensures
            r@ == self.deep_view().title,
    {
        self.title.as_str()
    }

    pub fn get_board_id(&self) -> (r: u32)
        ensures
            r == self.deep_view().board_id,
    {
        self.board_id
    }

    pub fn get_sort_order(&self) -> (r: i64)
        ensures
            r == self.deep_view().sort_order,
    {
        self.sort_order
    }

    /// A field-for-field copy of this subcolumn.
    pub fn duplicate(&self) -> (r: SubColumn)
        ensures
            r.deep_view() == self.deep_view(),
    {
        SubColumn {
            id: self.id,
            title: self.title.clone(),
            board_id: self.board_id,
            sort_order: self.sort_order,
        }
    }
}

/// A status column of a board. `sort_order` is the externally assigned display
/// and traversal rank; `column_id` is the id of the parent column, if any.
#[derive(Debug, PartialEq)]
pub struct Column {
    id: u32,
    title: String,
    board_id: u32,
    sort_order: i64,
    column_id: Option<u32>,
    subcolumns: Option<Vec<SubColumn>>,
}

pub struct ColumnV {
    pub id: u32,
    pub title: Seq<char>,
    pub board_id: u32,
    pub sort_order: i64,
    pub column_id: Option<u32>,
    pub subcolumns: Option<Seq<SubColumnV>>,
}

impl DeepView for Column {
    type V = ColumnV;

    closed spec fn deep_view(&self) -> ColumnV {
        ColumnV {
            id: self.id,
            title: self.title.deep_view(),
            board_id: self.board_id,
            sort_order: self.sort_order,
            column_id: self.column_id,
            subcolumns: self.subcolumns.deep_view(),
        }
    }
}

/// A field-for-field copy of a list of subcolumns.
pub fn duplicate_subcolumns(v: &Vec<SubColumn>) -> (r: Vec<SubColumn>)
    ensures
        r.deep_view() == v.deep_view(),
{
    let mut out: Vec<SubColumn> = Vec::new();
    let mut i: usize = 0;
    while i < v.len()
        invariant
            i <= v.len(),
            out.deep_view() =~= v.deep_view().subrange(0, i as int),
        decreases v.len() - i,
    {
        let ghost out0 = out.deep_view();
        let d = v[i].duplicate();
        proof {
            assert(d.deep_view() == v.deep_view()[i as int]);
        }
        out.push(d);
        proof {
            assert(out.deep_view() =~= out0.push(d.deep_view()));
        }
        i = i + 1;
    }
    proof {
        assert(out.deep_view() =~= v.deep_view());
    }
    out
}

impl Column {
    /// An empty column: id zero, empty title, no parent, no subcolumns.
    pub fn new() -> (r: Column)
        ensures
            r.deep_view() == (ColumnV {
                id: 0,
                title: Seq::<char>::empty(),
                board_id: 0,
                sort_order: 0,
                column_id: Option::None,
                subcolumns: Option::None,
            }),
    {
        let c = Column {
            id: 0,
            title: String::new(),
            board_id: 0,
            sort_order: 0,
            column_id: Option::None,
            subcolumns: Option::None,
        };
        proof {
            assert(c.deep_view().title =~= Seq::<char>::empty());
            assert(c.deep_view() == (ColumnV {
                id: 0,
                title: Seq::<char>::empty(),
                board_id: 0,
                sort_order: 0,
                column_id: Option::None,
                subcolumns: Option::None,
            }));
        }
        c
    }

    /// A column built from its parts.
    pub fn from_parts(
        id: u32,
        title: String,
        board_id: u32,
        sort_order: i64,
        column_id: Option<u32>,
        subcolumns: Option<Vec<SubColumn>>,
    ) -> (r: Column)
        ensures
            r.deep_view() == (ColumnV {
                id,
                title: title@,
                board_id,
                sort_order,
                column_id,
                subcolumns: subcolumns.deep_view(),
            }),
    {
        Column { id, title, board_id, sort_order, column_id, subcolumns }
    }

    pub fn get_id(&self) -> (r: u32)
        ensures
            r == self.deep_view().id,
    {
        self.id
    }

    pub fn get_title(&self) -> (r: &str)
        ensures
            r@ == self.deep_view().title,
    {
        self.title.as_str()
    }

    pub fn get_board_id(&self) -> (r: u32)
        ensures
            r == self.deep_view().board_id,
    {
        self.board_id
    }

    pub fn get_sort_order(&self) -> (r: i64)
        ensures
            r == self.deep_view().sort_order,
    {
        self.sort_order
    }

    pub fn get_column_id(&self) -> (r: Option<u32>)
        ensures
            r == self.deep_view().column_id,
    {
        self.column_id
    }

    pub fn get_subcolumns(&self) -> (r: &Option<Vec<SubColumn>>)
        ensures
            r.deep_view() == self.deep_view().subcolumns,
    {
        &self.subcolumns
    }

    /// A field-for-field copy of this column, subcolumns included.
    pub fn duplicate(&self) -> (r: Column)
        ensures
            r.deep_view() == self.deep_view(),
    {
        let subcolumns = match &self.subcolumns {
            Option::Some(subs) => Option::Some(duplicate_subcolumns(subs)),
            Option::None => Option::None,
        };
        Column {
            id: self.id,
            title: self.title.clone(),
            board_id: self.board_id,
            sort_order: self.sort_order,
            column_id: self.column_id,
            subcolumns,
        }
    }
}

/// A field-for-field copy of a list of columns.
pub fn duplicate_columns(v: &Vec<Column>) -> (r: Vec<Column>)
    ensures
        r.deep_view() == v.deep_view(),
{
    let mut out: Vec<Column> = Vec::new();
    let mut i: usize = 0;
    while i < v.len()
        invariant
            i <= v.len(),
            out.deep_view() =~= v.deep_view().subrange(0, i as int),
        decreases v.len() - i,
    {
        let ghost out0 = out.deep_view();
        let d = v[i].duplicate();
        proof {
            assert(d.deep_view() == v.deep_view()[i as int]);
        }
        out.push(d);
        proof {
            assert(out.deep_view() =~= out0.push(d.deep_view()));
        }
        i = i + 1;
    }
    proof {
        assert(out.deep_view() =~= v.deep_view());
    }
    out
}

/// Columns in ascending `sort_order`.
pub open spec fn columns_sorted(s: Seq<ColumnV>) -> bool {
    forall|i: int, j: int| 0 <= i < j < s.len() ==> s[i].sort_order <= s[j].sort_order
}

/// Sorts columns ascending by their display rank. The result holds exactly the
/// given columns; the relative order of equal ranks is left open.
pub fn sort_columns(v: Vec<Column>) -> (r: Vec<Column>)
    ensures
        columns_sorted(r.deep_view()),
        r.deep_view().to_multiset() == v.deep_view().to_multiset(),
{
    broadcast use vstd::seq_lib::group_to_multiset_ensures;

    let ghost orig = v.deep_view();
    let mut rest = v;
    let mut out: Vec<Column> = Vec::new();
    proof {
        assert(out.deep_view().to_multiset().add(rest.deep_view().to_multiset()) =~= orig.to_multiset());
    }
    loop
        invariant
            columns_sorted(out.deep_view()),
            out.deep_view().to_multiset().add(rest.deep_view().to_multiset()) == orig.to_multiset(),
        ensures
            rest.deep_view().len() == 0,
            columns_sorted(out.deep_view()),
            out.deep_view().to_multiset().add(rest.deep_view().to_multiset()) == orig.to_multiset(),
        decreases rest.len(),
    {
        let ghost rest0 = rest.deep_view();
        let popped = rest.pop();
        match popped {
            Option::None => {
                break ;
            },
            Option::Some(x) => {
                proof {
                    assert(rest.deep_view() =~= rest0.drop_last());
                    assert(x.deep_view() == rest0.last());
                    assert(rest.deep_view().push(x.deep_view()) =~= rest0);
                    vstd::seq_lib::to_multiset_build::<ColumnV>(rest.deep_view(), x.deep_view());
                    assert(rest0.to_multiset() == rest.deep_view().to_multiset().insert(
                        x.deep_view(),
                    ));
                }
                let mut j: usize = 0;
                loop
                    invariant
                        j <= out.len(),
                        columns_sorted(out.deep_view()),
                        forall|k: int|
                            0 <= k < j ==> out.deep_view()[k].sort_order
                                <= x.deep_view().sort_order,
                    ensures
                        j <= out.len(),
                        forall|k: int|
                            0 <= k < j ==> out.deep_view()[k].sort_order
                                <= x.deep_view().sort_order,
                        j < out.len() ==> out.deep_view()[j as int].sort_order
                            > x.deep_view().sort_order,
                    decreases out.len() - j,
                {
                    if j == out.len() {
                        break ;
                    }
                    if out[j].get_sort_order() > x.get_sort_order() {
                        break ;
                    }
                    j = j + 1;
                }
                let ghost out_before = out.deep_view();
                out.insert(j, x);
                proof {
                    let s = out.deep_view();
                    assert(s =~= out_before.insert(j as int, x.deep_view()));
                    assert forall|a: int, b: int| 0 <= a < b < s.len() implies s[a].sort_order
                        <= s[b].sort_order by {
                        if b <= j {
                        } else if a >= j + 1 {
                        } else if a == j {
                            assert(s[b] == out_before[b - 1]);
                        } else {
                            assert(s[a] == out_before[a]);
                            assert(s[b] == out_before[b - 1]);
                        }
                    }
                    vstd::seq_lib::to_multiset_insert::<ColumnV>(out_before, j as int, x.deep_view());
                    assert(s.to_multiset() == out_before.to_multiset().insert(x.deep_view()));
                    assert(s.to_multiset().add(rest.deep_view().to_multiset())
                        =~= out_before.to_multiset().add(rest0.to_multiset()));
                }
            },
        }
    }
    proof {
        assert(rest.deep_view().to_multiset().len() == 0);
        assert(out.deep_view().to_multiset().add(rest.deep_view().to_multiset()) =~= out.deep_view().to_multiset());
    }
    out
}

} // verus!
