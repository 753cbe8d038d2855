use vstd::prelude::*;

verus! {

/// A swimlane of a board: the secondary axis alongside columns. `sort_order`
/// is an externally assigned display rank; `condition` is the lane's coarse
/// lifecycle state in the remote API's vocabulary.
#[derive(Debug, PartialEq)]
pub struct Lane {
    id: u32,
    title: String,
    board_id: u32,
    condition: u8,
    sort_order: i64,
}

pub struct LaneV {
    pub id: u32,
    pub title: Seq<char>,
    pub board_id: u32,
    pub condition: u8,
    pub sort_order: i64,
}

impl DeepView for Lane {
    type V = LaneV;

    closed spec fn deep_view(&self) -> LaneV {
        LaneV {
            id: self.id,
            title: self.title.deep_view(),
            board_id: self.board_id,
            condition: self.condition,
            sort_order: self.sort_order,
        }
    }
}

impl Lane {
    /// An empty lane: id zero, empty title, the on-board condition, rank zero.
    pub fn new() -> (r: Lane)
        ensures
            r.deep_view() == (LaneV {
                id: 0,
                title: Seq::<char>::empty(),
                board_id: 0,
                condition: 1,
                sort_order: 0,
            }),
    {
        let l = Lane { id: 0, title: String::new(), board_id: 0, condition: 1, sort_order: 0 };
        proof {
            assert(l.deep_view().title =~= Seq::<char>::empty());
            assert(l.deep_view() == (LaneV {
                id: 0,
                title: Seq::<char>::empty(),
                board_id: 0,
                condition: 1,
                sort_order: 0,
            }));
        }
        l
    }

    /// A lane built from its parts.
    pub fn from_parts(id: u32, title: String, board_id: u32, condition: u8, sort_order: i64) -> (r:
        Lane)
        ensures
            r.deep_view() == (LaneV { id, title: title@, board_id, condition, sort_order }),
    {
        Lane { id, title, board_id, condition, sort_order }
    }

    pub fn get_id(&self) -> (r: u32)
        ensures
            r == self.deep_view().id,
    {
        self.id
    }

    pub fn get_title(&self) -> (r: &str)
        ensures
            r@ == self.deep_view().title,
    {
        self.title.as_str()
    }

    pub fn get_board_id(&self) -> (r: u32)
        ensures
            r == self.deep_view().board_id,
    {
        self.board_id
    }

    pub fn get_condition(&self) -> (r: u8)
        ensures
            r == self.deep_view().condition,
    {
        self.condition
    }

    pub fn get_sort_order(&self) -> (r: i64)
        ensures
            r == self.deep_view().sort_order,
    {
        self.sort_order
    }

    /// A field-for-field copy of this lane.
    pub fn duplicate(&self) -> (r: Lane)
        ensures
            r.deep_view() == self.deep_view(),
    {
        Lane {
            id: self.id,
            title: self.title.clone(),
            board_id: self.board_id,
            condition: self.condition,
            sort_order: self.sort_order,
        }
    }
}

/// A field-for-field copy of a list of lanes.
pub fn duplicate_lanes(v: &Vec<Lane>) -> (r: Vec<Lane>)
    ensures
        r.deep_view() == v.deep_view(),
{
    let mut out: Vec<Lane> = Vec::new();
    let mut i: usize = 0;
    while i < v.len()
        invariant
            i <= v.len(),
            out.deep_view() =~= v.deep_view().subrange(0, i as int),
        decreases v.len() - i,
    {
        let ghost out0 = out.deep_view();
        let d = v[i].duplicate();
        proof {
            assert(d.deep_view() == v.deep_view()[i as int]);
        }
        out.push(d);
        proof {
            assert(out.deep_view() =~= out0.push(d.deep_view()));
        }
        i = i + 1;
    }
    proof {
        assert(out.deep_view() =~= v.deep_view());
    }
    out
}

/// Lanes in ascending `sort_order`.
pub open spec fn lanes_sorted(s: Seq<LaneV>) -> bool {
    forall|i: int, j: int| 0 <= i < j < s.len() ==> s[i].sort_order <= s[j].sort_order
}

/// Sorts lanes ascending by their display rank. The result holds exactly the
/// given lanes; the relative order of equal ranks is left open.
pub fn sort_lanes(v: Vec<Lane>) -> (r: Vec<Lane>)
    ensures
        lanes_sorted(r.deep_view()),
        r.deep_view().to_multiset() == v.deep_view().to_multiset(),
{
    broadcast use vstd::seq_lib::group_to_multiset_ensures;

    let ghost orig = v.deep_view();
    let mut rest = v;
    let mut out: Vec<Lane> = Vec::new();
    proof {
        assert(out.deep_view().to_multiset().add(rest.deep_view().to_multiset()) =~= orig.to_multiset());
    }
    loop
        invariant
            lanes_sorted(out.deep_view()),
            out.deep_view().to_multiset().add(rest.deep_view().to_multiset()) == orig.to_multiset(),
        ensures
            rest.deep_view().len() == 0,
            lanes_sorted(out.deep_view()),
            out.deep_view().to_multiset().add(rest.deep_view().to_multiset()) == orig.to_multiset(),
        decreases rest.len(),
    {
        let ghost rest0 = rest.deep_view();
        let popped = rest.pop();
        match popped {
            Option::None => {
                break ;
            },
            Option::Some(x) => {
                proof {
                    assert(rest.deep_view() =~= rest0.drop_last());
                    assert(x.deep_view() == rest0.last());
                    assert(rest.deep_view().push(x.deep_view()) =~= rest0);
                    vstd::seq_lib::to_multiset_build::<LaneV>(rest.deep_view(), x.deep_view());
                    assert(rest0.to_multiset() == rest.deep_view().to_multiset().insert(
                        x.deep_view(),
                    ));
                }
                let mut j: usize = 0;
                loop
                    invariant
                        j <= out.len(),
                        lanes_sorted(out.deep_view()),
                        forall|k: int|
                            0 <= k < j ==> out.deep_view()[k].sort_order
                                <= x.deep_view().sort_order,
                    ensures
                        j <= out.len(),
                        forall|k: int|
                            0 <= k < j ==> out.deep_view()[k].sort_order
                                <= x.deep_view().sort_order,
                        j < out.len() ==> out.deep_view()[j as int].sort_order
                            > x.deep_view().sort_order,
                    decreases out.len() - j,
                {
                    if j == out.len() {
                        break ;
                    }
                    if out[j].get_sort_order() > x.get_sort_order() {
                        break ;
                    }
                    j = j + 1;
                }
                let ghost out_before = out.deep_view();
                out.insert(j, x);
                proof {
                    let s = out.deep_view();
                    assert(s =~= out_before.insert(j as int, x.deep_view()));
                    assert forall|a: int, b: int| 0 <= a < b < s.len() implies s[a].sort_order
                        <= s[b].sort_order by {
                        if b <= j {
                        } else if a >= j + 1 {
                        } else if a == j {
                            assert(s[b] == out_before[b - 1]);
                        } else {
                            assert(s[a] == out_before[a]);
                            assert(s[b] == out_before[b - 1]);
                        }
                    }
                    vstd::seq_lib::to_multiset_insert::<LaneV>(out_before, j as int, x.deep_view());
                    assert(s.to_multiset() == out_before.to_multiset().insert(x.deep_view()));
                    assert(s.to_multiset().add(rest.deep_view().to_multiset())
                        =~= out_before.to_multiset().add(rest0.to_multiset()));
                }
            },
        }
    }
    proof {
        assert(rest.deep_view().to_multiset().len() == 0);
        assert(out.deep_view().to_multiset().add(rest.deep_view().to_multiset()) =~= out.deep_view().to_multiset());
    }
    out
}

} // verus!
