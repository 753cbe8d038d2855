use vstd::prelude::*;

use crate::models::checklistitem::{
    duplicate_checklist_items, item_line_ok, spec_item_line, spec_item_of_line, ChecklistItem,
    ChecklistItemV,
};
use crate::text::{
    char_width, keep_long_lines, lemma_utf8_len_split, lemma_utf8_len_strict, spec_join,
    spec_utf8_len, split_lines, split_long_lines,
};

verus! {

/// A named checklist of a card. One freshly parsed from text has no id yet;
/// an absent item list and an empty one render the same way but are kept
/// apart, as the API keeps them apart.
#[derive(Debug, PartialEq)]
pub struct Checklist {
    pub id: Option<u32>,
    pub name: String,
    pub items: Option<Vec<ChecklistItem>>,
}

pub struct ChecklistV {
    pub id: Option<u32>,
    pub name: Seq<char>,
    pub items: Option<Seq<ChecklistItemV>>,
}

impl DeepView for Checklist {
    type V = ChecklistV;

    open spec fn deep_view(&self) -> ChecklistV {
        ChecklistV { id: self.id, name: self.name.deep_view(), items: self.items.deep_view() }
    }
}

/// The text form of a checklist: a heading with its name, a blank line, then
/// one line per item.
pub open spec fn spec_checklist_text(c: ChecklistV) -> Seq<char> {
    "### "@ + c.name + "\n\n"@ + (match c.items {
        Option::Some(items) => spec_join(
            items.map_values(|it: ChecklistItemV| spec_item_line(it)),
            "\n"@,
        ),
        Option::None => Seq::empty(),
    })
}

/// A raw checklist text that can be read back: at least one significant
/// line — significant meaning longer than three bytes, as the lines of a
/// checklist are — whose fifth byte sits on a character boundary, and every
/// further significant line an item line.
pub open spec fn checklist_text_ok(raw: Seq<char>) -> bool {
    let ls = keep_long_lines(split_lines(raw));
    &&& ls.len() >= 1
    &&& (exists|k: int| 0 <= k <= ls[0].len() && spec_utf8_len(#[trigger] ls[0].take(k)) == 4)
    &&& forall|i: int| 1 <= i < ls.len() ==> item_line_ok(#[trigger] ls[i])
}

/// Where the heading's name starts: past the four bytes of the heading mark.
pub open spec fn spec_name_start(line: Seq<char>) -> int {
    choose|k: int| 0 <= k <= line.len() && spec_utf8_len(#[trigger] line.take(k)) == 4
}

/// What reading a checklist text yields: no id, the first significant line's
/// tail as the name, and one item per further significant line.
pub open spec fn spec_checklist_of_text(raw: Seq<char>) -> ChecklistV {
    let ls = keep_long_lines(split_lines(raw));
    ChecklistV {
        id: Option::None,
        name: ls[0].skip(spec_name_start(ls[0])),
        items: Option::Some(ls.skip(1).map_values(|l: Seq<char>| spec_item_of_line(l))),
    }
}

impl Checklist {
    /// The checklist's text form.
    pub fn to_string(&self) -> (r: String)
        ensures
            r@ == spec_checklist_text(self.deep_view()),
    {
        let mut out = "### ".to_owned();
        out.append(self.name.as_str());
        out.append("\n\n");
        proof {
            assert(out@ =~= "### "@ + self.name@ + "\n\n"@);
        }
        match &self.items {
            Option::Some(items) => {
                let ghost lines = items.deep_view().map_values(
                    |it: ChecklistItemV| spec_item_line(it),
                );
                let ghost head = out@;
                let mut i: usize = 0;
                while i < items.len()
                    invariant
                        i <= items.len(),
                        lines == items.deep_view().map_values(
                            |it: ChecklistItemV| spec_item_line(it),
                        ),
                        items.deep_view().len() == items@.len(),
                        out@ == head + spec_join(lines.take(i as int), "\n"@),
                    decreases items.len() - i,
                {
                    let ghost out0 = out@;
                    if i > 0 {
                        out.append("\n");
                    }
                    let line = items[i].to_string();
                    out.append(line.as_str());
                    proof {
                        assert(lines.take(i as int + 1).drop_last() =~= lines.take(i as int));
                        assert(lines.take(i as int + 1).last() == lines[i as int]);
                        assert(lines[i as int] == spec_item_line(items.deep_view()[i as int]));
                        if i == 0 {
                            assert(spec_join(lines.take(1), "\n"@) == lines[0]);
                            assert(out@ =~= head + spec_join(lines.take(i as int + 1), "\n"@));
                        } else {
                            assert(spec_join(lines.take(i as int + 1), "\n"@) == spec_join(
                                lines.take(i as int),
                                "\n"@,
                            ) + "\n"@ + lines[i as int]);
                            assert(out@ =~= head + spec_join(lines.take(i as int + 1), "\n"@));
                        }
                    }
                    i = i + 1;
                }
                proof {
                    assert(lines.take(i as int) =~= lines);
                    assert(out@ =~= spec_checklist_text(self.deep_view()));
                }
            },
            Option::None => {
                proof {
                    assert(out@ =~= spec_checklist_text(self.deep_view()));
                }
            },
        }
        out
    }

    /// The checklist a piece of text denotes. The caller must hand in text
    /// whose significant lines are a heading and item lines; anything else is
    /// no checklist.
    pub fn from_string(text: String) -> (r: Checklist)
        requires
            checklist_text_ok(text@),
        ensures
            r.deep_view() == spec_checklist_of_text(text@),
    {
        let lines = split_long_lines(text.as_str());
        let ghost ls = keep_long_lines(split_lines(text@));
        proof {
            assert(lines.deep_view() == ls);
            assert(lines.deep_view().len() == lines@.len());
        }
        let first = &lines[0];
        proof {
            assert(first.deep_view() == ls[0]);
        }
        let first_chars = first.as_str().unicode_len();
        let ghost k0 = spec_name_start(ls[0]);
        proof {
            assert(0 <= k0 <= ls[0].len() && spec_utf8_len(ls[0].take(k0)) == 4);
        }
        let mut k: usize = 0;
        let mut acc: usize = 0;
        proof {
            assert(ls[0].take(0) =~= Seq::<char>::empty());
        }
        loop
            invariant
                k <= first_chars,
                ls.len() >= 1,
                first_chars == ls[0].len(),
                first.deep_view() == ls[0],
                0 <= k0 <= ls[0].len(),
                spec_utf8_len(ls[0].take(k0)) == 4,
                acc == spec_utf8_len(ls[0].take(k as int)),
                acc <= 4,
            ensures
                k <= first_chars,
                acc == 4,
                spec_utf8_len(ls[0].take(k as int)) == 4,
            decreases first_chars - k,
        {
            if acc == 4 {
                break ;
            }
            if k == first_chars {
                proof {
                    if k0 < first_chars {
                        lemma_utf8_len_strict(ls[0], k0, first_chars as int);
                        assert(ls[0].take(first_chars as int) =~= ls[0].take(k as int));
                    } else {
                        assert(ls[0].take(k0) =~= ls[0].take(k as int));
                    }
                    assert(false);
                }
                break ;
            }
            let c = first.as_str().get_char(k);
            let w = char_width(c);
            proof {
                let t = ls[0].take(k as int + 1);
                assert(t.drop_last() =~= ls[0].take(k as int));
                assert(t.last() == ls[0][k as int]);
                lemma_utf8_len_split(t, k as int);
                assert(t.take(k as int) =~= ls[0].take(k as int));
                assert(t.skip(k as int) =~= seq![ls[0][k as int]]);
                assert(seq![ls[0][k as int]].first() == ls[0][k as int]);
                assert(seq![ls[0][k as int]].drop_first() =~= Seq::<char>::empty());
                assert(spec_utf8_len(Seq::<char>::empty()) == 0);
                assert(spec_utf8_len(seq![ls[0][k as int]]) == crate::text::char_utf8_width(
                    ls[0][k as int],
                ));
                if acc + w > 4 {
                    if k as int + 1 <= k0 {
                        lemma_utf8_len_strict(ls[0], k as int, k0);
                        if k as int + 1 < k0 {
                            lemma_utf8_len_strict(ls[0], k as int + 1, k0);
                        }
                        assert(false);
                    } else {
                        assert(k0 <= k as int);
                        if k0 < k as int {
                            lemma_utf8_len_strict(ls[0], k0, k as int);
                        }
                        assert(false);
                    }
                }
            }
            acc = acc + w;
            k = k + 1;
        }
        proof {
            if k as int != k0 {
                if (k as int) < k0 {
                    lemma_utf8_len_strict(ls[0], k as int, k0);
                } else {
                    lemma_utf8_len_strict(ls[0], k0, k as int);
                }
                assert(false);
            }
        }
        let name = first.as_str().substring_char(k, first_chars).to_owned();
        proof {
            assert(name@ =~= ls[0].skip(k0));
        }
        let ghost target = ls.skip(1).map_values(|l: Seq<char>| spec_item_of_line(l));
        let mut items: Vec<ChecklistItem> = Vec::new();
        let mut i: usize = 1;
        proof {
            assert(items.deep_view() =~= target.take(0));
        }
        while i < lines.len()
            invariant
                1 <= i <= lines.len(),
                lines.deep_view() == ls,
                lines.deep_view().len() == lines@.len(),
                checklist_text_ok(text@),
                ls == keep_long_lines(split_lines(text@)),
                target == ls.skip(1).map_values(|l: Seq<char>| spec_item_of_line(l)),
                items.deep_view() =~= target.take(i - 1),
            decreases lines.len() - i,
        {
            proof {
                assert(lines[i as int].deep_view() == ls[i as int]);
                assert(item_line_ok(ls[i as int]));
            }
            let ghost items0 = items.deep_view();
            let item = ChecklistItem::from_string(lines[i].clone());
            proof {
                assert(item.deep_view() == spec_item_of_line(ls[i as int]));
                assert(target[i - 1] == spec_item_of_line(ls.skip(1)[i - 1]));
                assert(ls.skip(1)[i - 1] == ls[i as int]);
            }
            items.push(item);
            proof {
                assert(items.deep_view() =~= items0.push(item.deep_view()));
                assert(items.deep_view() =~= target.take(i as int));
            }
            i = i + 1;
        }
        proof {
            assert(items.deep_view() =~= target);
        }
        Checklist { id: Option::None, name, items: Option::Some(items) }
    }

    /// A field-for-field copy of this checklist.
    pub fn duplicate(&self) -> (r: Checklist)
        ensures
            r.deep_view() == self.deep_view(),
    {
        let items = match &self.items {
            Option::Some(items) => Option::Some(duplicate_checklist_items(items)),
            Option::None => Option::None,
        };
        Checklist { id: self.id, name: self.name.clone(), items }
    }
}

/// A field-for-field copy of a list of checklists.
pub fn duplicate_checklists(v: &Vec<Checklist>) -> (r: Vec<Checklist>)
    ensures
        r.deep_view() == v.deep_view(),
{
    let mut out: Vec<Checklist> = Vec::new();
    let mut i: usize = 0;
    while i < v.len()
        invariant
            i <= v.len(),
            out.deep_view() =~= v.deep_view().subrange(0, i as int),
        decreases v.len() - i,
    {
        let ghost out0 = out.deep_view();
        let d = v[i].duplicate();
        proof {
            assert(d.deep_view() == v.deep_view()[i as int]);
        }
        out.push(d);
        proof {
            assert(out.deep_view() =~= out0.push(d.deep_view()));
        }
        i = i + 1;
    }
    proof {
        assert(out.deep_view() =~= v.deep_view());
    }
    out
}

} // verus!
