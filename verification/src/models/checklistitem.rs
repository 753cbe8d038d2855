use vstd::prelude::*;

use crate::text::{
    char_utf8_width, fix_brackets, lemma_utf8_len_pos, lemma_utf8_len_split, spec_fix_brackets,
    spec_trim, spec_utf8_len, trim, utf8_len,
};

verus! {

/// One line of a checklist: a checkbox and its text. An item freshly parsed
/// from text has no id yet.
#[derive(Debug, PartialEq)]
pub struct ChecklistItem {
    pub id: Option<u32>,
    pub text: String,
    pub checked: bool,
}

pub struct ChecklistItemV {
    pub id: Option<u32>,
    pub text: Seq<char>,
    pub checked: bool,
}

impl DeepView for ChecklistItem {
    type V = ChecklistItemV;

    open spec fn deep_view(&self) -> ChecklistItemV {
        ChecklistItemV { id: self.id, text: self.text.deep_view(), checked: self.checked }
    }
}

/// The one-line text form of an item: its checkbox, a space, its text.
pub open spec fn spec_item_line(item: ChecklistItemV) -> Seq<char> {
    (if item.checked {
        "[x]"@
    } else {
        "[ ]"@
    }) + " "@ + item.text
}

/// A raw checklist line that can be read back as an item: after trimming and
/// normalising the `[]` shorthand it starts with an open or a ticked
/// checkbox, and its fifth byte, where one exists, does not fall inside a
/// character.
pub open spec fn item_line_ok(raw: Seq<char>) -> bool {
    let t = spec_fix_brackets(spec_trim(raw));
    &&& t.len() >= 3
    &&& t[0] == '['
    &&& (t[1] == ' ' || t[1] == 'x')
    &&& t[2] == ']'
    &&& (spec_utf8_len(t) > 4 ==> t.len() >= 4 && char_utf8_width(t[3]) == 1)
}

/// What parsing a raw checklist line yields: no id, the checkbox state, and
/// the text after the checkbox and one separator byte — or nothing where the
/// line is no longer than that.
pub open spec fn spec_item_of_line(raw: Seq<char>) -> ChecklistItemV {
    let t = spec_fix_brackets(spec_trim(raw));
    ChecklistItemV {
        id: Option::None,
        checked: t[1] == 'x',
        text: if spec_utf8_len(t) > 4 {
            t.skip(4)
        } else {
            Seq::empty()
        },
    }
}

impl ChecklistItem {
    /// The item's one-line text form.
    pub fn to_string(&self) -> (r: String)
        ensures
            r@ == spec_item_line(self.deep_view()),
    {
        let mut line = if self.checked {
            "[x]".to_owned()
        } else {
            "[ ]".to_owned()
        };
        line.append(" ");
        line.append(self.text.as_str());
        line
    }

    /// The item a raw checklist line denotes. A line that does not start with
    /// a checkbox after trimming is no item; the caller must not hand one in.
    pub fn from_string(raw_text: String) -> (r: ChecklistItem)
        requires
            item_line_ok(raw_text@),
        ensures
            r.deep_view() == spec_item_of_line(raw_text@),
    {
        let trimmed = trim(raw_text.as_str());
        let text = fix_brackets(trimmed.as_str());
        let t = text.as_str();
        let ghost tv = spec_fix_brackets(spec_trim(raw_text@));
        proof {
            assert(t@ == tv);
        }
        let c0 = t.get_char(0);
        let c1 = t.get_char(1);
        let c2 = t.get_char(2);
        if !(c0 == '[' && (c1 == ' ' || c1 == 'x') && c2 == ']') {
            return vstd::pervasive::unreached();
        }
        let checked = c1 == 'x';
        let bytes = utf8_len(t);
        let item_text: String;
        if bytes > 4 {
            proof {
                lemma_utf8_len_split(tv, 3);
                assert(tv.take(3)[0] == tv[0]);
                assert(tv.take(3)[1] == tv[1]);
                assert(tv.take(3)[2] == tv[2]);
                assert(spec_utf8_len(tv.take(3)) == char_utf8_width(tv.take(3)[0])
                    + spec_utf8_len(tv.take(3).drop_first()));
                assert(tv.take(3).drop_first() =~= tv.subrange(1, 3));
                assert(tv.subrange(1, 3)[0] == tv[1]);
                assert(tv.subrange(1, 3).drop_first() =~= tv.subrange(2, 3));
                assert(tv.subrange(2, 3)[0] == tv[2]);
                assert(tv.subrange(2, 3).drop_first() =~= Seq::<char>::empty());
                assert(char_utf8_width(tv[0]) == 1);
                assert(char_utf8_width(tv[1]) == 1);
                assert(char_utf8_width(tv[2]) == 1);
                assert(spec_utf8_len(Seq::<char>::empty()) == 0);
                assert(spec_utf8_len(tv.subrange(2, 3)) == char_utf8_width(tv[2]));
                assert(spec_utf8_len(tv.subrange(1, 3)) == char_utf8_width(tv[1]) + spec_utf8_len(
                    tv.subrange(2, 3),
                ));
                assert(spec_utf8_len(tv.take(3)) == 3);
                assert(spec_utf8_len(tv.skip(3)) > 1);
                lemma_utf8_len_pos(tv.skip(3));
                assert(tv.len() >= 4);
            }
            let n = t.unicode_len();
            item_text = t.substring_char(4, n).to_owned();
            proof {
                assert(item_text@ =~= tv.skip(4));
            }
        } else {
            item_text = String::new();
            proof {
                assert(item_text@ =~= Seq::<char>::empty());
            }
        }
        ChecklistItem { id: Option::None, text: item_text, checked }
    }

    /// A field-for-field copy of this item.
    pub fn duplicate(&self) -> (r: ChecklistItem)
        ensures
            r.deep_view() == self.deep_view(),
    {
        ChecklistItem { id: self.id, text: self.text.clone(), checked: self.checked }
    }
}

/// A field-for-field copy of a list of checklist items.
pub fn duplicate_checklist_items(v: &Vec<ChecklistItem>) -> (r: Vec<ChecklistItem>)
    ensures
        r.deep_view() == v.deep_view(),
{
    let mut out: Vec<ChecklistItem> = Vec::new();
    let mut i: usize = 0;
    while i < v.len()
        invariant
            i <= v.len(),
            out.deep_view() =~= v.deep_view().subrange(0, i as int),
        decreases v.len() - i,
    {
        let ghost out0 = out.deep_view();
        let d = v[i].duplicate();
        proof {
            assert(d.deep_view() == v.deep_view()[i as int]);
        }
        out.push(d);
        proof {
            assert(out.deep_view() =~= out0.push(d.deep_view()));
        }
        i = i + 1;
    }
    proof {
        assert(out.deep_view() =~= v.deep_view());
    }
    out
}

} // verus!
