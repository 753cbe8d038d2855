use vstd::prelude::*;

use crate::models::user::{Role, User, UserV};

verus! {

/// A comment on a card. Only the text is sent when a comment is created; the
/// other fields come back from the service.
#[derive(Debug, PartialEq)]
pub struct Comment {
    pub created: String,
    id: u32,
    text: String,
    edited: bool,
    author: User,
}

pub struct CommentV {
    pub created: Seq<char>,
    pub id: u32,
    pub text: Seq<char>,
    pub edited: bool,
    pub author: UserV,
}

impl DeepView for Comment {
    type V = CommentV;

    closed spec fn deep_view(&self) -> CommentV {
        CommentV {
            created: self.created.deep_view(),
            id: self.id,
            text: self.text.deep_view(),
            edited: self.edited,
            author: self.author.deep_view(),
        }
    }
}

impl Comment {
    /// A fresh comment holding the given text and nothing else.
    pub fn from_text(text: &str) -> (r: Comment)
        ensures
            r.deep_view().text == text@,
            r.deep_view().created == Seq::<char>::empty(),
            r.deep_view().id == 0,
            !r.deep_view().edited,
            r.deep_view().author == (UserV {
                id: 0,
                username: Seq::<char>::empty(),
                role: Role::Unset,
            }),
    {
        let c = Comment {
            created: String::new(),
            id: 0,
            text: text.to_owned(),
            edited: false,
            author: User::default(),
        };
        proof {
            assert(c.deep_view().created =~= Seq::<char>::empty());
        }
        c
    }

    /// A comment built from its parts, as the API hands them over.
    pub fn from_parts(created: String, id: u32, text: String, edited: bool, author: User) -> (r:
        Comment)
        ensures
            r.deep_view() == (CommentV {
                created: created@,
                id,
                text: text@,
                edited,
                author: author.deep_view(),
            }),
    {
        Comment { created, id, text, edited, author }
    }

    pub fn get_id(&self) -> (r: u32)
        ensures
            r == self.deep_view().id,
    {
        self.id
    }

    pub fn get_text(&self) -> (r: &str)
        ensures
            r@ == self.deep_view().text,
    {
        self.text.as_str()
    }

    pub fn get_edited(&self) -> (r: bool)
        ensures
            r == self.deep_view().edited,
    {
        self.edited
    }

    pub fn get_author(&self) -> (r: &User)
        ensures
            r.deep_view() == self.deep_view().author,
    {
        &self.author
    }
}

/// A comment author as the listing shows one: just an id and a name.
#[derive(Debug, PartialEq)]
pub struct Author {
    pub id: u32,
    pub username: String,
}

} // verus!
