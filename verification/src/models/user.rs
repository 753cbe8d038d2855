use vstd::prelude::*;

verus! {

/// A member role on a card. The remote API encodes it as an optional integer:
/// code 1 is a plain member, code 2 is the responsible member, and an absent
/// code means the role is not set.
#[derive(Clone, Copy, Debug, PartialEq, Eq, Structural)]
pub enum Role {
    Unset,
    Member,
    Responsible,
}

pub const ROLE_CODE_MEMBER: u8 = 1;

pub const ROLE_CODE_RESPONSIBLE: u8 = 2;

impl Role {
    /// The role of a user record for which the API sent no role field.
    pub fn default() -> (r: Role)
        ensures
            r == Role::Unset,
    {
        Role::Unset
    }

    pub open spec fn spec_code(self) -> u8 {
        match self {
            Role::Unset => ROLE_CODE_MEMBER,
            Role::Member => ROLE_CODE_MEMBER,
            Role::Responsible => ROLE_CODE_RESPONSIBLE,
        }
    }

    /// The integer code this role is sent to the API as. A role that was never
    /// set is sent as a plain member.
    pub fn to_code(self) -> (r: u8)
        ensures
            r == self.spec_code(),
    {
        match self {
            Role::Unset => ROLE_CODE_MEMBER,
            Role::Member => ROLE_CODE_MEMBER,
            Role::Responsible => ROLE_CODE_RESPONSIBLE,
        }
    }

    pub open spec fn spec_from_code(code: Option<u8>) -> Option<Role> {
        match code {
            Option::None => Option::Some(Role::Unset),
            Option::Some(c) => if c == ROLE_CODE_MEMBER {
                Option::Some(Role::Member)
            } else if c == ROLE_CODE_RESPONSIBLE {
                Option::Some(Role::Responsible)
            } else {
                Option::None
            },
        }
    }

    /// The role denoted by an optional API code; an absent code means unset,
    /// and any code other than the two known ones is invalid.
    pub fn from_code(code: Option<u8>) -> (r: Option<Role>)
        ensures
            r == Role::spec_from_code(code),
    {
        match code {
            Option::None => Option::Some(Role::Unset),
            Option::Some(c) => {
                if c == ROLE_CODE_MEMBER {
                    Option::Some(Role::Member)
                } else if c == ROLE_CODE_RESPONSIBLE {
                    Option::Some(Role::Responsible)
                } else {
                    Option::None
                }
            },
        }
    }
}

/// A user of a space. The role is request-scoped: it is set when the user is
/// about to be added to a card as a member, not a durable property.
#[derive(Debug, PartialEq)]
pub struct User {
    id: u32,
    username: String,
    role: Role,
}

pub struct UserV {
    pub id: u32,
    pub username: Seq<char>,
    pub role: Role,
}

impl DeepView for User {
    type V = UserV;

    closed spec fn deep_view(&self) -> UserV {
        UserV { id: self.id, username: self.username.deep_view(), role: self.role }
    }
}

impl User {
    /// An empty user record: id zero, empty name, no role.
    pub fn default() -> (r: User)
        ensures
            r.deep_view() == (UserV { id: 0, username: Seq::<char>::empty(), role: Role::Unset }),
    {
        let u = User { id: 0, username: String::new(), role: Role::Unset };
        proof {
            assert(u.deep_view().username =~= Seq::<char>::empty());
            assert(u.deep_view() == (UserV {
                id: 0,
                username: Seq::<char>::empty(),
                role: Role::Unset,
            }));
        }
        u
    }

    /// A user built from its parts, as the snapshot file or the API hands them over.
    pub fn new(id: u32, username: String, role: Role) -> (r: User)
        ensures
            r.deep_view() == (UserV { id, username: username@, role }),
    {
        User { id, username, role }
    }

    pub fn get_id(&self) -> (r: u32)
        ensures
            r == self.deep_view().id,
    {
        self.id
    }

    pub fn get_username(&self) -> (r: &str)
        ensures
            r@ == self.deep_view().username,
    {
        self.username.as_str()
    }

    pub fn get_role(&self) -> (r: Role)
        ensures
            r == self.deep_view().role,
    {
        self.role
    }

    /// Marks this user as the responsible member for an upcoming card update.
    pub fn set_responsible(&mut self)
        ensures
            final(self).deep_view() == (UserV { role: Role::Responsible, ..old(self).deep_view() }),
    {
        self.role = Role::Responsible;
    }

    /// Whether this user record carries the elevated, responsible role.
    pub fn is_responsible(&self) -> (r: bool)
        ensures
            r == (self.deep_view().role == Role::Responsible),
    {
        match self.role {
            Role::Responsible => true,
            _ => false,
        }
    }

    /// Exact, case-sensitive match of this user's name.
    pub fn is_username(&self, username: &str) -> (r: bool)
        ensures
            r == (self.deep_view().username == username@),
    {
        crate::text::str_eq(self.username.as_str(), username)
    }

    /// A field-for-field copy of this user.
    pub fn duplicate(&self) -> (r: User)
        ensures
            r.deep_view() == self.deep_view(),
    {
        User { id: self.id, username: self.username.clone(), role: self.role }
    }
}

} // verus!
