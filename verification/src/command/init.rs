use vstd::prelude::*;

use crate::text::{spec_nat_digits, u32_to_string};

verus! {

/// The init command: download the whole entity snapshot, or show the cached
/// one.
#[derive(Debug)]
pub struct Init {
    /// Show the cached snapshot instead of fetching.
    pub show: bool,
    /// Overwrite an existing snapshot file.
    pub update: bool,
}

/// The refusal to overwrite an existing snapshot file unless an update was
/// asked for explicitly.
#[derive(Debug)]
pub struct FileExistsError {
    file_name: String,
}

impl FileExistsError {
    pub fn new(file_name: String) -> (r: FileExistsError)
        ensures
            r.spec_file_name() == file_name@,
    {
        FileExistsError { file_name }
    }

    pub closed spec fn spec_file_name(&self) -> Seq<char> {
        self.file_name@
    }

    pub fn get_file_name(&self) -> (r: &str)
        ensures
            r@ == self.spec_file_name(),
    {
        self.file_name.as_str()
    }

    /// The message shown to the user: the file that stood in the way, and how
    /// to proceed.
    pub fn message(&self) -> (r: String)
        ensures
            r@ == "File "@ + self.spec_file_name()
                + " with entities info already exists. Use `kaiten-cli init --show` to view or `kaiten-cli init --update` for download data from API"@,
    {
        let mut msg = "File ".to_owned();
        msg.append(self.file_name.as_str());
        msg.append(
            " with entities info already exists. Use `kaiten-cli init --show` to view or `kaiten-cli init --update` for download data from API",
        );
        msg
    }
}

/// What an init invocation does, decided before any fetch or write.
#[derive(Debug, PartialEq, Eq, Structural)]
pub enum InitAction {
    /// Print the snapshot already on disk.
    ShowCached,
    /// Refuse: a snapshot file exists and no update was asked for.
    RefuseExisting,
    /// Fetch everything and write the snapshot file.
    Build,
}

impl Init {
    /// The action this invocation takes, given whether a snapshot file already
    /// exists: showing never fetches; building refuses to clobber an existing
    /// file unless the update flag is set.
    pub fn decide(&self, file_exists: bool) -> (r: InitAction)
        ensures
            r == (if self.show {
                InitAction::ShowCached
            } else if !self.update && file_exists {
                InitAction::RefuseExisting
            } else {
                InitAction::Build
            }),
    {
        if self.show {
            InitAction::ShowCached
        } else if !self.update && file_exists {
            InitAction::RefuseExisting
        } else {
            InitAction::Build
        }
    }
}

/// The relative URL the space list is fetched from.
pub fn spaces_url() -> (r: String)
    ensures
        r@ == "spaces"@,
{
    "spaces".to_owned()
}

/// The relative URL a space's user list is fetched from.
pub fn space_users_url(space_id: u32) -> (r: String)
    ensures
        r@ == "spaces/"@ + spec_nat_digits(space_id as nat) + "/users"@,
{
    let mut url = "spaces/".to_owned();
    url.append(u32_to_string(space_id).as_str());
    url.append("/users");
    url
}

/// The relative URL one board's full detail is fetched from.
pub fn space_board_url(space_id: u32, board_id: u32) -> (r: String)
    ensures
        r@ == "spaces/"@ + spec_nat_digits(space_id as nat) + "/boards/"@ + spec_nat_digits(
            board_id as nat,
        ),
{
    let mut url = "spaces/".to_owned();
    url.append(u32_to_string(space_id).as_str());
    url.append("/boards/");
    url.append(u32_to_string(board_id).as_str());
    url
}

/// The relative URL the global tag list is fetched from.
pub fn tags_url() -> (r: String)
    ensures
        r@ == "tags"@,
{
    "tags".to_owned()
}

/// The relative URL the global card-type list is fetched from.
pub fn card_types_url() -> (r: String)
    ensures
        r@ == "card-types"@,
{
    "card-types".to_owned()
}

} // verus!
