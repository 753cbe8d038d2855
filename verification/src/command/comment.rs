use vstd::prelude::*;

verus! {

/// The comment subcommands: list a card's comments, edit one, or write one.
/// Card and comment ids are taken as text and spliced into the path.
#[derive(Debug)]
pub enum CommentCommands {
    Get { card_id: String },
    Edit { card_id: String, comment_id: String },
    New { card_id: String, comment: String },
}

/// The comment command as dispatched from the CLI.
#[derive(Debug)]
pub struct Comment {
    pub command: CommentCommands,
}

/// The relative URL a comment command is served from: a card's comment
/// collection, or one comment of it.
pub open spec fn spec_comment_url(cmd: &CommentCommands) -> Seq<char> {
    match cmd {
        CommentCommands::Get { card_id } => "cards/"@ + card_id@ + "/comments"@,
        CommentCommands::New { card_id, .. } => "cards/"@ + card_id@ + "/comments"@,
        CommentCommands::Edit { card_id, comment_id } => "cards/"@ + card_id@ + "/comments/"@
            + comment_id@,
    }
}

impl Comment {
    pub fn get_url(&self) -> (r: String)
        ensures
            r@ == spec_comment_url(&self.command),
    {
        match &self.command {
            CommentCommands::Get { card_id } => {
                let mut url = "cards/".to_owned();
                url.append(card_id.as_str());
                url.append("/comments");
                url
            },
            CommentCommands::New { card_id, .. } => {
                let mut url = "cards/".to_owned();
                url.append(card_id.as_str());
                url.append("/comments");
                url
            },
            CommentCommands::Edit { card_id, comment_id } => {
                let mut url = "cards/".to_owned();
                url.append(card_id.as_str());
                url.append("/comments/");
                url.append(comment_id.as_str());
                url
            },
        }
    }
}

} // verus!
