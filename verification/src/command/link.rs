use vstd::prelude::*;

verus! {

/// The external-link subcommands: list a card's links, edit one, or add one.
#[derive(Debug)]
pub enum LinkCommands {
    Get { card_id: String },
    Edit { card_id: String, link_id: String },
    New { card_id: String, link: String, description: Option<String> },
}

/// The link command as dispatched from the CLI.
#[derive(Debug)]
pub struct Link {
    pub command: LinkCommands,
}

/// The relative URL a link command is served from: a card's external-link
/// collection, or one link of it.
pub open spec fn spec_link_url(cmd: &LinkCommands) -> Seq<char> {
    match cmd {
        LinkCommands::Get { card_id } => "cards/"@ + card_id@ + "/external-links"@,
        LinkCommands::New { card_id, .. } => "cards/"@ + card_id@ + "/external-links"@,
        LinkCommands::Edit { card_id, link_id } => "cards/"@ + card_id@ + "/external-links/"@
            + link_id@,
    }
}

impl Link {
    pub fn get_url(&self) -> (r: String)
        ensures
            r@ == spec_link_url(&self.command),
    {
        match &self.command {
            LinkCommands::Get { card_id } => {
                let mut url = "cards/".to_owned();
                url.append(card_id.as_str());
                url.append("/external-links");
                url
            },
            LinkCommands::New { card_id, .. } => {
                let mut url = "cards/".to_owned();
                url.append(card_id.as_str());
                url.append("/external-links");
                url
            },
            LinkCommands::Edit { card_id, link_id } => {
                let mut url = "cards/".to_owned();
                url.append(card_id.as_str());
                url.append("/external-links/");
                url.append(link_id.as_str());
                url
            },
        }
    }
}

} // verus!
