use vstd::prelude::*;

use crate::models::config::Config;
use crate::text::{bool_str, spec_bool_chars, spec_nat_digits, u32_to_string, u64_to_string};

verus! {

/// One `key=value&` piece of a query string for an optional numeric filter;
/// an absent filter contributes nothing. The key carries its `=`.
pub open spec fn field_u32(key: Seq<char>, v: Option<u32>) -> Seq<char> {
    match v {
        Option::Some(x) => key + spec_nat_digits(x as nat) + "&"@,
        Option::None => Seq::empty(),
    }
}

/// One `key=value&` piece for an optional textual filter. The value is taken
/// as it stands; no escaping is applied.
pub open spec fn field_text(key: Seq<char>, v: Option<Seq<char>>) -> Seq<char> {
    match v {
        Option::Some(s) => key + s + "&"@,
        Option::None => Seq::empty(),
    }
}

/// One `key=value&` piece for an optional boolean filter.
pub open spec fn field_bool(key: Seq<char>, v: Option<bool>) -> Seq<char> {
    match v {
        Option::Some(b) => key + spec_bool_chars(b) + "&"@,
        Option::None => Seq::empty(),
    }
}

/// A borrow of an optional string, for handing a field to a query builder.
fn opt_string_ref(v: &Option<String>) -> (r: Option<&String>)
    ensures
        r.deep_view() == v.deep_view(),
{
    match v {
        Option::Some(s) => Option::Some(s),
        Option::None => Option::None,
    }
}

fn push_field_u32(url: &mut String, key: &str, v: Option<u32>)
    ensures
        final(url)@ == old(url)@ + field_u32(key@, v),
{
    match v {
        Option::Some(x) => {
            url.append(key);
            url.append(u32_to_string(x).as_str());
            url.append("&");
            proof {
                assert(url@ =~= old(url)@ + field_u32(key@, v));
            }
        },
        Option::None => {
            proof {
                assert(url@ =~= old(url)@ + field_u32(key@, v));
            }
        },
    }
}

fn push_field_text(url: &mut String, key: &str, v: Option<&String>)
    ensures
        final(url)@ == old(url)@ + field_text(key@, v.deep_view()),
{
    match v {
        Option::Some(s) => {
            url.append(key);
            url.append(s.as_str());
            url.append("&");
            proof {
                assert(url@ =~= old(url)@ + field_text(key@, v.deep_view()));
            }
        },
        Option::None => {
            proof {
                assert(url@ =~= old(url)@ + field_text(key@, v.deep_view()));
            }
        },
    }
}

fn push_field_bool(url: &mut String, key: &str, v: Option<bool>)
    ensures
        final(url)@ == old(url)@ + field_bool(key@, v),
{
    match v {
        Option::Some(b) => {
            url.append(key);
            url.append(bool_str(b));
            url.append("&");
            proof {
                assert(url@ =~= old(url)@ + field_bool(key@, v));
            }
        },
        Option::None => {
            proof {
                assert(url@ =~= old(url)@ + field_bool(key@, v));
            }
        },
    }
}

/// The card listing filter: every field is an optional filter except
/// `condition` and `states`, which have fixed defaults. Identifier lists are
/// comma-joined strings, dates are ISO 8601 text.
#[derive(Debug)]
pub struct Ls {
    /// Lifecycle filter: 1 on board, 2 archived. Defaults to 1.
    pub condition: u8,
    /// State filter, comma separated: 1 queued, 2 in progress, 3 done.
    /// Defaults to "1,2"; an empty string omits the filter.
    pub states: String,
    pub properties_id: Option<u32>,
    pub properties_value_id: Option<u32>,
    pub created_before: Option<String>,
    pub created_after: Option<String>,
    pub updated_before: Option<String>,
    pub updated_after: Option<String>,
    pub first_moved_in_progress_after: Option<String>,
    pub first_moved_in_progress_before: Option<String>,
    pub last_moved_to_done_at_after: Option<String>,
    pub last_moved_to_done_at_before: Option<String>,
    pub due_date_after: Option<String>,
    pub due_date_before: Option<String>,
    pub query: Option<String>,
    pub tag: Option<String>,
    pub tag_ids: Option<String>,
    pub type_ids: Option<String>,
    pub exclude_board_ids: Option<String>,
    pub exclude_lane_ids: Option<String>,
    pub exclude_column_ids: Option<String>,
    pub column_ids: Option<String>,
    pub member_ids: Option<String>,
    pub owner_ids: Option<String>,
    pub responsible_ids: Option<String>,
    pub limit: Option<u32>,
    pub offset: Option<u32>,
    pub order_space_id: Option<u32>,
    pub column_id: Option<u32>,
    pub lane_id: Option<u32>,
    pub type_id: Option<u32>,
    pub responsible_id: Option<u32>,
    pub owner_id: Option<u32>,
    pub archived: Option<bool>,
    pub asap: Option<bool>,
    pub overdue: Option<bool>,
    pub done_on_time: Option<bool>,
    pub with_due_date: Option<bool>,
}

impl Ls {
    /// The filter with only its defaults: condition 1, states "1,2", nothing
    /// else set.
    pub fn new() -> (r: Ls)
        ensures
            r.condition == 1,
            r.states@ == "1,2"@,
            r.properties_id is None,
            r.properties_value_id is None,
            r.created_before is None,
            r.created_after is None,
            r.updated_before is None,
            r.updated_after is None,
            r.first_moved_in_progress_after is None,
            r.first_moved_in_progress_before is None,
            r.last_moved_to_done_at_after is None,
            r.last_moved_to_done_at_before is None,
            r.due_date_after is None,
            r.due_date_before is None,
            r.query is None,
            r.tag is None,
            r.tag_ids is None,
            r.type_ids is None,
            r.exclude_board_ids is None,
            r.exclude_lane_ids is None,
            r.exclude_column_ids is None,
            r.column_ids is None,
            r.member_ids is None,
            r.owner_ids is None,
            r.responsible_ids is None,
            r.limit is None,
            r.offset is None,
            r.order_space_id is None,
            r.column_id is None,
            r.lane_id is None,
            r.type_id is None,
            r.responsible_id is None,
            r.owner_id is None,
            r.archived is None,
            r.asap is None,
            r.overdue is None,
            r.done_on_time is None,
            r.with_due_date is None,
    {
        Ls {
            condition: 1,
            states: "1,2".to_owned(),
            properties_id: Option::None,
            properties_value_id: Option::None,
            created_before: Option::None,
            created_after: Option::None,
            updated_before: Option::None,
            updated_after: Option::None,
            first_moved_in_progress_after: Option::None,
            first_moved_in_progress_before: Option::None,
            last_moved_to_done_at_after: Option::None,
            last_moved_to_done_at_before: Option::None,
            due_date_after: Option::None,
            due_date_before: Option::None,
            query: Option::None,
            tag: Option::None,
            tag_ids: Option::None,
            type_ids: Option::None,
            exclude_board_ids: Option::None,
            exclude_lane_ids: Option::None,
            exclude_column_ids: Option::None,
            column_ids: Option::None,
            member_ids: Option::None,
            owner_ids: Option::None,
            responsible_ids: Option::None,
            limit: Option::None,
            offset: Option::None,
            order_space_id: Option::None,
            column_id: Option::None,
            lane_id: Option::None,
            type_id: Option::None,
            responsible_id: Option::None,
            owner_id: Option::None,
            archived: Option::None,
            asap: Option::None,
            overdue: Option::None,
            done_on_time: Option::None,
            with_due_date: Option::None,
        }
    }
}

/// The full listing query before the trailing separator is dropped: the fixed
/// `cards?` prefix, then every present filter as `key=value&`, in the fixed
/// order the service expects. The board and space defaults and the exclusion
/// lists come from the config; everything else from the filter itself.
pub open spec fn ls_query_raw(ls: &Ls, cfg: &Config) -> Seq<char> {
    "cards?"@ + field_u32("board_id="@, cfg.deep_view().board_id) + "condition="@
        + spec_nat_digits(ls.condition as nat) + "&"@ + (if ls.states@.len() != 0 {
        "states="@ + ls.states@ + "&"@
    } else {
        Seq::empty()
    }) + field_text("created_before="@, ls.created_before.deep_view()) + field_text(
        "created_after="@,
        ls.created_after.deep_view(),
    ) + field_text("updated_before="@, ls.updated_before.deep_view()) + field_text(
        "updated_after="@,
        ls.updated_after.deep_view(),
    ) + field_text(
        "first_moved_in_progress_after="@,
        ls.first_moved_in_progress_after.deep_view(),
    ) + field_text(
        "first_moved_in_progress_before="@,
        ls.first_moved_in_progress_before.deep_view(),
    ) + field_text(
        "last_moved_to_done_at_after="@,
        ls.last_moved_to_done_at_after.deep_view(),
    ) + field_text(
        "last_moved_to_done_at_before="@,
        ls.last_moved_to_done_at_before.deep_view(),
    ) + field_text("due_date_after="@, ls.due_date_after.deep_view()) + field_text(
        "due_date_before="@,
        ls.due_date_before.deep_view(),
    ) + field_text("query="@, ls.query.deep_view()) + field_text("tag="@, ls.tag.deep_view())
        + field_text("tag_ids="@, ls.tag_ids.deep_view()) + field_text(
        "type_ids="@,
        ls.type_ids.deep_view(),
    ) + field_text("exclude_board_ids="@, cfg.deep_view().exclude_board_ids) + field_text(
        "exclude_lane_ids="@,
        cfg.deep_view().exclude_lane_ids,
    ) + field_text("exclude_column_ids="@, cfg.deep_view().exclude_column_ids) + field_text(
        "column_ids="@,
        ls.column_ids.deep_view(),
    ) + field_text("member_ids="@, ls.member_ids.deep_view()) + field_text(
        "owner_ids="@,
        ls.owner_ids.deep_view(),
    ) + field_text("responsible_ids="@, ls.responsible_ids.deep_view()) + field_u32(
        "space_id="@,
        cfg.deep_view().space_id,
    ) + field_u32("limit="@, ls.limit) + field_u32("offset="@, ls.offset) + field_u32(
        "order_space_id="@,
        ls.order_space_id,
    ) + field_u32("column_id="@, ls.column_id) + field_u32("lane_id="@, ls.lane_id) + field_u32(
        "type_id="@,
        ls.type_id,
    ) + field_u32("responsible_id="@, ls.responsible_id) + field_u32("owner_id="@, ls.owner_id)
        + field_bool("archived="@, ls.archived) + field_bool("asap="@, ls.asap) + field_bool(
        "overdue="@,
        ls.overdue,
    ) + field_bool("done_on_time="@, ls.done_on_time) + field_bool(
        "with_due_date="@,
        ls.with_due_date,
    )
}

/// The listing query: the raw form with a trailing `&`, if any, dropped.
pub open spec fn ls_query(ls: &Ls, cfg: &Config) -> Seq<char> {
    let raw = ls_query_raw(ls, cfg);
    if raw.len() > 0 && raw.last() == '&' {
        raw.drop_last()
    } else {
        raw
    }
}

impl Ls {
    /// The relative listing URL for this filter under the given config.
    #[verifier::rlimit(100)]
    pub fn get_url(&self, config: &Config) -> (r: String)
        ensures
            r@ == ls_query(self, config),
    {
        let mut url = "cards?".to_owned();
        push_field_u32(&mut url, "board_id=", config.get_board_id());
        url.append("condition=");
        url.append(u64_to_string(self.condition as u64).as_str());
        url.append("&");
        proof {
            assert(url@ =~= "cards?"@ + field_u32("board_id="@, config.deep_view().board_id)
                + "condition="@ + spec_nat_digits(self.condition as nat) + "&"@);
        }
        if !self.states.as_str().is_empty() {
            url.append("states=");
            url.append(self.states.as_str());
            url.append("&");
        }
        proof {
            assert(url@ =~= "cards?"@ + field_u32("board_id="@, config.deep_view().board_id)
                + "condition="@ + spec_nat_digits(self.condition as nat) + "&"@ + (
            if self.states@.len() != 0 {
                "states="@ + self.states@ + "&"@
            } else {
                Seq::empty()
            }));
        }
        push_field_text(&mut url, "created_before=", opt_string_ref(&self.created_before));
        push_field_text(&mut url, "created_after=", opt_string_ref(&self.created_after));
        push_field_text(&mut url, "updated_before=", opt_string_ref(&self.updated_before));
        push_field_text(&mut url, "updated_after=", opt_string_ref(&self.updated_after));
        push_field_text(
            &mut url,
            "first_moved_in_progress_after=",
            opt_string_ref(&self.first_moved_in_progress_after),
        );
        push_field_text(
            &mut url,
            "first_moved_in_progress_before=",
            opt_string_ref(&self.first_moved_in_progress_before),
        );
        push_field_text(
            &mut url,
            "last_moved_to_done_at_after=",
            opt_string_ref(&self.last_moved_to_done_at_after),
        );
        push_field_text(
            &mut url,
            "last_moved_to_done_at_before=",
            opt_string_ref(&self.last_moved_to_done_at_before),
        );
        push_field_text(&mut url, "due_date_after=", opt_string_ref(&self.due_date_after));
        push_field_text(&mut url, "due_date_before=", opt_string_ref(&self.due_date_before));
        push_field_text(&mut url, "query=", opt_string_ref(&self.query));
        push_field_text(&mut url, "tag=", opt_string_ref(&self.tag));
        push_field_text(&mut url, "tag_ids=", opt_string_ref(&self.tag_ids));
        push_field_text(&mut url, "type_ids=", opt_string_ref(&self.type_ids));
        push_field_text(&mut url, "exclude_board_ids=", config.get_exclude_board_ids());
        push_field_text(&mut url, "exclude_lane_ids=", config.get_exclude_lane_ids());
        push_field_text(&mut url, "exclude_column_ids=", config.get_exclude_column_ids());
        push_field_text(&mut url, "column_ids=", opt_string_ref(&self.column_ids));
        push_field_text(&mut url, "member_ids=", opt_string_ref(&self.member_ids));
        push_field_text(&mut url, "owner_ids=", opt_string_ref(&self.owner_ids));
        push_field_text(&mut url, "responsible_ids=", opt_string_ref(&self.responsible_ids));
        push_field_u32(&mut url, "space_id=", config.get_space_id());
        push_field_u32(&mut url, "limit=", self.limit);
        push_field_u32(&mut url, "offset=", self.offset);
        push_field_u32(&mut url, "order_space_id=", self.order_space_id);
        push_field_u32(&mut url, "column_id=", self.column_id);
        push_field_u32(&mut url, "lane_id=", self.lane_id);
        push_field_u32(&mut url, "type_id=", self.type_id);
        push_field_u32(&mut url, "responsible_id=", self.responsible_id);
        push_field_u32(&mut url, "owner_id=", self.owner_id);
        push_field_bool(&mut url, "archived=", self.archived);
        push_field_bool(&mut url, "asap=", self.asap);
        push_field_bool(&mut url, "overdue=", self.overdue);
        push_field_bool(&mut url, "done_on_time=", self.done_on_time);
        push_field_bool(&mut url, "with_due_date=", self.with_due_date);
        proof {
            assert(url@ == ls_query_raw(self, config));
        }
        let n = url.as_str().unicode_len();
        if n > 0 && url.as_str().get_char(n - 1) == '&' {
            let trimmed = url.as_str().substring_char(0, n - 1).to_owned();
            proof {
                assert(trimmed@ =~= ls_query(self, config));
            }
            trimmed
        } else {
            url
        }
    }
}

/// Accepts an ISO 8601 date argument. Validation is left to the service; the
/// text is passed through as it stands.
pub fn validate_iso8601(s: &str) -> (r: Result<String, String>)
    ensures
        match r {
            Result::Ok(v) => v@ == s@,
            Result::Err(_) => false,
        },
{
    Result::Ok(s.to_owned())
}

/// The card subcommands the CLI dispatches on.
#[derive(Debug)]
pub enum CardCommands {
    Ls(Ls),
    Get { card_id: u32 },
    Edit {
        card_id: u32,
        description: Option<String>,
        add_description: Option<String>,
        title: Option<String>,
        column_id: Option<u32>,
        lane_id: Option<u32>,
    },
    New {},
    Mv { card_id: u32, column_id: u32, lane_id: u32, add_responsible: Option<String> },
    Parents { card_id: u32 },
    Childrens { card_id: u32 },
}

/// The relative URL of one card.
pub open spec fn spec_card_path(card_id: u32) -> Seq<char> {
    "cards/"@ + spec_nat_digits(card_id as nat)
}

pub fn card_path(card_id: u32) -> (r: String)
    ensures
        r@ == spec_card_path(card_id),
{
    let mut url = "cards/".to_owned();
    url.append(u32_to_string(card_id).as_str());
    url
}

/// The card command as dispatched from the CLI.
#[derive(Debug)]
pub struct Card {
    pub command: CardCommands,
}

/// The relative URL a card command is served from: the listing query for a
/// listing, the card's own path for every command on one card, and nothing
/// for the interactive creation flow.
pub open spec fn spec_card_url(cmd: &CardCommands, cfg: &Config) -> Seq<char> {
    match cmd {
        CardCommands::Ls(ls) => ls_query(ls, cfg),
        CardCommands::Get { card_id } => spec_card_path(*card_id),
        CardCommands::Edit { card_id, .. } => spec_card_path(*card_id),
        CardCommands::Mv { card_id, .. } => spec_card_path(*card_id),
        CardCommands::Parents { card_id } => spec_card_path(*card_id),
        CardCommands::Childrens { card_id } => spec_card_path(*card_id),
        CardCommands::New {  } => Seq::empty(),
    }
}

impl Card {
    pub fn get_url(&self, config: &Config) -> (r: String)
        ensures
            r@ == spec_card_url(&self.command, config),
    {
        match &self.command {
            CardCommands::Ls(ls) => ls.get_url(config),
            CardCommands::Get { card_id } => card_path(*card_id),
            CardCommands::Edit { card_id, .. } => card_path(*card_id),
            CardCommands::Mv { card_id, .. } => card_path(*card_id),
            CardCommands::Parents { card_id } => card_path(*card_id),
            CardCommands::Childrens { card_id } => card_path(*card_id),
            CardCommands::New {  } => {
                let r = String::new();
                proof {
                    assert(r@ =~= Seq::<char>::empty());
                }
                r
            },
        }
    }
}

} // verus!
