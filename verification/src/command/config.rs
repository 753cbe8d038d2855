use vstd::prelude::*;

use crate::models::config::{Config as ModelsConfig, ConfigV};

verus! {

/// The config subcommands: create the config file, set values in it, or show
/// it. Creating and setting share the same argument set.
#[derive(Debug)]
pub enum ConfigCommands {
    New(ConfigArgs),
    SetValues(ConfigArgs),
    Show {},
}

/// The values a config command may set; an absent value leaves the stored one
/// untouched.
#[derive(Debug)]
pub struct ConfigArgs {
    pub space_id: Option<u32>,
    pub board_id: Option<u32>,
    pub exclude_board_ids: Option<String>,
    pub exclude_lane_ids: Option<String>,
    pub exclude_column_ids: Option<String>,
}

/// The config command as dispatched from the CLI.
#[derive(Debug)]
pub struct Config {
    pub command: ConfigCommands,
}

impl Config {
    /// Applies the given values to the config: each present argument replaces
    /// the stored field, each absent one leaves it as it was. Persisting the
    /// result is the caller's business.
    pub fn set_config_values(config: &mut ModelsConfig, args: &ConfigArgs)
        ensures
            final(config).deep_view() == (ConfigV {
                space_id: if args.space_id is Some {
                    args.space_id
                } else {
                    old(config).deep_view().space_id
                },
                board_id: if args.board_id is Some {
                    args.board_id
                } else {
                    old(config).deep_view().board_id
                },
                exclude_board_ids: if args.exclude_board_ids is Some {
                    args.exclude_board_ids.deep_view()
                } else {
                    old(config).deep_view().exclude_board_ids
                },
                exclude_lane_ids: if args.exclude_lane_ids is Some {
                    args.exclude_lane_ids.deep_view()
                } else {
                    old(config).deep_view().exclude_lane_ids
                },
                exclude_column_ids: if args.exclude_column_ids is Some {
                    args.exclude_column_ids.deep_view()
                } else {
                    old(config).deep_view().exclude_column_ids
                },
            }),
    {
        match args.space_id {
            Option::Some(space_id) => config.set_space_id(space_id),
            Option::None => {},
        }
        match args.board_id {
            Option::Some(board_id) => config.set_board_id(board_id),
            Option::None => {},
        }
        match &args.exclude_board_ids {
            Option::Some(exclude_board_ids) => config.set_exclude_board_ids(
                exclude_board_ids.clone(),
            ),
            Option::None => {},
        }
        match &args.exclude_lane_ids {
            Option::Some(exclude_lane_ids) => config.set_exclude_lane_ids(
                exclude_lane_ids.clone(),
            ),
            Option::None => {},
        }
        match &args.exclude_column_ids {
            Option::Some(exclude_column_ids) => config.set_exclude_column_ids(
                exclude_column_ids.clone(),
            ),
            Option::None => {},
        }
    }
}

} // verus!
