use vstd::prelude::*;

verus! {

/// The user's preferences: a default space and board, and comma-joined id
/// lists to exclude from card listings, kept as strings ready for query-string
/// reuse. Every field is optional; absence means no default or filter.
#[derive(Debug, PartialEq)]
pub struct Config {
    space_id: Option<u32>,
    board_id: Option<u32>,
    exclude_board_ids: Option<String>,
    exclude_lane_ids: Option<String>,
    exclude_column_ids: Option<String>,
}

pub struct ConfigV {
    pub space_id: Option<u32>,
    pub board_id: Option<u32>,
    pub exclude_board_ids: Option<Seq<char>>,
    pub exclude_lane_ids: Option<Seq<char>>,
    pub exclude_column_ids: Option<Seq<char>>,
}

impl DeepView for Config {
    type V = ConfigV;

    closed spec fn deep_view(&self) -> ConfigV {
        ConfigV {
            space_id: self.space_id,
            board_id: self.board_id,
            exclude_board_ids: self.exclude_board_ids.deep_view(),
            exclude_lane_ids: self.exclude_lane_ids.deep_view(),
            exclude_column_ids: self.exclude_column_ids.deep_view(),
        }
    }
}

impl Config {
    /// The defaults: no field set. They apply silently when no config file
    /// exists.
    pub fn new() -> (r: Config)
        ensures
            r.deep_view() == (ConfigV {
                space_id: Option::None,
                board_id: Option::None,
                exclude_board_ids: Option::None,
                exclude_lane_ids: Option::None,
                exclude_column_ids: Option::None,
            }),
    {
        Config {
            space_id: Option::None,
            board_id: Option::None,
            exclude_board_ids: Option::None,
            exclude_lane_ids: Option::None,
            exclude_column_ids: Option::None,
        }
    }

    /// A config built from its parts, as the config file hands them over.
    pub fn from_parts(
        space_id: Option<u32>,
        board_id: Option<u32>,
        exclude_board_ids: Option<String>,
        exclude_lane_ids: Option<String>,
        exclude_column_ids: Option<String>,
    ) -> (r: Config)
        ensures
            r.deep_view() == (ConfigV {
                space_id,
                board_id,
                exclude_board_ids: exclude_board_ids.deep_view(),
                exclude_lane_ids: exclude_lane_ids.deep_view(),
                exclude_column_ids: exclude_column_ids.deep_view(),
            }),
    {
        Config { space_id, board_id, exclude_board_ids, exclude_lane_ids, exclude_column_ids }
    }

    pub fn get_space_id(&self) -> (r: Option<u32>)
        ensures
            r == self.deep_view().space_id,
    {
        self.space_id
    }

    pub fn get_board_id(&self) -> (r: Option<u32>)
        ensures
            r == self.deep_view().board_id,
    {
        self.board_id
    }

    pub fn get_exclude_board_ids(&self) -> (r: Option<&String>)
        ensures
            match r {
                Option::Some(s) => self.deep_view().exclude_board_ids == Option::Some(s@),
                Option::None => self.deep_view().exclude_board_ids is None,
            },
    {
        self.exclude_board_ids.as_ref()
    }

    pub fn get_exclude_column_ids(&self) -> (r: Option<&String>)
        ensures
            match r {
                Option::Some(s) => self.deep_view().exclude_column_ids == Option::Some(s@),
                Option::None => self.deep_view().exclude_column_ids is None,
            },
    {
        self.exclude_column_ids.as_ref()
    }

    pub fn get_exclude_lane_ids(&self) -> (r: Option<&String>)
        ensures
            match r {
                Option::Some(s) => self.deep_view().exclude_lane_ids == Option::Some(s@),
                Option::None => self.deep_view().exclude_lane_ids is None,
            },
    {
        self.exclude_lane_ids.as_ref()
    }

    pub fn set_space_id(&mut self, space_id: u32)
        ensures
            final(self).deep_view() == (ConfigV {
                space_id: Option::Some(space_id),
                ..old(self).deep_view()
            }),
    {
        self.space_id = Option::Some(space_id);
    }

    pub fn set_board_id(&mut self, board_id: u32)
        ensures
            final(self).deep_view() == (ConfigV {
                board_id: Option::Some(board_id),
                ..old(self).deep_view()
            }),
    {
        self.board_id = Option::Some(board_id);
    }

    pub fn set_exclude_board_ids(&mut self, exclude_board_ids: String)
        ensures
            final(self).deep_view() == (ConfigV {
                exclude_board_ids: Option::Some(exclude_board_ids@),
                ..old(self).deep_view()
            }),
    {
        self.exclude_board_ids = Option::Some(exclude_board_ids);
    }

    pub fn set_exclude_column_ids(&mut self, exclude_column_ids: String)
        ensures
            final(self).deep_view() == (ConfigV {
                exclude_column_ids: Option::Some(exclude_column_ids@),
                ..old(self).deep_view()
            }),
    {
        self.exclude_column_ids = Option::Some(exclude_column_ids);
    }

    pub fn set_exclude_lane_ids(&mut self, exclude_lane_ids: String)
        ensures
            final(self).deep_view() == (ConfigV {
                exclude_lane_ids: Option::Some(exclude_lane_ids@),
                ..old(self).deep_view()
            }),
    {
        self.exclude_lane_ids = Option::Some(exclude_lane_ids);
    }

    /// Applies the per-invocation overrides. A value given on the command line
    /// wins; otherwise an id supplied through the environment applies; and
    /// with neither, the loaded or default value stands. The space and the
    /// board override are independent of each other. The caller reads the
    /// environment and hands the parsed id in, so one environment value backs
    /// both fields, as the original `SPACE_ID` variable did.
    pub fn update(&mut self, space_id: Option<u32>, board_id: Option<u32>, env_id: Option<u32>)
        ensures
            final(self).deep_view() == (ConfigV {
                space_id: if space_id is Some {
                    space_id
                } else if env_id is Some {
                    env_id
                } else {
                    old(self).deep_view().space_id
                },
                board_id: if board_id is Some {
                    board_id
                } else if env_id is Some {
                    env_id
                } else {
                    old(self).deep_view().board_id
                },
                ..old(self).deep_view()
            }),
    {
        match space_id {
            Option::Some(id) => self.set_space_id(id),
            Option::None => {
                match env_id {
                    Option::Some(id) => self.set_space_id(id),
                    Option::None => {},
                }
            },
        }
        match board_id {
            Option::Some(id) => self.set_board_id(id),
            Option::None => {
                match env_id {
                    Option::Some(id) => self.set_board_id(id),
                    Option::None => {},
                }
            },
        }
    }
}

} // verus!
