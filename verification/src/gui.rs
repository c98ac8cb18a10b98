//! The patcher window's state, and how it changes with each user action.
//!
//! Each message yields an [`Effect`]: the outside work (a folder dialog, a check of the game
//! directory, a patch, a restore, moving the focus) that the window must carry out next.

use vstd::prelude::*;
use vstd::string::StringExecFns;
use crate::text::{decimal, parse_u32, parse_u32_spec, str_chars, trim, trim_ws, u32_to_string};

verus! {

/// What the user did.
#[derive(Debug)]
pub enum Message {
    GamePathChanged(String),
    BrowseGamePath,
    GamePathSelected(Option<String>),
    CustomWidthChanged(String),
    CustomHeightChanged(String),
    ApplyPatch,
    RestoreDefault,
    OperationComplete(Result<(), String>),
    /// Tab (+1) or Shift+Tab (-1).
    TabPressed(i32),
}

#[derive(Debug, Clone, Copy, PartialEq, Eq, Structural)]
pub enum OperationKind {
    ApplyPatch,
    RestoreDefault,
}

#[derive(Debug, Clone, Copy, PartialEq, Eq, Structural)]
pub enum StatusKind {
    Success,
    Error,
}

/// The banner shown after an operation.
#[derive(Debug)]
pub struct StatusMessage {
    pub text: String,
    pub kind: StatusKind,
}

/// The outside work the window must do next.
#[derive(Debug)]
pub enum Effect {
    Nothing,
    /// Ask the user for a folder, then send `GamePathSelected`.
    PickFolder,
    /// Check the directory this text names, then call `apply_validation`.
    ValidateGamePath(String),
    /// Patch the installation this text names to `width`×`height`, then send
    /// `OperationComplete`.
    ApplyPatch { game_path: String, width: u32, height: u32 },
    /// Restore the installation this text names, then send `OperationComplete`.
    RestoreDefault { game_path: String },
    /// Focus the input with this id.
    Focus(String),
}

/// What the window shows below the game path.
#[derive(Debug, Clone, Copy, PartialEq, Eq, Structural)]
pub enum PathStatus {
    ValidGogVersion,
    InvalidVersion,
    InvalidDirectory,
    NoDirectory,
}

/// The window's state.
pub struct SettlersPatcher {
    pub game_path: String,
    pub game_path_valid: bool,
    pub custom_width: String,
    pub custom_height: String,
    pub custom_width_parsed: Option<u32>,
    pub custom_height_parsed: Option<u32>,
    pub is_valid_gog_version: bool,
    pub is_processing: bool,
    pub status_message: Option<StatusMessage>,
    pub last_operation: Option<OperationKind>,
    pub focusable_ids: Vec<String>,
    pub current_focus_index: Option<usize>,
}

/// The ids of the inputs, in focus order.
pub open spec fn focus_order() -> Seq<Seq<char>> {
    seq!["game_path"@, "custom_width"@, "custom_height"@]
}

/// A typed dimension, when it parses (after trimming) as a `u32` within `min..=max`.
pub open spec fn parsed_dimension(text: Seq<char>, min: u32, max: u32) -> Option<u32> {
    match parse_u32_spec(trim_ws(text)) {
        Some(v) => if min <= v <= max {
            Some(v)
        } else {
            None
        },
        None => None,
    }
}

/// Where Tab (`direction` +1) or Shift+Tab (-1) moves the focus among `len` inputs: on from the
/// current one, wrapping around at either end; to the first when none has it.
pub open spec fn next_focus(current: Option<usize>, direction: i32, len: int) -> int {
    match current {
        Some(i) => {
            let n = i + direction;
            if n < 0 {
                len - 1
            } else if n >= len {
                0
            } else {
                n
            }
        },
        None => 0,
    }
}

/// A number typed as its decimal digits is accepted exactly when it lies in `min..=max`, and is
/// then taken as typed.
pub proof fn lemma_dimension_round_trip(v: u32, min: u32, max: u32)
    ensures
        min <= v <= max ==> parsed_dimension(decimal(v as nat), min, max) == Some(v),
        !(min <= v <= max) ==> parsed_dimension(decimal(v as nat), min, max) is None,
{
    crate::text::lemma_trim_decimal(v as nat);
    crate::text::lemma_parse_decimal(v);
}

/// Tab moves to the next input and Shift+Tab to the previous one, going round the three: from
/// input `i` the focus goes to `(i + d + 3) % 3`; with no input focused, to the first.
pub proof fn lemma_tab_order(i: usize, d: i32)
    requires
        i < 3,
        d == 1 || d == -1,
    ensures
        next_focus(Some(i), d, 3) == (i + d + 3) % 3,
        next_focus(None, d, 3) == 0,
        d == -1 && i > 0 ==> next_focus(Some(i), d, 3) == i - 1,
        d == 1 && i < 2 ==> next_focus(Some(i), d, 3) == i + 1,
{
}

/// The banner text for a successful operation.
pub open spec fn success_text(op: Option<OperationKind>) -> Seq<char> {
    match op {
        Some(OperationKind::ApplyPatch) => "Patch applied successfully. Launch the game to verify."@,
        Some(OperationKind::RestoreDefault) => "Restored to the default resolution."@,
        None => "Operation completed."@,
    }
}

/// The window's state (`s`) is unchanged but for the fields listed.
pub open spec fn same_paths(a: &SettlersPatcher, b: &SettlersPatcher) -> bool {
    &&& a.game_path@ == b.game_path@
    &&& a.game_path_valid == b.game_path_valid
    &&& a.is_valid_gog_version == b.is_valid_gog_version
}

pub open spec fn same_resolution(a: &SettlersPatcher, b: &SettlersPatcher) -> bool {
    &&& a.custom_width@ == b.custom_width@
    &&& a.custom_height@ == b.custom_height@
    &&& a.custom_width_parsed == b.custom_width_parsed
    &&& a.custom_height_parsed == b.custom_height_parsed
}

pub open spec fn same_operation(a: &SettlersPatcher, b: &SettlersPatcher) -> bool {
    &&& a.is_processing == b.is_processing
    &&& a.last_operation == b.last_operation
    &&& a.status_message == b.status_message
}

pub open spec fn same_focus(a: &SettlersPatcher, b: &SettlersPatcher) -> bool {
    &&& a.focusable_ids@.map_values(|s: String| s@) == b.focusable_ids@.map_values(|s: String| s@)
    &&& a.current_focus_index == b.current_focus_index
}

impl SettlersPatcher {
    /// The focus list is the three inputs, and the focus, if any, is on one of them.
    pub open spec fn wf(&self) -> bool {
        &&& self.focusable_ids@.map_values(|s: String| s@) == focus_order()
        &&& match self.current_focus_index {
            Some(i) => i < 3,
            None => true,
        }
    }

    /// The typed dimensions and their parsed values agree, and a version is only recognised in a
    /// valid installation. Every message keeps this (see [`SettlersPatcher::update`]); the
    /// starting state has it when the screen size lies within the accepted ranges.
    pub open spec fn consistent(&self) -> bool {
        &&& self.custom_width_parsed == parsed_dimension(self.custom_width@, 800, 7680)
        &&& self.custom_height_parsed == parsed_dimension(self.custom_height@, 600, 4320)
        &&& self.is_valid_gog_version ==> self.game_path_valid
    }

    /// The starting state: the detected installation path (or none) and the detected screen
    /// size as the requested resolution. When a path was detected it is checked first.
    pub fn new(detected_game_path: Option<String>, screen: (u32, u32)) -> (r: (Self, Effect))
        ensures
            r.0.wf(),
            r.0.game_path@ == match detected_game_path {
                Some(p) => p@,
                None => Seq::<char>::empty(),
            },
            !r.0.game_path_valid,
            !r.0.is_valid_gog_version,
            r.0.custom_width@ == decimal(screen.0 as nat),
            r.0.custom_height@ == decimal(screen.1 as nat),
            r.0.custom_width_parsed == Some(screen.0),
            r.0.custom_height_parsed == Some(screen.1),
            !r.0.is_processing,
            r.0.status_message is None,
            r.0.last_operation is None,
            r.0.current_focus_index is None,
            r.0.game_path@.len() > 0 ==> (r.1 matches Effect::ValidateGamePath(p) && p@
                == r.0.game_path@),
            r.0.game_path@.len() == 0 ==> r.1 is Nothing,
            800 <= screen.0 <= 7680 && 600 <= screen.1 <= 4320 ==> r.0.consistent(),
    {
        proof {
            crate::text::lemma_trim_decimal(screen.0 as nat);
            crate::text::lemma_trim_decimal(screen.1 as nat);
            crate::text::lemma_parse_decimal(screen.0);
            crate::text::lemma_parse_decimal(screen.1);
        }
        let game_path = match detected_game_path {
            Some(p) => p,
            None => String::new(),
        };
        let ids = vec![
            String::from_str("game_path"),
            String::from_str("custom_width"),
            String::from_str("custom_height"),
        ];
        assert(ids@.map_values(|s: String| s@) =~= focus_order());
        let effect = if game_path.as_str().is_empty() {
            Effect::Nothing
        } else {
            Effect::ValidateGamePath(game_path.clone())
        };
        let app = SettlersPatcher {
            game_path,
            game_path_valid: false,
            custom_width: u32_to_string(screen.0),
            custom_height: u32_to_string(screen.1),
            custom_width_parsed: Some(screen.0),
            custom_height_parsed: Some(screen.1),
            is_valid_gog_version: false,
            is_processing: false,
            status_message: None,
            last_operation: None,
            focusable_ids: ids,
            current_focus_index: None,
        };
        (app, effect)
    }

    /// Records the result of checking the game directory: whether it is a complete
    /// installation, and whether its `S4.exe` is a known GOG version (only looked at when it is).
    pub fn apply_validation(&mut self, dir_valid: bool, gog_valid: bool)
        ensures
            final(self).game_path_valid == dir_valid,
            final(self).is_valid_gog_version == (dir_valid && gog_valid),
            old(self).consistent() ==> final(self).consistent(),
            final(self).game_path@ == old(self).game_path@,
            same_resolution(&*final(self), &*old(self)),
            same_operation(&*final(self), &*old(self)),
            same_focus(&*final(self), &*old(self)),
    {
        self.game_path_valid = dir_valid;
        self.is_valid_gog_version = dir_valid && gog_valid;
    }

    /// The requested resolution, when both dimensions are valid.
    pub fn get_active_resolution(&self) -> (r: Option<(u32, u32)>)
        ensures
            r == match (self.custom_width_parsed, self.custom_height_parsed) {
                (Some(w), Some(h)) => Some((w, h)),
                _ => None,
            },
    {
        match (self.custom_width_parsed, self.custom_height_parsed) {
            (Some(w), Some(h)) => Some((w, h)),
            _ => None,
        }
    }

    /// Re-reads both typed dimensions: the width must be in 800..=7680, the height in 600..=4320.
    pub fn validate_custom_resolution(&mut self)
        ensures
            final(self).custom_width_parsed == parsed_dimension(old(self).custom_width@, 800, 7680),
            final(self).custom_height_parsed == parsed_dimension(
                old(self).custom_height@,
                600,
                4320,
            ),
            final(self).custom_width@ == old(self).custom_width@,
            final(self).custom_height@ == old(self).custom_height@,
            same_paths(&*final(self), &*old(self)),
            same_operation(&*final(self), &*old(self)),
            same_focus(&*final(self), &*old(self)),
    {
        self.custom_width_parsed = parse_dimension(self.custom_width.as_str(), 800, 7680);
        self.custom_height_parsed = parse_dimension(self.custom_height.as_str(), 600, 4320);
    }

    /// Whether "Apply Patch" can be pressed.
    pub fn can_apply(&self) -> (r: bool)
        ensures
            r == (self.is_valid_gog_version && self.custom_width_parsed is Some
                && self.custom_height_parsed is Some && !self.is_processing),
    {
        self.is_valid_gog_version && self.custom_width_parsed.is_some()
            && self.custom_height_parsed.is_some() && !self.is_processing
    }

    /// Whether "Restore to Default" can be pressed.
    pub fn can_restore(&self) -> (r: bool)
        ensures
            r == (self.game_path_valid && !self.is_processing),
    {
        self.game_path_valid && !self.is_processing
    }

    /// What the window says of the game path.
    pub fn path_status(&self) -> (r: PathStatus)
        ensures
            r == if self.game_path_valid {
                if self.is_valid_gog_version {
                    PathStatus::ValidGogVersion
                } else {
                    PathStatus::InvalidVersion
                }
            } else if self.game_path@.len() > 0 {
                PathStatus::InvalidDirectory
            } else {
                PathStatus::NoDirectory
            },
    {
        if self.game_path_valid {
            if self.is_valid_gog_version {
                PathStatus::ValidGogVersion
            } else {
                PathStatus::InvalidVersion
            }
        } else if !self.game_path.as_str().is_empty() {
            PathStatus::InvalidDirectory
        } else {
            PathStatus::NoDirectory
        }
    }

    /// The new state after `message`, and the outside work it calls for.
    pub fn update(&mut self, message: Message) -> (effect: Effect)
        requires
            old(self).wf(),
            message matches Message::TabPressed(d) ==> match old(self).current_focus_index {
                Some(i) => i + d <= i32::MAX,
                None => true,
            },
        ensures
            final(self).wf(),
            old(self).consistent() ==> final(self).consistent(),
            match message {
                Message::TabPressed(d) => (d == 1 || d == -1) ==> match old(
                    self,
                ).current_focus_index {
                    Some(i) => final(self).current_focus_index == Some(((i + d + 3) % 3) as usize),
                    None => final(self).current_focus_index == Some(0usize),
                },
                _ => true,
            },
            match message {
                Message::GamePathChanged(p) => {
                    &&& final(self).game_path@ == p@
                    &&& final(self).game_path_valid == old(self).game_path_valid
                    &&& final(self).is_valid_gog_version == old(self).is_valid_gog_version
                    &&& same_resolution(&*final(self), &*old(self))
                    &&& same_operation(&*final(self), &*old(self))
                    &&& same_focus(&*final(self), &*old(self))
                    &&& effect matches Effect::ValidateGamePath(q) && q@ == p@
                },
                Message::BrowseGamePath => {
                    &&& same_paths(&*final(self), &*old(self))
                    &&& same_resolution(&*final(self), &*old(self))
                    &&& same_operation(&*final(self), &*old(self))
                    &&& same_focus(&*final(self), &*old(self))
                    &&& effect is PickFolder
                },
                Message::GamePathSelected(sel) => match sel {
                    Some(p) => {
                        &&& final(self).game_path@ == p@
                        &&& final(self).game_path_valid == old(self).game_path_valid
                        &&& final(self).is_valid_gog_version == old(self).is_valid_gog_version
                        &&& same_resolution(&*final(self), &*old(self))
                        &&& same_operation(&*final(self), &*old(self))
                        &&& same_focus(&*final(self), &*old(self))
                        &&& effect matches Effect::ValidateGamePath(q) && q@ == p@
                    },
                    None => {
                        &&& same_paths(&*final(self), &*old(self))
                        &&& same_resolution(&*final(self), &*old(self))
                        &&& same_operation(&*final(self), &*old(self))
                        &&& same_focus(&*final(self), &*old(self))
                        &&& effect is Nothing
                    },
                },
                Message::CustomWidthChanged(v) => {
                    &&& final(self).custom_width@ == v@
                    &&& final(self).custom_height@ == old(self).custom_height@
                    &&& final(self).custom_width_parsed == parsed_dimension(v@, 800, 7680)
                    &&& final(self).custom_height_parsed == parsed_dimension(
                        old(self).custom_height@,
                        600,
                        4320,
                    )
                    &&& same_paths(&*final(self), &*old(self))
                    &&& same_operation(&*final(self), &*old(self))
                    &&& same_focus(&*final(self), &*old(self))
                    &&& effect is Nothing
                },
                Message::CustomHeightChanged(v) => {
                    &&& final(self).custom_height@ == v@
                    &&& final(self).custom_width@ == old(self).custom_width@
                    &&& final(self).custom_width_parsed == parsed_dimension(
                        old(self).custom_width@,
                        800,
                        7680,
                    )
                    &&& final(self).custom_height_parsed == parsed_dimension(v@, 600, 4320)
                    &&& same_paths(&*final(self), &*old(self))
                    &&& same_operation(&*final(self), &*old(self))
                    &&& same_focus(&*final(self), &*old(self))
                    &&& effect is Nothing
                },
                Message::ApplyPatch => match (
                    old(self).custom_width_parsed,
                    old(self).custom_height_parsed,
                ) {
                    (Some(w), Some(h)) => {
                        &&& final(self).is_processing
                        &&& final(self).status_message is None
                        &&& final(self).last_operation == Some(OperationKind::ApplyPatch)
                        &&& same_paths(&*final(self), &*old(self))
                        &&& same_resolution(&*final(self), &*old(self))
                        &&& same_focus(&*final(self), &*old(self))
                        &&& effect matches Effect::ApplyPatch { game_path, width, height }
                            && game_path@ == old(self).game_path@ && width == w && height == h
                    },
                    _ => {
                        &&& same_paths(&*final(self), &*old(self))
                        &&& same_resolution(&*final(self), &*old(self))
                        &&& same_operation(&*final(self), &*old(self))
                        &&& same_focus(&*final(self), &*old(self))
                        &&& effect is Nothing
                    },
                },
                Message::RestoreDefault => {
                    &&& final(self).is_processing
                    &&& final(self).status_message is None
                    &&& final(self).last_operation == Some(OperationKind::RestoreDefault)
                    &&& same_paths(&*final(self), &*old(self))
                    &&& same_resolution(&*final(self), &*old(self))
                    &&& same_focus(&*final(self), &*old(self))
                    &&& effect matches Effect::RestoreDefault { game_path }
                        && game_path@ == old(self).game_path@
                },
                Message::OperationComplete(result) => {
                    &&& !final(self).is_processing
                    &&& final(self).last_operation == old(self).last_operation
                    &&& same_paths(&*final(self), &*old(self))
                    &&& same_resolution(&*final(self), &*old(self))
                    &&& same_focus(&*final(self), &*old(self))
                    &&& match result {
                        Ok(()) => {
                            &&& final(self).status_message matches Some(st) && st.kind
                                == StatusKind::Success && st.text@ == success_text(
                                old(self).last_operation,
                            )
                            &&& effect matches Effect::ValidateGamePath(q) && q@ == old(
                                self,
                            ).game_path@
                        },
                        Err(e) => {
                            &&& final(self).status_message matches Some(st) && st.kind
                                == StatusKind::Error && st.text@ == "Operation failed: "@ + e@
                            &&& effect is Nothing
                        },
                    }
                },
                Message::TabPressed(d) => {
                    let k = next_focus(old(self).current_focus_index, d, 3);
                    &&& final(self).current_focus_index == Some(k as usize)
                    &&& same_paths(&*final(self), &*old(self))
                    &&& same_resolution(&*final(self), &*old(self))
                    &&& same_operation(&*final(self), &*old(self))
                    &&& effect matches Effect::Focus(id) && id@ == focus_order()[k]
                },
            },
    {
        match message {
            Message::GamePathChanged(path) => {
                self.game_path = path;
                Effect::ValidateGamePath(self.game_path.clone())
            },
            Message::BrowseGamePath => Effect::PickFolder,
            Message::GamePathSelected(selected) => match selected {
                Some(path) => {
                    self.game_path = path;
                    Effect::ValidateGamePath(self.game_path.clone())
                },
                None => Effect::Nothing,
            },
            Message::CustomWidthChanged(value) => {
                self.custom_width = value;
                self.validate_custom_resolution();
                Effect::Nothing
            },
            Message::CustomHeightChanged(value) => {
                self.custom_height = value;
                self.validate_custom_resolution();
                Effect::Nothing
            },
            Message::ApplyPatch => {
                let (width, height) = match self.get_active_resolution() {
                    Some(res) => res,
                    None => return Effect::Nothing,
                };
                self.is_processing = true;
                self.status_message = None;
                self.last_operation = Some(OperationKind::ApplyPatch);
                Effect::ApplyPatch { game_path: self.game_path.clone(), width, height }
            },
            Message::RestoreDefault => {
                self.is_processing = true;
                self.status_message = None;
                self.last_operation = Some(OperationKind::RestoreDefault);
                Effect::RestoreDefault { game_path: self.game_path.clone() }
            },
            Message::OperationComplete(result) => {
                self.is_processing = false;
                match result {
                    Ok(()) => {
                        let text = match self.last_operation {
                            Some(OperationKind::ApplyPatch) => String::from_str(
                                "Patch applied successfully. Launch the game to verify.",
                            ),
                            Some(OperationKind::RestoreDefault) => String::from_str(
                                "Restored to the default resolution.",
                            ),
                            None => String::from_str("Operation completed."),
                        };
                        self.status_message = Some(
                            StatusMessage { text, kind: StatusKind::Success },
                        );
                        Effect::ValidateGamePath(self.game_path.clone())
                    },
                    Err(e) => {
                        let mut text = String::from_str("Operation failed: ");
                        text.append(e.as_str());
                        self.status_message = Some(StatusMessage { text, kind: StatusKind::Error });
                        Effect::Nothing
                    },
                }
            },
            Message::TabPressed(direction) => {
                let len: usize = self.focusable_ids.len();
                assert(self.focusable_ids@.map_values(|s: String| s@).len() == len);
                assert(len == 3);
                let new_index: usize = match self.current_focus_index {
                    Some(index) => {
                        let new_idx: i64 = index as i64 + direction as i64;
                        if new_idx < 0 {
                            len - 1
                        } else if new_idx >= len as i64 {
                            0
                        } else {
                            new_idx as usize
                        }
                    },
                    None => 0,
                };
                self.current_focus_index = Some(new_index);
                let ghost ids = self.focusable_ids@.map_values(|s: String| s@);
                assert(new_index < 3);
                assert(ids[new_index as int] == self.focusable_ids@[new_index as int]@);
                Effect::Focus(self.focusable_ids[new_index].clone())
            },
        }
    }
}

/// A typed dimension (see [`parsed_dimension`]).
pub fn parse_dimension(text: &str, min: u32, max: u32) -> (r: Option<u32>)
    ensures
        r == parsed_dimension(text@, min, max),
{
    let cs = str_chars(text);
    let t = trim(cs.as_slice());
    match parse_u32(t.as_slice()) {
        Some(v) => if min <= v && v <= max {
            Some(v)
        } else {
            None
        },
        None => None,
    }
}

} // verus!
