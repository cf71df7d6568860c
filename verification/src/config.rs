//! The settings of a world and the `set` items that change them.

use vstd::prelude::*;
use crate::ant::behavior_wf;
use crate::ant::border_mode_of;
use crate::ant::color_mode_of;
use crate::ant::starting_pos_of;
use crate::ant::Behavior;
use crate::ant::BehaviorView;
use crate::ant::BorderMode;
use crate::ant::ColorMode;
use crate::ant::StartingPos;
use crate::error::CompileError;
use crate::error::ErrorKind;
use crate::error::at;
use crate::error::ErrorView;
use crate::error::bare;
use crate::text::str_eq;
use crate::token::Token;
use crate::token::TokenView;

verus! {

/// The largest frame rate that `fps` takes.
pub const FPS_CAP: u32 = 60;

/// The largest width and height.
pub const SIZE_CAP: u32 = 0x100;

/// The largest number of ticks per frame that `speed` takes.
pub const SPEED_CAP: u32 = 0x2000;

/// How a world is laid out and run.
#[derive(Debug)]
pub struct WorldConfig {
    pub width: usize,
    pub height: usize,
    pub fps: Option<u32>,
    pub speed: Option<u32>,
    pub ticks: Option<u32>,
    pub looping: bool,
    pub border_mode: BorderMode,
    pub starting_pos: StartingPos,
    pub color_mode: ColorMode,
    pub noise_seed: Option<u32>,
    pub description: String,
}

pub struct WorldConfigView {
    pub width: usize,
    pub height: usize,
    pub fps: Option<u32>,
    pub speed: Option<u32>,
    pub ticks: Option<u32>,
    pub looping: bool,
    pub border_mode: BorderMode,
    pub starting_pos: StartingPos,
    pub color_mode: ColorMode,
    pub noise_seed: Option<u32>,
    pub description: Seq<char>,
}

impl View for WorldConfig {
    type V = WorldConfigView;

    open spec fn view(&self) -> WorldConfigView {
        WorldConfigView {
            width: self.width,
            height: self.height,
            fps: self.fps,
            speed: self.speed,
            ticks: self.ticks,
            looping: self.looping,
            border_mode: self.border_mode,
            starting_pos: self.starting_pos,
            color_mode: self.color_mode,
            noise_seed: self.noise_seed,
            description: self.description@,
        }
    }
}

/// The settings of a world without `set` items.
pub open spec fn default_config() -> WorldConfigView {
    WorldConfigView {
        width: 32,
        height: 32,
        fps: Some(60u32),
        speed: Some(1u32),
        ticks: None,
        looping: false,
        border_mode: BorderMode::Wrap,
        starting_pos: StartingPos::Center,
        color_mode: ColorMode::RGBI,
        noise_seed: None,
        description: Seq::empty(),
    }
}

impl Default for WorldConfig {
    fn default() -> (r: WorldConfig)
        ensures
            r@ == default_config(),
    {
        WorldConfig {
            width: 32,
            height: 32,
            fps: Some(60),
            speed: Some(1),
            ticks: None,
            looping: false,
            border_mode: BorderMode::Wrap,
            starting_pos: StartingPos::Center,
            color_mode: ColorMode::RGBI,
            noise_seed: None,
            description: String::new(),
        }
    }
}

impl Clone for WorldConfig {
    fn clone(&self) -> (r: WorldConfig)
        ensures
            r@ == self@,
    {
        WorldConfig {
            width: self.width,
            height: self.height,
            fps: self.fps,
            speed: self.speed,
            ticks: self.ticks,
            looping: self.looping,
            border_mode: self.border_mode,
            starting_pos: self.starting_pos,
            color_mode: self.color_mode,
            noise_seed: self.noise_seed,
            description: self.description.clone(),
        }
    }
}

/// `v` held between 1 and `max`.
pub open spec fn clamped(v: u32, max: u32) -> u32 {
    if v < 1 {
        1
    } else if v > max {
        max
    } else {
        v
    }
}

/// The value that a number or bit token sets: nothing for 0, else the
/// number, held between 1 and `max` where there is a `max`.
/// `ParseUnexpected` for any other token.
pub open spec fn number_setting(value: TokenView, max: Option<u32>) -> Result<Option<u32>, ErrorView> {
    match value {
        TokenView::Number(v) => Ok(
            if v == 0 {
                None
            } else {
                Some(
                    match max {
                        None => v,
                        Some(m) => clamped(v, m),
                    },
                )
            },
        ),
        TokenView::Bit(b) => Ok(
            if b {
                Some(1u32)
            } else {
                None
            },
        ),
        _ => Err(bare(ErrorKind::ParseUnexpected)),
    }
}

/// The size that a token sets: a number from 1 to 256. `SettingValue` for 0.
pub open spec fn size_setting(value: TokenView) -> Result<usize, ErrorView> {
    match number_setting(value, Some(SIZE_CAP)) {
        Err(e) => Err(e),
        Ok(None) => Err(bare(ErrorKind::SettingValue)),
        Ok(Some(v)) => Ok(v as usize),
    }
}

/// The settings with one `set` item applied.
///
/// `SettingUnknown` for a key that does not exist, `ParseUnexpected` for a
/// value of the wrong kind of token, `SettingValue` for a size of 0 and for
/// a word that names no mode.
pub open spec fn apply_setting(config: WorldConfigView, key: Seq<char>, value: TokenView) -> Result<
    WorldConfigView,
    ErrorView,
> {
    if key == "width"@ {
        match size_setting(value) {
            Ok(v) => Ok(WorldConfigView { width: v, ..config }),
            Err(e) => Err(e),
        }
    } else if key == "height"@ {
        match size_setting(value) {
            Ok(v) => Ok(WorldConfigView { height: v, ..config }),
            Err(e) => Err(e),
        }
    } else if key == "size"@ {
        match size_setting(value) {
            Ok(v) => Ok(WorldConfigView { width: v, height: v, ..config }),
            Err(e) => Err(e),
        }
    } else if key == "fps"@ {
        match number_setting(value, Some(FPS_CAP)) {
            Ok(v) => Ok(WorldConfigView { fps: v, ..config }),
            Err(e) => Err(e),
        }
    } else if key == "speed"@ {
        match number_setting(value, Some(SPEED_CAP)) {
            Ok(v) => Ok(WorldConfigView { speed: v, ..config }),
            Err(e) => Err(e),
        }
    } else if key == "ticks"@ {
        match number_setting(value, None) {
            Ok(v) => Ok(WorldConfigView { ticks: v, ..config }),
            Err(e) => Err(e),
        }
    } else if key == "seed"@ {
        match number_setting(value, None) {
            Ok(v) => Ok(WorldConfigView { noise_seed: v, ..config }),
            Err(e) => Err(e),
        }
    } else if key == "loop"@ {
        match value {
            TokenView::Bit(b) => Ok(WorldConfigView { looping: b, ..config }),
            _ => Err(at(ErrorKind::ParseUnexpected, key)),
        }
    } else if key == "border"@ {
        match value {
            TokenView::Ident(word) => match border_mode_of(word) {
                Some(mode) => Ok(WorldConfigView { border_mode: mode, ..config }),
                None => Err(at(ErrorKind::SettingValue, word)),
            },
            _ => Err(at(ErrorKind::ParseUnexpected, key)),
        }
    } else if key == "start"@ {
        match value {
            TokenView::Ident(word) => match starting_pos_of(word) {
                Some(pos) => Ok(WorldConfigView { starting_pos: pos, ..config }),
                None => Err(at(ErrorKind::SettingValue, word)),
            },
            _ => Err(at(ErrorKind::ParseUnexpected, key)),
        }
    } else if key == "colors"@ {
        match value {
            TokenView::Ident(word) => match color_mode_of(word) {
                Some(mode) => Ok(WorldConfigView { color_mode: mode, ..config }),
                None => Err(at(ErrorKind::SettingValue, word)),
            },
            _ => Err(at(ErrorKind::ParseUnexpected, key)),
        }
    } else if key == "desc"@ || key == "description"@ {
        match value {
            TokenView::String(text) => Ok(WorldConfigView { description: text, ..config }),
            _ => Err(at(ErrorKind::ParseUnexpected, key)),
        }
    } else {
        Err(at(ErrorKind::SettingUnknown, key))
    }
}

/// A number that a setting took is set again to itself: what `fps`,
/// `speed` or a size holds after `set` is what setting that value once
/// more would hold, and a number from 1 to `max` is taken as it is.
pub proof fn lemma_number_setting_settles(v: u32, max: Option<u32>)
    requires
        max matches Some(m) ==> m >= 1,
    ensures
        number_setting(TokenView::Number(v), max) matches Ok(Some(kept)) ==> number_setting(
            TokenView::Number(kept),
            max,
        ) == Ok::<Option<u32>, ErrorView>(Some(kept)),
        v >= 1 && (max matches Some(m) ==> v <= m) ==> number_setting(TokenView::Number(v), max) == Ok::<
            Option<u32>,
            ErrorView,
        >(Some(v)),
{
}

/// The value that a number or bit token sets.
pub fn next_number(value: &Token, max: Option<u32>) -> (r: Result<Option<u32>, CompileError>)
    ensures
        match r {
            Ok(v) => number_setting(value@, max) == Ok::<Option<u32>, ErrorView>(v),
            Err(e) => number_setting(value@, max) == Err::<Option<u32>, ErrorView>(e@),
        },
{
    match value {
        Token::Number(v) => {
            if *v == 0 {
                Ok(None)
            } else {
                match max {
                    None => Ok(Some(*v)),
                    Some(m) => {
                        if *v < 1 {
                            Ok(Some(1))
                        } else if *v > m {
                            Ok(Some(m))
                        } else {
                            Ok(Some(*v))
                        }
                    },
                }
            }
        },
        Token::Bit(b) => {
            if *b {
                Ok(Some(1))
            } else {
                Ok(None)
            }
        },
        _ => Err(CompileError::new(ErrorKind::ParseUnexpected)),
    }
}

fn next_size(value: &Token) -> (r: Result<usize, CompileError>)
    ensures
        match r {
            Ok(v) => size_setting(value@) == Ok::<usize, ErrorView>(v),
            Err(e) => size_setting(value@) == Err::<usize, ErrorView>(e@),
        },
{
    match next_number(value, Some(SIZE_CAP)) {
        Err(e) => Err(e),
        Ok(None) => Err(CompileError::new(ErrorKind::SettingValue)),
        Ok(Some(v)) => Ok(v as usize),
    }
}

impl WorldConfig {
    /// Applies one `set` item. On an error the settings stay as they are.
    ///
    /// Fails with `SettingUnknown` for a key that does not exist, with
    /// `ParseUnexpected` for a value of the wrong kind of token, and with
    /// `SettingValue` for a size of 0 and for a word that names no mode.
    pub fn set_setting(&mut self, key: String, value: Token) -> (r: Result<(), CompileError>)
        ensures
            match r {
                Ok(()) => apply_setting(old(self)@, key@, value@) == Ok::<WorldConfigView, ErrorView>(
                    final(self)@,
                ),
                Err(e) => apply_setting(old(self)@, key@, value@) == Err::<WorldConfigView, ErrorView>(e@) && final(self)@ == old(self)@,
            },
    {
        let name = key.as_str();
        if str_eq(name, "width") {
            match next_size(&value) {
                Ok(v) => {
                    self.width = v;
                },
                Err(e) => {
                    return Err(e);
                },
            }
        } else if str_eq(name, "height") {
            match next_size(&value) {
                Ok(v) => {
                    self.height = v;
                },
                Err(e) => {
                    return Err(e);
                },
            }
        } else if str_eq(name, "size") {
            match next_size(&value) {
                Ok(v) => {
                    self.width = v;
                    self.height = v;
                },
                Err(e) => {
                    return Err(e);
                },
            }
        } else if str_eq(name, "fps") {
            match next_number(&value, Some(FPS_CAP)) {
                Ok(v) => {
                    self.fps = v;
                },
                Err(e) => {
                    return Err(e);
                },
            }
        } else if str_eq(name, "speed") {
            match next_number(&value, Some(SPEED_CAP)) {
                Ok(v) => {
                    self.speed = v;
                },
                Err(e) => {
                    return Err(e);
                },
            }
        } else if str_eq(name, "ticks") {
            match next_number(&value, None) {
                Ok(v) => {
                    self.ticks = v;
                },
                Err(e) => {
                    return Err(e);
                },
            }
        } else if str_eq(name, "seed") {
            match next_number(&value, None) {
                Ok(v) => {
                    self.noise_seed = v;
                },
                Err(e) => {
                    return Err(e);
                },
            }
        } else if str_eq(name, "loop") {
            match value {
                Token::Bit(b) => {
                    self.looping = b;
                },
                _ => {
                    return Err(CompileError::about(ErrorKind::ParseUnexpected, name));
                },
            }
        } else if str_eq(name, "border") {
            match value {
                Token::Ident(word) => match BorderMode::from_name(word.as_str()) {
                    Ok(mode) => {
                        self.border_mode = mode;
                    },
                    Err(e) => {
                        return Err(e);
                    },
                },
                _ => {
                    return Err(CompileError::about(ErrorKind::ParseUnexpected, name));
                },
            }
        } else if str_eq(name, "start") {
            match value {
                Token::Ident(word) => match StartingPos::from_name(word.as_str()) {
                    Ok(pos) => {
                        self.starting_pos = pos;
                    },
                    Err(e) => {
                        return Err(e);
                    },
                },
                _ => {
                    return Err(CompileError::about(ErrorKind::ParseUnexpected, name));
                },
            }
        } else if str_eq(name, "colors") {
            match value {
                Token::Ident(word) => match ColorMode::from_name(word.as_str()) {
                    Ok(mode) => {
                        self.color_mode = mode;
                    },
                    Err(e) => {
                        return Err(e);
                    },
                },
                _ => {
                    return Err(CompileError::about(ErrorKind::ParseUnexpected, name));
                },
            }
        } else if str_eq(name, "desc") || str_eq(name, "description") {
            match value {
                Token::String(text) => {
                    self.description = text;
                },
                _ => {
                    return Err(CompileError::about(ErrorKind::ParseUnexpected, name));
                },
            }
        } else {
            return Err(CompileError::about(ErrorKind::SettingUnknown, name));
        }
        Ok(())
    }
}

/// What a source file compiles to: the behavior bound to each ant id and
/// the settings.
#[derive(Debug)]
pub struct WorldProperties {
    /// One entry for each id from 0 to 255.
    pub behaviors: Vec<Option<Behavior>>,
    pub config: WorldConfig,
}

pub struct WorldPropertiesView {
    pub behaviors: Seq<Option<BehaviorView>>,
    pub config: WorldConfigView,
}

/// The view of an entry of the behavior table.
pub open spec fn slot_view(slot: Option<Behavior>) -> Option<BehaviorView> {
    match slot {
        Some(b) => Some(b@),
        None => None,
    }
}

impl View for WorldProperties {
    type V = WorldPropertiesView;

    open spec fn view(&self) -> WorldPropertiesView {
        WorldPropertiesView {
            behaviors: self.behaviors@.map_values(|slot: Option<Behavior>| slot_view(slot)),
            config: self.config@,
        }
    }
}

/// A behavior table without behaviors: 256 empty entries.
pub open spec fn no_behaviors() -> Seq<Option<BehaviorView>> {
    Seq::new(256, |i: int| None::<BehaviorView>)
}

/// The longest side that a grid can have: positions are reckoned in 32
/// bits.
pub const SIDE_CAP: usize = 0x7fff_fffe;

/// Whether a world can be made of the properties: the table has 256
/// entries, every behavior in it can drive an ant, the grid has at least
/// one cell, no side is longer than `SIDE_CAP`, and the number of its
/// cells is no more than a list can hold.
pub open spec fn properties_wf(p: WorldPropertiesView) -> bool {
    &&& p.behaviors.len() == 256
    &&& forall|i: int|
        0 <= i < 256 ==> ((#[trigger] p.behaviors[i]) matches Some(b) ==> behavior_wf(b))
    &&& 1 <= p.config.width <= SIDE_CAP
    &&& 1 <= p.config.height <= SIDE_CAP
    &&& p.config.width * p.config.height <= usize::MAX
}

impl WorldProperties {
    /// Whether a world can be made of the properties.
    pub fn is_valid(&self) -> (r: bool)
        ensures
            r == properties_wf(self@),
    {
        if self.behaviors.len() != 256 {
            return false;
        }
        if self.config.width < 1 || self.config.width > SIDE_CAP || self.config.height < 1
            || self.config.height > SIDE_CAP {
            return false;
        }
        match self.config.width.checked_mul(self.config.height) {
            Some(_) => {},
            None => {
                return false;
            },
        }
        let mut i: usize = 0;
        while i < 256
            invariant
                i <= 256,
                self.behaviors@.len() == 256,
                forall|j: int|
                    0 <= j < i ==> ((#[trigger] self@.behaviors[j]) matches Some(b) ==> behavior_wf(b)),
            decreases 256 - i,
        {
            assert(self@.behaviors[i as int] == slot_view(self.behaviors@[i as int]));
            match &self.behaviors[i] {
                Some(behavior) => {
                    let entries = behavior.logic.entries();
                    let fits = behavior.inputs.len() == behavior.logic.input_count() as usize
                        && behavior.outputs.len() == behavior.logic.output_count() as usize;
                    let inputs_ok = Behavior::validate_periphs(&behavior.inputs, crate::peripherals::IoType::Input);
                    let outputs_ok = Behavior::validate_periphs(
                        &behavior.outputs,
                        crate::peripherals::IoType::Output,
                    );
                    if !fits || inputs_ok.is_err() || outputs_ok.is_err() {
                        assert(!behavior_wf(behavior@));
                        return false;
                    }
                },
                None => {},
            }
            i += 1;
        }
        true
    }
}

impl Default for WorldProperties {
    fn default() -> (r: WorldProperties)
        ensures
            r@ == (WorldPropertiesView { behaviors: no_behaviors(), config: default_config() }),
            properties_wf(r@),
            r.behaviors@.len() == 256,
            forall|j: int| 0 <= j < 256 ==> r.behaviors@[j] is None,
    {
        let mut behaviors: Vec<Option<Behavior>> = Vec::new();
        let mut i: usize = 0;
        while i < 256
            invariant
                i <= 256,
                behaviors@.len() == i,
                forall|j: int| 0 <= j < i ==> behaviors@[j] is None,
            decreases 256 - i,
        {
            behaviors.push(None);
            i += 1;
        }
        let r = WorldProperties { behaviors, config: WorldConfig::default() };
        assert(r@.behaviors =~= no_behaviors());
        r
    }
}

} // verus!
