//! Ants, their behaviors and the settings that name a mode.

use vstd::prelude::*;
use crate::error::CompileError;
use crate::error::ErrorKind;
use crate::error::at;
use crate::error::ErrorView;
use crate::error::bare;
use crate::peripherals::bit_valid;
use crate::peripherals::legal_for;
use crate::peripherals::AntType;
use crate::peripherals::IoType;
use crate::peripherals::PeripheralBit;
use crate::text::str_eq;
use crate::truth_table::table_shape;
use crate::truth_table::TruthTable;
use crate::truth_table::TruthTableView;
use crate::vec2::Vec2;
use crate::vec2::Vec2u;
use crate::vec2::principal_step;

verus! {

/// What happens to an ant that steps over the border.
#[derive(Debug, Clone, Copy, PartialEq, Eq, Structural)]
pub enum BorderMode {
    /// The ant stays where it is.
    Collide,
    /// The ant dies.
    Despawn,
    /// Each axis wraps by itself.
    Cycle,
    /// The grid is one line: behind the end of a row comes the next row.
    Wrap,
}

/// Where the first ant starts.
#[derive(Debug, Clone, Copy, PartialEq, Eq, Structural)]
pub enum StartingPos {
    TopLeft,
    Center,
    MiddleLeft,
}

/// What colors a cell can have.
#[derive(Debug, Clone, Copy, PartialEq, Eq, Structural)]
pub enum ColorMode {
    /// 0 or 15.
    Binary,
    /// 0 to 15.
    RGBI,
}

/// The border mode that a word names.
pub open spec fn border_mode_of(word: Seq<char>) -> Option<BorderMode> {
    if word == "obs"@ || word == "collide"@ {
        Some(BorderMode::Collide)
    } else if word == "die"@ || word == "despawn"@ {
        Some(BorderMode::Despawn)
    } else if word == "cycle"@ {
        Some(BorderMode::Cycle)
    } else if word == "wrap"@ {
        Some(BorderMode::Wrap)
    } else {
        None
    }
}

/// The starting position that a word names.
pub open spec fn starting_pos_of(word: Seq<char>) -> Option<StartingPos> {
    if word == "top_left"@ {
        Some(StartingPos::TopLeft)
    } else if word == "center"@ {
        Some(StartingPos::Center)
    } else {
        None
    }
}

/// The color mode that a word names.
pub open spec fn color_mode_of(word: Seq<char>) -> Option<ColorMode> {
    if word == "rgb"@ || word == "rgbi"@ {
        Some(ColorMode::RGBI)
    } else if word == "bin"@ {
        Some(ColorMode::Binary)
    } else {
        None
    }
}

impl BorderMode {
    /// The border mode that `word` names; `SettingValue` where it names none.
    pub fn from_name(word: &str) -> (r: Result<BorderMode, CompileError>)
        ensures
            match r {
                Ok(mode) => border_mode_of(word@) == Some(mode),
                Err(e) => border_mode_of(word@) is None && e@ == at(ErrorKind::SettingValue, word@),
            },
    {
        if str_eq(word, "obs") || str_eq(word, "collide") {
            Ok(BorderMode::Collide)
        } else if str_eq(word, "die") || str_eq(word, "despawn") {
            Ok(BorderMode::Despawn)
        } else if str_eq(word, "cycle") {
            Ok(BorderMode::Cycle)
        } else if str_eq(word, "wrap") {
            Ok(BorderMode::Wrap)
        } else {
            Err(CompileError::about(ErrorKind::SettingValue, word))
        }
    }
}

impl StartingPos {
    /// The starting position that `word` names; `SettingValue` where it
    /// names none.
    pub fn from_name(word: &str) -> (r: Result<StartingPos, CompileError>)
        ensures
            match r {
                Ok(pos) => starting_pos_of(word@) == Some(pos),
                Err(e) => starting_pos_of(word@) is None && e@ == at(ErrorKind::SettingValue, word@),
            },
    {
        if str_eq(word, "top_left") {
            Ok(StartingPos::TopLeft)
        } else if str_eq(word, "center") {
            Ok(StartingPos::Center)
        } else {
            Err(CompileError::about(ErrorKind::SettingValue, word))
        }
    }
}

impl ColorMode {
    /// The color mode that `word` names; `SettingValue` where it names none.
    pub fn from_name(word: &str) -> (r: Result<ColorMode, CompileError>)
        ensures
            match r {
                Ok(mode) => color_mode_of(word@) == Some(mode),
                Err(e) => color_mode_of(word@) is None && e@ == at(ErrorKind::SettingValue, word@),
            },
    {
        if str_eq(word, "rgb") || str_eq(word, "rgbi") {
            Ok(ColorMode::RGBI)
        } else if str_eq(word, "bin") {
            Ok(ColorMode::Binary)
        } else {
            Err(CompileError::about(ErrorKind::SettingValue, word))
        }
    }
}

/// The stages of an ant's life.
#[derive(Debug, Clone, Copy, PartialEq, Eq, Structural)]
pub enum AntStatus {
    /// Spawned in the running tick.
    Newborn,
    Alive,
    /// Leaves the population at the end of the tick.
    Dead,
}

/// One inhabitant of the grid.
#[derive(Debug, Clone, Copy, PartialEq, Eq, Structural)]
pub struct Ant {
    pub behavior: u8,
    pub status: AntStatus,
    pub pos: Vec2u,
    /// The principal direction, 0 to 7.
    pub dir: u8,
    pub halted: bool,
    pub memory: u8,
    pub age: u32,
}

impl Ant {
    /// A newborn ant at `pos` that faces `dir` (taken modulo 8) and is
    /// bound to `behavior`.
    pub fn new(pos: Vec2u, dir: u8, behavior: u8) -> (r: Ant)
        ensures
            r == (Ant {
                behavior,
                status: AntStatus::Newborn,
                pos,
                dir: (dir % 8) as u8,
                halted: false,
                memory: 0,
                age: 0,
            }),
            r.dir < 8,
    {
        Ant { behavior, status: AntStatus::Newborn, pos, dir: dir % 8, halted: false, memory: 0, age: 0 }
    }

    /// Marks the ant dead.
    pub fn die(&mut self)
        ensures
            *final(self) == (Ant { status: AntStatus::Dead, ..*old(self) }),
    {
        self.status = AntStatus::Dead;
    }

    /// Whether the ant takes its turn: it is neither newborn nor dead.
    pub fn is_alive(&self) -> (r: bool)
        ensures
            r == (self.status == AntStatus::Alive),
    {
        self.status == AntStatus::Alive
    }

    /// One tick older: a newborn becomes alive, a living ant ages by one.
    pub fn grow_up(&mut self)
        requires
            old(self).age < u32::MAX,
        ensures
            *final(self) == (match old(self).status {
                AntStatus::Newborn => Ant { status: AntStatus::Alive, ..*old(self) },
                AntStatus::Alive => Ant { age: (old(self).age + 1) as u32, ..*old(self) },
                AntStatus::Dead => *old(self),
            }),
    {
        match self.status {
            AntStatus::Newborn => {
                self.status = AntStatus::Alive;
            },
            AntStatus::Alive => {
                self.age = self.age + 1;
            },
            AntStatus::Dead => {},
        }
    }

    /// The step of the ant's direction.
    pub fn get_dir_vec(&self) -> (r: Vec2)
        requires
            self.dir < 8,
        ensures
            (r.x as int, r.y as int) == principal_step(self.dir as int),
    {
        Vec2::principal(self.dir)
    }

    /// `dir` modulo 8.
    pub fn wrap_dir(dir: u8) -> (r: u8)
        ensures
            r == dir % 8,
            r < 8,
    {
        dir % 8
    }

    /// Faces `dir`, taken modulo 8.
    pub fn set_dir(&mut self, dir: u8)
        ensures
            *final(self) == (Ant { dir: (dir % 8) as u8, ..*old(self) }),
            final(self).dir < 8,
    {
        self.dir = Ant::wrap_dir(dir);
    }

    /// Turns around: four turns of 45 degrees.
    pub fn flip_dir(&mut self)
        ensures
            *final(self) == (Ant { dir: ((old(self).dir % 8 + 4) % 8) as u8, ..*old(self) }),
            final(self).dir < 8,
    {
        let turned = self.dir % 8 + 4;
        self.set_dir(turned);
    }
}

/// The compiled function that drives the ants bound to one id.
#[derive(Debug)]
pub struct Behavior {
    pub name: String,
    pub logic: TruthTable,
    pub inputs: Vec<PeripheralBit>,
    pub outputs: Vec<PeripheralBit>,
}

pub struct BehaviorView {
    pub name: Seq<char>,
    pub logic: TruthTableView,
    pub inputs: Seq<PeripheralBit>,
    pub outputs: Seq<PeripheralBit>,
}

impl View for Behavior {
    type V = BehaviorView;

    open spec fn view(&self) -> BehaviorView {
        BehaviorView {
            name: self.name@,
            logic: self.logic@,
            inputs: self.inputs@,
            outputs: self.outputs@,
        }
    }
}

/// Whether the peripheral bits are all different and each can be used in
/// the direction: the error of the first that cannot, `BehaviorDupe` where
/// two are the same.
pub open spec fn periphs_valid(periphs: Seq<PeripheralBit>, io: IoType) -> Result<(), ErrorView> {
    if !periphs.no_duplicates() {
        Err(bare(ErrorKind::BehaviorDupe))
    } else {
        first_invalid(periphs, io, 0)
    }
}

/// The error of the first bit at or after `i` that cannot be used.
pub open spec fn first_invalid(periphs: Seq<PeripheralBit>, io: IoType, i: int) -> Result<(), ErrorView>
    decreases periphs.len() - i,
{
    if i < 0 || i >= periphs.len() {
        Ok(())
    } else if bit_valid(periphs[i], io) is Err {
        bit_valid(periphs[i], io)
    } else {
        first_invalid(periphs, io, i + 1)
    }
}

/// Whether a behavior can drive an ant: its table has one input bit per
/// input peripheral bit and one output bit per output peripheral bit, and
/// every peripheral bit exists and is used in a direction it allows.
pub open spec fn behavior_wf(b: BehaviorView) -> bool {
    &&& table_shape(b.logic.input_count, b.logic.output_count, b.logic.entries)
    &&& b.inputs.len() == b.logic.input_count
    &&& b.outputs.len() == b.logic.output_count
    &&& periphs_valid(b.inputs, IoType::Input) is Ok
    &&& periphs_valid(b.outputs, IoType::Output) is Ok
}

pub proof fn lemma_first_invalid(periphs: Seq<PeripheralBit>, io: IoType, i: int)
    requires
        0 <= i,
    ensures
        first_invalid(periphs, io, i) is Ok <==> forall|j: int|
            i <= j < periphs.len() ==> bit_valid(#[trigger] periphs[j], io) is Ok,
    decreases periphs.len() - i,
{
    if i < periphs.len() {
        lemma_first_invalid(periphs, io, i + 1);
        if bit_valid(periphs[i], io) is Ok {
            assert forall|j: int| i <= j < periphs.len() && (forall|k: int|
                i + 1 <= k < periphs.len() ==> bit_valid(#[trigger] periphs[k], io) is Ok) implies bit_valid(
                #[trigger] periphs[j],
                io,
            ) is Ok by {}
        }
    }
}

impl Behavior {
    /// A behavior of these parts.
    ///
    /// Fails with `BehaviorDupe` where a peripheral bit is listed twice
    /// among the inputs or among the outputs, with `AsmBitRange` or
    /// `AsmPeriphDir` at the first bit that does not exist or cannot be used
    /// in its direction (inputs first), and with `TableShape` where the
    /// table has another number of input or output bits than are listed.
    pub fn new(
        name: String,
        truth_table: TruthTable,
        inputs: Vec<PeripheralBit>,
        outputs: Vec<PeripheralBit>,
    ) -> (r: Result<Behavior, CompileError>)
        ensures
            match r {
                Ok(b) => b@ == (BehaviorView {
                    name: name@,
                    logic: truth_table@,
                    inputs: inputs@,
                    outputs: outputs@,
                }) && behavior_wf(b@),
                Err(e) => e@ == (if periphs_valid(inputs@, IoType::Input) is Err {
                    periphs_valid(inputs@, IoType::Input)->Err_0
                } else if periphs_valid(outputs@, IoType::Output) is Err {
                    periphs_valid(outputs@, IoType::Output)->Err_0
                } else {
                    at(ErrorKind::TableShape, name@)
                }) && !behavior_wf(
                    BehaviorView {
                        name: name@,
                        logic: truth_table@,
                        inputs: inputs@,
                        outputs: outputs@,
                    },
                ),
            },
    {
        match Behavior::validate_periphs(&inputs, IoType::Input) {
            Ok(()) => {},
            Err(e) => {
                return Err(e);
            },
        }
        match Behavior::validate_periphs(&outputs, IoType::Output) {
            Ok(()) => {},
            Err(e) => {
                return Err(e);
            },
        }
        if inputs.len() != truth_table.input_count() as usize || outputs.len()
            != truth_table.output_count() as usize {
            return Err(CompileError::about(ErrorKind::TableShape, name.as_str()));
        }
        let _ = truth_table.entries();
        Ok(Behavior { name, logic: truth_table, inputs, outputs })
    }

    /// Whether the peripheral bits are all different and each can be used
    /// in the direction `io_type`.
    pub fn validate_periphs(periphs: &Vec<PeripheralBit>, io_type: IoType) -> (r: Result<
        (),
        CompileError,
    >)
        ensures
            match r {
                Ok(()) => periphs_valid(periphs@, io_type) is Ok,
                Err(e) => periphs_valid(periphs@, io_type) == Err::<(), ErrorView>(e@),
            },
    {
        let mut i: usize = 0;
        while i < periphs.len()
            invariant
                i <= periphs@.len(),
                periphs@.take(i as int).no_duplicates(),
            decreases periphs@.len() - i,
        {
            let mut j: usize = 0;
            while j < i
                invariant
                    j <= i < periphs@.len(),
                    forall|k: int| 0 <= k < j ==> periphs@[k] != periphs@[i as int],
                decreases i - j,
            {
                if periphs[j] == periphs[i] {
                    return Err(CompileError::new(ErrorKind::BehaviorDupe));
                }
                j += 1;
            }
            proof {
                let t = periphs@.take(i + 1);
                assert forall|a: int, b: int| 0 <= a < t.len() && 0 <= b < t.len() && a != b implies t[a]
                    != t[b] by {
                    if a < i && b < i {
                        assert(periphs@.take(i as int)[a] != periphs@.take(i as int)[b]);
                    }
                }
            }
            i += 1;
        }
        assert(periphs@.take(periphs@.len() as int) =~= periphs@);
        let mut k: usize = 0;
        while k < periphs.len()
            invariant
                k <= periphs@.len(),
                periphs@.no_duplicates(),
                first_invalid(periphs@, io_type, 0) == first_invalid(periphs@, io_type, k as int),
            decreases periphs@.len() - k,
        {
            match periphs[k].validate(&io_type) {
                Ok(()) => {},
                Err(e) => {
                    return Err(e);
                },
            }
            k += 1;
        }
        Ok(())
    }

    /// Whether an ant of the kind may have this behavior: `AsmForbidden`
    /// where it writes a peripheral that the kind may not write.
    pub fn validate_kind(&self, kind: AntType) -> (r: Result<(), CompileError>)
        ensures
            r is Ok <==> forall|i: int|
                0 <= i < self@.outputs.len() ==> legal_for((#[trigger] self@.outputs[i]).peripheral, kind),
            r matches Err(e) ==> e@ == at(ErrorKind::AsmForbidden, self@.name),
    {
        let mut i: usize = 0;
        while i < self.outputs.len()
            invariant
                i <= self.outputs@.len(),
                forall|j: int| 0 <= j < i ==> legal_for((#[trigger] self@.outputs[j]).peripheral, kind),
            decreases self.outputs@.len() - i,
        {
            if !self.outputs[i].peripheral.is_legal(kind) {
                return Err(CompileError::about(ErrorKind::AsmForbidden, self.name.as_str()));
            }
            i += 1;
        }
        Ok(())
    }
}

/// A kind of ant with the behavior that drives it.
#[derive(Debug)]
pub struct Archetype {
    pub ant_type: AntType,
    pub behavior: Behavior,
}

/// Whether an ant of the kind may have the outputs: none of them is a
/// peripheral that the kind may not write.
pub open spec fn outputs_legal(outputs: Seq<PeripheralBit>, kind: AntType) -> bool {
    forall|i: int| 0 <= i < outputs.len() ==> legal_for((#[trigger] outputs[i]).peripheral, kind)
}

impl Archetype {
    /// An archetype of these parts, if the kind may have the behavior.
    ///
    /// Fails with `AsmForbidden` where the behavior writes a peripheral
    /// that the kind may not write: a queen a cell, a worker a spawn or a
    /// kill.
    pub fn new(ant_type: AntType, behavior: Behavior) -> (r: Result<Archetype, CompileError>)
        ensures
            r is Ok <==> outputs_legal(behavior@.outputs, ant_type),
            r matches Ok(a) ==> a.ant_type == ant_type && a.behavior@ == behavior@,
            r matches Err(e) ==> e@ == at(ErrorKind::AsmForbidden, behavior@.name),
    {
        let archetype = Archetype { ant_type, behavior };
        match archetype.validate() {
            Ok(()) => Ok(archetype),
            Err(e) => Err(e),
        }
    }

    /// Whether the kind may have the behavior.
    pub fn validate(&self) -> (r: Result<(), CompileError>)
        ensures
            r is Ok <==> outputs_legal(self.behavior@.outputs, self.ant_type),
            r matches Err(e) ==> e@ == at(ErrorKind::AsmForbidden, self.behavior@.name),
    {
        self.behavior.validate_kind(self.ant_type)
    }
}

impl Clone for Behavior {
    fn clone(&self) -> (r: Behavior)
        ensures
            r@ == self@,
    {
        let inputs = self.inputs.clone();
        let outputs = self.outputs.clone();
        assert(inputs@ =~= self.inputs@);
        assert(outputs@ =~= self.outputs@);
        Behavior { name: self.name.clone(), logic: self.logic.clone(), inputs, outputs }
    }
}

} // verus!
