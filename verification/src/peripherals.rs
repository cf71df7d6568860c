//! The typed channels between the world and a behavior's bits.

use vstd::prelude::*;
use crate::error::CompileError;
use crate::error::ErrorKind;
use crate::error::at;
use crate::error::ErrorView;
use crate::error::bare;
use crate::text::char_digit_value;
use crate::text::char_is_digit;
use crate::text::chars_of;
use crate::text::digit_value;
use crate::text::is_digit;
use crate::text::str_eq;
use crate::text::string_of;

verus! {

/// The kinds of peripheral. Outputs are applied in the order written here.
#[derive(Debug, Clone, Copy, PartialEq, Eq, Structural)]
pub enum Peripheral {
    CellClear,
    Cell,
    CellNext,
    Time,
    MemoryClear,
    Memory,
    Random,
    Obstacle,
    Kill,
    /// Three bits: the number of 45 degree turns.
    Direction,
    Halted,
    SpawnAnt,
    Die,
}

/// Whether a peripheral bit is read or written.
#[derive(Debug, Clone, Copy, PartialEq, Eq, Structural)]
pub enum IoType {
    Input,
    Output,
}

/// The two kinds of ant.
#[derive(Debug, Clone, Copy, PartialEq, Eq, Structural)]
pub enum AntType {
    Worker,
    Queen,
}

/// What a peripheral is: its bits and the one direction it is limited to,
/// if any.
#[derive(Debug, Clone, Copy, PartialEq, Eq, Structural)]
pub struct PeripheralProperties {
    pub size: u8,
    pub io_type: Option<IoType>,
}

/// The number of bits of a peripheral.
pub open spec fn size_of(p: Peripheral) -> u8 {
    match p {
        Peripheral::Memory => 8,
        Peripheral::Time => 8,
        Peripheral::Random => 8,
        Peripheral::Cell => 4,
        Peripheral::CellNext => 4,
        Peripheral::SpawnAnt => 4,
        Peripheral::Direction => 3,
        Peripheral::Obstacle => 1,
        Peripheral::CellClear => 1,
        Peripheral::MemoryClear => 1,
        Peripheral::Halted => 1,
        Peripheral::Kill => 1,
        Peripheral::Die => 1,
    }
}

/// The one direction that a peripheral is limited to; `None` where it can
/// be read and written.
pub open spec fn io_of(p: Peripheral) -> Option<IoType> {
    match p {
        Peripheral::Memory => None,
        Peripheral::Cell => None,
        Peripheral::Direction => None,
        Peripheral::Halted => None,
        Peripheral::CellNext => Some(IoType::Input),
        Peripheral::Time => Some(IoType::Input),
        Peripheral::Random => Some(IoType::Input),
        Peripheral::Obstacle => Some(IoType::Input),
        Peripheral::CellClear => Some(IoType::Output),
        Peripheral::MemoryClear => Some(IoType::Output),
        Peripheral::SpawnAnt => Some(IoType::Output),
        Peripheral::Kill => Some(IoType::Output),
        Peripheral::Die => Some(IoType::Output),
    }
}

/// The place of a peripheral in the order in which outputs are applied.
pub open spec fn ordinal_of(p: Peripheral) -> u8 {
    match p {
        Peripheral::CellClear => 0,
        Peripheral::Cell => 1,
        Peripheral::CellNext => 2,
        Peripheral::Time => 3,
        Peripheral::MemoryClear => 4,
        Peripheral::Memory => 5,
        Peripheral::Random => 6,
        Peripheral::Obstacle => 7,
        Peripheral::Kill => 8,
        Peripheral::Direction => 9,
        Peripheral::Halted => 10,
        Peripheral::SpawnAnt => 11,
        Peripheral::Die => 12,
    }
}

/// The peripheral at the given place in the order of application.
pub open spec fn peripheral_at(ordinal: int) -> Peripheral {
    if ordinal == 0 {
        Peripheral::CellClear
    } else if ordinal == 1 {
        Peripheral::Cell
    } else if ordinal == 2 {
        Peripheral::CellNext
    } else if ordinal == 3 {
        Peripheral::Time
    } else if ordinal == 4 {
        Peripheral::MemoryClear
    } else if ordinal == 5 {
        Peripheral::Memory
    } else if ordinal == 6 {
        Peripheral::Random
    } else if ordinal == 7 {
        Peripheral::Obstacle
    } else if ordinal == 8 {
        Peripheral::Kill
    } else if ordinal == 9 {
        Peripheral::Direction
    } else if ordinal == 10 {
        Peripheral::Halted
    } else if ordinal == 11 {
        Peripheral::SpawnAnt
    } else {
        Peripheral::Die
    }
}

/// Whether an ant of the kind may write the peripheral: workers write
/// cells, queens spawn and kill.
pub open spec fn legal_for(p: Peripheral, kind: AntType) -> bool {
    match p {
        Peripheral::Cell | Peripheral::CellClear => kind == AntType::Worker,
        Peripheral::SpawnAnt | Peripheral::Kill => kind == AntType::Queen,
        _ => true,
    }
}

/// The peripheral that a name without bit index stands for.
pub open spec fn peripheral_of(name: Seq<char>) -> Option<Peripheral> {
    if name == "C"@ || name == "CELL_"@ {
        Some(Peripheral::Cell)
    } else if name == "CC"@ || name == "CLEAR"@ {
        Some(Peripheral::CellClear)
    } else if name == "CN"@ || name == "NEXT_CELL_"@ {
        Some(Peripheral::CellNext)
    } else if name == "CX"@ || name == "OBS"@ || name == "OBSTACLE"@ {
        Some(Peripheral::Obstacle)
    } else if name == "T"@ || name == "CLOCK_"@ {
        Some(Peripheral::Time)
    } else if name == "M"@ || name == "MEM_"@ {
        Some(Peripheral::Memory)
    } else if name == "R"@ || name == "RAND_"@ {
        Some(Peripheral::Random)
    } else if name == "D"@ || name == "DIR_"@ {
        Some(Peripheral::Direction)
    } else if name == "DX"@ || name == "HALT"@ {
        Some(Peripheral::Halted)
    } else if name == "A"@ || name == "SPAWN_"@ {
        Some(Peripheral::SpawnAnt)
    } else if name == "AK"@ || name == "KILL"@ {
        Some(Peripheral::Kill)
    } else if name == "AX"@ || name == "DIE"@ {
        Some(Peripheral::Die)
    } else {
        None
    }
}

impl Peripheral {
    /// The bits of the peripheral and the direction it is limited to.
    pub fn properties(&self) -> (r: PeripheralProperties)
        ensures
            r.size == size_of(*self),
            r.io_type == io_of(*self),
            1 <= r.size <= 8,
    {
        match self {
            Peripheral::Memory => PeripheralProperties { size: 8, io_type: None },
            Peripheral::Cell => PeripheralProperties { size: 4, io_type: None },
            Peripheral::Direction => PeripheralProperties { size: 3, io_type: None },
            Peripheral::Halted => PeripheralProperties { size: 1, io_type: None },
            Peripheral::CellNext => PeripheralProperties { size: 4, io_type: Some(IoType::Input) },
            Peripheral::Time => PeripheralProperties { size: 8, io_type: Some(IoType::Input) },
            Peripheral::Random => PeripheralProperties { size: 8, io_type: Some(IoType::Input) },
            Peripheral::Obstacle => PeripheralProperties { size: 1, io_type: Some(IoType::Input) },
            Peripheral::CellClear => PeripheralProperties { size: 1, io_type: Some(IoType::Output) },
            Peripheral::MemoryClear => PeripheralProperties {
                size: 1,
                io_type: Some(IoType::Output),
            },
            Peripheral::SpawnAnt => PeripheralProperties { size: 4, io_type: Some(IoType::Output) },
            Peripheral::Kill => PeripheralProperties { size: 1, io_type: Some(IoType::Output) },
            Peripheral::Die => PeripheralProperties { size: 1, io_type: Some(IoType::Output) },
        }
    }

    /// The place of the peripheral in the order in which outputs are applied.
    pub fn ordinal(&self) -> (r: u8)
        ensures
            r == ordinal_of(*self),
    {
        match self {
            Peripheral::CellClear => 0,
            Peripheral::Cell => 1,
            Peripheral::CellNext => 2,
            Peripheral::Time => 3,
            Peripheral::MemoryClear => 4,
            Peripheral::Memory => 5,
            Peripheral::Random => 6,
            Peripheral::Obstacle => 7,
            Peripheral::Kill => 8,
            Peripheral::Direction => 9,
            Peripheral::Halted => 10,
            Peripheral::SpawnAnt => 11,
            Peripheral::Die => 12,
        }
    }

    /// The peripheral at the given place in the order of application.
    pub fn from_ordinal(ordinal: u8) -> (r: Peripheral)
        requires
            ordinal < 13,
        ensures
            ordinal_of(r) == ordinal,
            r == peripheral_at(ordinal as int),
    {
        if ordinal == 0 {
            Peripheral::CellClear
        } else if ordinal == 1 {
            Peripheral::Cell
        } else if ordinal == 2 {
            Peripheral::CellNext
        } else if ordinal == 3 {
            Peripheral::Time
        } else if ordinal == 4 {
            Peripheral::MemoryClear
        } else if ordinal == 5 {
            Peripheral::Memory
        } else if ordinal == 6 {
            Peripheral::Random
        } else if ordinal == 7 {
            Peripheral::Obstacle
        } else if ordinal == 8 {
            Peripheral::Kill
        } else if ordinal == 9 {
            Peripheral::Direction
        } else if ordinal == 10 {
            Peripheral::Halted
        } else if ordinal == 11 {
            Peripheral::SpawnAnt
        } else {
            Peripheral::Die
        }
    }

    /// Whether an ant of the kind may write the peripheral.
    pub fn is_legal(&self, kind: AntType) -> (r: bool)
        ensures
            r == legal_for(*self, kind),
    {
        match self {
            Peripheral::Cell | Peripheral::CellClear => kind == AntType::Worker,
            Peripheral::SpawnAnt | Peripheral::Kill => kind == AntType::Queen,
            _ => true,
        }
    }

    /// The peripheral that `ident`, a name without bit index, stands for.
    pub fn from_ident(ident: &str) -> (r: Option<Peripheral>)
        ensures
            r == peripheral_of(ident@),
    {
        if str_eq(ident, "C") || str_eq(ident, "CELL_") {
            Some(Peripheral::Cell)
        } else if str_eq(ident, "CC") || str_eq(ident, "CLEAR") {
            Some(Peripheral::CellClear)
        } else if str_eq(ident, "CN") || str_eq(ident, "NEXT_CELL_") {
            Some(Peripheral::CellNext)
        } else if str_eq(ident, "CX") || str_eq(ident, "OBS") || str_eq(ident, "OBSTACLE") {
            Some(Peripheral::Obstacle)
        } else if str_eq(ident, "T") || str_eq(ident, "CLOCK_") {
            Some(Peripheral::Time)
        } else if str_eq(ident, "M") || str_eq(ident, "MEM_") {
            Some(Peripheral::Memory)
        } else if str_eq(ident, "R") || str_eq(ident, "RAND_") {
            Some(Peripheral::Random)
        } else if str_eq(ident, "D") || str_eq(ident, "DIR_") {
            Some(Peripheral::Direction)
        } else if str_eq(ident, "DX") || str_eq(ident, "HALT") {
            Some(Peripheral::Halted)
        } else if str_eq(ident, "A") || str_eq(ident, "SPAWN_") {
            Some(Peripheral::SpawnAnt)
        } else if str_eq(ident, "AK") || str_eq(ident, "KILL") {
            Some(Peripheral::Kill)
        } else if str_eq(ident, "AX") || str_eq(ident, "DIE") {
            Some(Peripheral::Die)
        } else {
            None
        }
    }
}

/// The value that a tick hands to one output peripheral.
#[derive(Debug, Clone, Copy, PartialEq, Eq, Structural)]
pub struct OutputValue {
    pub output: Peripheral,
    pub value: u8,
}

/// Whether `a` is applied before `b`: by the peripheral's place, then by
/// the value.
pub open spec fn applies_before(a: OutputValue, b: OutputValue) -> bool {
    ordinal_of(a.output) < ordinal_of(b.output) || (ordinal_of(a.output) == ordinal_of(b.output)
        && a.value < b.value)
}

impl OutputValue {
    /// Whether `self` is applied before `other`.
    pub fn precedes(&self, other: &OutputValue) -> (r: bool)
        ensures
            r == applies_before(*self, *other),
    {
        let a = self.output.ordinal();
        let b = other.output.ordinal();
        a < b || (a == b && self.value < other.value)
    }
}

/// One bit of a peripheral.
#[derive(Debug, Clone, Copy, PartialEq, Eq, Structural)]
pub struct PeripheralBit {
    pub peripheral: Peripheral,
    pub bit: u8,
}

/// Whether the bit exists and the peripheral can be used in the direction.
pub open spec fn bit_valid(b: PeripheralBit, io: IoType) -> Result<(), ErrorView> {
    if b.bit >= size_of(b.peripheral) {
        Err(bare(ErrorKind::AsmBitRange))
    } else if io_of(b.peripheral) is Some && io_of(b.peripheral) != Some(io) {
        Err(bare(ErrorKind::AsmPeriphDir))
    } else {
        Ok(())
    }
}

/// The peripheral bit that an upper-case name stands for: a peripheral's
/// name, and behind it one decimal digit as bit index where the peripheral
/// has more than one bit.
pub open spec fn peripheral_bit_of(ident: Seq<char>) -> Result<PeripheralBit, ErrorView> {
    if ident.len() == 0 {
        Err(at(ErrorKind::AsmPeriphUnknown, ident))
    } else {
        let indexed = is_digit(ident.last());
        let name = if indexed {
            ident.drop_last()
        } else {
            ident
        };
        match peripheral_of(name) {
            None => Err(at(ErrorKind::AsmPeriphUnknown, ident)),
            Some(peripheral) => {
                let size = size_of(peripheral);
                if indexed {
                    let bit = digit_value(ident.last());
                    if size == 1 || bit >= size {
                        Err(at(ErrorKind::AsmBitRange, ident))
                    } else {
                        Ok(PeripheralBit { peripheral, bit: bit as u8 })
                    }
                } else if size > 1 {
                    Err(at(ErrorKind::AsmBitRange, ident))
                } else {
                    Ok(PeripheralBit { peripheral, bit: 0 })
                }
            },
        }
    }
}

impl PeripheralBit {
    /// Fails with `AsmBitRange` where the peripheral has no such bit, with
    /// `AsmPeriphDir` where it cannot be used in the direction `io_type`.
    pub fn validate(&self, io_type: &IoType) -> (r: Result<(), CompileError>)
        ensures
            r is Ok <==> bit_valid(*self, *io_type) is Ok,
            r matches Err(e) ==> bit_valid(*self, *io_type) == Err::<(), ErrorView>(e@),
    {
        let properties = self.peripheral.properties();
        if self.bit >= properties.size {
            Err(CompileError::new(ErrorKind::AsmBitRange))
        } else {
            match properties.io_type {
                Some(required) => {
                    if required != *io_type {
                        Err(CompileError::new(ErrorKind::AsmPeriphDir))
                    } else {
                        Ok(())
                    }
                },
                None => Ok(()),
            }
        }
    }

    /// The peripheral bit that `ident` stands for.
    ///
    /// Fails with `AsmPeriphUnknown` where the name is no peripheral's, and
    /// with `AsmBitRange` where a one-bit peripheral has an index, another
    /// has none, or the index is not below the peripheral's size.
    pub fn from_ident(ident: &str) -> (r: Result<PeripheralBit, CompileError>)
        ensures
            match r {
                Ok(b) => peripheral_bit_of(ident@) == Ok::<PeripheralBit, ErrorView>(b),
                Err(e) => peripheral_bit_of(ident@) == Err::<PeripheralBit, ErrorView>(e@),
            },
            r matches Ok(b) ==> b.bit < size_of(b.peripheral),
    {
        let chars = chars_of(ident);
        let n = chars.len();
        if n == 0 {
            return Err(CompileError::about(ErrorKind::AsmPeriphUnknown, ident));
        }
        let last = chars[n - 1];
        let indexed = char_is_digit(last);
        let name = if indexed {
            string_of(&chars, 0, n - 1)
        } else {
            string_of(&chars, 0, n)
        };
        proof {
            assert(chars@.subrange(0, n - 1) =~= chars@.drop_last());
            assert(chars@.subrange(0, n as int) =~= chars@);
        }
        match Peripheral::from_ident(name.as_str()) {
            None => Err(CompileError::about(ErrorKind::AsmPeriphUnknown, ident)),
            Some(peripheral) => {
                let size = peripheral.properties().size;
                if indexed {
                    let bit = char_digit_value(last);
                    if size == 1 || bit >= size as u32 {
                        Err(CompileError::about(ErrorKind::AsmBitRange, ident))
                    } else {
                        Ok(PeripheralBit { peripheral, bit: bit as u8 })
                    }
                } else if size > 1 {
                    Err(CompileError::about(ErrorKind::AsmBitRange, ident))
                } else {
                    Ok(PeripheralBit { peripheral, bit: 0 })
                }
            },
        }
    }
}

} // verus!
