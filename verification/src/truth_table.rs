//! The compiled form of a behavior: one packed output word per input index.

use vstd::prelude::*;
use vstd::arithmetic::power2::pow2;
use crate::bits::pow2_u64;
use crate::error::ErrorKind;
use crate::error::bare;
use crate::error::CompileError;

verus! {

/// A table with `2^input_count` entries, each below `2^output_count`.
#[derive(Debug)]
pub struct TruthTable {
    input_count: u8,
    output_count: u8,
    entries: Vec<u32>,
}

/// Whether the counts and the entries make a table.
pub open spec fn table_shape(input_bits: nat, output_bits: nat, entries: Seq<u32>) -> bool {
    &&& input_bits <= 8
    &&& output_bits <= 32
    &&& entries.len() == pow2(input_bits)
    &&& forall|i: int| 0 <= i < entries.len() ==> (#[trigger] entries[i] as nat) < pow2(output_bits)
}

/// The table as plain values.
pub struct TruthTableView {
    pub input_count: nat,
    pub output_count: nat,
    pub entries: Seq<u32>,
}

impl View for TruthTable {
    type V = TruthTableView;

    closed spec fn view(&self) -> TruthTableView {
        TruthTableView {
            input_count: self.input_count as nat,
            output_count: self.output_count as nat,
            entries: self.entries@,
        }
    }
}

impl TruthTable {
    #[verifier::type_invariant]
    spec fn inv(self) -> bool {
        table_shape(self.input_count as nat, self.output_count as nat, self.entries@)
    }

    /// Makes a table, or fails with `TableShape` where there are more than 8
    /// input bits, more than 32 output bits, a number of entries other than
    /// `2^input_bits`, or an entry that is not below `2^output_bits`.
    pub fn new(input_bits: usize, output_bits: usize, entries: Vec<u32>) -> (r: Result<
        TruthTable,
        CompileError,
    >)
        ensures
            r is Ok <==> table_shape(input_bits as nat, output_bits as nat, entries@),
            r matches Ok(t) ==> t@ == (TruthTableView {
                input_count: input_bits as nat,
                output_count: output_bits as nat,
                entries: entries@,
            }),
            r matches Err(e) ==> e@ == bare(ErrorKind::TableShape),
    {
        if input_bits > 8 || output_bits > 32 {
            return Err(CompileError::new(ErrorKind::TableShape));
        }
        let size = pow2_u64(input_bits as u8);
        if entries.len() as u64 != size {
            return Err(CompileError::new(ErrorKind::TableShape));
        }
        let limit = pow2_u64(output_bits as u8);
        let mut i: usize = 0;
        while i < entries.len()
            invariant
                i <= entries@.len(),
                limit == pow2(output_bits as nat),
                forall|j: int| 0 <= j < i ==> (#[trigger] entries@[j] as nat) < pow2(output_bits as nat),
            decreases entries@.len() - i,
        {
            if entries[i] as u64 >= limit {
                return Err(CompileError::new(ErrorKind::TableShape));
            }
            i += 1;
        }
        Ok(TruthTable { input_count: input_bits as u8, output_count: output_bits as u8, entries })
    }

    /// The number of input bits.
    pub fn input_count(&self) -> (r: u8)
        ensures
            r == self@.input_count,
            r <= 8,
    {
        proof {
            use_type_invariant(self);
        }
        self.input_count
    }

    /// The number of output bits.
    pub fn output_count(&self) -> (r: u8)
        ensures
            r == self@.output_count,
            r <= 32,
    {
        proof {
            use_type_invariant(self);
        }
        self.output_count
    }

    /// The entries, by input index.
    pub fn entries(&self) -> (r: &Vec<u32>)
        ensures
            r@ == self@.entries,
            table_shape(self@.input_count, self@.output_count, r@),
    {
        proof {
            use_type_invariant(self);
        }
        &self.entries
    }

    /// The output word for `input`, or 0 where the table has no such entry.
    /// The word is always below `2^output_count`.
    pub fn get(&self, input: u8) -> (r: u32)
        ensures
            r == (if (input as int) < self@.entries.len() {
                self@.entries[input as int]
            } else {
                0u32
            }),
            (r as nat) < pow2(self@.output_count),
    {
        proof {
            use_type_invariant(self);
            vstd::arithmetic::power2::lemma_pow2_pos(self.output_count as nat);
        }
        if (input as usize) < self.entries.len() {
            self.entries[input as usize]
        } else {
            0
        }
    }
}

impl Clone for TruthTable {
    fn clone(&self) -> (t: TruthTable)
        ensures
            t@ == self@,
    {
        proof {
            use_type_invariant(self);
        }
        let entries = self.entries.clone();
        assert(entries@ =~= self.entries@);
        TruthTable { input_count: self.input_count, output_count: self.output_count, entries }
    }
}

impl Default for TruthTable {
    /// The table without inputs or outputs: one entry, 0.
    fn default() -> (t: TruthTable)
        ensures
            t@ == (TruthTableView { input_count: 0, output_count: 0, entries: seq![0u32] }),
    {
        proof {
            vstd::arithmetic::power2::lemma2_to64();
        }
        let mut entries: Vec<u32> = Vec::new();
        entries.push(0);
        assert(entries@ =~= seq![0u32]);
        TruthTable { input_count: 0, output_count: 0, entries }
    }
}

} // verus!
