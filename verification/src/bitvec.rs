//! A vector of bits with the operations of logic.

use vstd::prelude::*;

verus! {

/// A sequence of bits.
#[derive(Debug)]
pub struct BitVec(pub Vec<bool>);

impl View for BitVec {
    type V = Seq<bool>;

    open spec fn view(&self) -> Seq<bool> {
        self.0@
    }
}

/// Whether any bit from `i` on is set.
pub open spec fn any_from(bits: Seq<bool>, i: int) -> bool
    decreases bits.len() - i,
{
    if i < 0 || i >= bits.len() {
        false
    } else {
        bits[i] || any_from(bits, i + 1)
    }
}

/// The number of bits from `i` on that are set.
pub open spec fn count_from(bits: Seq<bool>, i: int) -> nat
    decreases bits.len() - i,
{
    if i < 0 || i >= bits.len() {
        0
    } else {
        count_from(bits, i + 1) + if bits[i] { 1nat } else { 0nat }
    }
}

pub proof fn lemma_any_from(bits: Seq<bool>, i: int)
    requires
        0 <= i,
    ensures
        any_from(bits, i) <==> exists|j: int| i <= j < bits.len() && bits[j],
    decreases bits.len() - i,
{
    if i < bits.len() {
        lemma_any_from(bits, i + 1);
        if bits[i] {
            assert(i <= i < bits.len() && bits[i]);
        }
    }
}

pub proof fn lemma_count_bound(bits: Seq<bool>, i: int)
    requires
        0 <= i <= bits.len(),
    ensures
        count_from(bits, i) <= bits.len() - i,
    decreases bits.len() - i,
{
    if i < bits.len() {
        lemma_count_bound(bits, i + 1);
    }
}

impl BitVec {
    /// No bits.
    pub fn new() -> (r: BitVec)
        ensures
            r@ == Seq::<bool>::empty(),
    {
        BitVec(Vec::new())
    }

    /// `count` bits, each `value`.
    pub fn repeat(value: bool, count: usize) -> (r: BitVec)
        ensures
            r@.len() == count,
            forall|i: int| 0 <= i < count ==> r@[i] == value,
    {
        let mut bits: Vec<bool> = Vec::new();
        let mut i: usize = 0;
        while i < count
            invariant
                i <= count,
                bits@.len() == i,
                forall|j: int| 0 <= j < i ==> bits@[j] == value,
            decreases count - i,
        {
            bits.push(value);
            i += 1;
        }
        BitVec(bits)
    }

    /// The number of bits.
    pub fn len(&self) -> (r: usize)
        ensures
            r == self@.len(),
    {
        self.0.len()
    }

    /// Adds a bit at the end.
    pub fn push(&mut self, bit: bool)
        ensures
            final(self)@ == old(self)@.push(bit),
    {
        self.0.push(bit);
    }

    /// The one bit of a vector of length 1.
    pub fn unary(&self) -> (r: Option<bool>)
        ensures
            r == (if self@.len() == 1 {
                Some(self@[0])
            } else {
                None
            }),
    {
        if self.0.len() == 1 {
            Some(self.0[0])
        } else {
            None
        }
    }

    /// The vector itself where `enable` is set, else as many cleared bits.
    pub fn gated_buffer(&self, enable: bool) -> (r: BitVec)
        ensures
            r@.len() == self@.len(),
            forall|i: int| 0 <= i < self@.len() ==> r@[i] == (enable && self@[i]),
    {
        let mut bits: Vec<bool> = Vec::new();
        let mut i: usize = 0;
        while i < self.0.len()
            invariant
                i <= self@.len(),
                bits@.len() == i,
                forall|j: int| 0 <= j < i ==> bits@[j] == (enable && self@[j]),
            decreases self@.len() - i,
        {
            bits.push(enable && self.0[i]);
            i += 1;
        }
        BitVec(bits)
    }

    /// Whether any bit is set.
    pub fn or_sum(&self) -> (r: bool)
        ensures
            r == any_from(self@, 0),
            r <==> exists|j: int| 0 <= j < self@.len() && self@[j],
    {
        let mut any = false;
        let mut i: usize = self.0.len();
        while i > 0
            invariant
                i <= self@.len(),
                any == any_from(self@, i as int),
            decreases i,
        {
            i -= 1;
            any = self.0[i] || any;
        }
        proof {
            lemma_any_from(self@, 0);
        }
        any
    }

    /// Whether every bit is set.
    pub fn and_sum(&self) -> (r: bool)
        ensures
            r <==> forall|j: int| 0 <= j < self@.len() ==> self@[j],
    {
        let mut i: usize = 0;
        while i < self.0.len()
            invariant
                i <= self@.len(),
                forall|j: int| 0 <= j < i ==> self@[j],
            decreases self@.len() - i,
        {
            if !self.0[i] {
                return false;
            }
            i += 1;
        }
        true
    }

    /// The number of bits that are set.
    pub fn sum(&self) -> (r: usize)
        ensures
            r == count_from(self@, 0),
    {
        let mut count: usize = 0;
        let n = self.0.len();
        let mut i: usize = n;
        while i > 0
            invariant
                i <= self@.len(),
                n == self@.len(),
                count == count_from(self@, i as int),
                count <= n - i,
            decreases i,
        {
            i -= 1;
            proof {
                lemma_count_bound(self@, i as int);
            }
            if self.0[i] {
                count += 1;
            }
        }
        count
    }

    /// Bit by bit, `and` of two vectors of one length.
    pub fn and(&self, other: &BitVec) -> (r: BitVec)
        requires
            self@.len() == other@.len(),
        ensures
            r@.len() == self@.len(),
            forall|i: int| 0 <= i < self@.len() ==> r@[i] == (self@[i] && other@[i]),
    {
        let mut bits: Vec<bool> = Vec::new();
        let mut i: usize = 0;
        while i < self.0.len()
            invariant
                i <= self@.len(),
                self@.len() == other@.len(),
                bits@.len() == i,
                forall|j: int| 0 <= j < i ==> bits@[j] == (self@[j] && other@[j]),
            decreases self@.len() - i,
        {
            bits.push(self.0[i] && other.0[i]);
            i += 1;
        }
        BitVec(bits)
    }

    /// Bit by bit, `or` of two vectors of one length.
    pub fn or(&self, other: &BitVec) -> (r: BitVec)
        requires
            self@.len() == other@.len(),
        ensures
            r@.len() == self@.len(),
            forall|i: int| 0 <= i < self@.len() ==> r@[i] == (self@[i] || other@[i]),
    {
        let mut bits: Vec<bool> = Vec::new();
        let mut i: usize = 0;
        while i < self.0.len()
            invariant
                i <= self@.len(),
                self@.len() == other@.len(),
                bits@.len() == i,
                forall|j: int| 0 <= j < i ==> bits@[j] == (self@[j] || other@[j]),
            decreases self@.len() - i,
        {
            bits.push(self.0[i] || other.0[i]);
            i += 1;
        }
        BitVec(bits)
    }

    /// Bit by bit, `xor` of two vectors of one length.
    pub fn xor(&self, other: &BitVec) -> (r: BitVec)
        requires
            self@.len() == other@.len(),
        ensures
            r@.len() == self@.len(),
            forall|i: int| 0 <= i < self@.len() ==> r@[i] == (self@[i] ^ other@[i]),
    {
        let mut bits: Vec<bool> = Vec::new();
        let mut i: usize = 0;
        while i < self.0.len()
            invariant
                i <= self@.len(),
                self@.len() == other@.len(),
                bits@.len() == i,
                forall|j: int| 0 <= j < i ==> bits@[j] == (self@[j] ^ other@[j]),
            decreases self@.len() - i,
        {
            bits.push(self.0[i] ^ other.0[i]);
            i += 1;
        }
        BitVec(bits)
    }

    /// Every bit flipped.
    pub fn invert(&self) -> (r: BitVec)
        ensures
            r@.len() == self@.len(),
            forall|i: int| 0 <= i < self@.len() ==> r@[i] == !self@[i],
    {
        let mut bits: Vec<bool> = Vec::new();
        let mut i: usize = 0;
        while i < self.0.len()
            invariant
                i <= self@.len(),
                bits@.len() == i,
                forall|j: int| 0 <= j < i ==> bits@[j] == !self@[j],
            decreases self@.len() - i,
        {
            bits.push(!self.0[i]);
            i += 1;
        }
        BitVec(bits)
    }

    /// Whether two vectors hold the same bits.
    pub fn same(&self, other: &BitVec) -> (r: bool)
        ensures
            r == (self@ == other@),
    {
        if self.0.len() != other.0.len() {
            return false;
        }
        let mut i: usize = 0;
        while i < self.0.len()
            invariant
                i <= self@.len(),
                self@.len() == other@.len(),
                forall|j: int| 0 <= j < i ==> self@[j] == other@[j],
            decreases self@.len() - i,
        {
            if self.0[i] != other.0[i] {
                return false;
            }
            i += 1;
        }
        assert(self@ =~= other@);
        true
    }
}

impl Clone for BitVec {
    fn clone(&self) -> (r: BitVec)
        ensures
            r@ == self@,
    {
        let bits = self.0.clone();
        assert(bits@ =~= self.0@);
        BitVec(bits)
    }
}

impl Default for BitVec {
    fn default() -> (r: BitVec)
        ensures
            r@ == Seq::<bool>::empty(),
    {
        BitVec::new()
    }
}

} // verus!
