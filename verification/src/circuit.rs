//! Layered circuits of OR neurons with signed inputs.

use vstd::prelude::*;
use crate::bitvec::BitVec;
use crate::error::CompileError;
use crate::error::ErrorKind;
use crate::error::ErrorView;
use crate::error::bare;
use crate::text::chars_of;

verus! {

/// How an input bit reaches a neuron.
#[derive(Clone, Copy, Debug, PartialEq, Eq, Structural)]
pub enum Weight {
    /// Not at all.
    Zero,
    /// As it is.
    Pos,
    /// Inverted.
    Neg,
}

impl Weight {
    /// Turns `Pos` into `Neg` and `Neg` into `Pos`.
    pub fn flip(&mut self)
        ensures
            *final(self) == (match *old(self) {
                Weight::Zero => Weight::Zero,
                Weight::Pos => Weight::Neg,
                Weight::Neg => Weight::Pos,
            }),
    {
        *self = match *self {
            Weight::Zero => Weight::Zero,
            Weight::Pos => Weight::Neg,
            Weight::Neg => Weight::Pos,
        };
    }
}

/// The weight that a character writes: `+` lets the bit through, `-`
/// inverts it, `0` leaves it out.
pub open spec fn weight_of(c: char) -> Option<Weight> {
    if c == '+' {
        Some(Weight::Pos)
    } else if c == '-' {
        Some(Weight::Neg)
    } else if c == '0' {
        Some(Weight::Zero)
    } else {
        None
    }
}

/// What a weight makes of a bit: nothing, the bit, or its inverse.
pub open spec fn weighted(weight: Weight, bit: bool) -> bool {
    match weight {
        Weight::Zero => false,
        Weight::Pos => bit,
        Weight::Neg => !bit,
    }
}

impl Weight {
    /// The weight that `c` writes, if any.
    pub fn from_char(c: char) -> (r: Option<Weight>)
        ensures
            r == weight_of(c),
    {
        if c == '+' {
            Some(Weight::Pos)
        } else if c == '-' {
            Some(Weight::Neg)
        } else if c == '0' {
            Some(Weight::Zero)
        } else {
            None
        }
    }

    /// What the weight makes of `bit`.
    pub fn apply(&self, bit: bool) -> (r: bool)
        ensures
            r == weighted(*self, bit),
    {
        match self {
            Weight::Zero => false,
            Weight::Pos => bit,
            Weight::Neg => !bit,
        }
    }
}

/// The input bits as their weights make them: bit `i` of the result is
/// what weight `i` makes of input bit `i`.
pub fn apply_weights(input: &BitVec, weights: &Vec<Weight>) -> (r: BitVec)
    requires
        input@.len() == weights@.len(),
    ensures
        r@.len() == input@.len(),
        forall|i: int| 0 <= i < input@.len() ==> r@[i] == weighted(weights@[i], input@[i]),
{
    let mut output = BitVec::new();
    let mut i: usize = 0;
    while i < weights.len()
        invariant
            i <= weights@.len(),
            input@.len() == weights@.len(),
            output@.len() == i,
            forall|j: int| 0 <= j < i ==> output@[j] == weighted(weights@[j], input@[j]),
        decreases weights@.len() - i,
    {
        output.push(weights[i].apply(input.0[i]));
        i += 1;
    }
    output
}

impl Default for Weight {
    fn default() -> (r: Weight)
        ensures
            r == Weight::Zero,
    {
        Weight::Zero
    }
}

/// An OR neuron: the input bits in `mask` take part, those in `sign`
/// inverted.
#[derive(Clone, Copy, Debug, PartialEq, Eq, Structural)]
pub struct Neuron {
    pub sign: u32,
    pub mask: u32,
}

/// Whether the neuron fires on `value`.
pub open spec fn fires(n: Neuron, value: u32) -> bool {
    ((value ^ n.sign) & n.mask) != 0
}

impl Neuron {
    /// A neuron with the given inverted bits and connected bits.
    pub fn new(sign: u32, mask: u32) -> (r: Neuron)
        ensures
            r == (Neuron { sign, mask }),
    {
        Neuron { sign, mask }
    }

    /// Whether the neuron fires on `value`: one of its connected bits,
    /// after inversion, is set.
    pub fn tick(&self, value: u32) -> (r: bool)
        ensures
            r == fires(*self, value),
    {
        ((value ^ self.sign) & self.mask) != 0
    }
}

/// Up to 32 neurons on one input word.
#[derive(Debug)]
pub struct Layer {
    neurons: Vec<Neuron>,
}

impl View for Layer {
    type V = Seq<Neuron>;

    closed spec fn view(&self) -> Seq<Neuron> {
        self.neurons@
    }
}

/// The output word of the first `n` neurons: bit `i` is set where neuron `i`
/// fires.
pub open spec fn layer_word(neurons: Seq<Neuron>, value: u32, n: nat) -> u32
    decreases n,
{
    if n == 0 || n > neurons.len() || n > 32 {
        0
    } else {
        layer_word(neurons, value, (n - 1) as nat) | (if fires(neurons[n - 1], value) {
            1u32 << ((n - 1) as u32)
        } else {
            0u32
        })
    }
}

impl Layer {
    /// A layer of the given neurons.
    pub fn new(neurons: Vec<Neuron>) -> (r: Layer)
        ensures
            r@ == neurons@,
    {
        Layer { neurons }
    }

    /// The number of neurons.
    pub fn neuron_count(&self) -> (r: usize)
        ensures
            r == self@.len(),
    {
        self.neurons.len()
    }

    /// The output word of the layer on `input`: bit `i` is set where neuron
    /// `i` fires.
    pub fn tick(&self, input: u32) -> (r: u32)
        requires
            self@.len() <= 32,
        ensures
            r == layer_word(self@, input, self@.len()),
    {
        let mut out: u32 = 0;
        let mut i: usize = 0;
        while i < self.neurons.len()
            invariant
                i <= self.neurons@.len() <= 32,
                out == layer_word(self.neurons@, input, i as nat),
            decreases self.neurons@.len() - i,
        {
            let bit: u32 = if self.neurons[i].tick(input) {
                1u32 << (i as u32)
            } else {
                0
            };
            out = out | bit;
            i += 1;
        }
        out
    }
}

impl Clone for Layer {
    fn clone(&self) -> (r: Layer)
        ensures
            r@ == self@,
    {
        let neurons = self.neurons.clone();
        assert(neurons@ =~= self.neurons@);
        Layer { neurons }
    }
}

/// Layers in a row: each takes the output word of the one before it.
#[derive(Debug)]
pub struct Circuit {
    layers: Vec<Layer>,
    input_count: usize,
}

pub struct CircuitView {
    pub input_count: nat,
    pub layers: Seq<Seq<Neuron>>,
}

impl View for Circuit {
    type V = CircuitView;

    closed spec fn view(&self) -> CircuitView {
        CircuitView {
            input_count: self.input_count as nat,
            layers: self.layers@.map_values(|l: Layer| l@),
        }
    }
}

/// The word that the layers from `i` on make of `value`.
pub open spec fn circuit_word(layers: Seq<Seq<Neuron>>, i: int, value: u32) -> u32
    decreases layers.len() - i,
{
    if i < 0 || i >= layers.len() {
        value
    } else {
        circuit_word(layers, i + 1, layer_word(layers[i], value, layers[i].len()))
    }
}

/// Whether no layer has more than 32 neurons.
pub open spec fn layers_fit(layers: Seq<Seq<Neuron>>) -> bool {
    forall|i: int| 0 <= i < layers.len() ==> (#[trigger] layers[i]).len() <= 32
}

/// What is known while the text of a circuit is read: the layers that
/// are complete, the neurons of the layer that is open, the neuron that is
/// open with the number of its weights, and the number of weights of the
/// first neuron.
pub struct ReadState {
    pub layers: Seq<Seq<Neuron>>,
    pub neurons: Seq<Neuron>,
    pub sign: u32,
    pub mask: u32,
    pub width: u32,
    pub input_count: nat,
}

/// The open neuron closed: it joins the neurons of the open layer.
pub open spec fn close_neuron(st: ReadState) -> ReadState {
    ReadState {
        neurons: st.neurons.push(Neuron { sign: st.sign, mask: st.mask }),
        sign: 0,
        mask: 0,
        width: 0,
        input_count: if st.layers.len() == 0 && st.neurons.len() == 0 {
            st.width as nat
        } else {
            st.input_count
        },
        ..st
    }
}

/// One character read. `+` and `-` connect the next input bit to the open
/// neuron, `-` inverted; `0` leaves the bit unconnected. `;` closes the open
/// neuron; where no neuron is open it closes the layer.
///
/// `LexInvalid` for any other character, for a neuron with more than 32
/// weights and for a layer with more than 32 neurons; `ParseUnexpected` for
/// a `;` that closes a layer without neurons.
pub open spec fn read_char(st: ReadState, c: char) -> Result<ReadState, ErrorView> {
    if weight_of(c) is Some {
        if st.width >= 32 {
            Err(bare(ErrorKind::LexInvalid))
        } else {
            Ok(
                ReadState {
                    sign: if weight_of(c) == Some(Weight::Neg) {
                        st.sign | (1u32 << st.width)
                    } else {
                        st.sign
                    },
                    mask: if weight_of(c) == Some(Weight::Zero) {
                        st.mask
                    } else {
                        st.mask | (1u32 << st.width)
                    },
                    width: (st.width + 1) as u32,
                    ..st
                },
            )
        }
    } else if c == ';' {
        if st.width > 0 {
            if st.neurons.len() >= 32 {
                Err(bare(ErrorKind::LexInvalid))
            } else {
                Ok(close_neuron(st))
            }
        } else if st.neurons.len() > 0 {
            Ok(ReadState { layers: st.layers.push(st.neurons), neurons: Seq::empty(), ..st })
        } else {
            Err(bare(ErrorKind::ParseUnexpected))
        }
    } else {
        Err(bare(ErrorKind::LexInvalid))
    }
}

/// The characters from `i` on read.
pub open spec fn read_from(text: Seq<char>, i: int, st: ReadState) -> Result<ReadState, ErrorView>
    decreases text.len() - i,
{
    if i < 0 || i >= text.len() {
        Ok(st)
    } else {
        match read_char(st, text[i]) {
            Err(e) => Err(e),
            Ok(next) => read_from(text, i + 1, next),
        }
    }
}

/// The circuit that a text writes: neurons are rows of `+`, `-` and `0`,
/// one character for each input bit from the lowest on; `;` stands
/// between neurons and `;;` between layers. `ParseUnexpected` for a text
/// without neurons.
pub open spec fn circuit_of(text: Seq<char>) -> Result<CircuitView, ErrorView> {
    match read_from(
        text,
        0,
        ReadState { layers: Seq::empty(), neurons: Seq::empty(), sign: 0, mask: 0, width: 0, input_count: 0 },
    ) {
        Err(e) => Err(e),
        Ok(st) => {
            if st.width > 0 && st.neurons.len() >= 32 {
                Err(bare(ErrorKind::LexInvalid))
            } else {
                let after_params = if st.width > 0 {
                    close_neuron(st)
                } else {
                    st
                };
                let layers = if after_params.neurons.len() > 0 {
                    after_params.layers.push(after_params.neurons)
                } else {
                    after_params.layers
                };
                if layers.len() == 0 {
                    Err(bare(ErrorKind::ParseUnexpected))
                } else {
                    Ok(CircuitView { input_count: after_params.input_count, layers })
                }
            }
        },
    }
}

impl Circuit {
    /// Whether no layer has more than 32 neurons.
    pub open spec fn wf(&self) -> bool {
        layers_fit(self@.layers)
    }

    /// A circuit of the given layers on `input_count` input bits.
    pub fn new(input_count: usize, layers: Vec<Layer>) -> (r: Circuit)
        ensures
            r@ == (CircuitView {
                input_count: input_count as nat,
                layers: layers@.map_values(|l: Layer| l@),
            }),
    {
        Circuit { layers, input_count }
    }

    /// The number of input bits.
    pub fn input_count(&self) -> (r: usize)
        ensures
            r == self@.input_count,
    {
        self.input_count
    }

    /// The output word of the circuit on `input`: each layer takes the
    /// output word of the one before it.
    pub fn tick(&self, input: u32) -> (r: u32)
        requires
            self.wf(),
        ensures
            r == circuit_word(self@.layers, 0, input),
    {
        let mut value = input;
        let mut i: usize = 0;
        while i < self.layers.len()
            invariant
                i <= self.layers@.len(),
                layers_fit(self@.layers),
                circuit_word(self@.layers, 0, input) == circuit_word(self@.layers, i as int, value),
            decreases self.layers@.len() - i,
        {
            assert(self@.layers[i as int] == self.layers@[i as int]@);
            value = self.layers[i].tick(value);
            i += 1;
        }
        value
    }

    /// The output bits of the circuit on the input bits: the input bits
    /// make the input word, the first as its lowest bit, and the output
    /// bits are the bits of the output word, one for each neuron of the
    /// last layer.
    pub fn tick_bits(&self, input: &BitVec) -> (r: BitVec)
        requires
            self.wf(),
            self@.layers.len() > 0,
            input@.len() == self@.input_count,
            input@.len() <= 32,
        ensures
            r@.len() == self@.layers.last().len(),
            forall|i: int|
                0 <= i < r@.len() ==> r@[i] == crate::bits::bit_of(
                    circuit_word(self@.layers, 0, crate::bits::pack_bits(input@) as u32) as nat,
                    i as nat,
                ),
    {
        let word = crate::bits::int_from_bits(input.0.as_slice());
        let out = self.tick(word);
        let last = self.layers.len() - 1;
        assert(self@.layers[last as int] == self.layers@[last as int]@);
        BitVec(crate::bits::bits_of_word(out, self.layers[last].neuron_count()))
    }

    /// The circuit that `code` writes.
    ///
    /// Fails with `LexInvalid` at a character that is none of `+`, `-`,
    /// `0` and `;`, at a neuron with more than 32 weights and at a layer with
    /// more than 32 neurons, and with `ParseUnexpected` at a `;` that closes
    /// a layer without neurons and for a text without neurons.
    pub fn parse(code: &str) -> (r: Result<Circuit, CompileError>)
        ensures
            match r {
                Ok(circuit) => circuit_of(code@) == Ok::<CircuitView, ErrorView>(circuit@) && circuit.wf(),
                Err(e) => circuit_of(code@) == Err::<CircuitView, ErrorView>(e@),
            },
    {
        let chars = chars_of(code);
        let mut layers: Vec<Layer> = Vec::new();
        let mut neurons: Vec<Neuron> = Vec::new();
        let mut sign: u32 = 0;
        let mut mask: u32 = 0;
        let mut width: u32 = 0;
        let mut input_count: usize = 0;
        let ghost start = ReadState {
            layers: Seq::empty(),
            neurons: Seq::empty(),
            sign: 0,
            mask: 0,
            width: 0,
            input_count: 0,
        };
        let mut i: usize = 0;
        assert(layers@.map_values(|l: Layer| l@) =~= Seq::<Seq<Neuron>>::empty());
        while i < chars.len()
            invariant
                i <= chars@.len(),
                chars@ == code@,
                start == (ReadState {
                    layers: Seq::empty(),
                    neurons: Seq::empty(),
                    sign: 0,
                    mask: 0,
                    width: 0,
                    input_count: 0,
                }),
                width <= 32,
                neurons@.len() <= 32,
                input_count <= 32,
                layers_fit(layers@.map_values(|l: Layer| l@)),
                read_from(chars@, 0, start) == read_from(
                    chars@,
                    i as int,
                    ReadState {
                        layers: layers@.map_values(|l: Layer| l@),
                        neurons: neurons@,
                        sign,
                        mask,
                        width,
                        input_count: input_count as nat,
                    },
                ),
            decreases chars@.len() - i,
        {
            let c = chars[i];
            let ghost before = layers@.map_values(|l: Layer| l@);
            if let Some(weight) = Weight::from_char(c) {
                if width >= 32 {
                    return Err(CompileError::new(ErrorKind::LexInvalid));
                }
                if weight == Weight::Neg {
                    sign = sign | (1u32 << width);
                }
                if weight != Weight::Zero {
                    mask = mask | (1u32 << width);
                }
                width = width + 1;
            } else if c == ';' {
                if width > 0 {
                    if neurons.len() >= 32 {
                        return Err(CompileError::new(ErrorKind::LexInvalid));
                    }
                    if layers.len() == 0 && neurons.len() == 0 {
                        input_count = width as usize;
                    }
                    neurons.push(Neuron { sign, mask });
                    sign = 0;
                    mask = 0;
                    width = 0;
                } else if neurons.len() > 0 {
                    let layer = Layer { neurons };
                    layers.push(layer);
                    neurons = Vec::new();
                    assert(layers@.map_values(|l: Layer| l@) =~= before.push(layer@));
                } else {
                    return Err(CompileError::new(ErrorKind::ParseUnexpected));
                }
            } else {
                return Err(CompileError::new(ErrorKind::LexInvalid));
            }
            i += 1;
        }
        if width > 0 {
            if neurons.len() >= 32 {
                return Err(CompileError::new(ErrorKind::LexInvalid));
            }
            if layers.len() == 0 && neurons.len() == 0 {
                input_count = width as usize;
            }
            neurons.push(Neuron { sign, mask });
        }
        let ghost before = layers@.map_values(|l: Layer| l@);
        if neurons.len() > 0 {
            let layer = Layer { neurons };
            layers.push(layer);
            assert(layers@.map_values(|l: Layer| l@) =~= before.push(layer@));
        }
        if layers.len() == 0 {
            return Err(CompileError::new(ErrorKind::ParseUnexpected));
        }
        Ok(Circuit { layers, input_count })
    }
}

/// A value that takes effect at the next step.
#[derive(Clone, Copy, Debug, Default, PartialEq, Eq, Structural)]
pub struct Register {
    pub current: u32,
    pub next: u32,
}

impl Register {
    /// The next value becomes the current one.
    pub fn overwrite(&mut self)
        ensures
            *final(self) == (Register { current: old(self).next, next: old(self).next }),
    {
        self.current = self.next;
    }
}

} // verus!
