use antbyte::bitvec::BitVec;
use antbyte::circuit::apply_weights;
use antbyte::circuit::Circuit;
use antbyte::circuit::Layer;
use antbyte::circuit::Neuron;
use antbyte::circuit::Register;
use antbyte::circuit::Weight;
use antbyte::error::ErrorKind;

#[test]
fn circuit_buf() {
    let buf = Circuit::parse("+").unwrap();

    assert_eq!(buf.tick(0), 0);
    assert_eq!(buf.tick(1), 1);
}

#[test]
fn circuit_not() {
    let not = Circuit::parse("-").unwrap();

    assert_eq!(not.tick(0), 1);
    assert_eq!(not.tick(1), 0);
}

#[test]
fn circuit_or() {
    let or = Circuit::parse("++").unwrap();

    assert_eq!(or.tick(0b00), 0);
    assert_eq!(or.tick(0b01), 1);
    assert_eq!(or.tick(0b10), 1);
    assert_eq!(or.tick(0b11), 1);

    let or3 = Circuit::parse("+++").unwrap();

    assert_eq!(or3.tick(0b000), 0);
    assert_eq!(or3.tick(0b010), 1);
    assert_eq!(or3.tick(0b111), 1);
}

#[test]
fn circuit_and() {
    let and = Circuit::parse("--;;-").unwrap();

    assert_eq!(and.tick(0b00), 0);
    assert_eq!(and.tick(0b01), 0);
    assert_eq!(and.tick(0b10), 0);
    assert_eq!(and.tick(0b11), 1);

    let and3 = Circuit::parse("---;;-").unwrap();

    assert_eq!(and3.tick(0b000), 0);
    assert_eq!(and3.tick(0b010), 0);
    assert_eq!(and3.tick(0b111), 1);
}

#[test]
fn circuit_xor() {
    let xor = Circuit::parse("-+;+-;;--").unwrap();

    assert_eq!(xor.tick(0b00), 0);
    assert_eq!(xor.tick(0b01), 1);
    assert_eq!(xor.tick(0b10), 1);
    assert_eq!(xor.tick(0b11), 0);
}

#[test]
fn circuit_text_errors() {
    assert_eq!(Circuit::parse("").unwrap_err().kind, ErrorKind::ParseUnexpected);
    assert_eq!(Circuit::parse(";").unwrap_err().kind, ErrorKind::ParseUnexpected);
    assert_eq!(Circuit::parse("+a").unwrap_err().kind, ErrorKind::LexInvalid);
    let wide = "+".repeat(33);
    assert_eq!(Circuit::parse(&wide).unwrap_err().kind, ErrorKind::LexInvalid);
}

#[test]
fn circuit_counts_and_unconnected_bits() {
    let circuit = Circuit::parse("0+;+0").unwrap();
    assert_eq!(circuit.input_count(), 2);
    assert_eq!(circuit.tick(0b01), 0b10);
    assert_eq!(circuit.tick(0b10), 0b01);
}

#[test]
fn layers_and_neurons_by_hand() {
    let layer = Layer::new(vec![Neuron::new(0, 0b11), Neuron::new(0b11, 0b11)]);
    assert_eq!(layer.neuron_count(), 2);
    assert_eq!(layer.tick(0b00), 0b10);
    assert_eq!(layer.tick(0b11), 0b01);
    assert_eq!(layer.tick(0b01), 0b11);
    let circuit = Circuit::new(2, vec![layer]);
    assert_eq!(circuit.input_count(), 2);
    assert_eq!(circuit.tick(0b01), 0b11);
    assert!(Neuron::new(1, 1).tick(0));
    assert!(!Neuron::new(1, 1).tick(1));
}

#[test]
fn weight_flip_and_register() {
    let mut w = Weight::Pos;
    w.flip();
    assert_eq!(w, Weight::Neg);
    w.flip();
    assert_eq!(w, Weight::Pos);
    let mut z = Weight::Zero;
    z.flip();
    assert_eq!(z, Weight::Zero);
    let mut r = Register { current: 1, next: 7 };
    r.overwrite();
    assert_eq!(r, Register { current: 7, next: 7 });
}

#[test]
fn buf() {
    let buf = Circuit::parse("+").unwrap();

    assert_eq!(buf.tick_bits(&BitVec(vec![false])).0, vec![false]);
    assert_eq!(buf.tick_bits(&BitVec(vec![true])).0, vec![true]);
}

#[test]
fn not() {
    let not = Circuit::parse("-").unwrap();

    assert_eq!(not.tick_bits(&BitVec(vec![false])).0, vec![true]);
    assert_eq!(not.tick_bits(&BitVec(vec![true])).0, vec![false]);
}

#[test]
fn or() {
    let or = Circuit::parse("++").unwrap();

    assert_eq!(or.tick_bits(&BitVec(vec![false, false])).0, vec![false]);
    assert_eq!(or.tick_bits(&BitVec(vec![false, true])).0, vec![true]);
    assert_eq!(or.tick_bits(&BitVec(vec![true, false])).0, vec![true]);
    assert_eq!(or.tick_bits(&BitVec(vec![true, true])).0, vec![true]);
}

#[test]
fn and() {
    let and = Circuit::parse("--;;-").unwrap();

    assert_eq!(and.tick_bits(&BitVec(vec![false, false])).0, vec![false]);
    assert_eq!(and.tick_bits(&BitVec(vec![false, true])).0, vec![false]);
    assert_eq!(and.tick_bits(&BitVec(vec![true, false])).0, vec![false]);
    assert_eq!(and.tick_bits(&BitVec(vec![true, true])).0, vec![true]);
}

#[test]
fn bits_through_two_layers() {
    let circuit = Circuit::parse("+0;0+;++;;+00;0+0;00+;--0").unwrap();
    assert_eq!(
        circuit.tick_bits(&BitVec(vec![true, false])).0,
        vec![true, false, true, true]
    );
    assert_eq!(
        circuit.tick_bits(&BitVec(vec![false, false])).0,
        vec![false, false, false, true]
    );
    assert_eq!(antbyte::bits::bits_of_word(0b1010, 5), vec![false, true, false, true, false]);
}

#[test]
fn weights_on_bits() {
    assert_eq!(Weight::from_char('+'), Some(Weight::Pos));
    assert_eq!(Weight::from_char('-'), Some(Weight::Neg));
    assert_eq!(Weight::from_char('0'), Some(Weight::Zero));
    assert_eq!(Weight::from_char('x'), None);
    assert!(Weight::Neg.apply(false));
    assert!(!Weight::Zero.apply(true));
    let input = BitVec(vec![true, true, false, false, true]);
    let weights = vec![Weight::Pos, Weight::Neg, Weight::Pos, Weight::Neg, Weight::Zero];
    assert_eq!(apply_weights(&input, &weights).0, vec![true, false, false, true, false]);
}
