//! The standard library, written in the language itself.

use vstd::prelude::*;

verus! {

/// The text of the standard library: the functions that every program can
/// call unless it says `no_std;`.
///
/// Parameters and assignees are written least significant first: in the
/// truth table of a function its first parameter is bit 0 of the input and
/// its first assignee bit 0 of the output.
pub const STDLIB: &'static str = "
# The standard library

no_std;

set desc = \"antbyte standard library\";

# and: set where every parameter is set

fn and = (i0, i1) => out { out = -or(-i0, -i1); }
fn and = (i0, i1, i2) => out { out = -or(-i0, -i1, -i2); }
fn and = (i0, i1, i2, i3) => out { out = -or(-i0, -i1, -i2, -i3); }
fn and = (i0, i1, i2, i3, i4) => out { out = -or(-i0, -i1, -i2, -i3, -i4); }
fn and = (i0, i1, i2, i3, i4, i5) => out { out = -or(-i0, -i1, -i2, -i3, -i4, -i5); }
fn and = (i0, i1, i2, i3, i4, i5, i6) => out {
    out = -or(-i0, -i1, -i2, -i3, -i4, -i5, -i6);
}
fn and = (i0, i1, i2, i3, i4, i5, i6, i7) => out {
    out = -or(-i0, -i1, -i2, -i3, -i4, -i5, -i6, -i7);
}

# xor: set where the parameters differ; eq: set where they agree

fn xor = (a, b) => c { c = or(and(-a, b), and(a, -b)); }
fn eq = (a, b) => c { c = or(and(a, b), and(-a, -b)); }

# mux: the selector comes first; it picks a where it is clear, else b

fn mux = (s, a, b) => out { out = or(and(-s, a), and(s, b)); }

# mux with two selectors: s1 s0 = 00 picks a, 01 picks b, 10 picks c, 11 picks d

fn mux = (s0, s1, a, b, c, d) => out {
    out = mux(s1, mux(s0, a, b), mux(s0, c, d));
}

# add: half adder, full adder, and the same on numbers of two bits

fn add = (a, b) => (sum, cout) {
    sum = xor(a, b);
    cout = and(a, b);
}

fn add = (a, b, cin) => (sum, cout) {
    (sum0, cout0) = add(a, b);
    (sum, cout1) = add(sum0, cin);
    cout = or(cout0, cout1);
}

fn add = (a0, a1, b0, b1) => (s0, s1, cout) {
    (s0, c0) = add(a0, b0);
    (s1, cout) = add(a1, b1, c0);
}

fn add = (cin, a0, a1, b0, b1) => (s0, s1, cout) {
    (s0, c0) = add(a0, b0, cin);
    (s1, cout) = add(a1, b1, c0);
}

# cpy: one parameter to several assignees

fn cpy = in => (o0) { o0 = in; }
fn cpy = in => (o0, o1) { o0 = in; o1 = in; }
fn cpy = in => (o0, o1, o2) { o0 = in; o1 = in; o2 = in; }
fn cpy = in => (o0, o1, o2, o3) { o0 = in; o1 = in; o2 = in; o3 = in; }

# buf: each parameter to the assignee at its place

fn buf = (i0) => (o0) { o0 = i0; }
fn buf = (i0, i1) => (o0, o1) { o0 = i0; o1 = i1; }
fn buf = (i0, i1, i2) => (o0, o1, o2) { o0 = i0; o1 = i1; o2 = i2; }
fn buf = (i0, i1, i2, i3) => (o0, o1, o2, o3) { o0 = i0; o1 = i1; o2 = i2; o3 = i3; }

# inv: as buf, each value inverted

fn inv = (i0) => (o0) { o0 = -i0; }
fn inv = (i0, i1) => (o0, o1) { o0 = -i0; o1 = -i1; }
fn inv = (i0, i1, i2) => (o0, o1, o2) { o0 = -i0; o1 = -i1; o2 = -i2; }
fn inv = (i0, i1, i2, i3) => (o0, o1, o2, o3) { o0 = -i0; o1 = -i1; o2 = -i2; o3 = -i3; }
";

} // verus!
