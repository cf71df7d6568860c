//! The assembler: a compiled function to a behavior.
//!
//! It finds the peripheral bits that the function reads and writes, gives
//! them internal names, and runs the statements on every input to fill the
//! truth table.

use vstd::prelude::*;
use vstd::arithmetic::power2::pow2;
use crate::ant::behavior_wf;
use crate::ant::Behavior;
use crate::ant::BehaviorView;
use crate::bits::bit_of;
use crate::bits::bits_from_int;
use crate::bits::int_from_bits;
use crate::bits::lemma_pack_bits_bound;
use crate::bits::pack_bits;
use crate::bits::pow2_u64;
use crate::compiler::CompFunc;
use crate::compiler::CompFuncView;
use crate::compiler::CompStatement;
use crate::compiler::CompStatementView;
use crate::compiler::pv;
use crate::error::CompileError;
use crate::error::ErrorKind;
use crate::error::at;
use crate::error::ErrorView;
use crate::error::bare;
use crate::peripherals::bit_valid;
use crate::peripherals::io_of;
use crate::peripherals::peripheral_bit_of;
use crate::peripherals::IoType;
use crate::peripherals::Peripheral;
use crate::peripherals::PeripheralBit;
use crate::syntax::ParamValue;
use crate::syntax::ParamValueView;
use crate::syntax::SignatureView;
use crate::text::decimal;
use crate::text::is_upper_ident;
use crate::text::is_uppercase_ident;
use crate::text::push_decimal;
use crate::text::str_eq;
use crate::truth_table::table_shape;
use crate::truth_table::TruthTable;
use crate::truth_table::TruthTableView;
use crate::util::contains_name;
use crate::views::lemma_views_empty;
use crate::views::lemma_views_push;
use crate::views::views;

verus! {

/// The lower-case name of a peripheral.
pub open spec fn periph_label(p: Peripheral) -> Seq<char> {
    match p {
        Peripheral::CellClear => "cell_clear"@,
        Peripheral::Cell => "cell"@,
        Peripheral::CellNext => "cell_next"@,
        Peripheral::Time => "time"@,
        Peripheral::MemoryClear => "memory_clear"@,
        Peripheral::Memory => "memory"@,
        Peripheral::Random => "random"@,
        Peripheral::Obstacle => "obstacle"@,
        Peripheral::Kill => "kill"@,
        Peripheral::Direction => "direction"@,
        Peripheral::Halted => "halted"@,
        Peripheral::SpawnAnt => "spawn"@,
        Peripheral::Die => "die"@,
    }
}

/// The internal name of a peripheral bit as an input or as an output:
/// `_i_` or `_o_`, the peripheral's name, `_` and the bit.
pub open spec fn periph_name(bit: PeripheralBit, io: IoType) -> Seq<char> {
    (if io == IoType::Input {
        "_i_"@
    } else {
        "_o_"@
    }) + periph_label(bit.peripheral) + seq!['_'] + decimal(bit.bit as nat)
}

/// The internal name of a peripheral bit as an input or as an output.
pub fn format_periph(bit: &PeripheralBit, io_type: IoType) -> (r: String)
    ensures
        r@ == periph_name(*bit, io_type),
{
    let mut name = match io_type {
        IoType::Input => "_i_".to_owned(),
        IoType::Output => "_o_".to_owned(),
    };
    let label = match bit.peripheral {
        Peripheral::CellClear => "cell_clear",
        Peripheral::Cell => "cell",
        Peripheral::CellNext => "cell_next",
        Peripheral::Time => "time",
        Peripheral::MemoryClear => "memory_clear",
        Peripheral::Memory => "memory",
        Peripheral::Random => "random",
        Peripheral::Obstacle => "obstacle",
        Peripheral::Kill => "kill",
        Peripheral::Direction => "direction",
        Peripheral::Halted => "halted",
        Peripheral::SpawnAnt => "spawn",
        Peripheral::Die => "die",
    };
    name.append(label);
    name.push('_');
    push_decimal(&mut name, bit.bit as u64);
    assert(name@ =~= periph_name(*bit, io_type));
    name
}

/// What the search for peripherals knows: the function's parameters and
/// assignees with the peripheral bits added, the variables assigned so
/// far, and the peripheral bits read and written, each in the order of its
/// first appearance.
pub struct ExtractState {
    pub params: Seq<Seq<char>>,
    pub assignees: Seq<Seq<char>>,
    pub variables: Seq<Seq<char>>,
    pub inputs: Seq<PeripheralBit>,
    pub outputs: Seq<PeripheralBit>,
}

/// One value looked at: what it is renamed to, and what is known then.
///
/// An upper-case name must be a peripheral bit (`AsmPeriphUnknown`,
/// `AsmBitRange`). Read after it was written, it names the output. Else
/// the peripheral must allow the direction (`AsmPeriphDir`); the bit gets
/// its internal name and, at its first appearance, joins the inputs or the
/// outputs. Any other name that is assigned becomes a known variable; one
/// that is read must be a parameter or a known variable
/// (`AsmUnknownVariable`).
pub open spec fn extract_value(v: ParamValueView, io: IoType, st: ExtractState) -> Result<
    (ParamValueView, ExtractState),
    ErrorView,
> {
    if is_upper_ident(v.target) {
        match peripheral_bit_of(v.target) {
            Err(e) => Err(e),
            Ok(bit) => {
                if io == IoType::Input && st.outputs.contains(bit) {
                    Ok((pv(v.sign, periph_name(bit, IoType::Output)), st))
                } else if io_of(bit.peripheral) is Some && io_of(bit.peripheral) != Some(io) {
                    Err(at(ErrorKind::AsmPeriphDir, v.target))
                } else {
                    let name = periph_name(bit, io);
                    if io == IoType::Input {
                        if st.inputs.contains(bit) {
                            Ok((pv(v.sign, name), st))
                        } else {
                            Ok(
                                (
                                    pv(v.sign, name),
                                    ExtractState {
                                        inputs: st.inputs.push(bit),
                                        params: st.params.push(name),
                                        ..st
                                    },
                                ),
                            )
                        }
                    } else {
                        if st.outputs.contains(bit) {
                            Ok((pv(v.sign, name), st))
                        } else {
                            Ok(
                                (
                                    pv(v.sign, name),
                                    ExtractState {
                                        outputs: st.outputs.push(bit),
                                        assignees: st.assignees.push(name),
                                        ..st
                                    },
                                ),
                            )
                        }
                    }
                }
            },
        }
    } else if st.variables.contains(v.target) {
        Ok((v, st))
    } else if io == IoType::Output {
        if st.assignees.contains(v.target) {
            Ok((v, st))
        } else {
            Ok((v, ExtractState { variables: st.variables.push(v.target), ..st }))
        }
    } else {
        if st.params.contains(v.target) {
            Ok((v, st))
        } else {
            Err(at(ErrorKind::AsmUnknownVariable, v.target))
        }
    }
}

/// The parameters from `i` on looked at, behind those already renamed.
pub open spec fn extract_params(
    params: Seq<ParamValueView>,
    i: int,
    st: ExtractState,
    done: Seq<ParamValueView>,
) -> Result<(Seq<ParamValueView>, ExtractState), ErrorView>
    decreases params.len() - i,
{
    if i < 0 || i >= params.len() {
        Ok((done, st))
    } else {
        match extract_value(params[i], IoType::Input, st) {
            Err(e) => Err(e),
            Ok((v, next)) => extract_params(params, i + 1, next, done.push(v)),
        }
    }
}

/// One statement looked at: its parameters in order, then its assignee.
pub open spec fn extract_statement(s: CompStatementView, st: ExtractState) -> Result<
    (CompStatementView, ExtractState),
    ErrorView,
> {
    match extract_params(s.params, 0, st, Seq::empty()) {
        Err(e) => Err(e),
        Ok((params, after_params)) => match extract_value(s.assignee, IoType::Output, after_params) {
            Err(e) => Err(e),
            Ok((assignee, after_all)) => Ok((CompStatementView { assignee, params }, after_all)),
        },
    }
}

/// The statements from `i` on looked at, behind those already renamed.
pub open spec fn extract_statements(
    statements: Seq<CompStatementView>,
    i: int,
    st: ExtractState,
    done: Seq<CompStatementView>,
) -> Result<(Seq<CompStatementView>, ExtractState), ErrorView>
    decreases statements.len() - i,
{
    if i < 0 || i >= statements.len() {
        Ok((done, st))
    } else {
        match extract_statement(statements[i], st) {
            Err(e) => Err(e),
            Ok((s, next)) => extract_statements(statements, i + 1, next, done.push(s)),
        }
    }
}

/// What is known before the first statement.
pub open spec fn extract_start(signature: SignatureView) -> ExtractState {
    ExtractState {
        params: signature.params,
        assignees: signature.assignees,
        variables: Seq::empty(),
        inputs: Seq::empty(),
        outputs: Seq::empty(),
    }
}

/// A function with its peripherals found: the function with the
/// peripheral bits renamed and added to its parameters and assignees, the
/// input bits with the last found first, and the output bits in the order
/// in which they were found.
///
/// `AsmCapacity` where the function would have more than 8 parameters or
/// more than 32 assignees.
pub open spec fn extract_spec(f: CompFuncView) -> Result<
    (CompFuncView, Seq<PeripheralBit>, Seq<PeripheralBit>),
    ErrorView,
> {
    match extract_statements(f.statements, 0, extract_start(f.signature), Seq::empty()) {
        Err(e) => Err(e),
        Ok((statements, st)) => if st.params.len() > 8 || st.assignees.len() > 32 {
            Err(at(ErrorKind::AsmCapacity, f.signature.name))
        } else {
            Ok(
                (
                    CompFuncView {
                        signature: SignatureView {
                            name: f.signature.name,
                            params: st.params,
                            assignees: st.assignees,
                        },
                        statements,
                    },
                    st.inputs.reverse(),
                    st.outputs,
                ),
            )
        },
    }
}

/// The value of a name: false where nothing assigned it.
pub open spec fn lookup(env: Map<Seq<char>, bool>, name: Seq<char>) -> bool {
    env.contains_key(name) && env[name]
}

/// Whether one of the parameters from `i` on, with its sign applied, is set.
pub open spec fn or_from(params: Seq<ParamValueView>, i: int, env: Map<Seq<char>, bool>) -> bool
    decreases params.len() - i,
{
    if i < 0 || i >= params.len() {
        false
    } else {
        (params[i].sign ^ lookup(env, params[i].target)) || or_from(params, i + 1, env)
    }
}

/// One statement run: the assignee gets the OR of its signed parameters,
/// inverted where its own sign is set.
pub open spec fn run_statement(s: CompStatementView, env: Map<Seq<char>, bool>) -> Map<
    Seq<char>,
    bool,
> {
    env.insert(s.assignee.target, s.assignee.sign ^ or_from(s.params, 0, env))
}

/// The statements from `i` on run in order.
pub open spec fn run_from(statements: Seq<CompStatementView>, i: int, env: Map<Seq<char>, bool>) -> Map<
    Seq<char>,
    bool,
>
    decreases statements.len() - i,
{
    if i < 0 || i >= statements.len() {
        env
    } else {
        run_from(statements, i + 1, run_statement(statements[i], env))
    }
}

/// The parameters from `i` on set to the bits of `v`: parameter `n` gets
/// bit `n`.
pub open spec fn input_env_from(params: Seq<Seq<char>>, i: int, v: nat, env: Map<Seq<char>, bool>) -> Map<
    Seq<char>,
    bool,
>
    decreases params.len() - i,
{
    if i < 0 || i >= params.len() {
        env
    } else {
        input_env_from(params, i + 1, v, env.insert(params[i], bit_of(v, i as nat)))
    }
}

/// The values of the assignees from `i` on, behind those already read.
pub open spec fn outputs_from(
    assignees: Seq<Seq<char>>,
    i: int,
    env: Map<Seq<char>, bool>,
    bits: Seq<bool>,
) -> Seq<bool>
    decreases assignees.len() - i,
{
    if i < 0 || i >= assignees.len() {
        bits
    } else {
        outputs_from(assignees, i + 1, env, bits.push(lookup(env, assignees[i])))
    }
}

/// The output word for the input `v`: the parameters get the bits of `v`,
/// the statements run in order, and the assignees are packed, the first
/// as the least significant bit.
pub open spec fn tick_spec(f: CompFuncView, v: nat) -> nat {
    pack_bits(
        outputs_from(
            f.signature.assignees,
            0,
            run_from(f.statements, 0, input_env_from(f.signature.params, 0, v, Map::empty())),
            Seq::empty(),
        ),
    )
}

/// The output words for the inputs from `v` up to `limit`, behind those
/// already computed.
pub open spec fn table_from(f: CompFuncView, v: nat, limit: nat, entries: Seq<u32>) -> Seq<u32>
    decreases limit - v,
{
    if v >= limit {
        entries
    } else {
        table_from(f, v + 1, limit, entries.push(tick_spec(f, v) as u32))
    }
}

/// The truth table of a function: one output word for each input.
pub open spec fn table_of(f: CompFuncView) -> Seq<u32> {
    table_from(f, 0, pow2(f.signature.params.len()), Seq::empty())
}

/// The behavior that a compiled function assembles to.
pub open spec fn assemble_spec(f: CompFuncView) -> Result<BehaviorView, ErrorView> {
    match extract_spec(f) {
        Err(e) => Err(e),
        Ok((g, inputs, outputs)) => Ok(
            BehaviorView {
                name: f.signature.name,
                logic: TruthTableView {
                    input_count: g.signature.params.len(),
                    output_count: g.signature.assignees.len(),
                    entries: table_of(g),
                },
                inputs,
                outputs,
            },
        ),
    }
}

/// What holds of the search at every step: each input bit added one
/// parameter and each output bit one assignee, no bit is listed twice,
/// and every listed bit exists and is used in a direction it allows.
pub open spec fn extract_inv(st: ExtractState, params: nat, assignees: nat) -> bool {
    &&& st.params.len() == params + st.inputs.len()
    &&& st.assignees.len() == assignees + st.outputs.len()
    &&& st.inputs.no_duplicates()
    &&& st.outputs.no_duplicates()
    &&& forall|i: int| 0 <= i < st.inputs.len() ==> bit_valid(#[trigger] st.inputs[i], IoType::Input) is Ok
    &&& forall|i: int|
        0 <= i < st.outputs.len() ==> bit_valid(#[trigger] st.outputs[i], IoType::Output) is Ok
}

proof fn lemma_push_no_duplicates<T>(s: Seq<T>, x: T)
    requires
        s.no_duplicates(),
        !s.contains(x),
    ensures
        s.push(x).no_duplicates(),
{
    let t = s.push(x);
    assert forall|a: int, b: int| 0 <= a < t.len() && 0 <= b < t.len() && a != b implies t[a] != t[b] by {
        if a < s.len() && b < s.len() {
            assert(s[a] != s[b]);
        } else if a < s.len() {
            assert(s.contains(s[a]));
        } else {
            assert(s.contains(s[b]));
        }
    }
}

proof fn lemma_extract_value_inv(v: ParamValueView, io: IoType, st: ExtractState, params: nat, assignees: nat)
    requires
        extract_inv(st, params, assignees),
    ensures
        extract_value(v, io, st) matches Ok((_, next)) ==> extract_inv(next, params, assignees),
{
    if is_upper_ident(v.target) {
        match peripheral_bit_of(v.target) {
            Err(e) => {},
            Ok(bit) => {
                if io == IoType::Input && st.outputs.contains(bit) {
                } else if io_of(bit.peripheral) is Some && io_of(bit.peripheral) != Some(io) {
                } else {
                    assert(bit_valid(bit, io) is Ok);
                    if io == IoType::Input {
                        if !st.inputs.contains(bit) {
                            lemma_push_no_duplicates(st.inputs, bit);
                        }
                    } else {
                        if !st.outputs.contains(bit) {
                            lemma_push_no_duplicates(st.outputs, bit);
                        }
                    }
                }
            },
        }
    }
}

proof fn lemma_extract_params_inv(
    ps: Seq<ParamValueView>,
    i: int,
    st: ExtractState,
    done: Seq<ParamValueView>,
    params: nat,
    assignees: nat,
)
    requires
        0 <= i,
        extract_inv(st, params, assignees),
    ensures
        extract_params(ps, i, st, done) matches Ok((_, next)) ==> extract_inv(next, params, assignees),
    decreases ps.len() - i,
{
    if i < ps.len() {
        lemma_extract_value_inv(ps[i], IoType::Input, st, params, assignees);
        match extract_value(ps[i], IoType::Input, st) {
            Err(e) => {},
            Ok((v, next)) => {
                lemma_extract_params_inv(ps, i + 1, next, done.push(v), params, assignees);
            },
        }
    }
}

proof fn lemma_extract_statements_inv(
    ss: Seq<CompStatementView>,
    i: int,
    st: ExtractState,
    done: Seq<CompStatementView>,
    params: nat,
    assignees: nat,
)
    requires
        0 <= i,
        extract_inv(st, params, assignees),
    ensures
        extract_statements(ss, i, st, done) matches Ok((_, next)) ==> extract_inv(
            next,
            params,
            assignees,
        ),
    decreases ss.len() - i,
{
    if i < ss.len() {
        lemma_extract_params_inv(ss[i].params, 0, st, Seq::empty(), params, assignees);
        match extract_params(ss[i].params, 0, st, Seq::empty()) {
            Err(e) => {},
            Ok((ps, after_params)) => {
                lemma_extract_value_inv(ss[i].assignee, IoType::Output, after_params, params, assignees);
                match extract_value(ss[i].assignee, IoType::Output, after_params) {
                    Err(e) => {},
                    Ok((a, after_all)) => {
                        lemma_extract_statements_inv(
                            ss,
                            i + 1,
                            after_all,
                            done.push(CompStatementView { assignee: a, params: ps }),
                            params,
                            assignees,
                        );
                    },
                }
            },
        }
    }
}

proof fn lemma_reverse_valid(bits: Seq<PeripheralBit>, io: IoType)
    requires
        bits.no_duplicates(),
        forall|i: int| 0 <= i < bits.len() ==> bit_valid(#[trigger] bits[i], io) is Ok,
    ensures
        crate::ant::periphs_valid(bits.reverse(), io) is Ok,
        crate::ant::periphs_valid(bits, io) is Ok,
        bits.reverse().len() == bits.len(),
{
    let r = bits.reverse();
    assert forall|a: int, b: int| 0 <= a < r.len() && 0 <= b < r.len() && a != b implies r[a] != r[b] by {
        assert(r[a] == bits[bits.len() - 1 - a]);
        assert(r[b] == bits[bits.len() - 1 - b]);
    }
    assert forall|j: int| 0 <= j < r.len() implies bit_valid(#[trigger] r[j], io) is Ok by {
        assert(r[j] == bits[bits.len() - 1 - j]);
    }
    crate::ant::lemma_first_invalid(r, io, 0);
    crate::ant::lemma_first_invalid(bits, io, 0);
}

/// The peripheral bits that are found for a function are all different,
/// exist and are used in a direction they allow; each input bit adds one
/// parameter and each output bit one assignee.
pub proof fn lemma_extract_valid(f: CompFuncView)
    ensures
        extract_spec(f) matches Ok((g, inputs, outputs)) ==> {
            &&& g.signature.params.len() == f.signature.params.len() + inputs.len()
            &&& g.signature.assignees.len() == f.signature.assignees.len() + outputs.len()
            &&& g.signature.params.len() <= 8
            &&& g.signature.assignees.len() <= 32
            &&& crate::ant::periphs_valid(inputs, IoType::Input) is Ok
            &&& crate::ant::periphs_valid(outputs, IoType::Output) is Ok
        },
{
    let start = extract_start(f.signature);
    assert(extract_inv(start, f.signature.params.len(), f.signature.assignees.len()));
    lemma_extract_statements_inv(
        f.statements,
        0,
        start,
        Seq::empty(),
        f.signature.params.len(),
        f.signature.assignees.len(),
    );
    match extract_statements(f.statements, 0, start, Seq::empty()) {
        Err(e) => {},
        Ok((statements, st)) => {
            lemma_reverse_valid(st.inputs, IoType::Input);
            lemma_reverse_valid(st.outputs, IoType::Output);
        },
    }
}

fn contains_bit(bits: &Vec<PeripheralBit>, bit: PeripheralBit) -> (r: bool)
    ensures
        r == bits@.contains(bit),
{
    let mut i: usize = 0;
    while i < bits.len()
        invariant
            i <= bits@.len(),
            forall|k: int| 0 <= k < i ==> bits@[k] != bit,
        decreases bits@.len() - i,
    {
        if bits[i] == bit {
            return true;
        }
        i += 1;
    }
    false
}

/// What the search for peripherals knows, as executable values.
struct Extractor {
    params: Vec<String>,
    assignees: Vec<String>,
    variables: Vec<String>,
    inputs: Vec<PeripheralBit>,
    outputs: Vec<PeripheralBit>,
}

impl View for Extractor {
    type V = ExtractState;

    closed spec fn view(&self) -> ExtractState {
        ExtractState {
            params: views(self.params@),
            assignees: views(self.assignees@),
            variables: views(self.variables@),
            inputs: self.inputs@,
            outputs: self.outputs@,
        }
    }
}

impl Extractor {
    /// Looks at one value and renames it.
    fn extract_peripheral(&mut self, value: &ParamValue, io_type: IoType) -> (r: Result<
        ParamValue,
        CompileError,
    >)
        ensures
            match r {
                Ok(v) => extract_value(value@, io_type, old(self)@) == Ok::<
                    (ParamValueView, ExtractState),
                    ErrorView,
                >((v@, final(self)@)),
                Err(e) => extract_value(value@, io_type, old(self)@) == Err::<
                    (ParamValueView, ExtractState),
                    ErrorView,
                >(e@),
            },
    {
        let target = value.target.as_str();
        if is_uppercase_ident(target) {
            let bit = match PeripheralBit::from_ident(target) {
                Ok(bit) => bit,
                Err(e) => {
                    return Err(e);
                },
            };
            if io_type == IoType::Input && contains_bit(&self.outputs, bit) {
                return Ok(ParamValue { sign: value.sign, target: format_periph(&bit, IoType::Output) });
            }
            match bit.peripheral.properties().io_type {
                Some(required) => {
                    if required != io_type {
                        return Err(CompileError::about(ErrorKind::AsmPeriphDir, target));
                    }
                },
                None => {},
            }
            let name = format_periph(&bit, io_type);
            match io_type {
                IoType::Input => {
                    if !contains_bit(&self.inputs, bit) {
                        proof {
                            lemma_views_push(self.params@, name);
                        }
                        self.inputs.push(bit);
                        self.params.push(name.clone());
                    }
                },
                IoType::Output => {
                    if !contains_bit(&self.outputs, bit) {
                        proof {
                            lemma_views_push(self.assignees@, name);
                        }
                        self.outputs.push(bit);
                        self.assignees.push(name.clone());
                    }
                },
            }
            Ok(ParamValue { sign: value.sign, target: name })
        } else if contains_name(&self.variables, target) {
            Ok(value.clone())
        } else {
            match io_type {
                IoType::Output => {
                    if !contains_name(&self.assignees, target) {
                        proof {
                            lemma_views_push(self.variables@, value.target);
                        }
                        self.variables.push(value.target.clone());
                    }
                    Ok(value.clone())
                },
                IoType::Input => {
                    if contains_name(&self.params, target) {
                        Ok(value.clone())
                    } else {
                        Err(CompileError::about(ErrorKind::AsmUnknownVariable, target))
                    }
                },
            }
        }
    }

    /// Looks at one statement: its parameters in order, then its assignee.
    fn extract_statement(&mut self, statement: &CompStatement) -> (r: Result<CompStatement, CompileError>)
        ensures
            match r {
                Ok(s) => extract_statement(statement@, old(self)@) == Ok::<
                    (CompStatementView, ExtractState),
                    ErrorView,
                >((s@, final(self)@)),
                Err(e) => extract_statement(statement@, old(self)@) == Err::<
                    (CompStatementView, ExtractState),
                    ErrorView,
                >(e@),
            },
    {
        let mut params: Vec<ParamValue> = Vec::new();
        let mut i: usize = 0;
        proof {
            lemma_views_empty::<ParamValue>();
        }
        while i < statement.params.len()
            invariant
                i <= statement.params@.len(),
                extract_params(statement@.params, 0, old(self)@, Seq::empty()) == extract_params(
                    statement@.params,
                    i as int,
                    self@,
                    views(params@),
                ),
            decreases statement.params@.len() - i,
        {
            assert(statement@.params[i as int] == statement.params@[i as int]@);
            match self.extract_peripheral(&statement.params[i], IoType::Input) {
                Ok(v) => {
                    proof {
                        lemma_views_push(params@, v);
                    }
                    params.push(v);
                },
                Err(e) => {
                    return Err(e);
                },
            }
            i += 1;
        }
        match self.extract_peripheral(&statement.assignee, IoType::Output) {
            Ok(assignee) => Ok(CompStatement { assignee, params }),
            Err(e) => Err(e),
        }
    }
}

/// The bits in the opposite order.
fn reversed(bits: &Vec<PeripheralBit>) -> (r: Vec<PeripheralBit>)
    ensures
        r@ == bits@.reverse(),
{
    let mut out: Vec<PeripheralBit> = Vec::new();
    let n = bits.len();
    let mut i: usize = 0;
    while i < n
        invariant
            i <= n,
            n == bits@.len(),
            out@.len() == i,
            forall|j: int| 0 <= j < i ==> out@[j] == bits@[n - 1 - j],
        decreases n - i,
    {
        out.push(bits[n - 1 - i]);
        i += 1;
    }
    assert(out@ =~= bits@.reverse());
    out
}

impl CompFunc {
    /// Finds the peripheral bits that the function reads and writes,
    /// renames them in its statements and adds them to its parameters and
    /// assignees. Returns the input bits, the last found first, and the
    /// output bits in the order in which they were found. On an error the
    /// function stays as it is.
    ///
    /// Fails with `AsmPeriphUnknown`, `AsmBitRange`, `AsmPeriphDir` or
    /// `AsmUnknownVariable` at the first value that is wrong in that way,
    /// and with `AsmCapacity` where the function would have more than 8
    /// parameters or more than 32 assignees.
    pub fn extract_peripherals(&mut self) -> (r: Result<
        (Vec<PeripheralBit>, Vec<PeripheralBit>),
        CompileError,
    >)
        ensures
            match r {
                Ok((inputs, outputs)) => extract_spec(old(self)@) == Ok::<
                    (CompFuncView, Seq<PeripheralBit>, Seq<PeripheralBit>),
                    ErrorView,
                >((final(self)@, inputs@, outputs@)),
                Err(e) => extract_spec(old(self)@) == Err::<
                    (CompFuncView, Seq<PeripheralBit>, Seq<PeripheralBit>),
                    ErrorView,
                >(e@) && *final(self) == *old(self),
            },
    {
        let mut state = Extractor {
            params: crate::syntax::clone_names(&self.signature.params),
            assignees: crate::syntax::clone_names(&self.signature.assignees),
            variables: Vec::new(),
            inputs: Vec::new(),
            outputs: Vec::new(),
        };
        let mut statements: Vec<CompStatement> = Vec::new();
        let mut i: usize = 0;
        proof {
            lemma_views_empty::<CompStatement>();
            lemma_views_empty::<String>();
            assert(state@ == extract_start(self@.signature));
        }
        let ghost start = state@;
        while i < self.comp_statements.len()
            invariant
                i <= self.comp_statements@.len(),
                *self == *old(self),
                start == extract_start(self@.signature),
                extract_statements(self@.statements, 0, start, Seq::empty()) == extract_statements(
                    self@.statements,
                    i as int,
                    state@,
                    views(statements@),
                ),
            decreases self.comp_statements@.len() - i,
        {
            assert(self@.statements[i as int] == self.comp_statements@[i as int]@);
            match state.extract_statement(&self.comp_statements[i]) {
                Ok(s) => {
                    proof {
                        lemma_views_push(statements@, s);
                    }
                    statements.push(s);
                },
                Err(e) => {
                    return Err(e);
                },
            }
            i += 1;
        }
        if state.params.len() > 8 || state.assignees.len() > 32 {
            return Err(CompileError::about(ErrorKind::AsmCapacity, self.signature.name.as_str()));
        }
        let inputs = reversed(&state.inputs);
        let outputs = state.outputs;
        self.signature.params = state.params;
        self.signature.assignees = state.assignees;
        self.comp_statements = statements;
        Ok((inputs, outputs))
    }
}

/// The map that the first `n` pairs of names and values make, later
/// pairs over earlier ones.
pub open spec fn env_map(names: Seq<String>, values: Seq<bool>, n: nat) -> Map<Seq<char>, bool>
    decreases n,
{
    if n == 0 || n > names.len() || n > values.len() {
        Map::empty()
    } else {
        env_map(names, values, (n - 1) as nat).insert(names[n - 1]@, values[n - 1])
    }
}

proof fn lemma_env_map_prefix(names: Seq<String>, values: Seq<bool>, name: String, value: bool, n: nat)
    requires
        n <= names.len(),
        n <= values.len(),
    ensures
        env_map(names.push(name), values.push(value), n) == env_map(names, values, n),
    decreases n,
{
    if n > 0 {
        lemma_env_map_prefix(names, values, name, value, (n - 1) as nat);
    }
}

/// The values of the variables while the statements run.
struct Env {
    names: Vec<String>,
    values: Vec<bool>,
}

impl Env {
    spec fn wf(&self) -> bool {
        self.names@.len() == self.values@.len()
    }

    spec fn map(&self) -> Map<Seq<char>, bool> {
        env_map(self.names@, self.values@, self.names@.len())
    }

    fn new() -> (env: Env)
        ensures
            env.wf(),
            env.map() == Map::<Seq<char>, bool>::empty(),
    {
        Env { names: Vec::new(), values: Vec::new() }
    }

    fn set(&mut self, name: String, value: bool)
        requires
            old(self).wf(),
        ensures
            final(self).wf(),
            final(self).map() == old(self).map().insert(name@, value),
    {
        proof {
            lemma_env_map_prefix(self.names@, self.values@, name, value, self.names@.len());
        }
        self.names.push(name);
        self.values.push(value);
    }

    fn get(&self, name: &str) -> (r: bool)
        requires
            self.wf(),
        ensures
            r == lookup(self.map(), name@),
    {
        let mut i: usize = self.names.len();
        while i > 0
            invariant
                i <= self.names@.len(),
                self.wf(),
                lookup(self.map(), name@) == lookup(env_map(self.names@, self.values@, i as nat), name@),
            decreases i,
        {
            i -= 1;
            if str_eq(self.names[i].as_str(), name) {
                return self.values[i];
            }
        }
        false
    }
}

/// The output word for an input has no more bits than there are assignees.
pub proof fn lemma_tick_bound(f: CompFuncView, v: nat)
    ensures
        tick_spec(f, v) < pow2(f.signature.assignees.len()),
{
    let env = run_from(f.statements, 0, input_env_from(f.signature.params, 0, v, Map::empty()));
    lemma_outputs_len(f.signature.assignees, 0, env, Seq::empty());
    lemma_pack_bits_bound(outputs_from(f.signature.assignees, 0, env, Seq::empty()));
}

proof fn lemma_outputs_len(assignees: Seq<Seq<char>>, i: int, env: Map<Seq<char>, bool>, bits: Seq<bool>)
    requires
        0 <= i <= assignees.len(),
    ensures
        outputs_from(assignees, i, env, bits).len() == bits.len() + assignees.len() - i,
    decreases assignees.len() - i,
{
    if i < assignees.len() {
        lemma_outputs_len(assignees, i + 1, env, bits.push(lookup(env, assignees[i])));
    }
}

impl CompFunc {
    /// The output word for one input: parameter `n` gets bit `n` of
    /// `input`, the statements run in order, and the assignees are packed,
    /// the first as the least significant bit.
    pub fn tick(&self, input: u8) -> (r: u32)
        requires
            self@.signature.params.len() <= 8,
            self@.signature.assignees.len() <= 32,
        ensures
            r == tick_spec(self@, input as nat),
            (r as nat) < pow2(self@.signature.assignees.len()),
    {
        let bits = bits_from_int(input);
        let mut env = Env::new();
        let ghost params = self@.signature.params;
        let ghost v = input as nat;
        let mut n: usize = 0;
        while n < self.signature.params.len()
            invariant
                n <= self.signature.params@.len() <= 8,
                params == self@.signature.params,
                v == input as nat,
                env.wf(),
                forall|i: int| 0 <= i < 8 ==> bits@[i] == bit_of(v, i as nat),
                input_env_from(params, 0, v, Map::empty()) == input_env_from(params, n as int, v, env.map()),
            decreases self.signature.params@.len() - n,
        {
            assert(params[n as int] == self.signature.params@[n as int]@);
            env.set(self.signature.params[n].clone(), bits[n]);
            n += 1;
        }
        let ghost statements = self@.statements;
        let ghost start = env.map();
        let mut i: usize = 0;
        while i < self.comp_statements.len()
            invariant
                i <= self.comp_statements@.len(),
                statements == self@.statements,
                env.wf(),
                run_from(statements, 0, start) == run_from(statements, i as int, env.map()),
            decreases self.comp_statements@.len() - i,
        {
            let statement = &self.comp_statements[i];
            assert(statements[i as int] == statement@);
            let mut any = false;
            let mut k: usize = 0;
            while k < statement.params.len()
                invariant
                    k <= statement.params@.len(),
                    env.wf(),
                    or_from(statement@.params, 0, env.map()) == (any || or_from(
                        statement@.params,
                        k as int,
                        env.map(),
                    )),
                decreases statement.params@.len() - k,
            {
                let param = &statement.params[k];
                assert(statement@.params[k as int] == param@);
                let value = param.sign ^ env.get(param.target.as_str());
                any = any || value;
                k += 1;
            }
            env.set(statement.assignee.target.clone(), statement.assignee.sign ^ any);
            i += 1;
        }
        let ghost assignees = self@.signature.assignees;
        let mut outputs: Vec<bool> = Vec::new();
        let mut j: usize = 0;
        while j < self.signature.assignees.len()
            invariant
                j <= self.signature.assignees@.len() <= 32,
                assignees == self@.signature.assignees,
                env.wf(),
                outputs@.len() == j,
                outputs_from(assignees, 0, env.map(), Seq::empty()) == outputs_from(
                    assignees,
                    j as int,
                    env.map(),
                    outputs@,
                ),
            decreases self.signature.assignees@.len() - j,
        {
            assert(assignees[j as int] == self.signature.assignees@[j as int]@);
            outputs.push(env.get(self.signature.assignees[j].as_str()));
            j += 1;
        }
        proof {
            lemma_tick_bound(self@, v);
        }
        int_from_bits(outputs.as_slice())
    }

    /// The truth table of the function: the output word of every input.
    pub fn simulate(&self) -> (r: TruthTable)
        requires
            self@.signature.params.len() <= 8,
            self@.signature.assignees.len() <= 32,
        ensures
            r@ == (TruthTableView {
                input_count: self@.signature.params.len(),
                output_count: self@.signature.assignees.len(),
                entries: table_of(self@),
            }),
            table_shape(r@.input_count, r@.output_count, r@.entries),
    {
        let input_bits = self.signature.params.len();
        let output_bits = self.signature.assignees.len();
        let size = pow2_u64(input_bits as u8);
        proof {
            vstd::arithmetic::power2::lemma2_to64();
            if input_bits < 8 {
                vstd::arithmetic::power2::lemma_pow2_strictly_increases(input_bits as nat, 8);
            }
        }
        let mut entries: Vec<u32> = Vec::new();
        let mut v: u64 = 0;
        while v < size
            invariant
                v <= size <= 256,
                size == pow2(input_bits as nat),
                input_bits == self@.signature.params.len(),
                output_bits == self@.signature.assignees.len(),
                input_bits <= 8,
                output_bits <= 32,
                entries@.len() == v,
                table_of(self@) == table_from(self@, v as nat, size as nat, entries@),
                forall|j: int| 0 <= j < entries@.len() ==> (#[trigger] entries@[j] as nat) < pow2(
                    output_bits as nat,
                ),
            decreases size - v,
        {
            let word = self.tick(v as u8);
            entries.push(word);
            v += 1;
        }
        match TruthTable::new(input_bits, output_bits, entries) {
            Ok(table) => {
                let _ = table.entries();
                table
            },
            Err(_) => {
                assert(false);
                TruthTable::default()
            },
        }
    }

    /// The behavior that the function assembles to: its peripheral bits
    /// and its truth table. The table has `2^inputs` entries, each below
    /// `2^outputs`. For a function without parameters and assignees of its
    /// own, as an ant has it, the behavior can drive an ant.
    ///
    /// Fails as `extract_peripherals` does.
    pub fn assemble(&self) -> (r: Result<Behavior, CompileError>)
        ensures
            match r {
                Ok(b) => assemble_spec(self@) == Ok::<BehaviorView, ErrorView>(b@) && table_shape(
                    b@.logic.input_count,
                    b@.logic.output_count,
                    b@.logic.entries,
                ) && (self@.signature.params.len() == 0 && self@.signature.assignees.len() == 0
                    ==> behavior_wf(b@)),
                Err(e) => assemble_spec(self@) == Err::<BehaviorView, ErrorView>(e@),
            },
    {
        let mut func = self.clone();
        proof {
            lemma_extract_valid(self@);
        }
        let (inputs, outputs) = match func.extract_peripherals() {
            Ok(found) => found,
            Err(e) => {
                return Err(e);
            },
        };
        let logic = func.simulate();
        Ok(Behavior { name: self.signature.name.clone(), logic, inputs, outputs })
    }
}

} // verus!
