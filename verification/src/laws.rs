//! What holds of the compiler and of every world, proved from the
//! definitions of the rest of the library.

use vstd::prelude::*;
use vstd::arithmetic::power2::pow2;
use crate::ant::AntStatus;
use crate::ant::ColorMode;
use crate::assembler::assemble_spec;
use crate::assembler::extract_spec;
use crate::assembler::extract_start;
use crate::assembler::extract_statements;
use crate::assembler::extract_value;
use crate::assembler::input_env_from;
use crate::assembler::lookup;
use crate::assembler::or_from;
use crate::assembler::outputs_from;
use crate::assembler::run_from;
use crate::assembler::table_from;
use crate::assembler::table_of;
use crate::assembler::tick_spec;
use crate::bits::bit_of;
use crate::bits::pack_bits;
use crate::compiler::and_name;
use crate::compiler::compile_call;
use crate::compiler::compile_calls;
use crate::compiler::compile_func_spec;
use crate::compiler::compile_statement;
use crate::compiler::compile_statements;
use crate::compiler::discard_name;
use crate::compiler::expand_args;
use crate::compiler::expand_expr;
use crate::compiler::expand_statement;
use crate::compiler::find_overload;
use crate::compiler::kept_from;
use crate::compiler::or_name;
use crate::compiler::pv;
use crate::compiler::resolve_and;
use crate::compiler::signed_by;
use crate::compiler::assigned_names;
use crate::compiler::CompFuncView;
use crate::compiler::CompStatementView;
use crate::compiler::CompileState;
use crate::compiler::FuncCallView;
use crate::error::ErrorKind;
use crate::error::ErrorView;
use crate::peripherals::IoType;
use crate::syntax::spec_of;
use crate::syntax::ExpressionView;
use crate::syntax::FuncView;
use crate::syntax::ParamValueView;
use crate::syntax::SignatureView;
use crate::syntax::StatementView;
use crate::text::is_lower_ident;
use crate::text::is_upper_ident;
use crate::world::cached;
use crate::world::color_at;
use crate::world::settled;
use crate::world::world_ok;
use crate::world::World;

verus! {

/// An expression with the opposite sign.
pub open spec fn negated(e: ExpressionView) -> ExpressionView {
    ExpressionView { ident: e.ident, sign: !e.sign, params: e.params }
}

/// Each of the expressions with the opposite sign.
pub open spec fn all_negated(es: Seq<ExpressionView>) -> Seq<ExpressionView> {
    es.map_values(|e: ExpressionView| negated(e))
}

/// Sign XOR is an involution: a statement with its expression and every
/// assignee inverted compiles to what the statement itself compiles to.
/// So `-a = -x;` is `a = x;`, and inverting an inverted expression gives
/// the expression back.
pub proof fn lemma_double_inversion(
    s: StatementView,
    funcs: Seq<CompFuncView>,
    st: CompileState,
)
    ensures
        expand_statement(
            StatementView { assignees: signed_by(s.assignees, true), expression: negated(s.expression) },
            st.exp_index,
        ) == expand_statement(s, st.exp_index),
        compile_statement(
            StatementView { assignees: signed_by(s.assignees, true), expression: negated(s.expression) },
            funcs,
            st,
        ) == compile_statement(s, funcs, st),
        negated(negated(s.expression)) == s.expression,
{
    let e = s.expression;
    let t = StatementView { assignees: signed_by(s.assignees, true), expression: negated(e) };
    let (calls, next) = expand_expr(e, st.exp_index);
    let (calls2, next2) = expand_expr(negated(e), st.exp_index);
    assert(next2 == next);
    assert(calls2.len() == calls.len());
    assert(calls2.drop_last() =~= calls.drop_last());
    assert(calls2.last().func == calls.last().func);
    assert(calls2.last().params == calls.last().params);
    assert(calls2.last().assignees[0].sign == !calls.last().assignees[0].sign);
    let flip = calls.last().assignees[0].sign;
    assert(signed_by(signed_by(s.assignees, true), !flip) =~= signed_by(s.assignees, flip));
}

/// The arguments that are variables or peripherals need no calls and
/// stand for themselves.
pub proof fn lemma_expand_leaves(args: Seq<ExpressionView>, n: nat, index: u64)
    requires
        n <= args.len(),
        forall|i: int| 0 <= i < args.len() ==> (#[trigger] args[i]).params is None,
    ensures
        expand_args(args, n, index) == (
            Seq::<FuncCallView>::empty(),
            args.take(n as int).map_values(|e: ExpressionView| pv(e.sign, e.ident)),
            index,
        ),
    decreases n,
{
    let wanted = args.take(n as int).map_values(|e: ExpressionView| pv(e.sign, e.ident));
    if n == 0 {
        assert(wanted =~= Seq::<ParamValueView>::empty());
    } else {
        lemma_expand_leaves(args, (n - 1) as nat, index);
        let before = args.take(n - 1).map_values(|e: ExpressionView| pv(e.sign, e.ident));
        assert(args[n - 1].params is None);
        assert(wanted =~= before.push(pv(args[n - 1].sign, args[n - 1].ident)));
    }
}

/// De Morgan: a call of `and` on variables or peripherals compiles to
/// what the inverted `or` of the inverted arguments compiles to. So
/// `c = and(a, b);` and `c = -or(-a, -b);` give the same statements and
/// with them the same truth table.
pub proof fn lemma_and_is_inverted_or(
    assignees: Seq<ParamValueView>,
    sign: bool,
    args: Seq<ExpressionView>,
    funcs: Seq<CompFuncView>,
    st: CompileState,
)
    requires
        forall|i: int| 0 <= i < args.len() ==> (#[trigger] args[i]).params is None,
    ensures
        compile_statement(
            StatementView {
                assignees,
                expression: ExpressionView { ident: and_name(), sign, params: Some(args) },
            },
            funcs,
            st,
        ) == compile_statement(
            StatementView {
                assignees,
                expression: ExpressionView { ident: or_name(), sign: !sign, params: Some(all_negated(args)) },
            },
            funcs,
            st,
        ),
{
    let with_and = StatementView {
        assignees,
        expression: ExpressionView { ident: and_name(), sign, params: Some(args) },
    };
    let with_or = StatementView {
        assignees,
        expression: ExpressionView { ident: or_name(), sign: !sign, params: Some(all_negated(args)) },
    };
    let index = st.exp_index;
    let flipped = all_negated(args);
    lemma_expand_leaves(args, args.len(), index);
    lemma_expand_leaves(flipped, flipped.len(), index);
    assert(args.take(args.len() as int) =~= args);
    assert(flipped.take(flipped.len() as int) =~= flipped);
    let plain = args.map_values(|e: ExpressionView| pv(e.sign, e.ident));
    let inverted = flipped.map_values(|e: ExpressionView| pv(e.sign, e.ident));
    assert(inverted =~= signed_by(plain, true));
    let (first, next_first) = expand_statement(with_and, index);
    let (second, next_second) = expand_statement(with_or, index);
    assert(next_first == next_second);
    assert(first.len() == 1 && second.len() == 1);
    let own = signed_by(assignees, sign);
    let other = signed_by(assignees, !sign);
    assert(first[0] == (FuncCallView { func: and_name(), assignees: own, params: plain }));
    assert(second[0] == (FuncCallView { func: or_name(), assignees: other, params: inverted }));
    assert(signed_by(own, true) =~= other);
    assert(and_name() != or_name()) by {
        assert(and_name().len() != or_name().len());
    }
    assert(resolve_and(first[0]) == second[0]);
    assert(resolve_and(second[0]) == second[0]);
    let start = CompileState { exp_index: crate::compiler::bump(next_first), ..st };
    assert(compile_call(first[0], funcs, start) == compile_call(second[0], funcs, start));
    assert(compile_calls(first, 0, funcs, start) == compile_calls(second, 0, funcs, start)) by {
        reveal_with_fuel(compile_calls, 3);
    }
}

proof fn lemma_table_from(f: CompFuncView, v: nat, limit: nat, entries: Seq<u32>)
    requires
        v <= limit,
        entries.len() == v,
        f.signature.assignees.len() <= 32,
        forall|i: int| 0 <= i < entries.len() ==> entries[i] == tick_spec(f, i as nat),
    ensures
        table_from(f, v, limit, entries).len() == limit,
        forall|i: int|
            0 <= i < limit ==> #[trigger] table_from(f, v, limit, entries)[i] == tick_spec(f, i as nat),
    decreases limit - v,
{
    if v < limit {
        crate::assembler::lemma_tick_bound(f, v);
        vstd::arithmetic::power2::lemma2_to64();
        if f.signature.assignees.len() < 32 {
            vstd::arithmetic::power2::lemma_pow2_strictly_increases(f.signature.assignees.len(), 32);
        }
        lemma_table_from(f, v + 1, limit, entries.push(tick_spec(f, v) as u32));
    }
}

/// The truth table of a function with `n` parameters and `m` assignees
/// (at most 32) has `2^n` entries: one for a function without parameters,
/// 256 for one with eight. Entry `v` is the output word for the input `v`,
/// and every entry is below `2^m`.
pub proof fn lemma_table_shape(f: CompFuncView)
    requires
        f.signature.assignees.len() <= 32,
    ensures
        table_of(f).len() == pow2(f.signature.params.len()),
        f.signature.params.len() == 0 ==> table_of(f).len() == 1,
        f.signature.params.len() == 8 ==> table_of(f).len() == 256,
        forall|v: int| 0 <= v < table_of(f).len() ==> #[trigger] table_of(f)[v] == tick_spec(f, v as nat),
        forall|v: int|
            0 <= v < table_of(f).len() ==> (#[trigger] table_of(f)[v] as nat) < pow2(
                f.signature.assignees.len(),
            ),
{
    vstd::arithmetic::power2::lemma2_to64();
    lemma_table_from(f, 0, pow2(f.signature.params.len()), Seq::empty());
    assert forall|v: int| 0 <= v < table_of(f).len() implies (#[trigger] table_of(f)[v] as nat) < pow2(
        f.signature.assignees.len(),
    ) by {
        crate::assembler::lemma_tick_bound(f, v as nat);
    }
}

/// The function whose body is `y = x;`.
pub open spec fn identity_func(name: Seq<char>, x: Seq<char>, y: Seq<char>) -> FuncView {
    FuncView {
        signature: SignatureView { name, assignees: seq![y], params: seq![x] },
        statements: seq![
            StatementView {
                assignees: seq![pv(false, y)],
                expression: ExpressionView { ident: x, sign: false, params: None },
            },
        ],
    }
}

/// What the function whose body is `y = x;` compiles to: one statement
/// that gives `y` the value of `x`.
pub open spec fn identity_compiled(name: Seq<char>, x: Seq<char>, y: Seq<char>) -> CompFuncView {
    CompFuncView {
        signature: SignatureView { name, assignees: seq![y], params: seq![x] },
        statements: seq![CompStatementView { assignee: pv(false, y), params: seq![pv(false, x)] }],
    }
}

/// A function whose body is `y = x;` compiles to one statement that gives
/// `y` the value of `x`, whatever was compiled before it, unless a
/// function of its name with one parameter and one assignee was.
pub proof fn lemma_identity_compiles(name: Seq<char>, x: Seq<char>, y: Seq<char>, funcs: Seq<CompFuncView>)
    requires
        is_lower_ident(y),
        find_overload(funcs, spec_of(identity_func(name, x, y).signature)) is Err,
    ensures
        compile_func_spec(identity_func(name, x, y), funcs) == Ok::<CompFuncView, ErrorView>(
            identity_compiled(name, x, y),
        ),
{
    let f = identity_func(name, x, y);
    let s = f.statements[0];
    let start = CompileState { exp_index: 0, func_index: 0, statements: Seq::empty() };
    let (calls, next) = expand_statement(s, 0);
    assert(signed_by(s.assignees, false) =~= s.assignees);
    let call = FuncCallView { func: or_name(), assignees: seq![pv(false, y)], params: seq![pv(false, x)] };
    assert(calls =~= seq![call]);
    assert(and_name() != or_name()) by {
        assert(and_name().len() != or_name().len());
    }
    assert(resolve_and(call) == call);
    let kept = CompStatementView { assignee: pv(false, y), params: seq![pv(false, x)] };
    let after = CompileState { exp_index: crate::compiler::bump(next), func_index: 0, statements: seq![kept] };
    assert(Seq::<CompStatementView>::empty().push(kept) =~= seq![kept]);
    assert(compile_call(call, funcs, CompileState { exp_index: crate::compiler::bump(next), ..start })
        == Ok::<CompileState, ErrorView>(after));
    assert(compile_calls(calls, 0, funcs, CompileState { exp_index: crate::compiler::bump(next), ..start })
        == Ok::<CompileState, ErrorView>(after)) by {
        reveal_with_fuel(compile_calls, 3);
    }
    assert(compile_statements(f.statements, 0, funcs, start) == Ok::<CompileState, ErrorView>(after)) by {
        reveal_with_fuel(compile_statements, 3);
    }
    assert(y != discard_name()) by {
        assert(crate::text::is_lower(y[0]));
    }
    assert(kept_from(seq![kept], 0, Seq::empty()) =~= seq![kept]) by {
        reveal_with_fuel(kept_from, 3);
    }
    assert(assigned_names(seq![kept]) =~= seq![y]);
    assert(crate::util::first_dupe_from(seq![y], 0) is None) by {
        reveal_with_fuel(crate::util::first_dupe_from, 3);
        assert(seq![y].take(0) =~= Seq::<Seq<char>>::empty());
    }
}

/// The truth table of a function whose body is `y = x;` is `[0, 1]`.
pub proof fn lemma_identity_table(name: Seq<char>, x: Seq<char>, y: Seq<char>)
    requires
        is_lower_ident(x),
        is_lower_ident(y),
    ensures
        assemble_spec(identity_compiled(name, x, y)) matches Ok(b) && b.logic.entries == seq![0u32, 1u32]
            && b.logic.input_count == 1 && b.logic.output_count == 1,
{
    let g = identity_compiled(name, x, y);
    let start = extract_start(g.signature);
    let stmt = g.statements[0];
    assert(!is_upper_ident(x)) by {
        assert(crate::text::is_lower(x[0]));
    }
    assert(!is_upper_ident(y)) by {
        assert(crate::text::is_lower(y[0]));
    }
    assert(start.params.contains(x)) by {
        assert(start.params[0] == x);
    }
    assert(start.assignees.contains(y)) by {
        assert(start.assignees[0] == y);
    }
    assert(!start.variables.contains(x));
    assert(!start.variables.contains(y));
    assert(extract_value(pv(false, x), IoType::Input, start) == Ok::<
        (ParamValueView, crate::assembler::ExtractState),
        ErrorView,
    >((pv(false, x), start)));
    assert(extract_value(pv(false, y), IoType::Output, start) == Ok::<
        (ParamValueView, crate::assembler::ExtractState),
        ErrorView,
    >((pv(false, y), start)));
    assert(Seq::<ParamValueView>::empty().push(pv(false, x)) =~= seq![pv(false, x)]);
    assert(crate::assembler::extract_params(stmt.params, 0, start, Seq::empty()) == Ok::<
        (Seq<ParamValueView>, crate::assembler::ExtractState),
        ErrorView,
    >((seq![pv(false, x)], start))) by {
        reveal_with_fuel(crate::assembler::extract_params, 3);
    }
    assert(crate::assembler::extract_statement(stmt, start) == Ok::<
        (CompStatementView, crate::assembler::ExtractState),
        ErrorView,
    >((stmt, start)));
    assert(Seq::<CompStatementView>::empty().push(stmt) =~= g.statements);
    assert(extract_statements(g.statements, 0, start, Seq::empty()) == Ok::<
        (Seq<CompStatementView>, crate::assembler::ExtractState),
        ErrorView,
    >((g.statements, start))) by {
        reveal_with_fuel(extract_statements, 3);
    }
    assert(start.inputs.reverse() =~= start.inputs);
    assert(extract_spec(g) == Ok::<
        (CompFuncView, Seq<crate::peripherals::PeripheralBit>, Seq<crate::peripherals::PeripheralBit>),
        ErrorView,
    >((g, start.inputs, start.outputs)));
    lemma_table_shape(g);
    vstd::arithmetic::power2::lemma2_to64();
    assert(table_of(g).len() == 2);
    assert forall|v: nat| v < 2 implies tick_spec(g, v) == v by {
        let env0 = input_env_from(g.signature.params, 0, v, Map::empty());
        assert(env0 == Map::<Seq<char>, bool>::empty().insert(x, bit_of(v, 0))) by {
            reveal_with_fuel(input_env_from, 3);
        }
        assert(pow2(0) == 1);
        assert(bit_of(v, 0) == (v == 1));
        assert(or_from(stmt.params, 0, env0) == lookup(env0, x)) by {
            reveal_with_fuel(or_from, 3);
        }
        let env1 = run_from(g.statements, 0, env0);
        assert(env1 == env0.insert(y, lookup(env0, x))) by {
            reveal_with_fuel(run_from, 3);
        }
        let bits = outputs_from(g.signature.assignees, 0, env1, Seq::empty());
        assert(bits =~= seq![lookup(env1, y)]) by {
            reveal_with_fuel(outputs_from, 3);
        }
        assert(lookup(env1, y) == (v == 1));
        assert(pack_bits(bits) == v) by {
            reveal_with_fuel(pack_bits, 3);
            assert(bits.drop_first() =~= Seq::<bool>::empty());
        }
    }
    assert(tick_spec(g, 0) == 0);
    assert(tick_spec(g, 1) == 1);
    assert(table_of(g)[0] == 0u32);
    assert(table_of(g)[1] == 1u32);
    assert(table_of(g) =~= seq![0u32, 1u32]);
}

/// Between two ticks the cache is set on a cell exactly where an ant that
/// is alive stands on it.
pub proof fn lemma_cache_matches_ants(world: World, x: int, y: int)
    requires
        world.wf(),
        settled(world@),
        0 <= x < world@.width,
        0 <= y < world@.height,
    ensures
        cached(world@, x, y) <==> exists|k: int|
            0 <= k < world@.ants.len() && (#[trigger] world@.ants[k]).status == AntStatus::Alive
                && world@.ants[k].pos.x == x && world@.ants[k].pos.y == y,
{
    world.lemma_in_order();
    let s = world@;
    assert(cached(s, x, y) <==> crate::world::occupied(s.ants, x, y));
    if crate::world::occupied(s.ants, x, y) {
        let k = choose|k: int|
            0 <= k < s.ants.len() && crate::world::live(#[trigger] s.ants[k]) && s.ants[k].pos.x == x
                && s.ants[k].pos.y == y;
        assert(s.ants[k].status == AntStatus::Alive);
    }
    if exists|k: int|
        0 <= k < s.ants.len() && (#[trigger] s.ants[k]).status == AntStatus::Alive && s.ants[k].pos.x == x
            && s.ants[k].pos.y == y {
        let k = choose|k: int|
            0 <= k < s.ants.len() && (#[trigger] s.ants[k]).status == AntStatus::Alive && s.ants[k].pos.x
                == x && s.ants[k].pos.y == y;
        assert(crate::world::live(s.ants[k]));
    }
}

/// A world has at most 256 ants, and no two live ants stand on one cell.
pub proof fn lemma_ants_apart(world: World, a: int, b: int)
    requires
        world.wf(),
        0 <= a < world@.ants.len(),
        0 <= b < world@.ants.len(),
        a != b,
        world@.ants[a].status != AntStatus::Dead,
        world@.ants[b].status != AntStatus::Dead,
    ensures
        world@.ants.len() <= 256,
        world@.ants[a].pos != world@.ants[b].pos,
{
    world.lemma_in_order();
    assert(crate::world::live(world@.ants[a]) && crate::world::live(world@.ants[b]));
}

/// Every ant of a world faces one of the eight directions and stands
/// inside the grid.
pub proof fn lemma_ant_direction(world: World, k: int)
    requires
        world.wf(),
        0 <= k < world@.ants.len(),
    ensures
        world@.ants[k].dir < 8,
        world@.ants[k].pos.x < world@.width,
        world@.ants[k].pos.y < world@.height,
{
    world.lemma_in_order();
    assert(crate::world::ant_ok(world.props(), world@, world@.ants[k]));
}

/// Every cell of a world holds 0 or 15 in binary mode, and a color
/// below 16 else.
pub proof fn lemma_cell_colors(world: World, x: int, y: int)
    requires
        world.wf(),
        0 <= x < world@.width,
        0 <= y < world@.height,
    ensures
        world.props().config.color_mode == ColorMode::Binary ==> color_at(world@, x, y) == 0 || color_at(
            world@,
            x,
            y,
        ) == 15,
        color_at(world@, x, y) < 16,
{
    world.lemma_in_order();
    assert(crate::world::color_ok(world.props().config.color_mode, color_at(world@, x, y)));
}

/// An ant that is alive and not halted and whose step leads out of the
/// grid: where ants despawn it is dead after its step, in the same tick;
/// where they collide nothing changes; where the axes cycle it comes in
/// again on the opposite side; and where the grid wraps, a step over the
/// right border leads to the start of the next row, one over the left
/// border to the end of the row before, one over the lower border to the
/// top of the next column and one over the upper border to the foot of the
/// column before. It moves there if the cell is free, else nothing changes.
pub proof fn lemma_step_over_border(p: crate::config::WorldPropertiesView, s: crate::world::WorldView, k: int)
    requires
        world_ok(p, s),
        0 <= k < s.ants.len(),
        s.ants[k].status == AntStatus::Alive,
        !s.ants[k].halted,
        ({
            let a = s.ants[k];
            let (dx, dy) = crate::vec2::principal_step(a.dir as int);
            !(0 <= a.pos.x + dx < s.width && 0 <= a.pos.y + dy < s.height)
        }),
    ensures
        ({
            let a = s.ants[k];
            let (dx, dy) = crate::vec2::principal_step(a.dir as int);
            let (x, y) = (a.pos.x as int, a.pos.y as int);
            let (w, h) = (s.width, s.height);
            let mode = p.config.border_mode;
            let t = crate::world::move_step(p, s, k);
            let target = crate::world::next_cell(x, y, a.dir as int, w, h, mode);
            &&& mode == crate::ant::BorderMode::Despawn ==> t.ants[k].status == AntStatus::Dead
            &&& mode == crate::ant::BorderMode::Collide ==> t == s
            &&& mode == crate::ant::BorderMode::Cycle ==> target == Some(((x + dx + w) % w, (y + dy + h) % h))
            &&& mode == crate::ant::BorderMode::Wrap && a.dir == 2 ==> target == Some((0int, (y + 1) % h))
            &&& mode == crate::ant::BorderMode::Wrap && a.dir == 6 ==> target == Some((w - 1, (y - 1 + h) % h))
            &&& mode == crate::ant::BorderMode::Wrap && a.dir == 4 ==> target == Some(((x + 1) % w, 0int))
            &&& mode == crate::ant::BorderMode::Wrap && a.dir == 0 ==> target == Some(((x - 1 + w) % w, h - 1))
            &&& (mode == crate::ant::BorderMode::Cycle || mode == crate::ant::BorderMode::Wrap) ==> (target
                matches Some((nx, ny)) && 0 <= nx < w && 0 <= ny < h && (if cached(s, nx, ny) {
                t == s
            } else {
                t.ants[k].pos.x == nx && t.ants[k].pos.y == ny && t.ants[k].status == AntStatus::Alive
            }))
        }),
{
    let a = s.ants[k];
    assert(crate::world::ant_ok(p, s, a));
    let (dx, dy) = crate::vec2::principal_step(a.dir as int);
    let (x, y) = (a.pos.x as int, a.pos.y as int);
    let (w, h) = (s.width, s.height);
    crate::world::lemma_next_cell_border(x, y, a.dir as int, w, h, p.config.border_mode);
    crate::world::lemma_next_cell_inside(x, y, a.dir as int, w, h, p.config.border_mode);
    crate::world::lemma_wrapped_mod(y + 1, h);
    crate::world::lemma_wrapped_mod(y - 1, h);
    crate::world::lemma_wrapped_mod(x + 1, w);
    crate::world::lemma_wrapped_mod(x - 1, w);
    crate::world::lemma_wrapped_mod(y, h);
    crate::world::lemma_wrapped_mod(x, w);
    vstd::arithmetic::div_mod::lemma_mod_add_multiples_vanish(y + 1, h);
    vstd::arithmetic::div_mod::lemma_mod_add_multiples_vanish(x + 1, w);
}

proof fn lemma_or_zero(add: u8)
    by (bit_vector)
    ensures
        (0u8 | add) == add,
{
}

/// Memory echo: an ant whose behavior reads bit 0 of its memory and
/// writes it to bit 0 of its memory has, after its turn, bit 0 of its
/// memory as it was and every other bit cleared, whatever the generator
/// gave.
pub proof fn lemma_memory_echo(
    p: crate::config::WorldPropertiesView,
    s: crate::world::WorldView,
    k: int,
    randoms: Seq<u8>,
)
    requires
        world_ok(p, s),
        0 <= k < s.ants.len(),
        ({
            let b = p.behaviors[s.ants[k].behavior as int]->0;
            let bit = crate::peripherals::PeripheralBit {
                peripheral: crate::peripherals::Peripheral::Memory,
                bit: 0,
            };
            b.inputs == seq![bit] && b.outputs == seq![bit] && b.logic.entries == seq![0u32, 1u32]
        }),
    ensures
        crate::world::ant_step(p, s, k, crate::world::input_word(p, s, k, randoms)).ants[k].memory
            == s.ants[k].memory % 2,
{
    let a = s.ants[k];
    let b = p.behaviors[a.behavior as int]->0;
    let bit = crate::peripherals::PeripheralBit { peripheral: crate::peripherals::Peripheral::Memory, bit: 0 };
    assert(crate::world::ant_ok(p, s, a));
    vstd::arithmetic::power2::lemma2_to64();
    let word = crate::world::input_word(p, s, k, randoms);
    let low: u8 = (a.memory % 2) as u8;
    assert(word == low) by {
        reveal_with_fuel(crate::world::gather_from, 3);
        assert(b.inputs[0] == bit);
        assert(crate::world::input_value(p, s, a, bit.peripheral, crate::world::byte_at(randoms, 0)) == a.memory);
        assert(bit_of(a.memory as nat, 0) == (a.memory % 2 == 1));
    }
    let out_word: u32 = if (word as int) < b.logic.entries.len() {
        b.logic.entries[word as int]
    } else {
        0u32
    };
    assert(out_word == low);
    let add: u8 = if out_word % 2 == 1 {
        crate::world::bit_value(0)
    } else {
        0
    };
    assert(add == low);
    lemma_or_zero(add);
    let slots = crate::world::dispatch_from(b.outputs, 1, out_word, crate::world::empty_slots());
    assert(slots == crate::world::empty_slots().update(5, Some(low))) by {
        reveal_with_fuel(crate::world::dispatch_from, 3);
        assert(b.outputs[0] == bit);
        assert(crate::world::empty_slots()[5] is None);
    }
    let out = crate::peripherals::OutputValue { output: crate::peripherals::Peripheral::Memory, value: low };
    assert(crate::world::collect_from(slots, 0, Seq::empty()) =~= seq![out]) by {
        reveal_with_fuel(crate::world::collect_from, 15);
        assert(forall|i: int| 0 <= i < 13 && i != 5 ==> slots[i] is None);
        assert(slots[5] == Some(low));
        assert(Seq::<crate::peripherals::OutputValue>::empty().push(out) =~= seq![out]);
    }
    let outs = crate::world::output_values(b.outputs, out_word);
    assert(outs == seq![out]);
    let t = crate::world::apply_outputs(p, s, k, outs, 0);
    assert(t == crate::world::set_ant(s, k, crate::ant::Ant { memory: low, ..a })) by {
        reveal_with_fuel(crate::world::apply_outputs, 3);
    }
    assert(t.ants[k].memory == low);
    let u = crate::world::move_step(p, t, k);
    assert(u.ants[k].memory == t.ants[k].memory);
}

/// Whether no value of the statements is written in upper case: so the
/// function names no peripheral.
pub open spec fn names_no_peripheral(statements: Seq<CompStatementView>) -> bool {
    forall|i: int|
        0 <= i < statements.len() ==> !is_upper_ident((#[trigger] statements[i]).assignee.target) && forall|
            j: int,
        |
            0 <= j < statements[i].params.len() ==> !is_upper_ident(#[trigger] statements[i].params[j].target)
}

/// Whether the search for peripherals has found none.
pub open spec fn found_none(st: crate::assembler::ExtractState, signature: SignatureView) -> bool {
    st.params == signature.params && st.assignees == signature.assignees && st.inputs.len() == 0
        && st.outputs.len() == 0
}

proof fn lemma_plain_params(
    ps: Seq<ParamValueView>,
    i: int,
    st: crate::assembler::ExtractState,
    done: Seq<ParamValueView>,
    signature: SignatureView,
)
    requires
        0 <= i,
        found_none(st, signature),
        forall|j: int| 0 <= j < ps.len() ==> !is_upper_ident(#[trigger] ps[j].target),
    ensures
        crate::assembler::extract_params(ps, i, st, done) matches Ok((_, next)) ==> found_none(next, signature),
    decreases ps.len() - i,
{
    if i < ps.len() {
        assert(!is_upper_ident(ps[i].target));
        match extract_value(ps[i], IoType::Input, st) {
            Err(e) => {},
            Ok((v, next)) => {
                lemma_plain_params(ps, i + 1, next, done.push(v), signature);
            },
        }
    }
}

proof fn lemma_plain_statements(
    ss: Seq<CompStatementView>,
    i: int,
    st: crate::assembler::ExtractState,
    done: Seq<CompStatementView>,
    signature: SignatureView,
)
    requires
        0 <= i,
        found_none(st, signature),
        names_no_peripheral(ss),
    ensures
        extract_statements(ss, i, st, done) matches Ok((_, next)) ==> found_none(next, signature),
    decreases ss.len() - i,
{
    if i < ss.len() {
        assert(!is_upper_ident(ss[i].assignee.target));
        lemma_plain_params(ss[i].params, 0, st, Seq::empty(), signature);
        match crate::assembler::extract_params(ss[i].params, 0, st, Seq::empty()) {
            Err(e) => {},
            Ok((ps, after_params)) => {
                match extract_value(ss[i].assignee, IoType::Output, after_params) {
                    Err(e) => {},
                    Ok((a, after_all)) => {
                        lemma_plain_statements(
                            ss,
                            i + 1,
                            after_all,
                            done.push(CompStatementView { assignee: a, params: ps }),
                            signature,
                        );
                    },
                }
            },
        }
    }
}

/// The table of a function that names no peripheral has as many input
/// bits as the function has parameters and as many output bits as it has
/// assignees: `2^n` entries for `n` parameters, each below `2^m` for `m`
/// assignees.
pub proof fn lemma_table_counts(f: CompFuncView)
    requires
        names_no_peripheral(f.statements),
    ensures
        assemble_spec(f) matches Ok(b) ==> {
            &&& b.logic.input_count == f.signature.params.len()
            &&& b.logic.output_count == f.signature.assignees.len()
            &&& b.logic.entries.len() == pow2(f.signature.params.len())
            &&& forall|v: int|
                0 <= v < b.logic.entries.len() ==> (#[trigger] b.logic.entries[v] as nat) < pow2(
                    f.signature.assignees.len(),
                )
            &&& b.inputs.len() == 0
            &&& b.outputs.len() == 0
        },
{
    let start = extract_start(f.signature);
    lemma_plain_statements(f.statements, 0, start, Seq::empty(), f.signature);
    match extract_spec(f) {
        Err(e) => {},
        Ok((g, inputs, outputs)) => {
            lemma_table_shape(g);
        },
    }
}

/// A program that holds nothing but a function whose body is `y = x;`
/// gives that function the truth table `[0, 1]`, whatever the names.
pub proof fn lemma_identity_program(code: Seq<char>, name: Seq<char>, x: Seq<char>, y: Seq<char>)
    requires
        is_lower_ident(x),
        is_lower_ident(y),
        crate::parser::parse_source(code) matches Ok(world) && world.funcs == seq![identity_func(name, x, y)],
    ensures
        crate::linker::compile_func_spec(
            code,
            crate::syntax::SignatureSpecView { name, assignee_count: 1, param_count: 1 },
        ) matches Ok(table) && table.entries == seq![0u32, 1u32] && table.input_count == 1
            && table.output_count == 1,
{
    let f = identity_func(name, x, y);
    let g = identity_compiled(name, x, y);
    let wanted = crate::syntax::SignatureSpecView { name, assignee_count: 1, param_count: 1 };
    let none = Seq::<CompFuncView>::empty();
    assert(find_overload(none, spec_of(f.signature)) is Err) by {
        reveal_with_fuel(crate::compiler::name_known_from, 2);
    }
    lemma_identity_compiles(name, x, y, none);
    lemma_identity_table(name, x, y);
    let fs = seq![f];
    assert(none.push(g) =~= seq![g]);
    assert(crate::compiler::compile_funcs_spec(fs) == Ok::<Seq<CompFuncView>, crate::error::ErrorView>(
        seq![g],
    )) by {
        reveal_with_fuel(crate::compiler::compile_funcs_from, 3);
    }
    assert(spec_of(g.signature) == wanted);
    assert(find_overload(seq![g], wanted) == Ok::<int, crate::error::ErrorView>(0)) by {
        reveal_with_fuel(crate::compiler::name_known_from, 2);
        reveal_with_fuel(crate::compiler::overload_from, 2);
    }
}

/// A world holds no more live ants than it has cells: where no ant is
/// dead, as between two ticks, the population is at most `width * height`.
/// So a grid that is full takes no further ant, and every spawn into it is
/// dropped.
pub proof fn lemma_population_fits(world: World)
    requires
        world.wf(),
        forall|k: int| 0 <= k < world@.ants.len() ==> (#[trigger] world@.ants[k]).status != AntStatus::Dead,
    ensures
        world@.ants.len() <= world@.width * world@.height,
        world@.ants.len() <= 256,
{
    world.lemma_in_order();
    let s = world@;
    let p = world.props();
    let w = s.width;
    let h = s.height;
    let places = Seq::new(
        s.ants.len(),
        |k: int| crate::matrix::cell_index(w, s.ants[k].pos.x as int, s.ants[k].pos.y as int),
    );
    assert forall|a: int, b: int| 0 <= a < places.len() && 0 <= b < places.len() && a != b implies places[a]
        != places[b] by {
        assert(crate::world::ant_ok(p, s, s.ants[a]));
        assert(crate::world::ant_ok(p, s, s.ants[b]));
        assert(crate::world::live(s.ants[a]) && crate::world::live(s.ants[b]));
        assert(s.ants[a].pos != s.ants[b].pos);
        crate::matrix::lemma_cell_index(w, h, s.ants[a].pos.x as int, s.ants[a].pos.y as int);
        crate::matrix::lemma_cell_index(w, h, s.ants[b].pos.x as int, s.ants[b].pos.y as int);
    }
    places.unique_seq_to_set();
    assert(0 <= w * h) by (nonlinear_arith)
        requires
            0 <= w,
            0 <= h,
    ;
    vstd::set_lib::lemma_int_range(0, w * h);
    assert(places.to_set().subset_of(vstd::set_lib::set_int_range(0, w * h))) by {
        assert forall|i: int| places.to_set().contains(i) implies vstd::set_lib::set_int_range(
            0,
            w * h,
        ).contains(i) by {
            let k = choose|k: int| 0 <= k < places.len() && places[k] == i;
            assert(crate::world::ant_ok(p, s, s.ants[k]));
            crate::matrix::lemma_cell_index(w, h, s.ants[k].pos.x as int, s.ants[k].pos.y as int);
        }
    }
    vstd::set_lib::lemma_len_subset(places.to_set(), vstd::set_lib::set_int_range(0, w * h));
}

} // verus!
