//! The compiler: parsed functions to lists of composite statements.
//!
//! Every expression is flattened into calls, every call but `or` is replaced
//! by the statements of the function it names, and what is left assigns the
//! OR of signed values to one name per statement.

use vstd::prelude::*;
use crate::error::CompileError;
use crate::error::ErrorKind;
use crate::error::at;
use crate::error::ErrorView;
use crate::error::bare;
use crate::syntax::clone_values;
use crate::syntax::Expression;
use crate::syntax::ExpressionView;
use crate::syntax::Func;
use crate::syntax::FuncView;
use crate::syntax::ParamValue;
use crate::syntax::ParamValueView;
use crate::syntax::Signature;
use crate::syntax::SignatureSpec;
use crate::syntax::SignatureSpecView;
use crate::syntax::SignatureView;
use crate::syntax::Statement;
use crate::syntax::StatementView;
use crate::syntax::spec_of;
use crate::text::decimal;
use crate::text::is_upper_ident;
use crate::text::is_uppercase_ident;
use crate::text::push_decimal;
use crate::text::str_eq;
use crate::util::find_dupe;
use crate::util::first_dupe_from;
use crate::util::index_in;
use crate::util::position_of;
use crate::views::lemma_views_add;
use crate::views::lemma_views_empty;
use crate::views::lemma_views_push;
use crate::views::views;

verus! {

/// A call with flat arguments: what a statement becomes once its
/// expression is taken apart.
#[derive(Debug)]
pub struct FuncCall {
    pub func: String,
    pub assignees: Vec<ParamValue>,
    pub params: Vec<ParamValue>,
}

pub struct FuncCallView {
    pub func: Seq<char>,
    pub assignees: Seq<ParamValueView>,
    pub params: Seq<ParamValueView>,
}

impl View for FuncCall {
    type V = FuncCallView;

    open spec fn view(&self) -> FuncCallView {
        FuncCallView {
            func: self.func@,
            assignees: views(self.assignees@),
            params: views(self.params@),
        }
    }
}

/// A composite statement: the assignee gets the OR of the signed
/// parameters, inverted where the assignee's sign is set.
#[derive(Debug)]
pub struct CompStatement {
    pub assignee: ParamValue,
    pub params: Vec<ParamValue>,
}

pub struct CompStatementView {
    pub assignee: ParamValueView,
    pub params: Seq<ParamValueView>,
}

impl View for CompStatement {
    type V = CompStatementView;

    open spec fn view(&self) -> CompStatementView {
        CompStatementView { assignee: self.assignee@, params: views(self.params@) }
    }
}

impl Clone for CompStatement {
    fn clone(&self) -> (r: CompStatement)
        ensures
            r@ == self@,
    {
        CompStatement { assignee: self.assignee.clone(), params: clone_values(&self.params) }
    }
}

/// A compiled function: its head and its composite statements.
#[derive(Debug)]
pub struct CompFunc {
    pub signature: Signature,
    pub comp_statements: Vec<CompStatement>,
}

pub struct CompFuncView {
    pub signature: SignatureView,
    pub statements: Seq<CompStatementView>,
}

impl View for CompFunc {
    type V = CompFuncView;

    open spec fn view(&self) -> CompFuncView {
        CompFuncView { signature: self.signature@, statements: views(self.comp_statements@) }
    }
}

/// A copy of a list of composite statements.
pub fn clone_statements(statements: &Vec<CompStatement>) -> (r: Vec<CompStatement>)
    ensures
        views(r@) == views(statements@),
{
    let mut out: Vec<CompStatement> = Vec::new();
    let mut i: usize = 0;
    while i < statements.len()
        invariant
            i <= statements@.len(),
            out@.len() == i,
            forall|j: int| 0 <= j < i ==> out@[j]@ == statements@[j]@,
        decreases statements@.len() - i,
    {
        out.push(statements[i].clone());
        i += 1;
    }
    assert(views(out@) =~= views(statements@));
    out
}

impl Clone for CompFunc {
    fn clone(&self) -> (r: CompFunc)
        ensures
            r@ == self@,
    {
        CompFunc {
            signature: self.signature.clone(),
            comp_statements: clone_statements(&self.comp_statements),
        }
    }
}

/// What the compiler reports while it works.
#[derive(Debug, Default, Clone, Copy)]
pub struct LogConfig {
    pub all: bool,
}

/// A signed name.
pub open spec fn pv(sign: bool, target: Seq<char>) -> ParamValueView {
    ParamValueView { sign, target }
}

/// The counter behind `index`; it stays at the largest value.
pub open spec fn bump(index: u64) -> u64 {
    if index < u64::MAX {
        (index + 1) as u64
    } else {
        index
    }
}

/// The name of the temporary with the given number: `_` and the number.
pub open spec fn temp_name(index: u64) -> Seq<char> {
    seq!['_'] + decimal(index as nat)
}

/// The name of the one primitive.
pub open spec fn or_name() -> Seq<char> {
    seq!['o', 'r']
}

/// The name of the call that is rewritten into the primitive.
pub open spec fn and_name() -> Seq<char> {
    seq!['a', 'n', 'd']
}

/// The name that is never kept.
pub open spec fn discard_name() -> Seq<char> {
    seq!['_']
}

/// The calls of an expression in post-order, and the counter behind them.
/// Each call assigns a fresh temporary; a variable or peripheral becomes
/// an `or` of itself.
pub open spec fn expand_expr(e: ExpressionView, index: u64) -> (Seq<FuncCallView>, u64)
    decreases e, 0nat,
{
    match e.params {
        Some(args) => {
            let (calls, params, next) = expand_args(args, args.len(), index);
            (
                calls.push(
                    FuncCallView {
                        func: e.ident,
                        assignees: seq![pv(e.sign, temp_name(next))],
                        params,
                    },
                ),
                bump(next),
            )
        },
        None => (
            seq![
                FuncCallView {
                    func: or_name(),
                    assignees: seq![pv(e.sign, temp_name(index))],
                    params: seq![pv(false, e.ident)],
                },
            ],
            bump(index),
        ),
    }
}

/// The calls that the first `n` arguments need, the values that stand for
/// the arguments, and the counter behind them. A call among the arguments
/// is named by its temporary; a variable or peripheral stands for itself.
pub open spec fn expand_args(args: Seq<ExpressionView>, n: nat, index: u64) -> (
    Seq<FuncCallView>,
    Seq<ParamValueView>,
    u64,
)
    decreases args, n,
{
    if n == 0 || n > args.len() {
        (Seq::empty(), Seq::empty(), index)
    } else {
        let (calls, params, next) = expand_args(args, (n - 1) as nat, index);
        let arg = args[n - 1];
        if arg.params is Some {
            let (sub, after) = expand_expr(arg, next);
            (calls + sub, params.push(pv(false, sub.last().assignees[0].target)), after)
        } else {
            (calls, params.push(pv(arg.sign, arg.ident)), next)
        }
    }
}

/// The values with every sign flipped where `flip` is set.
pub open spec fn signed_by(values: Seq<ParamValueView>, flip: bool) -> Seq<ParamValueView> {
    values.map_values(|v: ParamValueView| pv(v.sign ^ flip, v.target))
}

/// The calls of a statement: those of its expression, the last of which
/// assigns the statement's assignees, each sign combined with the sign of
/// the expression.
pub open spec fn expand_statement(s: StatementView, index: u64) -> (Seq<FuncCallView>, u64) {
    let (calls, next) = expand_expr(s.expression, index);
    let last = calls.last();
    let flip = last.assignees[0].sign;
    (
        calls.drop_last().push(
            FuncCallView {
                func: last.func,
                assignees: signed_by(s.assignees, flip),
                params: last.params,
            },
        ),
        next,
    )
}

/// A call of `and` as the `or` that De Morgan's law makes of it: every
/// parameter and every assignee inverted. Other calls stay.
pub open spec fn resolve_and(call: FuncCallView) -> FuncCallView {
    if call.func == and_name() {
        FuncCallView {
            func: or_name(),
            assignees: signed_by(call.assignees, true),
            params: signed_by(call.params, true),
        }
    } else {
        call
    }
}

/// The name and counts that a call asks for.
pub open spec fn spec_of_call(call: FuncCallView) -> SignatureSpecView {
    SignatureSpecView {
        name: call.func,
        assignee_count: call.assignees.len(),
        param_count: call.params.len(),
    }
}

/// The first function at or after `i` with the given name and counts.
pub open spec fn overload_from(funcs: Seq<CompFuncView>, wanted: SignatureSpecView, i: int) -> Option<int>
    decreases funcs.len() - i,
{
    if i < 0 || i >= funcs.len() {
        None
    } else if spec_of(funcs[i].signature) == wanted {
        Some(i)
    } else {
        overload_from(funcs, wanted, i + 1)
    }
}

/// Whether a function at or after `i` has the name.
pub open spec fn name_known_from(funcs: Seq<CompFuncView>, name: Seq<char>, i: int) -> bool
    decreases funcs.len() - i,
{
    if i < 0 || i >= funcs.len() {
        false
    } else if funcs[i].signature.name == name {
        true
    } else {
        name_known_from(funcs, name, i + 1)
    }
}

/// The function that a name and counts pick: `CompUnknownFn` where no
/// function has the name, `CompOverload` where none of that name has the
/// counts.
pub open spec fn find_overload(funcs: Seq<CompFuncView>, wanted: SignatureSpecView) -> Result<
    int,
    ErrorView,
> {
    if !name_known_from(funcs, wanted.name, 0) {
        Err(at(ErrorKind::CompUnknownFn, wanted.name))
    } else {
        match overload_from(funcs, wanted, 0) {
            Some(i) => Ok(i),
            None => Err(at(ErrorKind::CompOverload, wanted.name)),
        }
    }
}

/// What the variables of the call numbered `func_index` start with.
pub open spec fn call_prefix(name: Seq<char>, func_index: u64) -> Seq<char> {
    seq!['_'] + name + seq!['_'] + decimal(func_index as nat) + seq!['_']
}

/// A value of the called function as it stands in the caller: a parameter
/// becomes the caller's argument, an assignee the caller's assignee, each
/// with the signs combined; a peripheral stays; any other name gets the
/// call's prefix.
pub open spec fn substitute(
    v: ParamValueView,
    callee: SignatureView,
    call: FuncCallView,
    prefix: Seq<char>,
) -> ParamValueView {
    match index_in(callee.params, v.target) {
        Some(k) => if k < call.params.len() {
            pv(v.sign ^ call.params[k].sign, call.params[k].target)
        } else {
            v
        },
        None => match index_in(callee.assignees, v.target) {
            Some(k) => if k < call.assignees.len() {
                pv(v.sign ^ call.assignees[k].sign, call.assignees[k].target)
            } else {
                v
            },
            None => if is_upper_ident(v.target) {
                v
            } else {
                pv(v.sign, prefix + v.target)
            },
        },
    }
}

/// A statement of the called function as it stands in the caller.
pub open spec fn inline_statement(
    s: CompStatementView,
    callee: SignatureView,
    call: FuncCallView,
    prefix: Seq<char>,
) -> CompStatementView {
    CompStatementView {
        assignee: substitute(s.assignee, callee, call, prefix),
        params: s.params.map_values(|p: ParamValueView| substitute(p, callee, call, prefix)),
    }
}

/// The statements that replace a call: those of the overload it picks,
/// each as it stands in the caller.
pub open spec fn expand_call(call: FuncCallView, funcs: Seq<CompFuncView>, func_index: u64) -> Result<
    Seq<CompStatementView>,
    ErrorView,
> {
    match find_overload(funcs, spec_of_call(call)) {
        Err(e) => Err(e),
        Ok(i) => Ok(
            funcs[i].statements.map_values(
                |s: CompStatementView|
                    inline_statement(s, funcs[i].signature, call, call_prefix(call.func, func_index)),
            ),
        ),
    }
}

/// How far the compilation of one function has come: the two counters and
/// the statements so far.
pub struct CompileState {
    pub exp_index: u64,
    pub func_index: u64,
    pub statements: Seq<CompStatementView>,
}

/// One call compiled: an `or` (or an `and`, rewritten) must have one
/// assignee and becomes one statement; any other call is replaced by the
/// statements of the function it names.
pub open spec fn compile_call(call: FuncCallView, funcs: Seq<CompFuncView>, st: CompileState) -> Result<
    CompileState,
    ErrorView,
> {
    let call = resolve_and(call);
    if call.func == or_name() {
        if call.assignees.len() != 1 {
            Err(bare(ErrorKind::CompOrAssignees))
        } else {
            Ok(
                CompileState {
                    statements: st.statements.push(
                        CompStatementView { assignee: call.assignees[0], params: call.params },
                    ),
                    ..st
                },
            )
        }
    } else {
        let func_index = bump(st.func_index);
        match expand_call(call, funcs, func_index) {
            Err(e) => Err(e),
            Ok(statements) => Ok(
                CompileState { func_index, statements: st.statements + statements, ..st },
            ),
        }
    }
}

/// The calls from `i` on compiled, one after the other.
pub open spec fn compile_calls(
    calls: Seq<FuncCallView>,
    i: int,
    funcs: Seq<CompFuncView>,
    st: CompileState,
) -> Result<CompileState, ErrorView>
    decreases calls.len() - i,
{
    if i < 0 || i >= calls.len() {
        Ok(st)
    } else {
        match compile_call(calls[i], funcs, st) {
            Err(e) => Err(e),
            Ok(next) => compile_calls(calls, i + 1, funcs, next),
        }
    }
}

/// One statement compiled: its calls, one after the other. The counter of
/// temporaries skips one number behind each statement.
pub open spec fn compile_statement(s: StatementView, funcs: Seq<CompFuncView>, st: CompileState) -> Result<
    CompileState,
    ErrorView,
> {
    let (calls, next) = expand_statement(s, st.exp_index);
    compile_calls(calls, 0, funcs, CompileState { exp_index: bump(next), ..st })
}

/// The statements from `i` on compiled, one after the other.
pub open spec fn compile_statements(
    statements: Seq<StatementView>,
    i: int,
    funcs: Seq<CompFuncView>,
    st: CompileState,
) -> Result<CompileState, ErrorView>
    decreases statements.len() - i,
{
    if i < 0 || i >= statements.len() {
        Ok(st)
    } else {
        match compile_statement(statements[i], funcs, st) {
            Err(e) => Err(e),
            Ok(next) => compile_statements(statements, i + 1, funcs, next),
        }
    }
}

/// The statements from `i` on that assign another name than `_`, behind
/// those already kept.
pub open spec fn kept_from(
    statements: Seq<CompStatementView>,
    i: int,
    kept: Seq<CompStatementView>,
) -> Seq<CompStatementView>
    decreases statements.len() - i,
{
    if i < 0 || i >= statements.len() {
        kept
    } else if statements[i].assignee.target == discard_name() {
        kept_from(statements, i + 1, kept)
    } else {
        kept_from(statements, i + 1, kept.push(statements[i]))
    }
}

/// The names that the statements assign.
pub open spec fn assigned_names(statements: Seq<CompStatementView>) -> Seq<Seq<char>> {
    statements.map_values(|s: CompStatementView| s.assignee.target)
}

/// A function compiled against the functions compiled before it.
///
/// `CompDupeOverload` where an earlier function has its name and counts;
/// the error of the first call that fails; `CompDupeAssignee` where two of
/// the statements that are kept assign one name.
pub open spec fn compile_func_spec(f: FuncView, funcs: Seq<CompFuncView>) -> Result<
    CompFuncView,
    ErrorView,
> {
    if find_overload(funcs, spec_of(f.signature)) is Ok {
        Err(at(ErrorKind::CompDupeOverload, f.signature.name))
    } else {
        match compile_statements(
            f.statements,
            0,
            funcs,
            CompileState { exp_index: 0, func_index: 0, statements: Seq::empty() },
        ) {
            Err(e) => Err(e),
            Ok(st) => {
                let statements = kept_from(st.statements, 0, Seq::empty());
                match first_dupe_from(assigned_names(statements), 0) {
                    Some(i) => Err(at(ErrorKind::CompDupeAssignee, assigned_names(statements)[i])),
                    None => Ok(CompFuncView { signature: f.signature, statements }),
                }
            },
        }
    }
}

/// The functions from `i` on compiled in order, each against those before
/// it, behind those already compiled.
pub open spec fn compile_funcs_from(funcs: Seq<FuncView>, i: int, done: Seq<CompFuncView>) -> Result<
    Seq<CompFuncView>,
    ErrorView,
>
    decreases funcs.len() - i,
{
    if i < 0 || i >= funcs.len() {
        Ok(done)
    } else {
        match compile_func_spec(funcs[i], done) {
            Err(e) => Err(e),
            Ok(f) => compile_funcs_from(funcs, i + 1, done.push(f)),
        }
    }
}

/// The functions compiled in order, each against those before it.
pub open spec fn compile_funcs_spec(funcs: Seq<FuncView>) -> Result<Seq<CompFuncView>, ErrorView> {
    compile_funcs_from(funcs, 0, Seq::empty())
}

/// The counter behind `index`.
pub fn bump_index(index: u64) -> (r: u64)
    ensures
        r == bump(index),
{
    if index < u64::MAX {
        index + 1
    } else {
        index
    }
}

/// The name of the temporary with the given number.
pub fn format_index(index: u64) -> (r: String)
    ensures
        r@ == temp_name(index),
{
    let mut name = String::new();
    name.push('_');
    assert(name@ =~= seq!['_']);
    push_decimal(&mut name, index);
    name
}

/// The values with every sign flipped where `flip` is set.
pub fn sign_values(values: &Vec<ParamValue>, flip: bool) -> (r: Vec<ParamValue>)
    ensures
        views(r@) == signed_by(views(values@), flip),
{
    let mut out: Vec<ParamValue> = Vec::new();
    let mut i: usize = 0;
    while i < values.len()
        invariant
            i <= values@.len(),
            out@.len() == i,
            forall|j: int| 0 <= j < i ==> out@[j]@ == pv(values@[j].sign ^ flip, values@[j].target@),
        decreases values@.len() - i,
    {
        out.push(ParamValue { sign: values[i].sign ^ flip, target: values[i].target.clone() });
        i += 1;
    }
    assert(views(out@) =~= signed_by(views(values@), flip));
    out
}

/// The calls that the arguments need, the values that stand for the
/// arguments, and the counter behind them.
fn expand_arguments(args: &Vec<Expression>, index: u64) -> (r: (Vec<FuncCall>, Vec<ParamValue>, u64))
    ensures
        (views(r.0@), views(r.1@), r.2) == expand_args(views(args@), args@.len(), index),
    decreases args, 1nat,
{
    proof {
        lemma_views_empty::<FuncCall>();
        lemma_views_empty::<ParamValue>();
    }
    let mut calls: Vec<FuncCall> = Vec::new();
    let mut params: Vec<ParamValue> = Vec::new();
    let mut next = index;
    let mut i: usize = 0;
    while i < args.len()
        invariant
            i <= args@.len(),
            (views(calls@), views(params@), next) == expand_args(views(args@), i as nat, index),
        decreases args@.len() - i,
    {
        let arg = &args[i];
        proof {
            arg.lemma_view_params();
            assert(views(args@)[i as int] == arg@);
            vstd::std_specs::vec::axiom_vec_index_decreases(*args, i as int);
        }
        if arg.params.is_some() {
            let (mut sub, after) = arg.expand(next);
            let n = sub.len();
            let name = sub[n - 1].assignees[0].target.clone();
            proof {
                lemma_views_push(params@, ParamValue::target_of(name));
                lemma_views_add(calls@, sub@);
                assert(views(sub@).last() == sub@.last()@);
                assert(views(sub@.last().assignees@)[0] == sub@.last().assignees@[0]@);
            }
            params.push(ParamValue::target(name));
            calls.append(&mut sub);
            next = after;
        } else {
            let value = ParamValue { sign: arg.sign, target: arg.ident.clone() };
            proof {
                lemma_views_push(params@, value);
            }
            params.push(value);
        }
        i += 1;
    }
    (calls, params, next)
}

impl Expression {
    /// The calls of the expression in post-order, numbered from `index`
    /// on, and the counter behind them.
    pub fn expand(&self, index: u64) -> (r: (Vec<FuncCall>, u64))
        ensures
            (views(r.0@), r.1) == expand_expr(self@, index),
            r.0@.len() > 0,
            r.0@.last().assignees@.len() == 1,
        decreases self, 0nat,
    {
        proof {
            self.lemma_view_params();
            lemma_views_empty::<FuncCall>();
            lemma_views_empty::<ParamValue>();
        }
        match &self.params {
            Some(args) => {
                let (mut calls, params, next) = expand_arguments(args, index);
                let assignee = ParamValue { sign: self.sign, target: format_index(next) };
                let mut assignees: Vec<ParamValue> = Vec::new();
                assignees.push(assignee);
                let call = FuncCall { func: self.ident.clone(), assignees, params };
                proof {
                    assert(views(call.assignees@) =~= seq![pv(self.sign, temp_name(next))]);
                    lemma_views_push(calls@, call);
                }
                calls.push(call);
                (calls, bump_index(next))
            },
            None => {
                let assignee = ParamValue { sign: self.sign, target: format_index(index) };
                let mut assignees: Vec<ParamValue> = Vec::new();
                assignees.push(assignee);
                let mut params: Vec<ParamValue> = Vec::new();
                params.push(ParamValue::target(self.ident.clone()));
                let mut name = String::new();
                name.push('o');
                name.push('r');
                assert(name@ =~= or_name());
                let call = FuncCall { func: name, assignees, params };
                let mut calls: Vec<FuncCall> = Vec::new();
                proof {
                    assert(views(call.assignees@) =~= seq![pv(self.sign, temp_name(index))]);
                    assert(views(call.params@) =~= seq![pv(false, self.ident@)]);
                    lemma_views_push(calls@, call);
                    assert(Seq::<FuncCallView>::empty().push(call@) =~= seq![call@]);
                }
                calls.push(call);
                (calls, bump_index(index))
            },
        }
    }
}

impl Statement {
    /// The calls of the statement, numbered from `index` on, and the
    /// counter behind them.
    pub fn expand_expression(&self, index: u64) -> (r: (Vec<FuncCall>, u64))
        ensures
            (views(r.0@), r.1) == expand_statement(self@, index),
    {
        let (mut calls, next) = self.expression.expand(index);
        let ghost before = calls@;
        match calls.pop() {
            Some(last) => {
                proof {
                    crate::views::lemma_views_drop_last(before);
                    assert(views(last.assignees@)[0] == last.assignees@[0]@);
                }
                let flip = last.assignees[0].sign;
                let call = FuncCall {
                    func: last.func,
                    assignees: sign_values(&self.assignees, flip),
                    params: last.params,
                };
                proof {
                    lemma_views_push(calls@, call);
                }
                calls.push(call);
                (calls, next)
            },
            None => (calls, next),
        }
    }
}

/// A call of `and` as the `or` that De Morgan's law makes of it.
pub fn resolve_and_gates(call: &FuncCall) -> (r: FuncCall)
    ensures
        r@ == resolve_and(call@),
{
    proof {
        reveal_strlit("and");
        reveal_strlit("or");
        assert("and"@ =~= and_name());
        assert("or"@ =~= or_name());
    }
    if str_eq(call.func.as_str(), "and") {
        FuncCall {
            func: "or".to_owned(),
            assignees: sign_values(&call.assignees, true),
            params: sign_values(&call.params, true),
        }
    } else {
        proof {
            assert(signed_by(call@.assignees, false) =~= call@.assignees);
            assert(signed_by(call@.params, false) =~= call@.params);
        }
        FuncCall {
            func: call.func.clone(),
            assignees: sign_values(&call.assignees, false),
            params: sign_values(&call.params, false),
        }
    }
}

impl<'a> SignatureSpec<'a> {
    /// Whether two specs have the same name and counts.
    pub fn same(&self, other: &SignatureSpec) -> (r: bool)
        ensures
            r == (self@ == other@),
    {
        str_eq(self.name, other.name) && self.assignee_count == other.assignee_count
            && self.param_count == other.param_count
    }

    /// The function among `comp_funcs` with this name and these counts.
    ///
    /// Fails with `CompUnknownFn` where no function has the name, and with
    /// `CompOverload` where none of that name has the counts.
    pub fn get_overload<'b>(&self, comp_funcs: &'b Vec<CompFunc>) -> (r: Result<
        &'b CompFunc,
        CompileError,
    >)
        ensures
            match r {
                Ok(f) => find_overload(views(comp_funcs@), self@) matches Ok(i) && 0 <= i
                    < comp_funcs@.len() && *f == comp_funcs@[i],
                Err(e) => find_overload(views(comp_funcs@), self@) == Err::<int, ErrorView>(e@),
            },
    {
        let ghost fs = views(comp_funcs@);
        let mut known = false;
        let mut i: usize = 0;
        while i < comp_funcs.len() && !known
            invariant
                i <= comp_funcs@.len(),
                fs == views(comp_funcs@),
                known ==> name_known_from(fs, self@.name, 0),
                !known ==> name_known_from(fs, self@.name, 0) == name_known_from(fs, self@.name, i as int),
            decreases comp_funcs@.len() - i + if known { 0int } else { 1int },
        {
            assert(fs[i as int] == comp_funcs@[i as int]@);
            if str_eq(comp_funcs[i].signature.name.as_str(), self.name) {
                known = true;
            } else {
                i += 1;
            }
        }
        if !known {
            return Err(CompileError::about(ErrorKind::CompUnknownFn, self.name));
        }
        let mut j: usize = 0;
        while j < comp_funcs.len()
            invariant
                j <= comp_funcs@.len(),
                fs == views(comp_funcs@),
                name_known_from(fs, self@.name, 0),
                overload_from(fs, self@, 0) == overload_from(fs, self@, j as int),
            decreases comp_funcs@.len() - j,
        {
            assert(fs[j as int] == comp_funcs@[j as int]@);
            let candidate = comp_funcs[j].signature.spec();
            if candidate.same(self) {
                return Ok(&comp_funcs[j]);
            }
            j += 1;
        }
        Err(CompileError::about(ErrorKind::CompOverload, self.name))
    }
}

impl FuncCall {
    /// The name and counts that the call asks for.
    pub fn spec<'a>(&'a self) -> (r: SignatureSpec<'a>)
        ensures
            r@ == spec_of_call(self@),
    {
        SignatureSpec {
            name: self.func.as_str(),
            assignee_count: self.assignees.len(),
            param_count: self.params.len(),
        }
    }
}

/// What the variables of the call numbered `func_index` start with.
pub fn format_prefix(name: &str, func_index: u64) -> (r: String)
    ensures
        r@ == call_prefix(name@, func_index),
{
    let mut prefix = String::new();
    prefix.push('_');
    assert(prefix@ =~= seq!['_']);
    prefix.append(name);
    prefix.push('_');
    assert(prefix@ =~= seq!['_'] + name@ + seq!['_']);
    push_decimal(&mut prefix, func_index);
    prefix.push('_');
    assert(prefix@ =~= call_prefix(name@, func_index));
    prefix
}

/// A value of the called function as it stands in the caller.
pub fn prefix_var(value: &ParamValue, callee: &Signature, call: &FuncCall, prefix: &str) -> (r:
    ParamValue)
    ensures
        r@ == substitute(value@, callee@, call@, prefix@),
{
    match position_of(&callee.params, value.target.as_str()) {
        Some(k) => {
            if k < call.params.len() {
                assert(views(call.params@)[k as int] == call.params@[k as int]@);
                ParamValue {
                    sign: value.sign ^ call.params[k].sign,
                    target: call.params[k].target.clone(),
                }
            } else {
                value.clone()
            }
        },
        None => match position_of(&callee.assignees, value.target.as_str()) {
            Some(k) => {
                if k < call.assignees.len() {
                    assert(views(call.assignees@)[k as int] == call.assignees@[k as int]@);
                    ParamValue {
                        sign: value.sign ^ call.assignees[k].sign,
                        target: call.assignees[k].target.clone(),
                    }
                } else {
                    value.clone()
                }
            },
            None => {
                if is_uppercase_ident(value.target.as_str()) {
                    value.clone()
                } else {
                    let mut target = prefix.to_owned();
                    target.append(value.target.as_str());
                    ParamValue { sign: value.sign, target }
                }
            },
        },
    }
}

impl FuncCall {
    /// The statements that replace the call: those of the overload that it
    /// picks among `comp_funcs`, each as it stands in the caller.
    ///
    /// Fails with `CompUnknownFn` or `CompOverload` where the call picks no
    /// function.
    pub fn expand_call(&self, comp_funcs: &Vec<CompFunc>, func_index: u64) -> (r: Result<
        Vec<CompStatement>,
        CompileError,
    >)
        ensures
            match r {
                Ok(statements) => expand_call(self@, views(comp_funcs@), func_index) == Ok::<
                    Seq<CompStatementView>,
                    ErrorView,
                >(views(statements@)),
                Err(e) => expand_call(self@, views(comp_funcs@), func_index) == Err::<
                    Seq<CompStatementView>,
                    ErrorView,
                >(e@),
            },
    {
        let called = match self.spec().get_overload(comp_funcs) {
            Ok(called) => called,
            Err(e) => {
                return Err(e);
            },
        };
        let prefix = format_prefix(self.func.as_str(), func_index);
        let mut out: Vec<CompStatement> = Vec::new();
        let mut i: usize = 0;
        let ghost wanted = called@.statements.map_values(
            |s: CompStatementView| inline_statement(s, called@.signature, self@, prefix@),
        );
        while i < called.comp_statements.len()
            invariant
                i <= called.comp_statements@.len(),
                out@.len() == i,
                wanted == called@.statements.map_values(
                    |s: CompStatementView| inline_statement(s, called@.signature, self@, prefix@),
                ),
                forall|j: int| 0 <= j < i ==> out@[j]@ == wanted[j],
            decreases called.comp_statements@.len() - i,
        {
            let statement = &called.comp_statements[i];
            let assignee = prefix_var(&statement.assignee, &called.signature, self, prefix.as_str());
            let mut params: Vec<ParamValue> = Vec::new();
            let mut k: usize = 0;
            while k < statement.params.len()
                invariant
                    k <= statement.params@.len(),
                    params@.len() == k,
                    forall|m: int| 0 <= m < k ==> params@[m]@ == substitute(
                        statement.params@[m]@,
                        called@.signature,
                        self@,
                        prefix@,
                    ),
                decreases statement.params@.len() - k,
            {
                params.push(prefix_var(&statement.params[k], &called.signature, self, prefix.as_str()));
                k += 1;
            }
            let inlined = CompStatement { assignee, params };
            proof {
                assert(called@.statements[i as int] == statement@);
                assert(views(inlined.params@) =~= statement@.params.map_values(
                    |p: ParamValueView| substitute(p, called@.signature, self@, prefix@),
                ));
            }
            out.push(inlined);
            i += 1;
        }
        assert(views(out@) =~= wanted);
        Ok(out)
    }
}

/// The state of a compilation as the specification sees it.
pub open spec fn state_of(exp_index: u64, func_index: u64, statements: Seq<CompStatement>) -> CompileState {
    CompileState { exp_index, func_index, statements: views(statements) }
}

/// Compiles one call and adds its statements to `statements`.
fn compile_one_call(
    call: &FuncCall,
    comp_funcs: &Vec<CompFunc>,
    exp_index: u64,
    func_index: &mut u64,
    statements: &mut Vec<CompStatement>,
) -> (r: Result<(), CompileError>)
    ensures
        match r {
            Ok(()) => compile_call(
                call@,
                views(comp_funcs@),
                state_of(exp_index, *old(func_index), old(statements)@),
            ) == Ok::<CompileState, ErrorView>(
                state_of(exp_index, *final(func_index), final(statements)@),
            ),
            Err(e) => compile_call(
                call@,
                views(comp_funcs@),
                state_of(exp_index, *old(func_index), old(statements)@),
            ) == Err::<CompileState, ErrorView>(e@),
        },
{
    let resolved = resolve_and_gates(call);
    proof {
        reveal_strlit("or");
        assert("or"@ =~= or_name());
    }
    if str_eq(resolved.func.as_str(), "or") {
        if resolved.assignees.len() != 1 {
            return Err(CompileError::new(ErrorKind::CompOrAssignees));
        }
        let statement = CompStatement {
            assignee: resolved.assignees[0].clone(),
            params: resolved.params,
        };
        proof {
            assert(views(resolved.assignees@)[0] == resolved.assignees@[0]@);
            lemma_views_push(statements@, statement);
        }
        statements.push(statement);
        Ok(())
    } else {
        let next_index = bump_index(*func_index);
        match resolved.expand_call(comp_funcs, next_index) {
            Ok(mut expanded) => {
                proof {
                    lemma_views_add(statements@, expanded@);
                }
                *func_index = next_index;
                statements.append(&mut expanded);
                Ok(())
            },
            Err(e) => Err(e),
        }
    }
}

/// Compiles one statement and adds its statements to `statements`.
fn compile_one_statement(
    statement: &Statement,
    comp_funcs: &Vec<CompFunc>,
    exp_index: &mut u64,
    func_index: &mut u64,
    statements: &mut Vec<CompStatement>,
) -> (r: Result<(), CompileError>)
    ensures
        match r {
            Ok(()) => compile_statement(
                statement@,
                views(comp_funcs@),
                state_of(*old(exp_index), *old(func_index), old(statements)@),
            ) == Ok::<CompileState, ErrorView>(
                state_of(*final(exp_index), *final(func_index), final(statements)@),
            ),
            Err(e) => compile_statement(
                statement@,
                views(comp_funcs@),
                state_of(*old(exp_index), *old(func_index), old(statements)@),
            ) == Err::<CompileState, ErrorView>(e@),
        },
{
    let (calls, next) = statement.expand_expression(*exp_index);
    *exp_index = bump_index(next);
    let ghost start = state_of(*exp_index, *func_index, statements@);
    let ghost fs = views(comp_funcs@);
    let mut i: usize = 0;
    while i < calls.len()
        invariant
            i <= calls@.len(),
            fs == views(comp_funcs@),
            compile_statement(
                statement@,
                fs,
                state_of(*old(exp_index), *old(func_index), old(statements)@),
            ) == compile_calls(views(calls@), 0, fs, start),
            compile_calls(views(calls@), 0, fs, start) == compile_calls(
                views(calls@),
                i as int,
                fs,
                state_of(*exp_index, *func_index, statements@),
            ),
        decreases calls@.len() - i,
    {
        assert(views(calls@)[i as int] == calls@[i as int]@);
        match compile_one_call(&calls[i], comp_funcs, *exp_index, func_index, statements) {
            Ok(()) => {},
            Err(e) => {
                return Err(e);
            },
        }
        i += 1;
    }
    Ok(())
}

/// The statements that assign another name than `_`.
fn keep_statements(statements: &Vec<CompStatement>) -> (r: Vec<CompStatement>)
    ensures
        views(r@) == kept_from(views(statements@), 0, Seq::empty()),
{
    let mut kept: Vec<CompStatement> = Vec::new();
    let mut i: usize = 0;
    proof {
        lemma_views_empty::<CompStatement>();
        reveal_strlit("_");
        assert("_"@ =~= discard_name());
    }
    while i < statements.len()
        invariant
            i <= statements@.len(),
            "_"@ == discard_name(),
            kept_from(views(statements@), 0, Seq::empty()) == kept_from(
                views(statements@),
                i as int,
                views(kept@),
            ),
        decreases statements@.len() - i,
    {
        assert(views(statements@)[i as int] == statements@[i as int]@);
        if !str_eq(statements[i].assignee.target.as_str(), "_") {
            let statement = statements[i].clone();
            proof {
                lemma_views_push(kept@, statement);
            }
            kept.push(statement);
        }
        i += 1;
    }
    kept
}

/// The names that the statements assign.
fn assignee_names(statements: &Vec<CompStatement>) -> (r: Vec<String>)
    ensures
        views(r@) == assigned_names(views(statements@)),
{
    let mut names: Vec<String> = Vec::new();
    let mut i: usize = 0;
    while i < statements.len()
        invariant
            i <= statements@.len(),
            names@.len() == i,
            forall|j: int| 0 <= j < i ==> names@[j]@ == statements@[j].assignee.target@,
        decreases statements@.len() - i,
    {
        names.push(statements[i].assignee.target.clone());
        i += 1;
    }
    assert(views(names@) =~= assigned_names(views(statements@)));
    names
}

impl Func {
    /// Compiles the function against the functions compiled before it.
    ///
    /// Fails with `CompDupeOverload` where one of them has its name and
    /// counts, with `CompOrAssignees`, `CompUnknownFn` or `CompOverload` at
    /// the first call that is wrong in that way, and with `CompDupeAssignee`
    /// where two of the statements that are kept assign one name.
    pub fn compile(&self, comp_funcs: &Vec<CompFunc>) -> (r: Result<CompFunc, CompileError>)
        ensures
            match r {
                Ok(f) => compile_func_spec(self@, views(comp_funcs@)) == Ok::<CompFuncView, ErrorView>(
                    f@,
                ),
                Err(e) => compile_func_spec(self@, views(comp_funcs@)) == Err::<
                    CompFuncView,
                    ErrorView,
                >(e@),
            },
    {
        let ghost fs = views(comp_funcs@);
        match self.signature.spec().get_overload(comp_funcs) {
            Ok(_) => {
                return Err(
                    CompileError::about(ErrorKind::CompDupeOverload, self.signature.name.as_str()),
                );
            },
            Err(_) => {},
        }
        let mut exp_index: u64 = 0;
        let mut func_index: u64 = 0;
        let mut statements: Vec<CompStatement> = Vec::new();
        let mut i: usize = 0;
        proof {
            lemma_views_empty::<CompStatement>();
        }
        let ghost start = CompileState { exp_index: 0, func_index: 0, statements: Seq::empty() };
        while i < self.statements.len()
            invariant
                i <= self.statements@.len(),
                fs == views(comp_funcs@),
                start == (CompileState { exp_index: 0, func_index: 0, statements: Seq::empty() }),
                !(find_overload(fs, spec_of(self@.signature)) is Ok),
                compile_statements(self@.statements, 0, fs, start) == compile_statements(
                    self@.statements,
                    i as int,
                    fs,
                    state_of(exp_index, func_index, statements@),
                ),
            decreases self.statements@.len() - i,
        {
            assert(self@.statements[i as int] == self.statements@[i as int]@);
            match compile_one_statement(
                &self.statements[i],
                comp_funcs,
                &mut exp_index,
                &mut func_index,
                &mut statements,
            ) {
                Ok(()) => {},
                Err(e) => {
                    return Err(e);
                },
            }
            i += 1;
        }
        let kept = keep_statements(&statements);
        let names = assignee_names(&kept);
        match find_dupe(&names) {
            Some(name) => Err(CompileError { kind: ErrorKind::CompDupeAssignee, subject: name }),
            None => Ok(CompFunc { signature: self.signature.clone(), comp_statements: kept }),
        }
    }
}

/// Compiles the functions in order, each against those before it.
///
/// Fails with the error of the first function that does not compile.
pub fn compile_funcs(funcs: &Vec<Func>) -> (r: Result<Vec<CompFunc>, CompileError>)
    ensures
        match r {
            Ok(done) => compile_funcs_spec(views(funcs@)) == Ok::<Seq<CompFuncView>, ErrorView>(
                views(done@),
            ),
            Err(e) => compile_funcs_spec(views(funcs@)) == Err::<Seq<CompFuncView>, ErrorView>(e@),
        },
{
    let mut done: Vec<CompFunc> = Vec::new();
    let mut i: usize = 0;
    proof {
        lemma_views_empty::<CompFunc>();
    }
    while i < funcs.len()
        invariant
            i <= funcs@.len(),
            compile_funcs_spec(views(funcs@)) == compile_funcs_from(views(funcs@), i as int, views(done@)),
        decreases funcs@.len() - i,
    {
        assert(views(funcs@)[i as int] == funcs@[i as int]@);
        match funcs[i].compile(&done) {
            Ok(f) => {
                proof {
                    lemma_views_push(done@, f);
                }
                done.push(f);
            },
            Err(e) => {
                return Err(e);
            },
        }
        i += 1;
    }
    Ok(done)
}

} // verus!
