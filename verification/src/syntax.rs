//! The parsed form of a source file: expressions, statements, functions.

use vstd::prelude::*;
use crate::token::Token;
use crate::token::TokenView;
use crate::views::views;

verus! {

/// A name with a polarity: `sign` set means inverted.
#[derive(Debug)]
pub struct ParamValue {
    pub sign: bool,
    pub target: String,
}

pub struct ParamValueView {
    pub sign: bool,
    pub target: Seq<char>,
}

impl View for ParamValue {
    type V = ParamValueView;

    open spec fn view(&self) -> ParamValueView {
        ParamValueView { sign: self.sign, target: self.target@ }
    }
}

impl Clone for ParamValue {
    fn clone(&self) -> (r: ParamValue)
        ensures
            r@ == self@,
    {
        ParamValue { sign: self.sign, target: self.target.clone() }
    }
}

impl ParamValue {
    /// The name `target`, not inverted.
    pub fn target(target: String) -> (r: ParamValue)
        ensures
            r == ParamValue::target_of(target),
            r@ == (ParamValueView { sign: false, target: target@ }),
    {
        ParamValue { sign: false, target }
    }

    /// The value that `target` makes for the name `name`.
    pub open spec fn target_of(name: String) -> ParamValue {
        ParamValue { sign: false, target: name }
    }

    /// Flips the polarity.
    pub fn invert(&mut self)
        ensures
            final(self)@ == (ParamValueView { sign: !old(self).sign, target: old(self)@.target }),
    {
        self.sign = !self.sign;
    }
}

/// A variable or peripheral (`params` is `None`) or a call (`params` holds
/// the arguments). `sign` inverts the result.
#[derive(Debug)]
pub struct Expression {
    pub ident: String,
    pub sign: bool,
    pub params: Option<Vec<Expression>>,
}

pub struct ExpressionView {
    pub ident: Seq<char>,
    pub sign: bool,
    pub params: Option<Seq<ExpressionView>>,
}

/// The view of an expression: its names as character sequences, its
/// arguments as views.
pub open spec fn expr_view(e: Expression) -> ExpressionView
    decreases e, 0nat,
{
    ExpressionView {
        ident: e.ident@,
        sign: e.sign,
        params: match e.params {
            Some(ps) => Some(exprs_view(ps, ps@.len())),
            None => None,
        },
    }
}

/// The views of the first `n` expressions of `ps`.
pub open spec fn exprs_view(ps: Vec<Expression>, n: nat) -> Seq<ExpressionView>
    decreases ps, n,
{
    if n == 0 || n > ps@.len() {
        Seq::empty()
    } else {
        exprs_view(ps, (n - 1) as nat).push(expr_view(ps@[n - 1]))
    }
}

impl View for Expression {
    type V = ExpressionView;

    open spec fn view(&self) -> ExpressionView {
        expr_view(*self)
    }
}

pub proof fn lemma_exprs_view(ps: Vec<Expression>, n: nat)
    requires
        n <= ps@.len(),
    ensures
        exprs_view(ps, n) == views(ps@.take(n as int)),
    decreases n,
{
    if n == 0 {
        assert(views(ps@.take(0)) =~= Seq::<ExpressionView>::empty());
    } else {
        lemma_exprs_view(ps, (n - 1) as nat);
        assert(ps@.take(n as int) =~= ps@.take(n - 1).push(ps@[n - 1]));
        crate::views::lemma_views_push(ps@.take(n - 1), ps@[n - 1]);
    }
}

impl Expression {
    /// The view of a call's arguments is the sequence of their views.
    pub proof fn lemma_view_params(self)
        ensures
            self.params matches Some(ps) ==> self@.params == Some(views(ps@)),
            self.params is None ==> self@.params is None,
    {
        match self.params {
            Some(ps) => {
                lemma_exprs_view(ps, ps@.len());
                assert(ps@.take(ps@.len() as int) =~= ps@);
            },
            None => {},
        }
    }
}

/// `assignees = expression;`
#[derive(Debug)]
pub struct Statement {
    pub assignees: Vec<ParamValue>,
    pub expression: Expression,
}

pub struct StatementView {
    pub assignees: Seq<ParamValueView>,
    pub expression: ExpressionView,
}

impl View for Statement {
    type V = StatementView;

    open spec fn view(&self) -> StatementView {
        StatementView { assignees: views(self.assignees@), expression: self.expression@ }
    }
}

/// The head of a function: its name, its parameters and what it assigns.
#[derive(Debug, Default)]
pub struct Signature {
    pub name: String,
    pub assignees: Vec<String>,
    pub params: Vec<String>,
}

pub struct SignatureView {
    pub name: Seq<char>,
    pub assignees: Seq<Seq<char>>,
    pub params: Seq<Seq<char>>,
}

impl View for Signature {
    type V = SignatureView;

    open spec fn view(&self) -> SignatureView {
        SignatureView {
            name: self.name@,
            assignees: views(self.assignees@),
            params: views(self.params@),
        }
    }
}

/// A copy of a list of names.
pub fn clone_names(names: &Vec<String>) -> (r: Vec<String>)
    ensures
        views(r@) == views(names@),
{
    let mut out: Vec<String> = Vec::new();
    let mut i: usize = 0;
    while i < names.len()
        invariant
            i <= names@.len(),
            out@.len() == i,
            forall|j: int| 0 <= j < i ==> out@[j]@ == names@[j]@,
        decreases names@.len() - i,
    {
        out.push(names[i].clone());
        i += 1;
    }
    assert(views(out@) =~= views(names@));
    out
}

/// A copy of a list of signed names.
pub fn clone_values(values: &Vec<ParamValue>) -> (r: Vec<ParamValue>)
    ensures
        views(r@) == views(values@),
{
    let mut out: Vec<ParamValue> = Vec::new();
    let mut i: usize = 0;
    while i < values.len()
        invariant
            i <= values@.len(),
            out@.len() == i,
            forall|j: int| 0 <= j < i ==> out@[j]@ == values@[j]@,
        decreases values@.len() - i,
    {
        out.push(values[i].clone());
        i += 1;
    }
    assert(views(out@) =~= views(values@));
    out
}

impl Clone for Signature {
    fn clone(&self) -> (r: Signature)
        ensures
            r@ == self@,
    {
        Signature {
            name: self.name.clone(),
            assignees: clone_names(&self.assignees),
            params: clone_names(&self.params),
        }
    }
}

/// A name and two counts: what a call must match to pick an overload.
#[derive(Debug, Clone, Copy)]
pub struct SignatureSpec<'a> {
    pub name: &'a str,
    pub assignee_count: usize,
    pub param_count: usize,
}

pub struct SignatureSpecView {
    pub name: Seq<char>,
    pub assignee_count: nat,
    pub param_count: nat,
}

impl<'a> View for SignatureSpec<'a> {
    type V = SignatureSpecView;

    open spec fn view(&self) -> SignatureSpecView {
        SignatureSpecView {
            name: self.name@,
            assignee_count: self.assignee_count as nat,
            param_count: self.param_count as nat,
        }
    }
}

/// The name and counts of a signature.
pub open spec fn spec_of(signature: SignatureView) -> SignatureSpecView {
    SignatureSpecView {
        name: signature.name,
        assignee_count: signature.assignees.len(),
        param_count: signature.params.len(),
    }
}

impl<'a> SignatureSpec<'a> {
    pub fn new(name: &'a str, param_count: usize, assignee_count: usize) -> (r: SignatureSpec<'a>)
        ensures
            r@ == (SignatureSpecView {
                name: name@,
                assignee_count: assignee_count as nat,
                param_count: param_count as nat,
            }),
    {
        SignatureSpec { name, assignee_count, param_count }
    }
}

impl Signature {
    /// The name and counts of this signature.
    pub fn spec<'a>(&'a self) -> (r: SignatureSpec<'a>)
        ensures
            r@ == spec_of(self@),
    {
        SignatureSpec {
            name: self.name.as_str(),
            assignee_count: self.assignees.len(),
            param_count: self.params.len(),
        }
    }
}

/// A function as written: its head and its statements.
#[derive(Debug)]
pub struct Func {
    pub signature: Signature,
    pub statements: Vec<Statement>,
}

pub struct FuncView {
    pub signature: SignatureView,
    pub statements: Seq<StatementView>,
}

impl View for Func {
    type V = FuncView;

    open spec fn view(&self) -> FuncView {
        FuncView { signature: self.signature@, statements: views(self.statements@) }
    }
}

/// The binding of a function to an ant id.
#[derive(Debug)]
pub struct AntFunc {
    pub target_name: String,
    pub target_id: u8,
}

pub struct AntFuncView {
    pub target_name: Seq<char>,
    pub target_id: u8,
}

impl View for AntFunc {
    type V = AntFuncView;

    open spec fn view(&self) -> AntFuncView {
        AntFuncView { target_name: self.target_name@, target_id: self.target_id }
    }
}

/// One `set` item: the key and the token that is its value.
#[derive(Debug)]
pub struct Setting {
    pub key: String,
    pub value: Token,
}

pub struct SettingView {
    pub key: Seq<char>,
    pub value: TokenView,
}

impl View for Setting {
    type V = SettingView;

    open spec fn view(&self) -> SettingView {
        SettingView { key: self.key@, value: self.value@ }
    }
}

/// What one source file holds.
#[derive(Debug)]
pub struct ParsedWorld {
    pub settings: Vec<Setting>,
    pub funcs: Vec<Func>,
    pub ants: Vec<AntFunc>,
    pub imports: Vec<String>,
    pub no_std: bool,
}

pub struct ParsedWorldView {
    pub settings: Seq<SettingView>,
    pub funcs: Seq<FuncView>,
    pub ants: Seq<AntFuncView>,
    pub imports: Seq<Seq<char>>,
    pub no_std: bool,
}

impl View for ParsedWorld {
    type V = ParsedWorldView;

    open spec fn view(&self) -> ParsedWorldView {
        ParsedWorldView {
            settings: views(self.settings@),
            funcs: views(self.funcs@),
            ants: views(self.ants@),
            imports: views(self.imports@),
            no_std: self.no_std,
        }
    }
}

} // verus!
