//! Compiled functions and truth tables as text.

use vstd::prelude::*;
use crate::compiler::CompFunc;
use crate::compiler::CompFuncView;
use crate::compiler::CompStatement;
use crate::compiler::CompStatementView;
use crate::syntax::ParamValue;
use crate::syntax::ParamValueView;
use crate::syntax::Signature;
use crate::syntax::SignatureSpec;
use crate::syntax::SignatureSpecView;
use crate::syntax::SignatureView;
use crate::text::char_of_digit;
use crate::text::decimal;
use crate::text::digit_char;
use crate::text::push_decimal;
use crate::truth_table::TruthTable;
use crate::views::views;

verus! {

/// The binary digits of `n`, most significant first, without leading zeros.
pub open spec fn binary(n: nat) -> Seq<char>
    decreases n,
{
    if n < 2 {
        seq![digit_char(n)]
    } else {
        binary(n / 2).push(digit_char(n % 2))
    }
}

/// `count` zeros.
pub open spec fn zeros(count: nat) -> Seq<char> {
    Seq::new(count, |i: int| '0')
}

/// The binary digits of `n`, with zeros before them up to 8 digits.
pub open spec fn byte_text(n: nat) -> Seq<char> {
    if binary(n).len() < 8 {
        zeros((8 - binary(n).len()) as nat) + binary(n)
    } else {
        binary(n)
    }
}

/// The texts from `i` on, each behind `sep` but the first, behind `text`.
pub open spec fn joined_from(items: Seq<Seq<char>>, i: int, sep: Seq<char>, text: Seq<char>) -> Seq<char>
    decreases items.len() - i,
{
    if i < 0 || i >= items.len() {
        text
    } else if i == 0 {
        joined_from(items, i + 1, sep, text + items[i])
    } else {
        joined_from(items, i + 1, sep, text + sep + items[i])
    }
}

/// A signed name as text: `!` before an inverted name.
pub open spec fn value_text(v: ParamValueView) -> Seq<char> {
    if v.sign {
        seq!['!'] + v.target
    } else {
        v.target
    }
}

/// A signature as text: `name = (params) => (assignees)`.
pub open spec fn signature_text(s: SignatureView) -> Seq<char> {
    s.name + " = ("@ + joined_from(s.params, 0, ", "@, Seq::empty()) + ") => ("@ + joined_from(
        s.assignees,
        0,
        ", "@,
        Seq::empty(),
    ) + ")"@
}

/// A name and counts as text: `name = [params] => [assignees]`.
pub open spec fn spec_text(s: SignatureSpecView) -> Seq<char> {
    s.name + " = ["@ + decimal(s.param_count) + "] => ["@ + decimal(s.assignee_count) + "]"@
}

/// A composite statement as text: `assignee <- params;`.
pub open spec fn statement_text(s: CompStatementView) -> Seq<char> {
    value_text(s.assignee) + " <- "@ + joined_from(
        s.params.map_values(|p: ParamValueView| value_text(p)),
        0,
        ", "@,
        Seq::empty(),
    ) + ";"@
}

/// The lines of the statements from `i` on, each behind a tab and before
/// a line feed, with an empty line behind a statement of more than one
/// parameter.
pub open spec fn statements_text_from(statements: Seq<CompStatementView>, i: int, text: Seq<char>) -> Seq<
    char,
>
    decreases statements.len() - i,
{
    if i < 0 || i >= statements.len() {
        text
    } else {
        let line = text + seq!['\t'] + statement_text(statements[i]) + seq!['\n'];
        statements_text_from(
            statements,
            i + 1,
            if statements[i].params.len() > 1 {
                line + seq!['\n']
            } else {
                line
            },
        )
    }
}

/// A compiled function as text: its signature, then its statements in
/// braces.
pub open spec fn func_text(f: CompFuncView) -> Seq<char> {
    statements_text_from(f.statements, 0, signature_text(f.signature) + " ~{\n"@) + "}\n"@
}

/// The lines of the entries from `i` on: the input and the output in
/// binary digits with `=>` between them.
pub open spec fn table_text_from(entries: Seq<u32>, i: int, text: Seq<char>) -> Seq<char>
    decreases entries.len() - i,
{
    if i < 0 || i >= entries.len() {
        text
    } else {
        table_text_from(
            entries,
            i + 1,
            text + byte_text(i as nat) + " => "@ + byte_text(entries[i] as nat) + seq!['\n'],
        )
    }
}

/// A truth table as text: one line for each entry, then an empty line.
pub open spec fn table_text(entries: Seq<u32>) -> Seq<char> {
    table_text_from(entries, 0, Seq::empty()) + seq!['\n']
}

/// The binary digits of `n`.
fn binary_digits(n: u64) -> (r: String)
    ensures
        r@ == binary(n as nat),
    decreases n,
{
    if n < 2 {
        let mut out = String::new();
        out.push(char_of_digit(n));
        assert(out@ =~= seq![digit_char(n as nat)]);
        out
    } else {
        let mut out = binary_digits(n / 2);
        out.push(char_of_digit(n % 2));
        out
    }
}

/// Appends the binary digits of `n`, with zeros before them up to 8
/// digits.
fn push_byte_text(text: &mut String, n: u64)
    ensures
        final(text)@ == old(text)@ + byte_text(n as nat),
{
    let digits = binary_digits(n);
    let len = digits.as_str().unicode_len();
    let mut k: usize = len;
    let ghost start = text@;
    assert(start + zeros(0) =~= start);
    while k < 8
        invariant
            len <= k,
            len == digits@.len(),
            len < 8 ==> k <= 8,
            len >= 8 ==> k == len,
            text@ == start + zeros((k - len) as nat),
        decreases 8 - k,
    {
        text.push('0');
        assert(zeros((k + 1 - len) as nat) =~= zeros((k - len) as nat).push('0'));
        assert(start + zeros((k + 1 - len) as nat) =~= (start + zeros((k - len) as nat)).push('0'));
        k += 1;
    }
    let ghost padded = text@;
    text.append(digits.as_str());
    proof {
        if len < 8 {
            assert(text@ =~= start + (zeros((8 - len) as nat) + digits@));
        } else {
            assert(zeros(0) =~= Seq::<char>::empty());
            assert(padded =~= start);
            assert(text@ =~= start + digits@);
        }
    }
}

/// Appends the texts, each behind `sep` but the first.
fn push_joined(text: &mut String, items: &Vec<String>, sep: &str)
    ensures
        final(text)@ == joined_from(views(items@), 0, sep@, old(text)@),
{
    let mut i: usize = 0;
    while i < items.len()
        invariant
            i <= items@.len(),
            joined_from(views(items@), 0, sep@, old(text)@) == joined_from(
                views(items@),
                i as int,
                sep@,
                text@,
            ),
        decreases items@.len() - i,
    {
        assert(views(items@)[i as int] == items@[i as int]@);
        if i > 0 {
            text.append(sep);
        }
        text.append(items[i].as_str());
        i += 1;
    }
}

impl ParamValue {
    /// The value as text: `!` before an inverted name.
    pub fn to_text(&self) -> (r: String)
        ensures
            r@ == value_text(self@),
    {
        let mut text = String::new();
        if self.sign {
            text.push('!');
        }
        text.append(self.target.as_str());
        assert(text@ =~= value_text(self@));
        text
    }
}

impl Signature {
    /// The signature as text: `name = (params) => (assignees)`.
    pub fn to_text(&self) -> (r: String)
        ensures
            r@ == signature_text(self@),
    {
        let mut text = self.name.clone();
        text.append(" = (");
        let mut params = String::new();
        push_joined(&mut params, &self.params, ", ");
        text.append(params.as_str());
        text.append(") => (");
        let mut assignees = String::new();
        push_joined(&mut assignees, &self.assignees, ", ");
        text.append(assignees.as_str());
        text.append(")");
        text
    }
}

impl<'a> SignatureSpec<'a> {
    /// The name and counts as text: `name = [params] => [assignees]`.
    pub fn to_text(&self) -> (r: String)
        ensures
            r@ == spec_text(self@),
    {
        let mut text = self.name.to_owned();
        text.append(" = [");
        let mut params = String::new();
        push_decimal(&mut params, self.param_count as u64);
        text.append(params.as_str());
        text.append("] => [");
        let mut assignees = String::new();
        push_decimal(&mut assignees, self.assignee_count as u64);
        text.append(assignees.as_str());
        text.append("]");
        assert(params@ =~= decimal(self.param_count as nat));
        assert(assignees@ =~= decimal(self.assignee_count as nat));
        text
    }
}

impl CompStatement {
    /// The statement as text: `assignee <- params;`.
    pub fn to_text(&self) -> (r: String)
        ensures
            r@ == statement_text(self@),
    {
        let mut texts: Vec<String> = Vec::new();
        let mut i: usize = 0;
        while i < self.params.len()
            invariant
                i <= self.params@.len(),
                texts@.len() == i,
                forall|j: int| 0 <= j < i ==> texts@[j]@ == value_text(self.params@[j]@),
            decreases self.params@.len() - i,
        {
            texts.push(self.params[i].to_text());
            i += 1;
        }
        assert(views(texts@) =~= self@.params.map_values(|p: ParamValueView| value_text(p)));
        let mut text = self.assignee.to_text();
        text.append(" <- ");
        let mut params = String::new();
        push_joined(&mut params, &texts, ", ");
        text.append(params.as_str());
        text.append(";");
        text
    }
}

impl CompFunc {
    /// The function as text: its signature, then its statements in
    /// braces, one to a line.
    pub fn to_text(&self) -> (r: String)
        ensures
            r@ == func_text(self@),
    {
        let mut text = self.signature.to_text();
        text.append(" ~{\n");
        let ghost start = text@;
        let mut i: usize = 0;
        while i < self.comp_statements.len()
            invariant
                i <= self.comp_statements@.len(),
                statements_text_from(self@.statements, 0, start) == statements_text_from(
                    self@.statements,
                    i as int,
                    text@,
                ),
            decreases self.comp_statements@.len() - i,
        {
            let statement = &self.comp_statements[i];
            assert(self@.statements[i as int] == statement@);
            let ghost before = text@;
            text.push('\t');
            text.append(statement.to_text().as_str());
            text.push('\n');
            assert(text@ =~= before + seq!['\t'] + statement_text(statement@) + seq!['\n']);
            if statement.params.len() > 1 {
                text.push('\n');
                assert(text@ =~= before + seq!['\t'] + statement_text(statement@) + seq!['\n'] + seq![
                    '\n',
                ]);
            }
            i += 1;
        }
        text.append("}\n");
        text
    }
}

impl TruthTable {
    /// The table as text: one line for each entry, the input and the
    /// output in binary digits with `=>` between them, then an empty line.
    pub fn to_text(&self) -> (r: String)
        ensures
            r@ == table_text(self@.entries),
    {
        let entries = self.entries();
        let mut text = String::new();
        let mut i: usize = 0;
        while i < entries.len()
            invariant
                i <= entries@.len(),
                table_text_from(entries@, 0, Seq::empty()) == table_text_from(entries@, i as int, text@),
            decreases entries@.len() - i,
        {
            let ghost before = text@;
            push_byte_text(&mut text, i as u64);
            text.append(" => ");
            push_byte_text(&mut text, entries[i] as u64);
            text.push('\n');
            assert(text@ =~= before + byte_text(i as nat) + " => "@ + byte_text(entries@[i as int] as nat)
                + seq!['\n']);
            i += 1;
        }
        text.push('\n');
        text
    }
}

} // verus!
