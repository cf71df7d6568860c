//! The linker and the whole pipeline: source files to world properties.
//!
//! The standard library comes first, then the imported files, depth first,
//! each with its `main` renamed to the file's stem, then the source file's
//! own functions.

use vstd::prelude::*;
use crate::ant::Behavior;
use crate::ant::BehaviorView;
use crate::assembler::assemble_spec;
use crate::compiler::compile_funcs;
use crate::compiler::compile_funcs_spec;
use crate::compiler::find_overload;
use crate::compiler::CompFunc;
use crate::compiler::CompFuncView;
use crate::config::apply_setting;
use crate::config::default_config;
use crate::config::no_behaviors;
use crate::config::slot_view;
use crate::config::WorldConfig;
use crate::config::WorldConfigView;
use crate::config::WorldProperties;
use crate::config::WorldPropertiesView;
use crate::error::CompileError;
use crate::error::ErrorKind;
use crate::error::at;
use crate::error::ErrorView;
use crate::error::bare;
use crate::parser::main_name;
use crate::parser::parse_source;
use crate::parser::Parser;
use crate::stdlib::STDLIB;
use crate::syntax::AntFunc;
use crate::syntax::AntFuncView;
use crate::syntax::Expression;
use crate::syntax::ExpressionView;
use crate::syntax::Func;
use crate::syntax::FuncView;
use crate::syntax::ParsedWorld;
use crate::syntax::ParsedWorldView;
use crate::syntax::Setting;
use crate::syntax::SettingView;
use crate::syntax::Signature;
use crate::syntax::SignatureSpec;
use crate::syntax::SignatureSpecView;
use crate::syntax::SignatureView;
use crate::syntax::Statement;
use crate::syntax::StatementView;
use crate::text::chars_are_lower_ident;
use crate::text::chars_of;
use crate::text::is_lower_ident;
use crate::text::str_eq;
use crate::token::keyword_of;
use crate::token::Keyword;
use crate::truth_table::TruthTable;
use crate::truth_table::TruthTableView;
use crate::util::contains_name;
use crate::views::lemma_views_add;
use crate::views::lemma_views_empty;
use crate::views::lemma_views_push;
use crate::views::views;

verus! {

/// A file that a program may import, as the caller found it.
#[derive(Debug)]
pub struct SourceFile {
    /// The path that names the file among the others.
    pub path: String,
    /// The file's name without its extension.
    pub stem: String,
    /// The file's extension, without the dot.
    pub extension: String,
    /// The file's text; `None` where it could not be read.
    pub code: Option<String>,
    /// For each `use` item of the text, in order, the path of the file
    /// that it names.
    pub import_paths: Vec<String>,
}

pub struct SourceFileView {
    pub path: Seq<char>,
    pub stem: Seq<char>,
    pub extension: Seq<char>,
    pub code: Option<Seq<char>>,
    pub import_paths: Seq<Seq<char>>,
}

impl View for SourceFile {
    type V = SourceFileView;

    open spec fn view(&self) -> SourceFileView {
        SourceFileView {
            path: self.path@,
            stem: self.stem@,
            extension: self.extension@,
            code: match self.code {
                Some(code) => Some(code@),
                None => None,
            },
            import_paths: views(self.import_paths@),
        }
    }
}

/// Whether a file may be imported under its stem: a lower-case
/// identifier that is no keyword.
pub open spec fn file_name_ok(stem: Seq<char>) -> bool {
    is_lower_ident(stem) && keyword_of(stem) is None
}

/// Whether `file_name` is a lower-case identifier that is no keyword.
pub fn validate_file_name(file_name: &str) -> (r: bool)
    ensures
        r == file_name_ok(file_name@),
{
    let chars = chars_of(file_name);
    chars_are_lower_ident(&chars) && Keyword::from_chars(&chars).is_none()
}

/// An expression of an imported file: every call of `main` in it calls
/// the file's stem instead.
pub open spec fn sanitize_expr(e: ExpressionView, stem: Seq<char>) -> ExpressionView
    decreases e, 0nat,
{
    match e.params {
        Some(args) => ExpressionView {
            ident: if e.ident == main_name() {
                stem
            } else {
                e.ident
            },
            sign: e.sign,
            params: Some(sanitize_exprs(args, args.len(), stem)),
        },
        None => e,
    }
}

/// The first `n` expressions of `es`, each with its calls of `main` renamed.
pub open spec fn sanitize_exprs(es: Seq<ExpressionView>, n: nat, stem: Seq<char>) -> Seq<ExpressionView>
    decreases es, n,
{
    if n == 0 || n > es.len() {
        Seq::empty()
    } else {
        sanitize_exprs(es, (n - 1) as nat, stem).push(sanitize_expr(es[n - 1], stem))
    }
}

/// A function of an imported file: `main` is named by the file's stem, in
/// the function's name and in every call.
pub open spec fn sanitize_func(f: FuncView, stem: Seq<char>) -> FuncView {
    FuncView {
        signature: SignatureView {
            name: if f.signature.name == main_name() {
                stem
            } else {
                f.signature.name
            },
            ..f.signature
        },
        statements: f.statements.map_values(
            |s: StatementView|
                StatementView { assignees: s.assignees, expression: sanitize_expr(s.expression, stem) },
        ),
    }
}

/// The functions of an imported file with `main` renamed.
pub open spec fn sanitize_funcs(funcs: Seq<FuncView>, stem: Seq<char>) -> Seq<FuncView> {
    funcs.map_values(|f: FuncView| sanitize_func(f, stem))
}

/// How far the linking has come: the functions gathered, the files
/// loaded, and the files that are being loaded.
pub struct LinkState {
    pub funcs: Seq<FuncView>,
    pub imported: Seq<Seq<char>>,
    pub visiting: Seq<Seq<char>>,
}

/// The first file at or after `i` with the path.
pub open spec fn find_file(files: Seq<SourceFileView>, path: Seq<char>, i: int) -> Option<int>
    decreases files.len() - i,
{
    if i < 0 || i >= files.len() {
        None
    } else if files[i].path == path {
        Some(i)
    } else {
        find_file(files, path, i + 1)
    }
}

/// The file at `path` linked: its imports first, then its own functions
/// with `main` renamed. A file that was loaded before adds nothing.
///
/// `LinkCycle` where the file is being loaded already, `LinkMissingFile`
/// where it is not among `files`, has no text, or names another number of
/// paths than it has `use` items, `LinkExtension` where its extension is
/// not `ant`, `LinkName` where its stem is no lower-case identifier, and
/// the error of its text where it does not parse. `depth` is the number of
/// files that may still be nested; started with the number of files it is
/// never used up (`lemma_depth_suffices`).
pub open spec fn link_file(
    files: Seq<SourceFileView>,
    path: Seq<char>,
    st: LinkState,
    depth: nat,
) -> Result<LinkState, ErrorView>
    decreases depth, 0nat,
{
    if st.visiting.contains(path) {
        Err(at(ErrorKind::LinkCycle, path))
    } else if st.imported.contains(path) {
        Ok(st)
    } else {
        match find_file(files, path, 0) {
            None => Err(at(ErrorKind::LinkMissingFile, path)),
            Some(k) => {
                let file = files[k];
                if file.extension != "ant"@ {
                    Err(at(ErrorKind::LinkExtension, path))
                } else if !file_name_ok(file.stem) {
                    Err(at(ErrorKind::LinkName, path))
                } else {
                    match file.code {
                        None => Err(at(ErrorKind::LinkMissingFile, path)),
                        Some(code) => match parse_source(code) {
                            Err(e) => Err(e),
                            Ok(world) => if world.imports.len() != file.import_paths.len() {
                                Err(at(ErrorKind::LinkMissingFile, path))
                            } else if depth == 0 {
                                Err(at(ErrorKind::LinkCycle, path))
                            } else {
                                match link_imports(
                                    files,
                                    file.import_paths,
                                    0,
                                    LinkState {
                                        funcs: st.funcs,
                                        imported: st.imported.push(path),
                                        visiting: st.visiting.push(path),
                                    },
                                    (depth - 1) as nat,
                                ) {
                                    Err(e) => Err(e),
                                    Ok(after) => Ok(
                                        LinkState {
                                            funcs: after.funcs + sanitize_funcs(world.funcs, file.stem),
                                            imported: after.imported,
                                            visiting: st.visiting,
                                        },
                                    ),
                                }
                            },
                        },
                    }
                }
            },
        }
    }
}

/// The files at the paths from `i` on linked, one after the other.
pub open spec fn link_imports(
    files: Seq<SourceFileView>,
    paths: Seq<Seq<char>>,
    i: int,
    st: LinkState,
    depth: nat,
) -> Result<LinkState, ErrorView>
    decreases depth, 1 + paths.len() - i,
{
    if i < 0 || i >= paths.len() {
        Ok(st)
    } else {
        match link_file(files, paths[i], st, depth) {
            Err(e) => Err(e),
            Ok(next) => link_imports(files, paths, i + 1, next, depth),
        }
    }
}

/// The functions of a program in the order in which they are compiled:
/// those in `first` (the standard library), those of the imported files,
/// those of the program itself.
pub open spec fn link_spec(
    first: Seq<FuncView>,
    world: ParsedWorldView,
    import_paths: Seq<Seq<char>>,
    files: Seq<SourceFileView>,
) -> Result<Seq<FuncView>, ErrorView> {
    if world.imports.len() != import_paths.len() {
        Err(bare(ErrorKind::LinkMissingFile))
    } else {
        match link_imports(
            files,
            import_paths,
            0,
            LinkState { funcs: first, imported: Seq::empty(), visiting: Seq::empty() },
            files.len(),
        ) {
            Err(e) => Err(e),
            Ok(st) => Ok(st.funcs + world.funcs),
        }
    }
}

/// The paths of the files.
pub open spec fn file_paths(files: Seq<SourceFileView>) -> Seq<Seq<char>> {
    files.map_values(|f: SourceFileView| f.path)
}

/// Whether the files that are being loaded are all different and all
/// among `files`.
pub open spec fn visiting_ok(files: Seq<SourceFileView>, visiting: Seq<Seq<char>>) -> bool {
    &&& visiting.no_duplicates()
    &&& forall|i: int| 0 <= i < visiting.len() ==> file_paths(files).contains(#[trigger] visiting[i])
}

proof fn lemma_find_file(files: Seq<SourceFileView>, path: Seq<char>, i: int)
    requires
        0 <= i,
    ensures
        find_file(files, path, i) matches Some(k) ==> i <= k < files.len() && files[k].path == path,
    decreases files.len() - i,
{
    if i < files.len() && files[i].path != path {
        lemma_find_file(files, path, i + 1);
    }
}

/// One more file among `files` that is not being loaded yet can be
/// entered: fewer files are being loaded than there are files.
proof fn lemma_visiting_room(files: Seq<SourceFileView>, visiting: Seq<Seq<char>>, path: Seq<char>)
    requires
        visiting_ok(files, visiting),
        !visiting.contains(path),
        file_paths(files).contains(path),
    ensures
        visiting.len() + 1 <= files.len(),
        visiting_ok(files, visiting.push(path)),
{
    let entered = visiting.push(path);
    assert forall|a: int, b: int| 0 <= a < entered.len() && 0 <= b < entered.len() && a != b implies entered[a]
        != entered[b] by {
        if a < visiting.len() && b < visiting.len() {
            assert(visiting[a] != visiting[b]);
        } else if a < visiting.len() {
            assert(visiting.contains(visiting[a]));
        } else {
            assert(visiting.contains(visiting[b]));
        }
    }
    assert forall|i: int| 0 <= i < entered.len() implies file_paths(files).contains(#[trigger] entered[i]) by {
        if i < visiting.len() {
            assert(entered[i] == visiting[i]);
        }
    }
    let all = file_paths(files);
    entered.unique_seq_to_set();
    vstd::seq_lib::seq_to_set_is_finite(all);
    assert(entered.to_set().subset_of(all.to_set())) by {
        assert forall|x: Seq<char>| entered.to_set().contains(x) implies all.to_set().contains(x) by {
            let i = choose|i: int| 0 <= i < entered.len() && entered[i] == x;
            assert(all.contains(entered[i]));
        }
    }
    vstd::set_lib::lemma_len_subset(entered.to_set(), all.to_set());
    all.lemma_cardinality_of_set();
}

proof fn lemma_link_file_depth(
    files: Seq<SourceFileView>,
    path: Seq<char>,
    st: LinkState,
    one: nat,
    other: nat,
)
    requires
        visiting_ok(files, st.visiting),
        one + st.visiting.len() >= files.len(),
        other + st.visiting.len() >= files.len(),
    ensures
        link_file(files, path, st, one) == link_file(files, path, st, other),
    decreases one, 0nat,
{
    if !st.visiting.contains(path) && !st.imported.contains(path) {
        lemma_find_file(files, path, 0);
        match find_file(files, path, 0) {
            None => {},
            Some(k) => {
                let file = files[k];
                assert(file_paths(files)[k] == path);
                lemma_visiting_room(files, st.visiting, path);
                if one > 0 && other > 0 {
                    lemma_link_imports_depth(
                        files,
                        file.import_paths,
                        0,
                        LinkState {
                            funcs: st.funcs,
                            imported: st.imported.push(path),
                            visiting: st.visiting.push(path),
                        },
                        (one - 1) as nat,
                        (other - 1) as nat,
                    );
                }
            },
        }
    }
}

proof fn lemma_link_imports_depth(
    files: Seq<SourceFileView>,
    paths: Seq<Seq<char>>,
    i: int,
    st: LinkState,
    one: nat,
    other: nat,
)
    requires
        visiting_ok(files, st.visiting),
        one + st.visiting.len() >= files.len(),
        other + st.visiting.len() >= files.len(),
    ensures
        link_imports(files, paths, i, st, one) == link_imports(files, paths, i, st, other),
    decreases one, 1 + paths.len() - i,
{
    if 0 <= i < paths.len() {
        lemma_link_file_depth(files, paths[i], st, one, other);
        lemma_link_file_visiting(files, paths[i], st, one);
        match link_file(files, paths[i], st, one) {
            Err(e) => {},
            Ok(next) => {
                lemma_link_imports_depth(files, paths, i + 1, next, one, other);
            },
        }
    }
}

/// The depth that linking starts with, the number of the files, is never
/// used up: the files that are being loaded are all different and all
/// among `files`, so there are never more of them than files. With any
/// greater depth the outcome is the same, so no `LinkCycle` comes from the
/// depth.
pub proof fn lemma_depth_suffices(
    files: Seq<SourceFileView>,
    paths: Seq<Seq<char>>,
    first: Seq<FuncView>,
    depth: nat,
)
    requires
        depth >= files.len(),
    ensures
        link_imports(
            files,
            paths,
            0,
            LinkState { funcs: first, imported: Seq::empty(), visiting: Seq::empty() },
            depth,
        ) == link_imports(
            files,
            paths,
            0,
            LinkState { funcs: first, imported: Seq::empty(), visiting: Seq::empty() },
            files.len(),
        ),
{
    let start = LinkState { funcs: first, imported: Seq::empty(), visiting: Seq::empty() };
    lemma_link_imports_depth(files, paths, 0, start, depth, files.len());
}

/// Linking leaves the files that are being loaded as they were.
pub proof fn lemma_link_file_visiting(files: Seq<SourceFileView>, path: Seq<char>, st: LinkState, depth: nat)
    ensures
        link_file(files, path, st, depth) matches Ok(after) ==> after.visiting == st.visiting,
    decreases depth, 0nat,
{
}

proof fn lemma_link_imports_visiting(
    files: Seq<SourceFileView>,
    paths: Seq<Seq<char>>,
    i: int,
    st: LinkState,
    depth: nat,
)
    ensures
        link_imports(files, paths, i, st, depth) matches Ok(after) ==> after.visiting == st.visiting,
    decreases depth, 1 + paths.len() - i,
{
    if 0 <= i < paths.len() {
        lemma_link_file_visiting(files, paths[i], st, depth);
        match link_file(files, paths[i], st, depth) {
            Err(e) => {},
            Ok(next) => {
                lemma_link_imports_visiting(files, paths, i + 1, next, depth);
            },
        }
    }
}

/// The arguments with their calls of `main` renamed.
fn sanitize_args(args: &Vec<Expression>, file_name: &str) -> (r: Vec<Expression>)
    ensures
        views(r@) == sanitize_exprs(views(args@), args@.len(), file_name@),
    decreases args, 1nat,
{
    let mut out: Vec<Expression> = Vec::new();
    let mut i: usize = 0;
    proof {
        lemma_views_empty::<Expression>();
    }
    while i < args.len()
        invariant
            i <= args@.len(),
            views(out@) == sanitize_exprs(views(args@), i as nat, file_name@),
        decreases args@.len() - i,
    {
        proof {
            vstd::std_specs::vec::axiom_vec_index_decreases(*args, i as int);
            assert(views(args@)[i as int] == args@[i as int]@);
        }
        let arg = sanitize_exp(&args[i], file_name);
        proof {
            lemma_views_push(out@, arg);
        }
        out.push(arg);
        i += 1;
    }
    out
}

/// The expression with every call of `main` renamed to `file_name`.
pub fn sanitize_exp(exp: &Expression, file_name: &str) -> (r: Expression)
    ensures
        r@ == sanitize_expr(exp@, file_name@),
    decreases exp, 0nat,
{
    proof {
        exp.lemma_view_params();
        reveal_strlit("main");
        assert("main"@ =~= main_name());
    }
    match &exp.params {
        Some(args) => {
            let ident = if str_eq(exp.ident.as_str(), "main") {
                file_name.to_owned()
            } else {
                exp.ident.clone()
            };
            let r = Expression { ident, sign: exp.sign, params: Some(sanitize_args(args, file_name)) };
            proof {
                r.lemma_view_params();
            }
            r
        },
        None => {
            let r = Expression { ident: exp.ident.clone(), sign: exp.sign, params: None };
            proof {
                r.lemma_view_params();
            }
            r
        },
    }
}

/// The functions of an imported file with `main` named by the file's stem,
/// in the functions' names and in every call.
pub fn sanitize_main(parsed_funcs: &Vec<Func>, file_name: &str) -> (r: Vec<Func>)
    ensures
        views(r@) == sanitize_funcs(views(parsed_funcs@), file_name@),
{
    let mut out: Vec<Func> = Vec::new();
    let mut i: usize = 0;
    proof {
        reveal_strlit("main");
        assert("main"@ =~= main_name());
    }
    while i < parsed_funcs.len()
        invariant
            i <= parsed_funcs@.len(),
            "main"@ == main_name(),
            out@.len() == i,
            forall|j: int| 0 <= j < i ==> out@[j]@ == sanitize_func(parsed_funcs@[j]@, file_name@),
        decreases parsed_funcs@.len() - i,
    {
        let func = &parsed_funcs[i];
        let mut statements: Vec<Statement> = Vec::new();
        let mut k: usize = 0;
        while k < func.statements.len()
            invariant
                k <= func.statements@.len(),
                statements@.len() == k,
                forall|m: int|
                    0 <= m < k ==> statements@[m]@ == (StatementView {
                        assignees: func.statements@[m]@.assignees,
                        expression: sanitize_expr(func.statements@[m]@.expression, file_name@),
                    }),
            decreases func.statements@.len() - k,
        {
            let statement = &func.statements[k];
            statements.push(
                Statement {
                    assignees: crate::syntax::clone_values(&statement.assignees),
                    expression: sanitize_exp(&statement.expression, file_name),
                },
            );
            k += 1;
        }
        let name = if str_eq(func.signature.name.as_str(), "main") {
            file_name.to_owned()
        } else {
            func.signature.name.clone()
        };
        let renamed = Func {
            signature: Signature {
                name,
                assignees: crate::syntax::clone_names(&func.signature.assignees),
                params: crate::syntax::clone_names(&func.signature.params),
            },
            statements,
        };
        proof {
            assert(renamed@.statements =~= sanitize_func(func@, file_name@).statements);
        }
        out.push(renamed);
        i += 1;
    }
    assert(views(out@) =~= sanitize_funcs(views(parsed_funcs@), file_name@));
    out
}

/// The state of the linking as the specification sees it.
pub open spec fn link_state(funcs: Seq<Func>, imported: Seq<String>, visiting: Seq<String>) -> LinkState {
    LinkState { funcs: views(funcs), imported: views(imported), visiting: views(visiting) }
}

fn find_source(files: &Vec<SourceFile>, path: &str) -> (r: Option<usize>)
    ensures
        match r {
            Some(k) => find_file(views(files@), path@, 0) == Some(k as int) && k < files@.len(),
            None => find_file(views(files@), path@, 0) is None,
        },
{
    let mut i: usize = 0;
    while i < files.len()
        invariant
            i <= files@.len(),
            find_file(views(files@), path@, 0) == find_file(views(files@), path@, i as int),
        decreases files@.len() - i,
    {
        assert(views(files@)[i as int] == files@[i as int]@);
        if str_eq(files[i].path.as_str(), path) {
            return Some(i);
        }
        i += 1;
    }
    None
}

/// Links the files at `paths`, one after the other.
fn import_funcs(
    files: &Vec<SourceFile>,
    paths: &Vec<String>,
    parsed_funcs: &mut Vec<Func>,
    imported: &mut Vec<String>,
    visiting: &mut Vec<String>,
    depth: usize,
) -> (r: Result<(), CompileError>)
    ensures
        match r {
            Ok(()) => link_imports(
                views(files@),
                views(paths@),
                0,
                link_state(old(parsed_funcs)@, old(imported)@, old(visiting)@),
                depth as nat,
            ) == Ok::<LinkState, ErrorView>(
                link_state(final(parsed_funcs)@, final(imported)@, final(visiting)@),
            ),
            Err(e) => link_imports(
                views(files@),
                views(paths@),
                0,
                link_state(old(parsed_funcs)@, old(imported)@, old(visiting)@),
                depth as nat,
            ) == Err::<LinkState, ErrorView>(e@),
        },
    decreases depth, 1nat,
{
    let ghost start = link_state(parsed_funcs@, imported@, visiting@);
    let mut i: usize = 0;
    while i < paths.len()
        invariant
            i <= paths@.len(),
            start == link_state(old(parsed_funcs)@, old(imported)@, old(visiting)@),
            link_imports(views(files@), views(paths@), 0, start, depth as nat) == link_imports(
                views(files@),
                views(paths@),
                i as int,
                link_state(parsed_funcs@, imported@, visiting@),
                depth as nat,
            ),
        decreases paths@.len() - i,
    {
        assert(views(paths@)[i as int] == paths@[i as int]@);
        match import_funcs_recursive(
            files,
            paths[i].as_str(),
            parsed_funcs,
            imported,
            visiting,
            depth,
        ) {
            Ok(()) => {},
            Err(e) => {
                return Err(e);
            },
        }
        i += 1;
    }
    Ok(())
}

/// Links the file at `path`: its imports first, then its own functions
/// with `main` renamed. A file that was loaded before adds nothing.
fn import_funcs_recursive(
    files: &Vec<SourceFile>,
    path: &str,
    parsed_funcs: &mut Vec<Func>,
    imported: &mut Vec<String>,
    visiting: &mut Vec<String>,
    depth: usize,
) -> (r: Result<(), CompileError>)
    ensures
        match r {
            Ok(()) => link_file(
                views(files@),
                path@,
                link_state(old(parsed_funcs)@, old(imported)@, old(visiting)@),
                depth as nat,
            ) == Ok::<LinkState, ErrorView>(
                link_state(final(parsed_funcs)@, final(imported)@, final(visiting)@),
            ),
            Err(e) => link_file(
                views(files@),
                path@,
                link_state(old(parsed_funcs)@, old(imported)@, old(visiting)@),
                depth as nat,
            ) == Err::<LinkState, ErrorView>(e@),
        },
    decreases depth, 0nat,
{
    let ghost start = link_state(parsed_funcs@, imported@, visiting@);
    if contains_name(visiting, path) {
        return Err(CompileError::about(ErrorKind::LinkCycle, path));
    }
    if contains_name(imported, path) {
        return Ok(());
    }
    let k = match find_source(files, path) {
        Some(k) => k,
        None => {
            return Err(CompileError::about(ErrorKind::LinkMissingFile, path));
        },
    };
    let file = &files[k];
    assert(views(files@)[k as int] == file@);
    if !str_eq(file.extension.as_str(), "ant") {
        return Err(CompileError::about(ErrorKind::LinkExtension, path));
    }
    if !validate_file_name(file.stem.as_str()) {
        return Err(CompileError::about(ErrorKind::LinkName, path));
    }
    let code = match &file.code {
        Some(code) => code,
        None => {
            return Err(CompileError::about(ErrorKind::LinkMissingFile, path));
        },
    };
    let world = match Parser::parse(code.as_str()) {
        Ok(world) => world,
        Err(e) => {
            return Err(e);
        },
    };
    if world.imports.len() != file.import_paths.len() {
        return Err(CompileError::about(ErrorKind::LinkMissingFile, path));
    }
    if depth == 0 {
        return Err(CompileError::about(ErrorKind::LinkCycle, path));
    }
    let loaded = path.to_owned();
    let entered = path.to_owned();
    proof {
        lemma_views_push(imported@, loaded);
        lemma_views_push(visiting@, entered);
    }
    imported.push(loaded);
    visiting.push(entered);
    let ghost nested = link_state(parsed_funcs@, imported@, visiting@);
    proof {
        lemma_link_imports_visiting(views(files@), file@.import_paths, 0, nested, (depth - 1) as nat);
    }
    match import_funcs(files, &file.import_paths, parsed_funcs, imported, visiting, depth - 1) {
        Ok(()) => {},
        Err(e) => {
            return Err(e);
        },
    }
    let mut renamed = sanitize_main(&world.funcs, file.stem.as_str());
    proof {
        lemma_views_add(parsed_funcs@, renamed@);
        assert(link_state(parsed_funcs@, imported@, visiting@).visiting == nested.visiting);
        assert(nested.visiting == start.visiting.push(path@));
        assert(views(visiting@).len() == visiting@.len());
        crate::views::lemma_views_drop_last(visiting@);
        assert(start.visiting.push(path@).drop_last() =~= start.visiting);
    }
    parsed_funcs.append(&mut renamed);
    visiting.pop();
    Ok(())
}

/// The functions that come before all others: those of the standard
/// library, or none where the program says `no_std;`.
pub open spec fn std_funcs(no_std: bool) -> Result<Seq<FuncView>, ErrorView> {
    if no_std {
        Ok(Seq::empty())
    } else {
        match parse_source(STDLIB@) {
            Ok(world) => Ok(world.funcs),
            Err(e) => Err(e),
        }
    }
}

/// The settings from `i` on applied in order.
pub open spec fn settings_from(settings: Seq<SettingView>, i: int, config: WorldConfigView) -> Result<
    WorldConfigView,
    ErrorView,
>
    decreases settings.len() - i,
{
    if i < 0 || i >= settings.len() {
        Ok(config)
    } else {
        match apply_setting(config, settings[i].key, settings[i].value) {
            Err(e) => Err(e),
            Ok(next) => settings_from(settings, i + 1, next),
        }
    }
}

/// The name and counts of the function that an ant is bound to: the ant's
/// name, no parameters, no assignees.
pub open spec fn ant_spec(name: Seq<char>) -> SignatureSpecView {
    SignatureSpecView { name, assignee_count: 0, param_count: 0 }
}

/// The ants from `i` on bound: each id gets the behavior that the ant's
/// function assembles to.
///
/// `WorldDupeId` where an id is bound twice; the error of the function
/// where it does not assemble.
pub open spec fn bind_from(
    ants: Seq<AntFuncView>,
    i: int,
    funcs: Seq<CompFuncView>,
    behaviors: Seq<Option<BehaviorView>>,
) -> Result<Seq<Option<BehaviorView>>, ErrorView>
    decreases ants.len() - i,
{
    if i < 0 || i >= ants.len() {
        Ok(behaviors)
    } else {
        let ant = ants[i];
        if ant.target_id >= behaviors.len() || behaviors[ant.target_id as int] is Some {
            Err(at(ErrorKind::WorldDupeId, ant.target_name))
        } else {
            match find_overload(funcs, ant_spec(ant.target_name)) {
                Err(e) => Err(e),
                Ok(k) => match assemble_spec(funcs[k]) {
                    Err(e) => Err(e),
                    Ok(b) => bind_from(ants, i + 1, funcs, behaviors.update(ant.target_id as int, Some(b))),
                },
            }
        }
    }
}

/// The functions of a parsed program with the standard library and the
/// imported files before them.
pub open spec fn linked_funcs(
    world: ParsedWorldView,
    import_paths: Seq<Seq<char>>,
    files: Seq<SourceFileView>,
) -> Result<Seq<FuncView>, ErrorView> {
    match std_funcs(world.no_std) {
        Err(e) => Err(e),
        Ok(first) => link_spec(first, world, import_paths, files),
    }
}

/// What a program compiles to: it is parsed, the standard library and the
/// imported files are linked before it, its settings are applied to the
/// default settings, the functions are compiled in order, and every ant's
/// function is assembled to the behavior of its id. The first step that
/// fails gives the error.
pub open spec fn compile_world_spec(
    code: Seq<char>,
    import_paths: Seq<Seq<char>>,
    files: Seq<SourceFileView>,
) -> Result<WorldPropertiesView, ErrorView> {
    match parse_source(code) {
        Err(e) => Err(e),
        Ok(world) => match linked_funcs(world, import_paths, files) {
            Err(e) => Err(e),
            Ok(funcs) => match settings_from(world.settings, 0, default_config()) {
                Err(e) => Err(e),
                Ok(config) => match compile_funcs_spec(funcs) {
                    Err(e) => Err(e),
                    Ok(compiled) => match bind_from(world.ants, 0, compiled, no_behaviors()) {
                        Err(e) => Err(e),
                        Ok(behaviors) => Ok(WorldPropertiesView { behaviors, config }),
                    },
                },
            },
        },
    }
}

/// The truth table of one function of a program that stands alone: the
/// program is parsed and compiled, and the function with the name and
/// counts is assembled.
pub open spec fn compile_func_spec(code: Seq<char>, wanted: SignatureSpecView) -> Result<
    TruthTableView,
    ErrorView,
> {
    match parse_source(code) {
        Err(e) => Err(e),
        Ok(world) => match compile_funcs_spec(world.funcs) {
            Err(e) => Err(e),
            Ok(compiled) => match find_overload(compiled, wanted) {
                Err(e) => Err(e),
                Ok(k) => match assemble_spec(compiled[k]) {
                    Err(e) => Err(e),
                    Ok(b) => Ok(b.logic),
                },
            },
        },
    }
}

/// A size that a `set` item leaves is between 1 and 256.
proof fn lemma_setting_keeps_size(config: WorldConfigView, key: Seq<char>, value: crate::token::TokenView)
    requires
        1 <= config.width <= 256,
        1 <= config.height <= 256,
    ensures
        apply_setting(config, key, value) matches Ok(next) ==> 1 <= next.width <= 256 && 1 <= next.height
            <= 256,
{
}

/// Applies the settings in order.
fn apply_settings(config: &mut WorldConfig, settings: &Vec<Setting>) -> (r: Result<(), CompileError>)
    requires
        1 <= old(config)@.width <= 256,
        1 <= old(config)@.height <= 256,
    ensures
        match r {
            Ok(()) => settings_from(views(settings@), 0, old(config)@) == Ok::<WorldConfigView, ErrorView>(
                final(config)@,
            ) && 1 <= final(config)@.width <= 256 && 1 <= final(config)@.height <= 256,
            Err(e) => settings_from(views(settings@), 0, old(config)@) == Err::<
                WorldConfigView,
                ErrorView,
            >(e@),
        },
{
    let mut i: usize = 0;
    while i < settings.len()
        invariant
            i <= settings@.len(),
            1 <= config@.width <= 256,
            1 <= config@.height <= 256,
            settings_from(views(settings@), 0, old(config)@) == settings_from(
                views(settings@),
                i as int,
                config@,
            ),
        decreases settings@.len() - i,
    {
        let setting = &settings[i];
        proof {
            assert(views(settings@)[i as int] == setting@);
            lemma_setting_keeps_size(config@, setting@.key, setting@.value);
        }
        match config.set_setting(setting.key.clone(), setting.value.clone()) {
            Ok(()) => {},
            Err(e) => {
                return Err(e);
            },
        }
        i += 1;
    }
    Ok(())
}

/// The function that a name and counts pick has that name and those counts.
pub proof fn lemma_overload_found(funcs: Seq<CompFuncView>, wanted: SignatureSpecView, i: int)
    requires
        0 <= i,
    ensures
        crate::compiler::overload_from(funcs, wanted, i) matches Some(k) ==> i <= k < funcs.len()
            && crate::syntax::spec_of(funcs[k].signature) == wanted,
    decreases funcs.len() - i,
{
    if i < funcs.len() && crate::syntax::spec_of(funcs[i].signature) != wanted {
        lemma_overload_found(funcs, wanted, i + 1);
    }
}

/// Binds the ants: each id gets the behavior that the ant's function
/// assembles to.
fn bind_ants(ants: &Vec<AntFunc>, comp_funcs: &Vec<CompFunc>, behaviors: &mut Vec<Option<Behavior>>) -> (r:
    Result<(), CompileError>)
    requires
        old(behaviors)@.len() == 256,
        forall|j: int| 0 <= j < 256 ==> old(behaviors)@[j] is None,
    ensures
        final(behaviors)@.len() == 256,
        match r {
            Ok(()) => bind_from(views(ants@), 0, views(comp_funcs@), no_behaviors()) == Ok::<
                Seq<Option<BehaviorView>>,
                ErrorView,
            >(final(behaviors)@.map_values(|slot: Option<Behavior>| slot_view(slot))) && forall|j: int|
                0 <= j < 256 ==> ((#[trigger] final(behaviors)@[j]) matches Some(b)
                    ==> crate::ant::behavior_wf(b@)),
            Err(e) => bind_from(views(ants@), 0, views(comp_funcs@), no_behaviors()) == Err::<
                Seq<Option<BehaviorView>>,
                ErrorView,
            >(e@),
        },
{
    let ghost funcs = views(comp_funcs@);
    let mut i: usize = 0;
    proof {
        assert(behaviors@.map_values(|slot: Option<Behavior>| slot_view(slot)) =~= no_behaviors());
    }
    while i < ants.len()
        invariant
            i <= ants@.len(),
            behaviors@.len() == 256,
            funcs == views(comp_funcs@),
            bind_from(views(ants@), 0, funcs, no_behaviors()) == bind_from(
                views(ants@),
                i as int,
                funcs,
                behaviors@.map_values(|slot: Option<Behavior>| slot_view(slot)),
            ),
            forall|j: int|
                0 <= j < 256 ==> ((#[trigger] behaviors@[j]) matches Some(b) ==> crate::ant::behavior_wf(
                    b@,
                )),
        decreases ants@.len() - i,
    {
        let ant = &ants[i];
        assert(views(ants@)[i as int] == ant@);
        let id = ant.target_id as usize;
        let ghost before = behaviors@;
        assert(before.map_values(|slot: Option<Behavior>| slot_view(slot))[id as int] == slot_view(
            before[id as int],
        ));
        if behaviors[id].is_some() {
            return Err(CompileError::about(ErrorKind::WorldDupeId, ant.target_name.as_str()));
        }
        let wanted = SignatureSpec::new(ant.target_name.as_str(), 0, 0);
        let func = match wanted.get_overload(comp_funcs) {
            Ok(func) => func,
            Err(e) => {
                return Err(e);
            },
        };
        proof {
            lemma_overload_found(funcs, wanted@, 0);
        }
        let behavior = match func.assemble() {
            Ok(behavior) => behavior,
            Err(e) => {
                return Err(e);
            },
        };
        behaviors[id] = Some(behavior);
        proof {
            assert(behaviors@.map_values(|slot: Option<Behavior>| slot_view(slot)) =~= before.map_values(
                |slot: Option<Behavior>| slot_view(slot),
            ).update(id as int, Some(behavior@)));
        }
        i += 1;
    }
    Ok(())
}

/// A program with its functions linked: the functions in the order in
/// which they are compiled, and the settings and ants of the program.
#[derive(Debug)]
pub struct LinkedWorld {
    pub funcs: Vec<Func>,
    pub settings: Vec<Setting>,
    pub ants: Vec<AntFunc>,
}

/// Links a parsed program: the functions of the standard library come
/// first (unless the program says `no_std;`), then those of the imported
/// files, depth first, each file once and with its `main` renamed to its
/// stem, then the program's own. `import_paths` holds, for each `use` item
/// of the program in order, the path of the file that it names; `files`
/// holds the files that can be imported.
///
/// Fails with `LinkCycle`, `LinkMissingFile`, `LinkExtension` or
/// `LinkName` at the first import that is wrong in that way, and with the
/// error of the first text that does not parse.
pub fn link_world(world: ParsedWorld, import_paths: &Vec<String>, files: &Vec<SourceFile>) -> (r: Result<
    LinkedWorld,
    CompileError,
>)
    ensures
        match r {
            Ok(linked) => linked_funcs(world@, views(import_paths@), views(files@)) == Ok::<
                Seq<FuncView>,
                ErrorView,
            >(views(linked.funcs@)) && views(linked.settings@) == world@.settings && views(linked.ants@)
                == world@.ants,
            Err(e) => linked_funcs(world@, views(import_paths@), views(files@)) == Err::<
                Seq<FuncView>,
                ErrorView,
            >(e@),
        },
{
    let ParsedWorld { settings, funcs, ants, imports, no_std } = world;
    let mut parsed_funcs: Vec<Func> = Vec::new();
    proof {
        lemma_views_empty::<Func>();
        lemma_views_empty::<String>();
    }
    if !no_std {
        let library = match Parser::parse(STDLIB) {
            Ok(library) => library,
            Err(e) => {
                return Err(e);
            },
        };
        parsed_funcs = library.funcs;
    }
    if imports.len() != import_paths.len() {
        return Err(CompileError::new(ErrorKind::LinkMissingFile));
    }
    let mut imported: Vec<String> = Vec::new();
    let mut visiting: Vec<String> = Vec::new();
    match import_funcs(files, import_paths, &mut parsed_funcs, &mut imported, &mut visiting, files.len()) {
        Ok(()) => {},
        Err(e) => {
            return Err(e);
        },
    }
    let mut own = funcs;
    proof {
        lemma_views_add(parsed_funcs@, own@);
    }
    parsed_funcs.append(&mut own);
    Ok(LinkedWorld { funcs: parsed_funcs, settings, ants })
}

/// Compiles a program. `import_paths` holds, for each `use` item of the
/// program in order, the path of the file that it names; `files` holds
/// the files that can be imported.
///
/// Fails with the error of the first step that fails: parsing, linking,
/// the settings, compiling, binding the ants. What comes out can be made
/// into a world.
pub fn compile_world(code: &str, import_paths: &Vec<String>, files: &Vec<SourceFile>) -> (r: Result<
    WorldProperties,
    CompileError,
>)
    ensures
        match r {
            Ok(properties) => compile_world_spec(code@, views(import_paths@), views(files@)) == Ok::<
                WorldPropertiesView,
                ErrorView,
            >(properties@) && crate::config::properties_wf(properties@),
            Err(e) => compile_world_spec(code@, views(import_paths@), views(files@)) == Err::<
                WorldPropertiesView,
                ErrorView,
            >(e@),
        },
{
    let world = match Parser::parse(code) {
        Ok(world) => world,
        Err(e) => {
            return Err(e);
        },
    };
    let linked = match link_world(world, import_paths, files) {
        Ok(linked) => linked,
        Err(e) => {
            return Err(e);
        },
    };
    let mut properties = WorldProperties::default();
    match apply_settings(&mut properties.config, &linked.settings) {
        Ok(()) => {},
        Err(e) => {
            return Err(e);
        },
    }
    let comp_funcs = match compile_funcs(&linked.funcs) {
        Ok(comp_funcs) => comp_funcs,
        Err(e) => {
            return Err(e);
        },
    };
    match bind_ants(&linked.ants, &comp_funcs, &mut properties.behaviors) {
        Ok(()) => {},
        Err(e) => {
            return Err(e);
        },
    }
    proof {
        let (w, h) = (properties@.config.width, properties@.config.height);
        assert(w * h <= 65536) by (nonlinear_arith)
            requires
                1 <= w <= 256,
                1 <= h <= 256,
        ;
        let bs = properties@.behaviors;
        assert forall|j: int| 0 <= j < 256 implies ((#[trigger] bs[j]) matches Some(b)
            ==> crate::ant::behavior_wf(b)) by {
            assert(bs[j] == slot_view(properties.behaviors@[j]));
        }
    }
    Ok(properties)
}

/// Compiles a program that stands alone: it can import nothing.
pub fn compile_world_simple(code: &str) -> (r: Result<WorldProperties, CompileError>)
    ensures
        match r {
            Ok(properties) => compile_world_spec(code@, Seq::empty(), Seq::empty()) == Ok::<
                WorldPropertiesView,
                ErrorView,
            >(properties@) && crate::config::properties_wf(properties@),
            Err(e) => compile_world_spec(code@, Seq::empty(), Seq::empty()) == Err::<
                WorldPropertiesView,
                ErrorView,
            >(e@),
        },
{
    let import_paths: Vec<String> = Vec::new();
    let files: Vec<SourceFile> = Vec::new();
    proof {
        lemma_views_empty::<String>();
        lemma_views_empty::<SourceFile>();
    }
    compile_world(code, &import_paths, &files)
}

/// What the program in a file compiles to: `LinkExtension` where the
/// file's extension is not `ant`, `LinkName` where its stem is no
/// lower-case identifier, `LinkMissingFile` where it has no text, else
/// what its text compiles to.
pub open spec fn compile_file_spec(file: SourceFileView, files: Seq<SourceFileView>) -> Result<
    WorldPropertiesView,
    ErrorView,
> {
    if file.extension != "ant"@ {
        Err(at(ErrorKind::LinkExtension, file.path))
    } else if !file_name_ok(file.stem) {
        Err(at(ErrorKind::LinkName, file.path))
    } else {
        match file.code {
            None => Err(at(ErrorKind::LinkMissingFile, file.path)),
            Some(code) => compile_world_spec(code, file.import_paths, files),
        }
    }
}

/// Compiles the program in `file`, which can import `files`.
///
/// Fails with `LinkExtension` where the file's extension is not `ant`,
/// with `LinkName` where its stem is no lower-case identifier, with
/// `LinkMissingFile` where it has no text, else as `compile_world` does.
pub fn compile_world_file(file: &SourceFile, files: &Vec<SourceFile>) -> (r: Result<
    WorldProperties,
    CompileError,
>)
    ensures
        match r {
            Ok(properties) => compile_file_spec(file@, views(files@)) == Ok::<
                WorldPropertiesView,
                ErrorView,
            >(properties@) && crate::config::properties_wf(properties@),
            Err(e) => compile_file_spec(file@, views(files@)) == Err::<WorldPropertiesView, ErrorView>(e@),
        },
{
    if !str_eq(file.extension.as_str(), "ant") {
        return Err(CompileError::about(ErrorKind::LinkExtension, file.path.as_str()));
    }
    if !validate_file_name(file.stem.as_str()) {
        return Err(CompileError::about(ErrorKind::LinkName, file.path.as_str()));
    }
    match &file.code {
        Some(code) => compile_world(code.as_str(), &file.import_paths, files),
        None => Err(CompileError::about(ErrorKind::LinkMissingFile, file.path.as_str())),
    }
}

/// The truth table of the function of `code` with the name and counts
/// of `signature`. The table has `2^inputs` entries, each below
/// `2^outputs`.
///
/// Fails where the program does not parse or compile, with
/// `CompUnknownFn` or `CompOverload` where it has no such function, and
/// where the function does not assemble.
pub fn compile_func(code: &str, signature: SignatureSpec) -> (r: Result<TruthTable, CompileError>)
    ensures
        match r {
            Ok(table) => compile_func_spec(code@, signature@) == Ok::<TruthTableView, ErrorView>(
                table@,
            ) && crate::truth_table::table_shape(
                table@.input_count,
                table@.output_count,
                table@.entries,
            ),
            Err(e) => compile_func_spec(code@, signature@) == Err::<TruthTableView, ErrorView>(e@),
        },
{
    let world = match Parser::parse(code) {
        Ok(world) => world,
        Err(e) => {
            return Err(e);
        },
    };
    let comp_funcs = match compile_funcs(&world.funcs) {
        Ok(comp_funcs) => comp_funcs,
        Err(e) => {
            return Err(e);
        },
    };
    let func = match signature.get_overload(&comp_funcs) {
        Ok(func) => func,
        Err(e) => {
            return Err(e);
        },
    };
    match func.assemble() {
        Ok(behavior) => Ok(behavior.logic),
        Err(e) => Err(e),
    }
}

} // verus!
