use vstd::prelude::*;
use vstd::string::StrSliceExecFns;
use vstd::string::StringExecFns;
use crate::importer::Importer;
use crate::importer::ImporterModel;
use crate::importer::scope_after_imports;
use crate::loop_iterator::LoopIterator;
use crate::loop_iterator::LoopIteratorModel;
use crate::loop_iterator::element_at;
use crate::loop_iterator::loop_step_scope;
use crate::loop_iterator::stepped;
use crate::parser::ParseError;
use crate::parser::ParseErrorModel;
use crate::parser::Parser;
use crate::parser::PRes;
use crate::parser::error_display;
use crate::parser::line_of;
use crate::parser::newline_count;
use crate::parser::spec_parse;
use crate::scope::Scope;
use crate::scope::ScopeModel;
use crate::scope::undeclared_variable_message;
use crate::tokenizer::InfoToken;
use crate::tokenizer::Token;
use crate::tokenizer::TokenModel;
use crate::tokenizer::is_digit_char;
use crate::tree_nodes::AccessorExpr;
use crate::tree_nodes::AccessorModel;
use crate::tree_nodes::AnythingExpr;
use crate::tree_nodes::ArrayAccessorExpr;
use crate::tree_nodes::ArrayAccessorModel;
use crate::tree_nodes::ArrayBracketExpr;
use crate::tree_nodes::ArraySliceExpr;
use crate::tree_nodes::BlockExpr;
use crate::tree_nodes::Expr;
use crate::tree_nodes::ExprModel;
use crate::tree_nodes::LoopExpr;
use crate::tree_nodes::LoopStartExpr;
use crate::tree_nodes::LoopStartModel;
use crate::tree_nodes::SliceModel;
use crate::tree_nodes::StartExpr;
use crate::tree_nodes::expr_model;
use crate::tree_nodes::exprs_model;
use crate::tree_nodes::lemma_exprs_model_index;
use crate::tree_nodes::lemma_exprs_model_len;
use crate::var_type::ValModel;
use crate::var_type::Var;
use crate::var_type::VarType;
use crate::var_type::clone_string_vec;
use crate::var_type::dec_str;
use crate::var_type::digit_value;
use crate::var_type::digits_val;
use crate::var_type::is_digits;
use crate::var_type::usize_to_string;

verus! {

// ---------------------------------------------------------------------------
// The evaluation rules, as mathematics.
// ---------------------------------------------------------------------------

/// The mathematical content of a runtime error: message and 1-based line.
pub struct RunErrModel {
    pub msg: Seq<char>,
    pub line: int,
}

pub open spec fn msg_cannot_convert(s: Seq<char>) -> Seq<char> {
    "Cannot convert "@ + s + " to String"@
}

pub open spec fn msg_cannot_index(s: Seq<char>) -> Seq<char> {
    "Cannot index using "@ + s
}

pub open spec fn msg_cannot_index_var(s: Seq<char>) -> Seq<char> {
    "Cannot index using the variable "@ + s
}

pub open spec fn msg_cannot_index_arrays(s: Seq<char>) -> Seq<char> {
    "Cannot index arrays using "@ + s
}

/// How many entries a collection offers to indexing and iteration.
pub open spec fn iter_len(v: ValModel) -> int {
    match v {
        ValModel::TableVal { rows } => rows.len() as int,
        ValModel::RowVal { cells } => cells.len() as int,
        _ => 0,
    }
}

/// Resolve an index token to an unsigned number: a number token is read as
/// decimal (failing only when it does not fit the machine), a variable
/// token must resolve to a bound `Number`, and nothing else can index.
pub open spec fn ev_number_from_token(
    text: Seq<char>,
    scope: ScopeModel,
    tok: TokenModel,
) -> Result<int, RunErrModel> {
    if tok.token == Token::Number {
        if is_digits(tok.slice) && digits_val(tok.slice) <= usize::MAX as nat {
            Ok(digits_val(tok.slice) as int)
        } else {
            Err(
                RunErrModel {
                    msg: msg_cannot_index(tok.slice),
                    line: line_of(text, tok.start),
                },
            )
        }
    } else if tok.token == Token::Variable {
        match scope.resolve(tok.slice) {
            Some(v) => match v {
                ValModel::Num { n } => Ok(n as int),
                _ => Err(
                    RunErrModel {
                        msg: msg_cannot_index_var(tok.slice),
                        line: line_of(text, tok.start),
                    },
                ),
            },
            None => Err(
                RunErrModel {
                    msg: undeclared_variable_message(tok.slice),
                    line: line_of(text, tok.start),
                },
            ),
        }
    } else {
        Err(
            RunErrModel {
                msg: msg_cannot_index_arrays(tok.slice),
                line: line_of(text, tok.start),
            },
        )
    }
}

/// Apply one bracket index: out-of-range indexing degrades to an empty row
/// or empty string, and indexing a scalar is an error.
pub open spec fn ev_bracket(
    text: Seq<char>,
    scope: ScopeModel,
    tok: TokenModel,
    value: ValModel,
) -> Result<ValModel, RunErrModel> {
    match ev_number_from_token(text, scope, tok) {
        Err(e) => Err(e),
        Ok(idx) => match value {
            ValModel::TableVal { rows } => Ok(element_at(value, idx)),
            ValModel::RowVal { cells } => Ok(element_at(value, idx)),
            _ => Err(
                RunErrModel {
                    msg: "Attempt to index a non-iterable"@,
                    line: line_of(text, tok.start),
                },
            ),
        },
    }
}

/// Apply a run of bracket indexes in order.
pub open spec fn ev_brackets(
    text: Seq<char>,
    scope: ScopeModel,
    toks: Seq<TokenModel>,
    value: ValModel,
) -> Result<ValModel, RunErrModel>
    decreases toks.len(),
{
    if toks.len() == 0 {
        Ok(value)
    } else {
        match ev_bracket(text, scope, toks[0], value) {
            Err(e) => Err(e),
            Ok(v) => ev_brackets(text, scope, toks.drop_first(), v),
        }
    }
}

/// Resolve a substitution accessor to its text: look the base up, apply
/// the indexes, and render the resulting scalar; a table or row cannot be
/// converted to text.
pub open spec fn ev_accessor(text: Seq<char>, scope: ScopeModel, acc: AccessorModel) -> Result<
    Seq<char>,
    RunErrModel,
> {
    match scope.resolve(acc.variable.slice) {
        None => Err(
            RunErrModel {
                msg: undeclared_variable_message(acc.variable.slice),
                line: line_of(text, acc.variable.start),
            },
        ),
        Some(v0) => match ev_brackets(text, scope, acc.indexes, v0) {
            Err(e) => Err(e),
            Ok(v) => match v {
                ValModel::Str { s } => Ok(s),
                ValModel::Num { n } => Ok(dec_str(n)),
                _ => Err(
                    RunErrModel {
                        msg: msg_cannot_convert(acc.variable.slice),
                        line: line_of(text, acc.variable.start),
                    },
                ),
            },
        },
    }
}

/// Resolve one slice bound: `..` is the given open value, anything else
/// resolves like a bracket index.
pub open spec fn ev_slice_bound(
    text: Seq<char>,
    scope: ScopeModel,
    tok: TokenModel,
    open_value: int,
) -> Result<int, RunErrModel> {
    if tok.token == Token::DoubleDot {
        Ok(open_value)
    } else {
        ev_number_from_token(text, scope, tok)
    }
}

/// Resolve a slice clause over a collection into a half-open raw index
/// range; without a clause the range covers the whole collection.
pub open spec fn ev_array_slice(
    text: Seq<char>,
    scope: ScopeModel,
    var_tok: TokenModel,
    sl: Option<SliceModel>,
    collection: ValModel,
) -> Result<(int, int), RunErrModel> {
    match sl {
        Some(sl) => {
            if collection is TableVal || collection is RowVal {
                match ev_slice_bound(text, scope, sl.start_index, 0) {
                    Err(e) => Err(e),
                    Ok(mn) => match ev_slice_bound(
                        text,
                        scope,
                        sl.end_index,
                        iter_len(collection),
                    ) {
                        Err(e) => Err(e),
                        Ok(mx) => Ok((mn, mx)),
                    },
                }
            } else {
                Err(
                    RunErrModel {
                        msg: "Attempt to slice a non-iterable"@,
                        line: line_of(text, var_tok.start),
                    },
                )
            }
        },
        None => {
            if collection is TableVal || collection is RowVal {
                Ok((0, iter_len(collection)))
            } else {
                Err(
                    RunErrModel {
                        msg: "Attempt to loop on a non-iterable"@,
                        line: line_of(text, var_tok.start),
                    },
                )
            }
        },
    }
}

/// Resolve a loop-header accessor to its collection and raw index range.
pub open spec fn ev_array_accessor(
    text: Seq<char>,
    scope: ScopeModel,
    aa: ArrayAccessorModel,
) -> Result<(ValModel, int, int), RunErrModel> {
    match scope.resolve(aa.variable.slice) {
        None => Err(
            RunErrModel {
                msg: undeclared_variable_message(aa.variable.slice),
                line: line_of(text, aa.variable.start),
            },
        ),
        Some(v0) => match ev_brackets(text, scope, aa.indexes, v0) {
            Err(e) => Err(e),
            Ok(v) => match ev_array_slice(text, scope, aa.variable, aa.array_slice, v) {
                Err(e) => Err(e),
                Ok((mn, mx)) => Ok((v, mn, mx)),
            },
        },
    }
}

/// Resolve a loop header: its collection must be a table or a row.
pub open spec fn ev_loop_header(text: Seq<char>, scope: ScopeModel, ls: LoopStartModel) -> Result<
    (ValModel, int, int),
    RunErrModel,
> {
    match ev_array_accessor(text, scope, ls.array_accessor) {
        Err(e) => Err(e),
        Ok((v, mn, mx)) => {
            if v is TableVal || v is RowVal {
                Ok((v, mn, mx))
            } else {
                Err(
                    RunErrModel {
                        msg: "Attempt to loop on a non-iterable"@,
                        line: line_of(text, ls.array_accessor.variable.start),
                    },
                )
            }
        },
    }
}

/// The loop counter name a header binds, if any.
pub open spec fn counter_name(ls: LoopStartModel) -> Option<Seq<char>> {
    match ls.loop_variable {
        Some(lv) => Some(lv.variable.slice),
        None => None,
    }
}

/// The raw-collection-index name a header binds, if any.
pub open spec fn raw_index_name(ls: LoopStartModel) -> Option<Seq<char>> {
    match ls.loop_variable {
        Some(lv) => match lv.second_variable {
            Some(sv) => Some(sv.slice),
            None => None,
        },
        None => None,
    }
}

/// The element name an `as` clause binds, if any.
pub open spec fn as_name(ls: LoopStartModel) -> Option<Seq<char>> {
    match ls.as_variable {
        Some(v) => Some(v.slice),
        None => None,
    }
}

/// The verbatim text a literal run contributes: the source from the first
/// extended span's start to the last extended span's end.
pub open spec fn anything_text(text: Seq<char>, tokens: Seq<TokenModel>) -> Seq<char> {
    if tokens.len() > 0 {
        let a = clip_offset(tokens[0].start, text.len() as int);
        let b = clip_offset(tokens[tokens.len() - 1].end, text.len() as int);
        if a <= b {
            text.subrange(a, b)
        } else {
            Seq::empty()
        }
    } else {
        Seq::empty()
    }
}

/// An offset clamped into `[0, n]`.
pub open spec fn clip_offset(i: int, n: int) -> int {
    if i < 0 {
        0
    } else if i > n {
        n
    } else {
        i
    }
}

/// Iteration outputs joined with a single space.
pub open spec fn join_space(outs: Seq<Seq<char>>) -> Seq<char>
    decreases outs.len(),
{
    if outs.len() == 0 {
        Seq::empty()
    } else if outs.len() == 1 {
        outs[0]
    } else {
        outs[0] + " "@ + join_space(outs.drop_first())
    }
}

/// The bindings of a scope frame after evaluating a node against it: only
/// a block (or the root wrapping one) folds its imports into the frame.
pub open spec fn vars_after(
    im: ImporterModel,
    vars: Map<Seq<char>, ValModel>,
    e: ExprModel,
) -> Map<Seq<char>, ValModel>
    decreases e,
{
    match e {
        ExprModel::Start { output, expr } => vars_after(im, vars, *expr),
        ExprModel::Block { imports, blocks } => scope_after_imports(im, vars, imports),
        _ => vars,
    }
}

/// Evaluate a node to the text it produces, or the first runtime error.
pub open spec fn ev_expr(
    text: Seq<char>,
    im: ImporterModel,
    scope: ScopeModel,
    e: ExprModel,
) -> Result<Seq<char>, RunErrModel>
    decreases e, 0int, 0int,
{
    match e {
        ExprModel::Start { output, expr } => ev_expr(text, im, scope, *expr),
        ExprModel::Anything { tokens } => Ok(anything_text(text, tokens)),
        ExprModel::MustacheAccessor { accessor } => ev_accessor(text, scope, accessor),
        ExprModel::Block { imports, blocks } => {
            let scope2 = ScopeModel {
                vars: scope_after_imports(im, scope.vars, imports),
                parent: scope.parent,
            };
            ev_block_items(text, im, scope2, blocks, 0)
        },
        ExprModel::Loop { loop_start, block } => match ev_loop_header(text, scope, loop_start) {
            Err(e) => Err(e),
            Ok((collection, mn, mx)) => {
                let it = LoopIteratorModel {
                    start: mn,
                    end: mx,
                    scope,
                    loop_index: 0,
                    collection_index: mn,
                    collection,
                    loop_variable_name: counter_name(loop_start),
                    collection_variable_name: raw_index_name(loop_start),
                    as_variable_name: as_name(loop_start),
                };
                match ev_loop_iters(text, im, *block, it) {
                    Err(e) => Err(e),
                    Ok(outs) => Ok(join_space(outs)),
                }
            },
        },
    }
}

/// Evaluate the children of a block from position `k` on, each under a
/// fresh child frame of the block's scope, concatenating their text with
/// no separator.
pub open spec fn ev_block_items(
    text: Seq<char>,
    im: ImporterModel,
    scope2: ScopeModel,
    items: Seq<ExprModel>,
    k: int,
) -> Result<Seq<char>, RunErrModel>
    decreases items, items.len() - k, 0int,
{
    if 0 <= k < items.len() {
        match ev_expr(text, im, ScopeModel::child_of(scope2), items[k]) {
            Err(e) => Err(e),
            Ok(s) => match ev_block_items(text, im, scope2, items, k + 1) {
                Err(e) => Err(e),
                Ok(rest) => Ok(s + rest),
            },
        }
    } else {
        Ok(Seq::empty())
    }
}

/// The outputs of the remaining loop iterations, one per raw index until
/// the end bound, each evaluated under the iteration's child scope.
pub open spec fn ev_loop_iters(
    text: Seq<char>,
    im: ImporterModel,
    body: ExprModel,
    it: LoopIteratorModel,
) -> Result<Seq<Seq<char>>, RunErrModel>
    decreases body, it.end - it.collection_index, 1int,
{
    if it.collection_index < it.end {
        match ev_expr(text, im, loop_step_scope(it), body) {
            Err(e) => Err(e),
            Ok(s) => match ev_loop_iters(text, im, body, stepped(it)) {
                Err(e) => Err(e),
                Ok(rest) => Ok(seq![s] + rest),
            },
        }
    } else {
        Ok(Seq::empty())
    }
}


// ---------------------------------------------------------------------------
// Errors and results.
// ---------------------------------------------------------------------------

/// A runtime error: a human-readable message and the 1-based source line of
/// the offending construct.
pub struct InterpreterError {
    pub msg: String,
    line_number: usize,
}

impl View for InterpreterError {
    type V = RunErrModel;

    closed spec fn view(&self) -> RunErrModel {
        RunErrModel { msg: self.msg@, line: self.line_number as int }
    }
}

impl InterpreterError {
    /// Render this error as its full report.
    pub fn display_string(&self) -> (r: String)
        ensures
            r@ == error_display(ParseErrorModel { line: self@.line, msg: self@.msg }),
    {
        let mut m = String::from_str("Error at line number ");
        let n = usize_to_string(self.line_number);
        m.append(n.as_str());
        m.append("\n");
        m.append(self.msg.as_str());
        proof {
            assert(m@ =~= error_display(ParseErrorModel { line: self@.line, msg: self@.msg }));
        }
        m
    }
}

/// A failure of a whole generation run, already rendered for an operator.
pub struct GeneralError {
    pub msg: String,
}

impl View for GeneralError {
    type V = Seq<char>;

    open spec fn view(&self) -> Seq<char> {
        self.msg@
    }
}

impl GeneralError {
    /// Wrap a parse error into a run failure.
    pub fn from_parse(error: &ParseError) -> (g: GeneralError)
        ensures
            g@ == error_display(error@),
    {
        GeneralError { msg: error.display_string() }
    }

    /// Wrap a runtime error into a run failure.
    pub fn from_interpreter(error: &InterpreterError) -> (g: GeneralError)
        ensures
            g@ == error_display(ParseErrorModel { line: error@.line, msg: error@.msg }),
    {
        GeneralError { msg: error.display_string() }
    }
}

/// What a successful interpretation yields: the generated text and the
/// declared output path.
pub struct InterpreterResult {
    pub text: String,
    pub output_file: String,
}

// ---------------------------------------------------------------------------
// Number parsing and message building.
// ---------------------------------------------------------------------------

proof fn lemma_digits_val_prefix(s: Seq<char>, j: int)
    requires
        0 <= j <= s.len(),
    ensures
        digits_val(s.take(j)) <= digits_val(s),
    decreases s.len() - j,
{
    if j < s.len() {
        assert(s.take(j + 1).drop_last() =~= s.take(j));
        assert(s.take(j + 1).last() == s[j]);
        assert(digits_val(s.take(j + 1)) == digits_val(s.take(j)) * 10 + digit_value(s[j]));
        assert(digits_val(s.take(j)) * 10 >= digits_val(s.take(j))) by (nonlinear_arith);
        lemma_digits_val_prefix(s, j + 1);
    } else {
        assert(s.take(j) =~= s);
    }
}

/// Read a decimal digit run as an unsigned number; `None` when the text is
/// not a digit run or its value does not fit the machine.
fn parse_usize(s: &String) -> (r: Option<usize>)
    ensures
        match r {
            Some(v) => is_digits(s@) && digits_val(s@) == v as nat,
            None => !(is_digits(s@) && digits_val(s@) <= usize::MAX as nat),
        },
{
    let st = s.as_str();
    let n = st.unicode_len();
    if n == 0 {
        return None;
    }
    let mut acc: usize = 0;
    let mut i: usize = 0;
    while i < n
        invariant
            st@ == s@,
            n == s@.len(),
            0 < n,
            i <= n,
            forall|k: int| 0 <= k < i ==> is_digit_char(#[trigger] s@[k]),
            acc as nat == digits_val(s@.take(i as int)),
        decreases n - i,
    {
        let c = st.get_char(i);
        let u = c as u32;
        if !('0' as u32 <= u && u <= '9' as u32) {
            proof {
                assert(!is_digit_char(s@[i as int]));
            }
            return None;
        }
        let d = (u - 48) as usize;
        proof {
            assert(s@.take(i + 1).drop_last() =~= s@.take(i as int));
            assert(s@.take(i + 1).last() == s@[i as int]);
            assert(digit_value(s@[i as int]) == d as nat);
            assert(digits_val(s@.take(i + 1)) == (acc as nat) * 10 + d as nat);
        }
        if acc > usize::MAX / 10 || (acc == usize::MAX / 10 && d > usize::MAX % 10) {
            proof {
                assert((acc as nat) * 10 + d as nat > usize::MAX as nat);
                lemma_digits_val_prefix(s@, i + 1);
                assert(s@.take(s@.len() as int) =~= s@);
            }
            return None;
        }
        acc = acc * 10 + d;
        i = i + 1;
    }
    proof {
        assert(s@.take(n as int) =~= s@);
    }
    Some(acc)
}

fn build_msg_cannot_convert(s: &String) -> (m: String)
    ensures
        m@ == msg_cannot_convert(s@),
{
    let mut m = String::from_str("Cannot convert ");
    m.append(s.as_str());
    m.append(" to String");
    proof {
        assert(m@ =~= msg_cannot_convert(s@));
    }
    m
}

fn build_msg_cannot_index(s: &String) -> (m: String)
    ensures
        m@ == msg_cannot_index(s@),
{
    let mut m = String::from_str("Cannot index using ");
    m.append(s.as_str());
    proof {
        assert(m@ =~= msg_cannot_index(s@));
    }
    m
}

fn build_msg_cannot_index_var(s: &String) -> (m: String)
    ensures
        m@ == msg_cannot_index_var(s@),
{
    let mut m = String::from_str("Cannot index using the variable ");
    m.append(s.as_str());
    proof {
        assert(m@ =~= msg_cannot_index_var(s@));
    }
    m
}

fn build_msg_cannot_index_arrays(s: &String) -> (m: String)
    ensures
        m@ == msg_cannot_index_arrays(s@),
{
    let mut m = String::from_str("Cannot index arrays using ");
    m.append(s.as_str());
    proof {
        assert(m@ =~= msg_cannot_index_arrays(s@));
    }
    m
}

proof fn lemma_newline_count_clip(text: Seq<char>, i: int)
    requires
        i >= text.len(),
    ensures
        newline_count(text, i) == newline_count(text, text.len() as int),
    decreases i,
{
    if i > text.len() {
        lemma_newline_count_clip(text, i - 1);
    }
}

proof fn lemma_join_space_push(outs: Seq<Seq<char>>, s: Seq<char>)
    ensures
        join_space(outs.push(s)) == if outs.len() == 0 {
            s
        } else {
            join_space(outs) + " "@ + s
        },
    decreases outs.len(),
{
    if outs.len() == 0 {
        assert(outs.push(s) =~= seq![s]);
        assert(join_space(seq![s]) == s);
    } else if outs.len() == 1 {
        assert(outs.push(s).drop_first() =~= seq![s]);
        assert(outs.push(s)[0] == outs[0]);
        assert(join_space(outs.push(s)) == outs[0] + " "@ + join_space(seq![s]));
        assert(join_space(outs) == outs[0]);
    } else {
        assert(outs.push(s).drop_first() =~= outs.drop_first().push(s));
        assert(outs.push(s)[0] == outs[0]);
        lemma_join_space_push(outs.drop_first(), s);
        assert(outs[0] + " "@ + (join_space(outs.drop_first()) + " "@ + s) =~= (outs[0] + " "@
            + join_space(outs.drop_first())) + " "@ + s);
    }
}

// ---------------------------------------------------------------------------
// The tree-walking evaluator.
// ---------------------------------------------------------------------------

/// The model of a block node.
pub open spec fn block_expr_model(b: BlockExpr) -> ExprModel {
    ExprModel::Block { imports: b.imports.deep_view(), blocks: exprs_model(b.blocks@) }
}

/// The model of a loop node.
pub open spec fn loop_expr_model(l: LoopExpr) -> ExprModel {
    ExprModel::Loop { loop_start: l.loop_start@, block: Box::new(expr_model(*l.block)) }
}

/// Walks a parsed template against a base scope, resolving substitutions
/// and driving loops, and accumulates the produced text together with the
/// declared output path.
pub struct Interpreter {
    pub text: String,
    parser: Parser,
    output_file: String,
    importer: Importer,
}

impl Interpreter {
    /// The tables this interpreter resolves imports against.
    pub closed spec fn importer_model(self) -> ImporterModel {
        self.importer@
    }

    /// The source text this interpreter walks.
    pub closed spec fn source(self) -> Seq<char> {
        self.text@
    }

    spec fn vwf(self) -> bool {
        &&& self.parser.text@ == self.text@
        &&& self.importer.wf()
    }

    pub closed spec fn wf(self) -> bool {
        &&& self.vwf()
        &&& self.parser.wf()
        &&& self.parser.at() == 0
        &&& self.parser.lexer.peek_offset() == 1
    }

    /// Construct an `Interpreter` over a source text, resolving imports
    /// against the tables `importer` has loaded.
    pub fn new(text: &str, importer: &Importer) -> (it: Interpreter)
        requires
            importer.wf(),
        ensures
            it.wf(),
            it.source() == text@,
            it.importer_model() == importer@,
    {
        Interpreter {
            text: String::from_str(text),
            parser: Parser::new(text),
            output_file: String::new(),
            importer: crate::importer::clone_importer(importer),
        }
    }

    /// The 1-based line of a token's start offset.
    fn get_line_number_for_token(&self, info: &InfoToken) -> (r: usize)
        requires
            self.vwf(),
        ensures
            r as int == line_of(self.text@, info.start as int),
    {
        let n = self.parser.text.unicode_len();
        let idx = if info.start < n {
            info.start
        } else {
            n
        };
        proof {
            if info.start as int >= self.text@.len() {
                lemma_newline_count_clip(self.text@, info.start as int);
            }
        }
        self.parser.get_line_count_at_index(idx)
    }

    /// Look a token's name up in the scope chain.
    fn lookup<'b>(&self, scope: &'b Scope, info: &InfoToken) -> (r: Result<
        &'b VarType,
        InterpreterError,
    >)
        requires
            self.vwf(),
            scope.wf(),
        ensures
            match r {
                Ok(v) => scope@.resolve(info@.slice) == Some(v@),
                Err(e) => scope@.resolve(info@.slice) is None && e@ == (RunErrModel {
                    msg: undeclared_variable_message(info@.slice),
                    line: line_of(self.text@, info.start as int),
                }),
            },
    {
        let line = self.get_line_number_for_token(info);
        match scope.lookup(&info.slice) {
            Ok(v) => Ok(v),
            Err(se) => Err(InterpreterError { msg: se.message().clone(), line_number: line }),
        }
    }

    /// Resolve an index token to an unsigned number.
    fn get_number_from_token(&self, scope: &Scope, info: &InfoToken) -> (r: Result<
        usize,
        InterpreterError,
    >)
        requires
            self.vwf(),
            scope.wf(),
        ensures
            match r {
                Ok(v) => ev_number_from_token(self.text@, scope@, info@) == Ok::<int, RunErrModel>(
                    v as int,
                ),
                Err(e) => ev_number_from_token(self.text@, scope@, info@) == Err::<
                    int,
                    RunErrModel,
                >(e@),
            },
    {
        let line = self.get_line_number_for_token(info);
        if info.token == Token::Number {
            match parse_usize(&info.slice) {
                Some(v) => Ok(v),
                None => Err(
                    InterpreterError {
                        msg: build_msg_cannot_index(&info.slice),
                        line_number: line,
                    },
                ),
            }
        } else if info.token == Token::Variable {
            match self.lookup(scope, info) {
                Err(e) => Err(e),
                Ok(v) => match v {
                    VarType::Number(x) => Ok(x.data),
                    _ => Err(
                        InterpreterError {
                            msg: build_msg_cannot_index_var(&info.slice),
                            line_number: line,
                        },
                    ),
                },
            }
        } else {
            Err(
                InterpreterError {
                    msg: build_msg_cannot_index_arrays(&info.slice),
                    line_number: line,
                },
            )
        }
    }

    /// Apply one bracket index to a collection.
    fn visit_array_bracket(&self, scope: &Scope, ab: &ArrayBracketExpr, collection: VarType) -> (r:
        Result<VarType, InterpreterError>)
        requires
            self.vwf(),
            scope.wf(),
        ensures
            match r {
                Ok(v) => ev_bracket(self.text@, scope@, ab@, collection@) == Ok::<
                    ValModel,
                    RunErrModel,
                >(v@),
                Err(e) => ev_bracket(self.text@, scope@, ab@, collection@) == Err::<
                    ValModel,
                    RunErrModel,
                >(e@),
            },
    {
        let index = match self.get_number_from_token(scope, &ab.variable.token) {
            Ok(i) => i,
            Err(e) => {
                return Err(e);
            },
        };
        match collection {
            VarType::Table(var) => {
                let row: Vec<String> = if index < var.data.len() {
                    clone_string_vec(&var.data[index])
                } else {
                    Vec::new()
                };
                proof {
                    assert(row.deep_view() =~= (match element_at(
                        ValModel::TableVal { rows: var.data.deep_view() },
                        index as int,
                    ) {
                        ValModel::RowVal { cells } => cells,
                        _ => Seq::empty(),
                    }));
                }
                Ok(VarType::Row(Var::new(row)))
            },
            VarType::Row(var) => {
                let cell: String = if index < var.data.len() {
                    var.data[index].clone()
                } else {
                    String::new()
                };
                proof {
                    assert(cell@ =~= (match element_at(
                        ValModel::RowVal { cells: var.data.deep_view() },
                        index as int,
                    ) {
                        ValModel::Str { s } => s,
                        _ => Seq::empty(),
                    }));
                }
                Ok(VarType::Value(Var::new(cell)))
            },
            _ => {
                let line = self.get_line_number_for_token(&ab.variable.token);
                Err(
                    InterpreterError {
                        msg: String::from_str("Attempt to index a non-iterable"),
                        line_number: line,
                    },
                )
            },
        }
    }

    /// Resolve a substitution accessor to its text.
    fn visit_accessor(&self, scope: &Scope, acc: &AccessorExpr) -> (r: Result<
        String,
        InterpreterError,
    >)
        requires
            self.vwf(),
            scope.wf(),
        ensures
            match r {
                Ok(s) => ev_accessor(self.text@, scope@, acc@) == Ok::<Seq<char>, RunErrModel>(s@),
                Err(e) => ev_accessor(self.text@, scope@, acc@) == Err::<Seq<char>, RunErrModel>(
                    e@,
                ),
            },
    {
        let base = match self.lookup(scope, &acc.variable) {
            Ok(v) => v.duplicate(),
            Err(e) => {
                return Err(e);
            },
        };
        let mut variable = base;
        let n = acc.indexes.len();
        let mut k: usize = 0;
        proof {
            assert(acc@.indexes.skip(0) =~= acc@.indexes);
        }
        while k < n
            invariant
                self.vwf(),
                scope.wf(),
                n == acc.indexes@.len(),
                k <= n,
                ({
                    let full = ev_brackets(
                        self.text@,
                        scope@,
                        acc@.indexes,
                        (match scope@.resolve(acc@.variable.slice) {
                            Some(v) => v,
                            None => variable@,
                        }),
                    );
                    let rm = ev_brackets(
                        self.text@,
                        scope@,
                        acc@.indexes.skip(k as int),
                        variable@,
                    );
                    scope@.resolve(acc@.variable.slice) is Some && (match rm {
                        Ok(v) => full == Ok::<ValModel, RunErrModel>(v),
                        Err(e) => full == Err::<ValModel, RunErrModel>(e),
                    })
                }),
            decreases n - k,
        {
            proof {
                assert(acc@.indexes.skip(k as int)[0] == acc.indexes@[k as int]@);
                assert(acc@.indexes.skip(k as int).drop_first() =~= acc@.indexes.skip(k + 1));
            }
            let next = match self.visit_array_bracket(scope, &acc.indexes[k], variable) {
                Ok(v) => v,
                Err(e) => {
                    return Err(e);
                },
            };
            variable = next;
            k = k + 1;
        }
        proof {
            assert(acc@.indexes.skip(n as int).len() == 0);
        }
        match &variable {
            VarType::Value(v) => Ok(v.data.clone()),
            VarType::Number(v) => Ok(usize_to_string(v.data)),
            _ => {
                let line = self.get_line_number_for_token(&acc.variable);
                Err(
                    InterpreterError {
                        msg: build_msg_cannot_convert(&acc.variable.slice),
                        line_number: line,
                    },
                )
            },
        }
    }

    /// Resolve a slice clause over a collection into a raw index range.
    fn visit_array_slice(
        &self,
        scope: &Scope,
        variable_info: &InfoToken,
        array_slice: &Option<ArraySliceExpr>,
        collection: &VarType,
    ) -> (r: Result<(usize, usize), InterpreterError>)
        requires
            self.vwf(),
            scope.wf(),
        ensures
            ({
                let res = ev_array_slice(self.text@, scope@, variable_info@, (match *array_slice {
                    Some(sl) => Some(sl@),
                    None => None,
                }), collection@);
                match r {
                    Ok(t) => res == Ok::<(int, int), RunErrModel>((t.0 as int, t.1 as int)),
                    Err(e) => res == Err::<(int, int), RunErrModel>(e@),
                }
            }),
    {
        match array_slice {
            Some(sl) => {
                let len = match collection {
                    VarType::Table(var) => var.data.len(),
                    VarType::Row(var) => var.data.len(),
                    _ => {
                        let line = self.get_line_number_for_token(variable_info);
                        return Err(
                            InterpreterError {
                                msg: String::from_str("Attempt to slice a non-iterable"),
                                line_number: line,
                            },
                        );
                    },
                };
                let mn = if sl.start_index.token.token == Token::DoubleDot {
                    0
                } else {
                    match self.get_number_from_token(scope, &sl.start_index.token) {
                        Ok(v) => v,
                        Err(e) => {
                            return Err(e);
                        },
                    }
                };
                let mx = if sl.end_index.token.token == Token::DoubleDot {
                    len
                } else {
                    match self.get_number_from_token(scope, &sl.end_index.token) {
                        Ok(v) => v,
                        Err(e) => {
                            return Err(e);
                        },
                    }
                };
                Ok((mn, mx))
            },
            None => {
                match collection {
                    VarType::Table(var) => Ok((0, var.data.len())),
                    VarType::Row(var) => Ok((0, var.data.len())),
                    _ => {
                        let line = self.get_line_number_for_token(variable_info);
                        Err(
                            InterpreterError {
                                msg: String::from_str("Attempt to loop on a non-iterable"),
                                line_number: line,
                            },
                        )
                    },
                }
            },
        }
    }

    /// Resolve a loop-header accessor to its collection and index range.
    fn visit_array_accessor(&self, scope: &Scope, aa: &ArrayAccessorExpr) -> (r: Result<
        (VarType, usize, usize),
        InterpreterError,
    >)
        requires
            self.vwf(),
            scope.wf(),
        ensures
            ({
                let res = ev_array_accessor(self.text@, scope@, aa@);
                match r {
                    Ok(t) => res == Ok::<(ValModel, int, int), RunErrModel>(
                        (t.0@, t.1 as int, t.2 as int),
                    ),
                    Err(e) => res == Err::<(ValModel, int, int), RunErrModel>(e@),
                }
            }),
    {
        let base = match self.lookup(scope, &aa.variable) {
            Ok(v) => v.duplicate(),
            Err(e) => {
                return Err(e);
            },
        };
        let mut variable = base;
        let n = aa.indexes.len();
        let mut k: usize = 0;
        proof {
            assert(aa@.indexes.skip(0) =~= aa@.indexes);
        }
        while k < n
            invariant
                self.vwf(),
                scope.wf(),
                n == aa.indexes@.len(),
                k <= n,
                ({
                    let full = ev_brackets(
                        self.text@,
                        scope@,
                        aa@.indexes,
                        (match scope@.resolve(aa@.variable.slice) {
                            Some(v) => v,
                            None => variable@,
                        }),
                    );
                    let rm = ev_brackets(
                        self.text@,
                        scope@,
                        aa@.indexes.skip(k as int),
                        variable@,
                    );
                    scope@.resolve(aa@.variable.slice) is Some && (match rm {
                        Ok(v) => full == Ok::<ValModel, RunErrModel>(v),
                        Err(e) => full == Err::<ValModel, RunErrModel>(e),
                    })
                }),
            decreases n - k,
        {
            proof {
                assert(aa@.indexes.skip(k as int)[0] == aa.indexes@[k as int]@);
                assert(aa@.indexes.skip(k as int).drop_first() =~= aa@.indexes.skip(k + 1));
            }
            let next = match self.visit_array_bracket(scope, &aa.indexes[k], variable) {
                Ok(v) => v,
                Err(e) => {
                    return Err(e);
                },
            };
            variable = next;
            k = k + 1;
        }
        proof {
            assert(aa@.indexes.skip(n as int).len() == 0);
        }
        let (min, max) = match self.visit_array_slice(scope, &aa.variable, &aa.array_slice, &variable) {
            Ok(t) => t,
            Err(e) => {
                return Err(e);
            },
        };
        Ok((variable, min, max))
    }

    /// Resolve a loop header to its iterator.
    fn visit_loop_start(&self, scope: &Scope, ls: &LoopStartExpr) -> (r: Result<
        LoopIterator,
        InterpreterError,
    >)
        requires
            self.vwf(),
            scope.wf(),
        ensures
            ({
                let res = ev_loop_header(self.text@, scope@, ls@);
                match r {
                    Ok(it) => {
                        &&& res == Ok::<(ValModel, int, int), RunErrModel>(
                            (it@.collection, it@.start, it@.end),
                        )
                        &&& it.wf()
                        &&& it@.scope == scope@
                        &&& it@.loop_index == 0
                        &&& it@.collection_index == it@.start
                        &&& it@.loop_variable_name == counter_name(ls@)
                        &&& it@.collection_variable_name == raw_index_name(ls@)
                        &&& it@.as_variable_name == as_name(ls@)
                    },
                    Err(e) => res == Err::<(ValModel, int, int), RunErrModel>(e@),
                }
            }),
    {
        let (variable, min, max) = match self.visit_array_accessor(scope, &ls.array_accessor) {
            Ok(t) => t,
            Err(e) => {
                return Err(e);
            },
        };
        let as_variable_name: Option<String> = match &ls.as_variable {
            Some(av) => Some(av.variable.slice.clone()),
            None => None,
        };
        let loop_variable_name: Option<String> = match &ls.loop_variable {
            Some(lv) => Some(lv.variable.slice.clone()),
            None => None,
        };
        let collection_variable_name: Option<String> = match &ls.loop_variable {
            Some(lv) => match &lv.second_variable {
                Some(sv) => Some(sv.variable.slice.clone()),
                None => None,
            },
            None => None,
        };
        match &variable {
            VarType::Table(_) => {},
            VarType::Row(_) => {},
            _ => {
                let line = self.get_line_number_for_token(&ls.array_accessor.variable);
                return Err(
                    InterpreterError {
                        msg: String::from_str("Attempt to loop on a non-iterable"),
                        line_number: line,
                    },
                );
            },
        }
        Ok(
            LoopIterator::new(
                scope,
                variable,
                min,
                max,
                loop_variable_name,
                collection_variable_name,
                as_variable_name,
            ),
        )
    }

    /// Re-slice the original source for a literal run.
    fn visit_anything(&self, a: &AnythingExpr) -> (s: String)
        ensures
            s@ == anything_text(self.text@, a.tokens.deep_view()),
    {
        if a.tokens.len() > 0 {
            let n = self.text.as_str().unicode_len();
            let first = a.tokens[0].start;
            let last = a.tokens[a.tokens.len() - 1].end;
            let lo = if first < n {
                first
            } else {
                n
            };
            let hi = if last < n {
                last
            } else {
                n
            };
            if lo <= hi {
                String::from_str(self.text.as_str().substring_char(lo, hi))
            } else {
                let r = String::new();
                proof {
                    assert(r@ =~= anything_text(self.text@, a.tokens.deep_view()));
                }
                r
            }
        } else {
            let r = String::new();
            proof {
                assert(r@ =~= anything_text(self.text@, a.tokens.deep_view()));
            }
            r
        }
    }

    /// Evaluate a loop: resolve its header, then visit the body once per
    /// iteration scope, joining the outputs with single spaces.
    fn visit_loop(&self, scope: &Scope, l: &LoopExpr) -> (r: Result<String, InterpreterError>)
        requires
            self.vwf(),
            scope.wf(),
        ensures
            ({
                let res = ev_expr(self.text@, self.importer@, scope@, loop_expr_model(*l));
                match r {
                    Ok(s) => res == Ok::<Seq<char>, RunErrModel>(s@),
                    Err(e) => res == Err::<Seq<char>, RunErrModel>(e@),
                }
            }),
        decreases l, 0int, 0int,
    {
        let mut iterator = match self.visit_loop_start(scope, &l.loop_start) {
            Ok(it) => it,
            Err(e) => {
                return Err(e);
            },
        };
        let ghost it0 = iterator@;
        let ghost body = expr_model(*l.block);
        let mut out = String::new();
        let mut first = true;
        let ghost mut outs: Seq<Seq<char>> = Seq::empty();
        loop
            invariant
                self.vwf(),
                scope.wf(),
                iterator.wf(),
                body == expr_model(*l.block),
                it0.scope == scope@,
                it0.loop_index == 0,
                it0.collection_index == it0.start,
                it0.loop_variable_name == counter_name(l.loop_start@),
                it0.collection_variable_name == raw_index_name(l.loop_start@),
                it0.as_variable_name == as_name(l.loop_start@),
                ev_loop_header(self.text@, scope@, l.loop_start@) == Ok::<
                    (ValModel, int, int),
                    RunErrModel,
                >((it0.collection, it0.start, it0.end)),
                iterator@.collection == it0.collection,
                iterator@.scope == it0.scope,
                iterator@.end == it0.end,
                iterator@.loop_variable_name == it0.loop_variable_name,
                iterator@.collection_variable_name == it0.collection_variable_name,
                iterator@.as_variable_name == it0.as_variable_name,
                first == (outs.len() == 0),
                out@ == join_space(outs),
                ({
                    let full = ev_loop_iters(self.text@, self.importer@, body, it0);
                    match ev_loop_iters(self.text@, self.importer@, body, iterator@) {
                        Ok(rest) => full == Ok::<Seq<Seq<char>>, RunErrModel>(outs + rest),
                        Err(e) => full == Err::<Seq<Seq<char>>, RunErrModel>(e),
                    }
                }),
            ensures
                self.vwf(),
                scope.wf(),
                body == expr_model(*l.block),
                it0.scope == scope@,
                it0.loop_index == 0,
                it0.collection_index == it0.start,
                it0.loop_variable_name == counter_name(l.loop_start@),
                it0.collection_variable_name == raw_index_name(l.loop_start@),
                it0.as_variable_name == as_name(l.loop_start@),
                ev_loop_header(self.text@, scope@, l.loop_start@) == Ok::<
                    (ValModel, int, int),
                    RunErrModel,
                >((it0.collection, it0.start, it0.end)),
                ev_loop_iters(self.text@, self.importer@, body, it0) == Ok::<
                    Seq<Seq<char>>,
                    RunErrModel,
                >(outs),
                out@ == join_space(outs),
            decreases l, iterator@.end - iterator@.collection_index, 0int,
        {
            let ghost pre = iterator@;
            let next = iterator.next();
            match next {
                None => {
                    proof {
                        assert(ev_loop_iters(self.text@, self.importer@, body, pre) == Ok::<
                            Seq<Seq<char>>,
                            RunErrModel,
                        >(Seq::empty()));
                        assert(outs + Seq::<Seq<char>>::empty() =~= outs);
                    }
                    break ;
                },
                Some(mut iter_scope) => {
                    let res = self.visit_expr(&mut iter_scope, &l.block);
                    match res {
                        Err(e) => {
                            proof {
                                assert(ev_loop_iters(self.text@, self.importer@, body, pre)
                                    == Err::<Seq<Seq<char>>, RunErrModel>(e@));
                            }
                            return Err(e);
                        },
                        Ok(s) => {
                            let ghost sv = s@;
                            let ghost pre_outs = outs;
                            proof {
                                lemma_join_space_push(outs, sv);
                                outs = outs.push(sv);
                            }
                            if first {
                                out = s;
                                first = false;
                            } else {
                                out.append(" ");
                                out.append(s.as_str());
                            }
                            proof {
                                assert(out@ == join_space(outs));
                                let rest_res = ev_loop_iters(
                                    self.text@,
                                    self.importer@,
                                    body,
                                    iterator@,
                                );
                                match rest_res {
                                    Ok(rest) => {
                                        assert(ev_loop_iters(
                                            self.text@,
                                            self.importer@,
                                            body,
                                            pre,
                                        ) == Ok::<Seq<Seq<char>>, RunErrModel>(seq![sv] + rest));
                                        assert(pre_outs + (seq![sv] + rest) =~= outs + rest);
                                    },
                                    Err(e2) => {
                                        assert(ev_loop_iters(
                                            self.text@,
                                            self.importer@,
                                            body,
                                            pre,
                                        ) == Err::<Seq<Seq<char>>, RunErrModel>(e2));
                                    },
                                }
                            }
                        },
                    }
                },
            }
        }
        proof {
            let full = ev_loop_iters(self.text@, self.importer@, body, it0);
            assert(full == Ok::<Seq<Seq<char>>, RunErrModel>(outs));
            assert(ev_expr(self.text@, self.importer@, scope@, loop_expr_model(*l)) == Ok::<
                Seq<char>,
                RunErrModel,
            >(join_space(outs)));
        }
        Ok(out)
    }

    /// Evaluate a block: fold its imports into the current scope, then
    /// visit each child under a fresh child frame, concatenating the texts
    /// with no separator.
    fn visit_block(&self, scope: &mut Scope, b: &BlockExpr) -> (r: Result<
        String,
        InterpreterError,
    >)
        requires
            self.vwf(),
            old(scope).wf(),
        ensures
            final(scope).wf(),
            final(scope)@.vars == scope_after_imports(
                self.importer@,
                old(scope)@.vars,
                b.imports.deep_view(),
            ),
            final(scope)@.parent == old(scope)@.parent,
            ({
                let res = ev_expr(self.text@, self.importer@, old(scope)@, block_expr_model(*b));
                match r {
                    Ok(s) => res == Ok::<Seq<char>, RunErrModel>(s@),
                    Err(e) => res == Err::<Seq<char>, RunErrModel>(e@),
                }
            }),
        decreases b, 0int, 0int,
    {
        self.importer.update_scope(scope, &b.imports);
        let ghost scope2 = scope@;
        let mut out = String::new();
        let n = b.blocks.len();
        let mut k: usize = 0;
        proof {
            lemma_exprs_model_len(b.blocks@);
        }
        while k < n
            invariant
                self.vwf(),
                scope.wf(),
                scope@ == scope2,
                scope2.vars == scope_after_imports(
                    self.importer@,
                    old(scope)@.vars,
                    b.imports.deep_view(),
                ),
                scope2.parent == old(scope)@.parent,
                n == b.blocks@.len(),
                k <= n,
                ({
                    let items = exprs_model(b.blocks@);
                    let full = ev_block_items(self.text@, self.importer@, scope2, items, 0);
                    let rm = ev_block_items(self.text@, self.importer@, scope2, items, k as int);
                    items.len() == n && (match rm {
                        Ok(rest) => full == Ok::<Seq<char>, RunErrModel>(out@ + rest),
                        Err(e) => full == Err::<Seq<char>, RunErrModel>(e),
                    })
                }),
            decreases b, n - k, 0int,
        {
            proof {
                lemma_exprs_model_len(b.blocks@);
                lemma_exprs_model_index(b.blocks@, k as int);
            }
            let mut child_scope = Scope::with_parent(scope);
            let res = self.visit_expr(&mut child_scope, &b.blocks[k]);
            match res {
                Err(e) => {
                    return Err(e);
                },
                Ok(s) => {
                    let ghost pre_out = out@;
                    out.append(s.as_str());
                    proof {
                        let items = exprs_model(b.blocks@);
                        let rm_new = ev_block_items(
                            self.text@,
                            self.importer@,
                            scope2,
                            items,
                            k + 1,
                        );
                        if rm_new is Ok {
                            assert((pre_out + s@) + (match rm_new {
                                Ok(rest) => rest,
                                Err(_) => Seq::empty(),
                            }) =~= pre_out + (s@ + (match rm_new {
                                Ok(rest) => rest,
                                Err(_) => Seq::empty(),
                            })));
                        }
                    }
                },
            }
            k = k + 1;
        }
        proof {
            let items = exprs_model(b.blocks@);
            assert(ev_block_items(self.text@, self.importer@, scope2, items, n as int) == Ok::<
                Seq<char>,
                RunErrModel,
            >(Seq::empty()));
            assert(out@ + Seq::<char>::empty() =~= out@);
            assert(scope2 == (ScopeModel {
                vars: scope_after_imports(
                    self.importer@,
                    old(scope)@.vars,
                    b.imports.deep_view(),
                ),
                parent: old(scope)@.parent,
            }));
        }
        Ok(out)
    }

    /// Evaluate the root node.
    fn visit_start(&self, scope: &mut Scope, s: &StartExpr) -> (r: Result<
        String,
        InterpreterError,
    >)
        requires
            self.vwf(),
            old(scope).wf(),
        ensures
            final(scope).wf(),
            final(scope)@.vars == vars_after(self.importer@, old(scope)@.vars, expr_model(s.expr)),
            final(scope)@.parent == old(scope)@.parent,
            ({
                let res = ev_expr(self.text@, self.importer@, old(scope)@, expr_model(s.expr));
                match r {
                    Ok(t) => res == Ok::<Seq<char>, RunErrModel>(t@),
                    Err(e) => res == Err::<Seq<char>, RunErrModel>(e@),
                }
            }),
        decreases s, 0int, 0int,
    {
        self.visit_expr(scope, &s.expr)
    }

    /// Evaluate one node against a scope.
    fn visit_expr(&self, scope: &mut Scope, expr: &Expr) -> (r: Result<String, InterpreterError>)
        requires
            self.vwf(),
            old(scope).wf(),
        ensures
            final(scope).wf(),
            final(scope)@.vars == vars_after(self.importer@, old(scope)@.vars, expr@),
            final(scope)@.parent == old(scope)@.parent,
            ({
                let res = ev_expr(self.text@, self.importer@, old(scope)@, expr@);
                match r {
                    Ok(s) => res == Ok::<Seq<char>, RunErrModel>(s@),
                    Err(e) => res == Err::<Seq<char>, RunErrModel>(e@),
                }
            }),
        decreases expr, 1int, 0int,
    {
        match expr {
            Expr::Start(node) => self.visit_start(scope, node),
            Expr::Anything(node) => Ok(self.visit_anything(node)),
            Expr::Block(node) => self.visit_block(scope, node),
            Expr::MustacheAccessor(node) => self.visit_accessor(scope, &node.accessor),
            Expr::Loop(node) => self.visit_loop(scope, node),
        }
    }

    /// Interpret this interpreter's source text against the given base
    /// scope: parse it, fold top-level imports into the base scope, and
    /// evaluate the template to its generated text and output path.
    pub fn interpret(&mut self, base_scope: &mut Scope) -> (r: Result<
        InterpreterResult,
        GeneralError,
    >)
        requires
            old(self).wf(),
            old(base_scope).wf(),
        ensures
            final(base_scope).wf(),
            ({
                let res = spec_parse(old(self).source());
                match res {
                    PRes::Fail { err } => {
                        &&& final(base_scope)@ == old(base_scope)@
                        &&& match r {
                            Err(g) => g@ == error_display(
                                ParseErrorModel {
                                    line: crate::parser::parse_fail_line(old(self).source(), err),
                                    msg: crate::parser::parse_fail_msg(err),
                                },
                            ),
                            Ok(_) => false,
                        }
                    },
                    PRes::Good { node, next } => {
                        &&& final(base_scope)@.vars == vars_after(
                            old(self).importer_model(),
                            old(base_scope)@.vars,
                            node,
                        )
                        &&& final(base_scope)@.parent == old(base_scope)@.parent
                        &&& match ev_expr(
                            old(self).source(),
                            old(self).importer_model(),
                            old(base_scope)@,
                            node,
                        ) {
                            Ok(s) => match r {
                                Ok(ir) => ir.text@ == s && ir.output_file@ == (match node {
                                    ExprModel::Start { output, .. } => output.slice,
                                    _ => Seq::empty(),
                                }),
                                Err(_) => false,
                            },
                            Err(em) => match r {
                                Err(g) => g@ == error_display(
                                    ParseErrorModel { line: em.line, msg: em.msg },
                                ),
                                Ok(_) => false,
                            },
                        }
                    },
                }
            }),
    {
        let ast = match self.parser.parse() {
            Err(e) => {
                return Err(GeneralError::from_parse(&e));
            },
            Ok(a) => a,
        };
        match &ast {
            Expr::Start(node) => {
                self.output_file = node.output.file_path.slice.clone();
            },
            _ => {
                proof {
                    assert(false);
                }
            },
        }
        let text_out = match self.visit_expr(base_scope, &ast) {
            Ok(t) => t,
            Err(e) => {
                return Err(GeneralError::from_interpreter(&e));
            },
        };
        Ok(InterpreterResult { text: text_out, output_file: self.output_file.clone() })
    }
}

} // verus!
