use vstd::prelude::*;
use vstd::string::StrSliceExecFns;
use vstd::string::StringExecFns;
use crate::tokenizer::InfoToken;
use crate::tokenizer::TokenModel;
use crate::tokenizer::is_space_char;
use crate::tokenizer::spaces_end;

verus! {

// ---------------------------------------------------------------------------
// Mathematical models of the parsed tree. Only the fields that evaluation
// and error reporting read are part of a node's model; the spans of pure
// punctuation are not.
// ---------------------------------------------------------------------------

/// One `name: value;` option of an import directive.
pub struct ImportOptionModel {
    pub variable: TokenModel,
    pub value: TokenModel,
}

/// An import directive: its option pairs, in source order.
pub struct ImportModel {
    pub configs: Seq<ImportOptionModel>,
}

/// A parenthesized loop binding: the counter name and the optional raw
/// collection-index name.
pub struct LoopVariableModel {
    pub variable: TokenModel,
    pub second_variable: Option<TokenModel>,
}

/// A slice clause `[start, end]`; each bound token is a number, a variable,
/// or the open-end marker `..`.
pub struct SliceModel {
    pub start_index: TokenModel,
    pub end_index: TokenModel,
}

/// An accessor used for substitution: base variable plus bracket indexes.
pub struct AccessorModel {
    pub variable: TokenModel,
    pub indexes: Seq<TokenModel>,
}

/// An accessor used in a loop header: base variable, bracket indexes, and an
/// optional trailing slice.
pub struct ArrayAccessorModel {
    pub variable: TokenModel,
    pub indexes: Seq<TokenModel>,
    pub array_slice: Option<SliceModel>,
}

/// A loop header: optional bindings, the collection accessor, and the
/// optional `as` element binding.
pub struct LoopStartModel {
    pub loop_variable: Option<LoopVariableModel>,
    pub array_accessor: ArrayAccessorModel,
    pub as_variable: Option<TokenModel>,
}

/// The mathematical content of a parsed template node.
pub enum ExprModel {
    Start { output: TokenModel, expr: Box<ExprModel> },
    Block { imports: Seq<ImportModel>, blocks: Seq<ExprModel> },
    Anything { tokens: Seq<TokenModel> },
    Loop { loop_start: LoopStartModel, block: Box<ExprModel> },
    MustacheAccessor { accessor: AccessorModel },
}

// ---------------------------------------------------------------------------
// The tree itself.
// ---------------------------------------------------------------------------

/// A parsed template node.
pub enum Expr {
    Start(Box<StartExpr>),
    Block(Box<BlockExpr>),
    Anything(Box<AnythingExpr>),
    Loop(Box<LoopExpr>),
    MustacheAccessor(MustacheAccessorExpr),
}

/// The root node: the output declaration and the template body.
pub struct StartExpr {
    pub output: OutputExpr,
    pub expr: Expr,
}

/// The output declaration `{{output path}}`; `file_path` spans the raw path
/// text between the keyword and the closing delimiter.
pub struct OutputExpr {
    pub left_mustache: InfoToken,
    pub output: InfoToken,
    pub file_path: InfoToken,
    pub right_mustache: InfoToken,
}

/// A loop construct: header, body, and end marker.
pub struct LoopExpr {
    pub loop_start: LoopStartExpr,
    pub block: Box<Expr>,
    pub loop_end: EndExpr,
}

/// A loop header `{{loop (i, c) accessor [a, b] as x}}`.
pub struct LoopStartExpr {
    pub left_mustache: InfoToken,
    pub loop_word: InfoToken,
    pub loop_variable: Option<ParenVariableParenExpr>,
    pub array_accessor: ArrayAccessorExpr,
    pub as_variable: Option<AsVariableExpr>,
    pub right_mustache: InfoToken,
}

/// The parenthesized loop bindings `(counter[, rawIndex])`.
pub struct ParenVariableParenExpr {
    pub left_paren: InfoToken,
    pub variable: InfoToken,
    pub second_variable: Option<CommaVariableExpr>,
    pub right_paren: InfoToken,
}

/// The `, name` tail of a two-name loop binding.
pub struct CommaVariableExpr {
    pub comma: InfoToken,
    pub variable: InfoToken,
}

/// The `as name` element binding of a loop header.
pub struct AsVariableExpr {
    pub as_word: InfoToken,
    pub variable: InfoToken,
}

/// An `{{end}}` marker.
pub struct EndExpr {
    pub left_mustache: InfoToken,
    pub end: InfoToken,
    pub right_mustache: InfoToken,
}

/// An ordered run of children plus the import directives hoisted to the
/// front of the block.
pub struct BlockExpr {
    pub imports: Vec<ImportExpr>,
    pub blocks: Vec<Expr>,
}

/// A fenced `{{import}} ... {{end}}` directive.
pub struct ImportExpr {
    pub left_mustache: InfoToken,
    pub config: InfoToken,
    pub right_mustache: InfoToken,
    pub configs: Vec<ImportConfigOptionExpr>,
    pub end: EndExpr,
}

/// One `name: value;` pair inside an import directive.
pub struct ImportConfigOptionExpr {
    pub variable: InfoToken,
    pub colon: InfoToken,
    pub value: InfoToken,
    pub semicolon: InfoToken,
}

/// A literal text run, stored as the token spans it covers so the
/// interpreter re-slices the original source verbatim.
pub struct AnythingExpr {
    pub tokens: Vec<InfoToken>,
}

/// A substitution directive `{{accessor}}`.
pub struct MustacheAccessorExpr {
    pub left_mustache: InfoToken,
    pub accessor: AccessorExpr,
    pub right_mustache: InfoToken,
}

/// Accessor with optional trailing slice, as used by loop headers.
pub struct ArrayAccessorExpr {
    pub variable: InfoToken,
    pub indexes: Vec<ArrayBracketExpr>,
    pub array_slice: Option<ArraySliceExpr>,
}

/// Accessor without slice, as used by substitution.
pub struct AccessorExpr {
    pub variable: InfoToken,
    pub indexes: Vec<ArrayBracketExpr>,
}

/// A `.name` accessor step; recognized by the grammar's data model but not
/// produced by the present grammar.
pub struct DotVariableExpr {
    pub dot: InfoToken,
    pub variable: InfoToken,
}

/// A slice clause `[start, end]`.
pub struct ArraySliceExpr {
    pub left_paren: InfoToken,
    pub start_index: ArraySliceIndexExpr,
    pub comma: InfoToken,
    pub end_index: ArraySliceIndexExpr,
    pub right_paren: InfoToken,
}

/// A bracket index `[token]`.
pub struct ArrayBracketExpr {
    pub left_paren: InfoToken,
    pub variable: ArrayBracketIndexExpr,
    pub right_paren: InfoToken,
}

/// One bound of a slice clause.
pub struct ArraySliceIndexExpr {
    pub token: InfoToken,
}

/// The token inside a bracket index.
pub struct ArrayBracketIndexExpr {
    pub token: InfoToken,
}

// ---------------------------------------------------------------------------
// Views.
// ---------------------------------------------------------------------------

impl View for ArrayBracketIndexExpr {
    type V = TokenModel;

    open spec fn view(&self) -> TokenModel {
        self.token@
    }
}

impl View for ArrayBracketExpr {
    type V = TokenModel;

    open spec fn view(&self) -> TokenModel {
        self.variable.token@
    }
}

impl DeepView for ArrayBracketExpr {
    type V = TokenModel;

    open spec fn deep_view(&self) -> TokenModel {
        self.view()
    }
}

impl View for ArraySliceIndexExpr {
    type V = TokenModel;

    open spec fn view(&self) -> TokenModel {
        self.token@
    }
}

impl View for ArraySliceExpr {
    type V = SliceModel;

    open spec fn view(&self) -> SliceModel {
        SliceModel { start_index: self.start_index@, end_index: self.end_index@ }
    }
}

impl View for AccessorExpr {
    type V = AccessorModel;

    open spec fn view(&self) -> AccessorModel {
        AccessorModel { variable: self.variable@, indexes: self.indexes.deep_view() }
    }
}

impl View for ArrayAccessorExpr {
    type V = ArrayAccessorModel;

    open spec fn view(&self) -> ArrayAccessorModel {
        ArrayAccessorModel {
            variable: self.variable@,
            indexes: self.indexes.deep_view(),
            array_slice: match self.array_slice {
                Some(s) => Some(s@),
                None => None,
            },
        }
    }
}

impl View for ParenVariableParenExpr {
    type V = LoopVariableModel;

    open spec fn view(&self) -> LoopVariableModel {
        LoopVariableModel {
            variable: self.variable@,
            second_variable: match self.second_variable {
                Some(c) => Some(c.variable@),
                None => None,
            },
        }
    }
}

impl View for LoopStartExpr {
    type V = LoopStartModel;

    open spec fn view(&self) -> LoopStartModel {
        LoopStartModel {
            loop_variable: match self.loop_variable {
                Some(lv) => Some(lv@),
                None => None,
            },
            array_accessor: self.array_accessor@,
            as_variable: match self.as_variable {
                Some(a) => Some(a.variable@),
                None => None,
            },
        }
    }
}

impl View for OutputExpr {
    type V = TokenModel;

    open spec fn view(&self) -> TokenModel {
        self.file_path@
    }
}

impl View for ImportConfigOptionExpr {
    type V = ImportOptionModel;

    open spec fn view(&self) -> ImportOptionModel {
        ImportOptionModel { variable: self.variable@, value: self.value@ }
    }
}

impl DeepView for ImportConfigOptionExpr {
    type V = ImportOptionModel;

    open spec fn deep_view(&self) -> ImportOptionModel {
        self.view()
    }
}

impl View for ImportExpr {
    type V = ImportModel;

    open spec fn view(&self) -> ImportModel {
        ImportModel { configs: self.configs.deep_view() }
    }
}

impl DeepView for ImportExpr {
    type V = ImportModel;

    open spec fn deep_view(&self) -> ImportModel {
        self.view()
    }
}

/// The model an `Expr` denotes.
pub open spec fn expr_model(e: Expr) -> ExprModel
    decreases e,
{
    match e {
        Expr::Start(s) => ExprModel::Start {
            output: s.output.file_path@,
            expr: Box::new(expr_model(s.expr)),
        },
        Expr::Block(b) => ExprModel::Block {
            imports: b.imports.deep_view(),
            blocks: exprs_model(b.blocks@),
        },
        Expr::Anything(a) => ExprModel::Anything { tokens: a.tokens.deep_view() },
        Expr::Loop(l) => ExprModel::Loop {
            loop_start: l.loop_start@,
            block: Box::new(expr_model(*l.block)),
        },
        Expr::MustacheAccessor(m) => ExprModel::MustacheAccessor { accessor: m.accessor@ },
    }
}

/// The models of a run of children, in order.
pub open spec fn exprs_model(v: Seq<Expr>) -> Seq<ExprModel>
    decreases v,
{
    if v.len() == 0 {
        Seq::empty()
    } else {
        exprs_model(v.drop_last()).push(expr_model(v.last()))
    }
}

pub broadcast proof fn lemma_exprs_model_len(v: Seq<Expr>)
    ensures
        (#[trigger] exprs_model(v)).len() == v.len(),
    decreases v,
{
    if v.len() > 0 {
        lemma_exprs_model_len(v.drop_last());
    }
}

pub broadcast proof fn lemma_exprs_model_index(v: Seq<Expr>, i: int)
    requires
        0 <= i < v.len(),
    ensures
        #[trigger] exprs_model(v)[i] == expr_model(v[i]),
    decreases v,
{
    lemma_exprs_model_len(v);
    if v.len() > 0 {
        if i < v.len() - 1 {
            lemma_exprs_model_index(v.drop_last(), i);
            assert(v.drop_last()[i] == v[i]);
            lemma_exprs_model_len(v.drop_last());
        }
    }
}

impl View for Expr {
    type V = ExprModel;

    open spec fn view(&self) -> ExprModel {
        expr_model(*self)
    }
}

// ---------------------------------------------------------------------------
// Trimming and option lookup.
// ---------------------------------------------------------------------------

/// Where the run of trailing whitespace that ends at `i` begins.
pub open spec fn trailing_spaces_start(s: Seq<char>, i: int) -> int
    decreases i,
{
    if 0 < i <= s.len() && is_space_char(s[i - 1]) {
        trailing_spaces_start(s, i - 1)
    } else {
        i
    }
}

/// `s` with leading and trailing whitespace removed.
pub open spec fn spec_trim(s: Seq<char>) -> Seq<char> {
    let a = spaces_end(s, 0);
    let b = trailing_spaces_start(s, s.len() as int);
    if a <= b {
        s.subrange(a, b)
    } else {
        Seq::empty()
    }
}

pub(crate) fn space_at(s: &str, i: usize) -> (r: bool)
    requires
        i < s@.len(),
    ensures
        r == is_space_char(s@[i as int]),
{
    let c = s.get_char(i);
    c == ' ' || c == '\t' || c == '\n' || c == '\r' || c == '\u{b}' || c == '\u{c}'
}

proof fn lemma_trailing_spaces_start(s: Seq<char>, i: int)
    requires
        0 <= i <= s.len(),
    ensures
        0 <= trailing_spaces_start(s, i) <= i,
    decreases i,
{
    if 0 < i <= s.len() && is_space_char(s[i - 1]) {
        lemma_trailing_spaces_start(s, i - 1);
    }
}

/// Remove leading and trailing whitespace.
pub fn trim_str(s: &str) -> (r: String)
    ensures
        r@ == spec_trim(s@),
{
    let n = s.unicode_len();
    let mut a: usize = 0;
    while a < n && space_at(s, a)
        invariant
            n == s@.len(),
            a <= n,
            spaces_end(s@, 0) == spaces_end(s@, a as int),
        decreases n - a,
    {
        a = a + 1;
    }
    proof {
        assert(spaces_end(s@, a as int) == a as int);
    }
    if a >= n {
        // the whole text is whitespace
        let r = String::from_str(s.substring_char(a, a));
        proof {
            crate::tokenizer::lemma_spaces_end(s@, 0);
            if n > 0 {
                assert(is_space_char(s@[n - 1]));
                lemma_trailing_spaces_start(s@, n - 1);
                assert(trailing_spaces_start(s@, n as int) == trailing_spaces_start(s@, n - 1));
            }
            assert(r@ =~= spec_trim(s@));
        }
        return r;
    }
    let mut b: usize = n;
    while b > a && space_at(s, b - 1)
        invariant
            n == s@.len(),
            a < b <= n || (a == b && b == n),
            a < n,
            !is_space_char(s@[a as int]),
            trailing_spaces_start(s@, n as int) == trailing_spaces_start(s@, b as int),
        decreases b,
    {
        b = b - 1;
    }
    proof {
        assert(b > a);
        assert(trailing_spaces_start(s@, b as int) == b as int);
        assert(spec_trim(s@) == s@.subrange(a as int, b as int));
    }
    String::from_str(s.substring_char(a, b))
}

/// The value bound to option `val`, searching the pairs in order and
/// comparing names with surrounding whitespace ignored.
pub open spec fn options_value_of(configs: Seq<ImportOptionModel>, val: Seq<char>) -> Option<
    Seq<char>,
>
    decreases configs.len(),
{
    if configs.len() == 0 {
        None
    } else if spec_trim(configs[0].variable.slice) == spec_trim(val) {
        Some(configs[0].value.slice)
    } else {
        options_value_of(configs.drop_first(), val)
    }
}

impl ImportExpr {
    /// Look up the value of the option named `val` in this directive.
    pub fn value_of(&self, val: &str) -> (r: Option<String>)
        ensures
            match r {
                Some(v) => options_value_of(self@.configs, val@) == Some(v@),
                None => options_value_of(self@.configs, val@) is None,
            },
    {
        let target = trim_str(val);
        let n = self.configs.len();
        proof {
            assert(self@.configs.skip(0) =~= self@.configs);
        }
        let mut i: usize = 0;
        while i < n
            invariant
                n == self.configs@.len(),
                i <= n,
                target@ == spec_trim(val@),
                options_value_of(self@.configs, val@) == options_value_of(
                    self@.configs.skip(i as int),
                    val@,
                ),
            decreases n - i,
        {
            let name = trim_str(self.configs[i].variable.slice.as_str());
            proof {
                assert(self@.configs.skip(i as int)[0] == self@.configs[i as int]);
                assert(self@.configs.skip(i as int).drop_first() =~= self@.configs.skip(i + 1));
            }
            if name == target {
                return Some(self.configs[i].value.slice.clone());
            }
            i = i + 1;
        }
        proof {
            assert(self@.configs.skip(n as int).len() == 0);
        }
        None
    }
}


// ---------------------------------------------------------------------------
// Import discovery: which tables a parsed template will ask the import
// capability for, so the surrounding tooling can load them before
// interpretation begins.
// ---------------------------------------------------------------------------

/// The selector one import directive resolves through: `(true, p)` for a
/// local path, `(false, k)` for a remote key; a directive without a usable
/// `name`, or with neither `path` nor `key`, resolves nothing.
pub open spec fn selector_of_import(d: ImportModel) -> Seq<(bool, Seq<char>)> {
    match options_value_of(d.configs, "name"@) {
        None => Seq::empty(),
        Some(_) => match options_value_of(d.configs, "path"@) {
            Some(p) => seq![(true, p)],
            None => match options_value_of(d.configs, "key"@) {
                Some(k) => seq![(false, k)],
                None => Seq::empty(),
            },
        },
    }
}

/// The selectors a run of import directives resolves through, in order.
pub open spec fn selectors_in_imports(ds: Seq<ImportModel>) -> Seq<(bool, Seq<char>)>
    decreases ds.len(),
{
    if ds.len() == 0 {
        Seq::empty()
    } else {
        selector_of_import(ds[0]) + selectors_in_imports(ds.drop_first())
    }
}

/// All selectors a template node's import directives resolve through, in
/// source order, blocks before their children and loop bodies included.
pub open spec fn selectors_of(e: ExprModel) -> Seq<(bool, Seq<char>)>
    decreases e, 0int,
{
    match e {
        ExprModel::Start { output, expr } => selectors_of(*expr),
        ExprModel::Block { imports, blocks } => selectors_in_imports(imports) + selectors_in_items(
            blocks,
            0,
        ),
        ExprModel::Loop { loop_start, block } => selectors_of(*block),
        _ => Seq::empty(),
    }
}

/// The selectors of a run of block children from position `k` on.
pub open spec fn selectors_in_items(items: Seq<ExprModel>, k: int) -> Seq<(bool, Seq<char>)>
    decreases items, items.len() - k,
{
    if 0 <= k < items.len() {
        selectors_of(items[k]) + selectors_in_items(items, k + 1)
    } else {
        Seq::empty()
    }
}

/// Collect the selectors of every import directive in a parsed template,
/// in source order: `(true, path)` for local paths, `(false, key)` for
/// remote keys.
pub fn import_selectors(e: &Expr) -> (r: Vec<(bool, String)>)
    ensures
        r.deep_view() == selectors_of(e@),
    decreases e, 0int,
{
    match e {
        Expr::Start(node) => {
            let inner = import_selectors(&node.expr);
            proof {
                assert(inner.deep_view() =~= selectors_of(e@));
            }
            inner
        },
        Expr::Loop(node) => {
            let inner = import_selectors(&node.block);
            proof {
                assert(inner.deep_view() =~= selectors_of(e@));
            }
            inner
        },
        Expr::Block(node) => {
            let inner = block_selectors(node);
            proof {
                assert(inner.deep_view() =~= selectors_of(e@));
            }
            inner
        },
        Expr::Anything(_) => {
            let out: Vec<(bool, String)> = Vec::new();
            proof {
                assert(out.deep_view() =~= selectors_of(e@));
            }
            out
        },
        Expr::MustacheAccessor(_) => {
            let out: Vec<(bool, String)> = Vec::new();
            proof {
                assert(out.deep_view() =~= selectors_of(e@));
            }
            out
        },
    }
}

fn block_selectors(b: &BlockExpr) -> (r: Vec<(bool, String)>)
    ensures
        r.deep_view() == selectors_in_imports(b.imports.deep_view()) + selectors_in_items(
            exprs_model(b.blocks@),
            0,
        ),
    decreases b, 0int,
{
    let mut out: Vec<(bool, String)> = Vec::new();
    let ni = b.imports.len();
    let mut i: usize = 0;
    proof {
        assert(b.imports.deep_view().skip(0) =~= b.imports.deep_view());
        assert(out.deep_view() + selectors_in_imports(b.imports.deep_view())
            =~= selectors_in_imports(b.imports.deep_view()));
    }
    while i < ni
        invariant
            ni == b.imports@.len(),
            i <= ni,
            selectors_in_imports(b.imports.deep_view()) == out.deep_view()
                + selectors_in_imports(b.imports.deep_view().skip(i as int)),
        decreases ni - i,
    {
        let d = &b.imports[i];
        let ghost pre = out.deep_view();
        proof {
            assert(b.imports.deep_view().skip(i as int)[0] == d.deep_view());
            assert(b.imports.deep_view().skip(i as int).drop_first() =~= b.imports.deep_view().skip(
                i + 1,
            ));
        }
        match d.value_of("name") {
            None => {},
            Some(_) => {
                match d.value_of("path") {
                    Some(p) => {
                        out.push((true, p));
                    },
                    None => {
                        match d.value_of("key") {
                            Some(k) => {
                                out.push((false, k));
                            },
                            None => {},
                        }
                    },
                }
            },
        }
        proof {
            assert(out.deep_view() =~= pre + selector_of_import(d.deep_view()));
            assert(pre + (selector_of_import(d.deep_view()) + selectors_in_imports(
                b.imports.deep_view().skip(i + 1),
            )) =~= out.deep_view() + selectors_in_imports(b.imports.deep_view().skip(i + 1)));
        }
        i = i + 1;
    }
    proof {
        assert(b.imports.deep_view().skip(ni as int).len() == 0);
        assert(out.deep_view() + Seq::<(bool, Seq<char>)>::empty() =~= out.deep_view());
    }
    let nb = b.blocks.len();
    let mut k: usize = 0;
    proof {
        lemma_exprs_model_len(b.blocks@);
    }
    while k < nb
        invariant
            nb == b.blocks@.len(),
            k <= nb,
            exprs_model(b.blocks@).len() == nb,
            selectors_in_imports(b.imports.deep_view()) + selectors_in_items(
                exprs_model(b.blocks@),
                0,
            ) == out.deep_view() + selectors_in_items(exprs_model(b.blocks@), k as int),
        decreases b, nb - k,
    {
        proof {
            lemma_exprs_model_len(b.blocks@);
            lemma_exprs_model_index(b.blocks@, k as int);
        }
        let inner = import_selectors(&b.blocks[k]);
        let ghost pre = out.deep_view();
        let mut j: usize = 0;
        while j < inner.len()
            invariant
                j <= inner@.len(),
                out.deep_view() == pre + inner.deep_view().take(j as int),
            decreases inner@.len() - j,
        {
            let pair = (inner[j].0, inner[j].1.clone());
            let ghost mid = out.deep_view();
            out.push(pair);
            proof {
                assert(out.deep_view() =~= mid + seq![inner.deep_view()[j as int]]);
                assert(pre + inner.deep_view().take(j + 1) =~= (pre + inner.deep_view().take(
                    j as int,
                )) + seq![inner.deep_view()[j as int]]);
            }
            j = j + 1;
        }
        proof {
            assert(inner.deep_view().take(inner@.len() as int) =~= inner.deep_view());
            assert((pre + inner.deep_view()) + selectors_in_items(
                exprs_model(b.blocks@),
                k + 1,
            ) =~= pre + (inner.deep_view() + selectors_in_items(exprs_model(b.blocks@), k + 1)));
        }
        k = k + 1;
    }
    proof {
        assert(out.deep_view() + Seq::<(bool, Seq<char>)>::empty() =~= out.deep_view());
    }
    out
}

} // verus!
