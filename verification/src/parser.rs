use vstd::prelude::*;
use vstd::string::StrSliceExecFns;
use vstd::string::StringExecFns;
use crate::tokenizer::InfoToken;
use crate::tokenizer::Token;
use crate::tokenizer::TokenModel;
use crate::tokenizer::Tokenizer;
use crate::tokenizer::is_space_char;
use crate::tokenizer::spaces_end;
use crate::tokenizer::stream_wf;
use crate::tokenizer::token_stream;
use crate::tokenizer::lemma_token_stream_wf;
use crate::tree_nodes::AccessorExpr;
use crate::tree_nodes::AccessorModel;
use crate::tree_nodes::AnythingExpr;
use crate::tree_nodes::ArrayAccessorExpr;
use crate::tree_nodes::ArrayAccessorModel;
use crate::tree_nodes::ArrayBracketExpr;
use crate::tree_nodes::ArrayBracketIndexExpr;
use crate::tree_nodes::ArraySliceExpr;
use crate::tree_nodes::ArraySliceIndexExpr;
use crate::tree_nodes::AsVariableExpr;
use crate::tree_nodes::BlockExpr;
use crate::tree_nodes::CommaVariableExpr;
use crate::tree_nodes::EndExpr;
use crate::tree_nodes::Expr;
use crate::tree_nodes::ExprModel;
use crate::tree_nodes::ImportConfigOptionExpr;
use crate::tree_nodes::ImportExpr;
use crate::tree_nodes::ImportModel;
use crate::tree_nodes::ImportOptionModel;
use crate::tree_nodes::LoopExpr;
use crate::tree_nodes::LoopStartExpr;
use crate::tree_nodes::LoopStartModel;
use crate::tree_nodes::LoopVariableModel;
use crate::tree_nodes::MustacheAccessorExpr;
use crate::tree_nodes::OutputExpr;
use crate::tree_nodes::ParenVariableParenExpr;
use crate::tree_nodes::SliceModel;
use crate::tree_nodes::StartExpr;
use crate::tree_nodes::exprs_model;
use crate::tree_nodes::space_at;
use crate::var_type::dec_str;
use crate::var_type::usize_to_string;

verus! {

// ---------------------------------------------------------------------------
// The grammar, as mathematics: each parsing function is mirrored by a spec
// function over the token stream, and the executable parser is proved to
// return exactly what the mirror says.
// ---------------------------------------------------------------------------

/// Why a parse stopped: a mismatched token, or a required value run that
/// turned out empty.
pub enum FailModel {
    Expected { expected: Token, found: TokenModel },
    EmptyOutput { line: int },
    EmptyImportValue { line: int },
}

/// The outcome of one spec-level parsing step: a node plus the index of the
/// next unconsumed token, or a failure.
pub enum PRes<T> {
    Good { node: T, next: int },
    Fail { err: FailModel },
}

/// The token at `i`, clamped to the final token of the stream.
pub open spec fn tok_at(toks: Seq<TokenModel>, i: int) -> TokenModel {
    if 0 <= i < toks.len() {
        toks[i]
    } else {
        toks[toks.len() - 1]
    }
}

/// The cursor position after consuming the token at `i`.
pub open spec fn adv(toks: Seq<TokenModel>, i: int) -> int {
    if i + 1 < toks.len() {
        i + 1
    } else {
        toks.len() - 1
    }
}

/// The token one peek past `i`.
pub open spec fn peek1(toks: Seq<TokenModel>, i: int) -> TokenModel {
    tok_at(toks, adv(toks, i))
}

/// The token two peeks past `i`.
pub open spec fn peek2(toks: Seq<TokenModel>, i: int) -> TokenModel {
    tok_at(toks, if i + 2 < toks.len() {
        i + 2
    } else {
        toks.len() - 1
    })
}

/// Clamp a continuation index so that it strictly advances; on the streams
/// the tokenizer produces the clamp never alters `j`.
pub open spec fn bump(len: int, i: int, j: int) -> int {
    if i < j && j <= len {
        j
    } else if i + 1 <= len {
        i + 1
    } else {
        len
    }
}

/// How many newline characters precede offset `upto`.
pub open spec fn newline_count(text: Seq<char>, upto: int) -> int
    decreases upto,
{
    if upto <= 0 {
        0
    } else {
        newline_count(text, upto - 1) + if 0 < upto <= text.len() && text[upto - 1] == '\n' {
            1int
        } else {
            0int
        }
    }
}

/// The 1-based line number of character offset `i` (saturating at the
/// machine's integer limit, which no real text reaches).
pub open spec fn line_of(text: Seq<char>, i: int) -> int {
    if newline_count(text, i) + 1 <= usize::MAX {
        newline_count(text, i) + 1
    } else {
        usize::MAX as int
    }
}

/// The name a token kind is reported under.
pub open spec fn token_name(t: Token) -> Seq<char> {
    match t {
        Token::Loop => "Loop"@,
        Token::Output => "Output"@,
        Token::Import => "Import"@,
        Token::End => "End"@,
        Token::As => "As"@,
        Token::LeftParentheses => "LeftParentheses"@,
        Token::RightParentheses => "RightParentheses"@,
        Token::LeftBracket => "LeftBracket"@,
        Token::RightBracket => "RightBracket"@,
        Token::LeftMustache => "LeftMustache"@,
        Token::RightMustache => "RightMustache"@,
        Token::DoubleDot => "DoubleDot"@,
        Token::Dot => "Dot"@,
        Token::Comma => "Comma"@,
        Token::Colon => "Colon"@,
        Token::SemiColon => "SemiColon"@,
        Token::Number => "Number"@,
        Token::Variable => "Variable"@,
        Token::EOF => "EOF"@,
        Token::Error => "Error"@,
    }
}

/// The message a parse failure carries.
pub open spec fn parse_fail_msg(f: FailModel) -> Seq<char> {
    match f {
        FailModel::Expected { expected, found } => "Expected "@ + token_name(expected) + ", found "@
            + token_name(found.token) + ".\nCurrent slice reads "@ + found.slice
            + ".\n The slice runs from "@ + dec_str(found.start as nat) + " to "@ + dec_str(
            found.end as nat,
        ),
        FailModel::EmptyOutput { .. } => "An output file must be specified at the top of the file"@,
        FailModel::EmptyImportValue { .. } => "Configs must be in the form of: \"name: value;\""@,
    }
}

/// The 1-based line a parse failure is reported at.
pub open spec fn parse_fail_line(text: Seq<char>, f: FailModel) -> int {
    match f {
        FailModel::Expected { expected, found } => line_of(text, found.start),
        FailModel::EmptyOutput { line } => line,
        FailModel::EmptyImportValue { line } => line,
    }
}

/// Consume the token at `i` when it has the expected kind; otherwise fail,
/// naming the expected and the found token.
pub open spec fn sp_consume(toks: Seq<TokenModel>, i: int, expected: Token) -> PRes<TokenModel> {
    let t = tok_at(toks, i);
    if t.token == expected {
        PRes::Good { node: t, next: adv(toks, i) }
    } else {
        PRes::Fail { err: FailModel::Expected { expected, found: t } }
    }
}

/// The raw token run of an output path: everything up to the closing
/// delimiter, the next directive, or the end of input.
pub open spec fn sp_output_vars(toks: Seq<TokenModel>, i: int) -> (Seq<TokenModel>, int)
    decreases toks.len() - i,
{
    let t = tok_at(toks, i);
    if 0 <= i < toks.len() - 1 && t.token != Token::EOF && t.token != Token::RightMustache
        && t.token != Token::LeftMustache {
        let (rest, j) = sp_output_vars(toks, i + 1);
        (seq![t] + rest, j)
    } else {
        (Seq::empty(), i)
    }
}

/// `output := '{{' 'output' rawRun '}}'`; yields the synthesized path token
/// spanning the raw run. An empty run is an error on the line of the
/// `output` keyword.
#[verifier::opaque]
pub open spec fn sp_output(text: Seq<char>, toks: Seq<TokenModel>, i: int) -> PRes<TokenModel> {
    match sp_consume(toks, i, Token::LeftMustache) {
        PRes::Fail { err } => PRes::Fail { err },
        PRes::Good { node: _, next: i1 } => match sp_consume(toks, i1, Token::Output) {
            PRes::Fail { err } => PRes::Fail { err },
            PRes::Good { node: out_kw, next: i2 } => {
                let (vars, i3) = sp_output_vars(toks, i2);
                if vars.len() == 0 {
                    PRes::Fail {
                        err: FailModel::EmptyOutput { line: line_of(text, out_kw.start) },
                    }
                } else {
                    match sp_consume(toks, i3, Token::RightMustache) {
                        PRes::Fail { err } => PRes::Fail { err },
                        PRes::Good { node: _, next: i4 } => PRes::Good {
                            node: TokenModel {
                                token: Token::Variable,
                                slice: text.subrange(vars[0].start, vars.last().end),
                                start: vars[0].start,
                                end: vars.last().end,
                            },
                            next: i4,
                        },
                    }
                }
            },
        },
    }
}

/// The raw token run of an import option value: everything up to the
/// semicolon, the next directive, or the end of input.
pub open spec fn sp_option_vars(toks: Seq<TokenModel>, i: int) -> (Seq<TokenModel>, int)
    decreases toks.len() - i,
{
    let t = tok_at(toks, i);
    if 0 <= i < toks.len() - 1 && t.token != Token::EOF && t.token != Token::SemiColon
        && t.token != Token::LeftMustache {
        let (rest, j) = sp_option_vars(toks, i + 1);
        (seq![t] + rest, j)
    } else {
        (Seq::empty(), i)
    }
}

/// `importOpt := Variable ':' rawRun ';'`; an empty run is an error on the
/// line of the colon.
#[verifier::opaque]
pub open spec fn sp_import_option(text: Seq<char>, toks: Seq<TokenModel>, i: int) -> PRes<
    ImportOptionModel,
> {
    match sp_consume(toks, i, Token::Variable) {
        PRes::Fail { err } => PRes::Fail { err },
        PRes::Good { node: variable, next: i1 } => match sp_consume(toks, i1, Token::Colon) {
            PRes::Fail { err } => PRes::Fail { err },
            PRes::Good { node: colon, next: i2 } => {
                let (vals, i3) = sp_option_vars(toks, i2);
                if vals.len() == 0 {
                    PRes::Fail {
                        err: FailModel::EmptyImportValue { line: line_of(text, colon.start) },
                    }
                } else {
                    match sp_consume(toks, i3, Token::SemiColon) {
                        PRes::Fail { err } => PRes::Fail { err },
                        PRes::Good { node: _, next: i4 } => PRes::Good {
                            node: ImportOptionModel {
                                variable,
                                value: TokenModel {
                                    token: Token::Variable,
                                    slice: text.subrange(vals[0].start, vals.last().end),
                                    start: vals[0].start,
                                    end: vals.last().end,
                                },
                            },
                            next: i4,
                        },
                    }
                }
            },
        },
    }
}

/// The option pairs of an import directive, up to the closing directive.
pub open spec fn sp_import_options(text: Seq<char>, toks: Seq<TokenModel>, i: int) -> PRes<
    Seq<ImportOptionModel>,
>
    decreases toks.len() - i,
{
    if 0 <= i < toks.len() && tok_at(toks, i).token != Token::LeftMustache {
        match sp_import_option(text, toks, i) {
            PRes::Fail { err } => PRes::Fail { err },
            PRes::Good { node: opt, next: j } => match sp_import_options(
                text,
                toks,
                bump(toks.len() as int, i, j),
            ) {
                PRes::Fail { err } => PRes::Fail { err },
                PRes::Good { node: rest, next: k } => PRes::Good {
                    node: seq![opt] + rest,
                    next: k,
                },
            },
        }
    } else {
        PRes::Good { node: Seq::empty(), next: i }
    }
}

/// `loopEnd := '{{' 'end' '}}'`.
pub open spec fn sp_loop_end(toks: Seq<TokenModel>, i: int) -> PRes<()> {
    match sp_consume(toks, i, Token::LeftMustache) {
        PRes::Fail { err } => PRes::Fail { err },
        PRes::Good { node: _, next: i1 } => match sp_consume(toks, i1, Token::End) {
            PRes::Fail { err } => PRes::Fail { err },
            PRes::Good { node: _, next: i2 } => match sp_consume(toks, i2, Token::RightMustache) {
                PRes::Fail { err } => PRes::Fail { err },
                PRes::Good { node: _, next: i3 } => PRes::Good { node: (), next: i3 },
            },
        },
    }
}

/// `importStmt := '{{' 'import' '}}' importOpt* '{{' 'end' '}}'`.
pub open spec fn sp_import(text: Seq<char>, toks: Seq<TokenModel>, i: int) -> PRes<ImportModel> {
    match sp_consume(toks, i, Token::LeftMustache) {
        PRes::Fail { err } => PRes::Fail { err },
        PRes::Good { node: _, next: i1 } => match sp_consume(toks, i1, Token::Import) {
            PRes::Fail { err } => PRes::Fail { err },
            PRes::Good { node: _, next: i2 } => match sp_consume(toks, i2, Token::RightMustache) {
                PRes::Fail { err } => PRes::Fail { err },
                PRes::Good { node: _, next: i3 } => match sp_import_options(text, toks, i3) {
                    PRes::Fail { err } => PRes::Fail { err },
                    PRes::Good { node: configs, next: i4 } => match sp_loop_end(toks, i4) {
                        PRes::Fail { err } => PRes::Fail { err },
                        PRes::Good { node: _, next: i5 } => PRes::Good {
                            node: ImportModel { configs },
                            next: i5,
                        },
                    },
                },
            },
        },
    }
}

/// `', ' Variable` inside a loop binding.
pub open spec fn sp_comma_variable(toks: Seq<TokenModel>, i: int) -> PRes<TokenModel> {
    match sp_consume(toks, i, Token::Comma) {
        PRes::Fail { err } => PRes::Fail { err },
        PRes::Good { node: _, next: i1 } => sp_consume(toks, i1, Token::Variable),
    }
}

/// `'(' Variable [',' Variable] ')'`.
pub open spec fn sp_loop_variable(toks: Seq<TokenModel>, i: int) -> PRes<LoopVariableModel> {
    match sp_consume(toks, i, Token::LeftParentheses) {
        PRes::Fail { err } => PRes::Fail { err },
        PRes::Good { node: _, next: i1 } => match sp_consume(toks, i1, Token::Variable) {
            PRes::Fail { err } => PRes::Fail { err },
            PRes::Good { node: variable, next: i2 } => {
                if tok_at(toks, i2).token == Token::Comma {
                    match sp_comma_variable(toks, i2) {
                        PRes::Fail { err } => PRes::Fail { err },
                        PRes::Good { node: second, next: i3 } => match sp_consume(
                            toks,
                            i3,
                            Token::RightParentheses,
                        ) {
                            PRes::Fail { err } => PRes::Fail { err },
                            PRes::Good { node: _, next: i4 } => PRes::Good {
                                node: LoopVariableModel { variable, second_variable: Some(second) },
                                next: i4,
                            },
                        },
                    }
                } else {
                    match sp_consume(toks, i2, Token::RightParentheses) {
                        PRes::Fail { err } => PRes::Fail { err },
                        PRes::Good { node: _, next: i4 } => PRes::Good {
                            node: LoopVariableModel { variable, second_variable: None },
                            next: i4,
                        },
                    }
                }
            },
        },
    }
}

/// `'as' Variable`.
pub open spec fn sp_as_variable(toks: Seq<TokenModel>, i: int) -> PRes<TokenModel> {
    match sp_consume(toks, i, Token::As) {
        PRes::Fail { err } => PRes::Fail { err },
        PRes::Good { node: _, next: i1 } => sp_consume(toks, i1, Token::Variable),
    }
}

/// The token inside a bracket index: a variable if one stands there,
/// otherwise a number is required.
pub open spec fn sp_array_bracket_index(toks: Seq<TokenModel>, i: int) -> PRes<TokenModel> {
    if tok_at(toks, i).token == Token::Variable {
        sp_consume(toks, i, Token::Variable)
    } else {
        sp_consume(toks, i, Token::Number)
    }
}

/// `bracketIdx := '[' (Variable|Number) ']'`; yields the index token.
pub open spec fn sp_array_bracket(toks: Seq<TokenModel>, i: int) -> PRes<TokenModel> {
    match sp_consume(toks, i, Token::LeftBracket) {
        PRes::Fail { err } => PRes::Fail { err },
        PRes::Good { node: _, next: i1 } => match sp_array_bracket_index(toks, i1) {
            PRes::Fail { err } => PRes::Fail { err },
            PRes::Good { node: tok, next: i2 } => match sp_consume(toks, i2, Token::RightBracket) {
                PRes::Fail { err } => PRes::Fail { err },
                PRes::Good { node: _, next: i3 } => PRes::Good { node: tok, next: i3 },
            },
        },
    }
}

/// One bound of a slice: `..`, a variable, or a number.
pub open spec fn sp_array_slice_index(toks: Seq<TokenModel>, i: int) -> PRes<TokenModel> {
    let t = tok_at(toks, i);
    if t.token == Token::DoubleDot {
        sp_consume(toks, i, Token::DoubleDot)
    } else if t.token == Token::Variable {
        sp_consume(toks, i, Token::Variable)
    } else {
        sp_consume(toks, i, Token::Number)
    }
}

/// `slice := '[' bound ',' bound ']'`.
pub open spec fn sp_array_slice(toks: Seq<TokenModel>, i: int) -> PRes<SliceModel> {
    match sp_consume(toks, i, Token::LeftBracket) {
        PRes::Fail { err } => PRes::Fail { err },
        PRes::Good { node: _, next: i1 } => match sp_array_slice_index(toks, i1) {
            PRes::Fail { err } => PRes::Fail { err },
            PRes::Good { node: lo, next: i2 } => match sp_consume(toks, i2, Token::Comma) {
                PRes::Fail { err } => PRes::Fail { err },
                PRes::Good { node: _, next: i3 } => match sp_array_slice_index(toks, i3) {
                    PRes::Fail { err } => PRes::Fail { err },
                    PRes::Good { node: hi, next: i4 } => match sp_consume(
                        toks,
                        i4,
                        Token::RightBracket,
                    ) {
                        PRes::Fail { err } => PRes::Fail { err },
                        PRes::Good { node: _, next: i5 } => PRes::Good {
                            node: SliceModel { start_index: lo, end_index: hi },
                            next: i5,
                        },
                    },
                },
            },
        },
    }
}

/// The bracket indexes of a substitution accessor.
pub open spec fn sp_accessor_indexes(toks: Seq<TokenModel>, i: int) -> PRes<Seq<TokenModel>>
    decreases toks.len() - i,
{
    if 0 <= i < toks.len() && tok_at(toks, i).token == Token::LeftBracket {
        match sp_array_bracket(toks, i) {
            PRes::Fail { err } => PRes::Fail { err },
            PRes::Good { node: tok, next: j } => match sp_accessor_indexes(
                toks,
                bump(toks.len() as int, i, j),
            ) {
                PRes::Fail { err } => PRes::Fail { err },
                PRes::Good { node: rest, next: k } => PRes::Good {
                    node: seq![tok] + rest,
                    next: k,
                },
            },
        }
    } else {
        PRes::Good { node: Seq::empty(), next: i }
    }
}

/// `accessor := Variable bracketIdx*`.
#[verifier::opaque]
pub open spec fn sp_accessor(toks: Seq<TokenModel>, i: int) -> PRes<AccessorModel> {
    match sp_consume(toks, i, Token::Variable) {
        PRes::Fail { err } => PRes::Fail { err },
        PRes::Good { node: variable, next: i1 } => match sp_accessor_indexes(toks, i1) {
            PRes::Fail { err } => PRes::Fail { err },
            PRes::Good { node: indexes, next: i2 } => PRes::Good {
                node: AccessorModel { variable, indexes },
                next: i2,
            },
        },
    }
}

/// A `[` opens a slice rather than an index exactly when its bracketed
/// token is a variable, `..`, or a number immediately followed by a comma.
pub open spec fn opens_slice(toks: Seq<TokenModel>, i: int) -> bool {
    let p1 = peek1(toks, i);
    let p2 = peek2(toks, i);
    (p1.token == Token::Variable || p1.token == Token::DoubleDot || p1.token == Token::Number)
        && p2.token == Token::Comma
}

/// The bracket indexes of a loop-header accessor; stops where a slice
/// clause begins.
pub open spec fn sp_array_indexes(toks: Seq<TokenModel>, i: int) -> PRes<Seq<TokenModel>>
    decreases toks.len() - i,
{
    if 0 <= i < toks.len() && tok_at(toks, i).token == Token::LeftBracket {
        if opens_slice(toks, i) {
            PRes::Good { node: Seq::empty(), next: i }
        } else {
            match sp_array_bracket(toks, i) {
                PRes::Fail { err } => PRes::Fail { err },
                PRes::Good { node: tok, next: j } => match sp_array_indexes(
                    toks,
                    bump(toks.len() as int, i, j),
                ) {
                    PRes::Fail { err } => PRes::Fail { err },
                    PRes::Good { node: rest, next: k } => PRes::Good {
                        node: seq![tok] + rest,
                        next: k,
                    },
                },
            }
        }
    } else {
        PRes::Good { node: Seq::empty(), next: i }
    }
}

/// `arrayAcc := Variable bracketIdx* [ slice ]`.
#[verifier::opaque]
pub open spec fn sp_array_accessor(toks: Seq<TokenModel>, i: int) -> PRes<ArrayAccessorModel> {
    match sp_consume(toks, i, Token::Variable) {
        PRes::Fail { err } => PRes::Fail { err },
        PRes::Good { node: variable, next: i1 } => match sp_array_indexes(toks, i1) {
            PRes::Fail { err } => PRes::Fail { err },
            PRes::Good { node: indexes, next: i2 } => {
                if tok_at(toks, i2).token == Token::LeftBracket {
                    match sp_array_slice(toks, i2) {
                        PRes::Fail { err } => PRes::Fail { err },
                        PRes::Good { node: s, next: i3 } => PRes::Good {
                            node: ArrayAccessorModel { variable, indexes, array_slice: Some(s) },
                            next: i3,
                        },
                    }
                } else {
                    PRes::Good {
                        node: ArrayAccessorModel { variable, indexes, array_slice: None },
                        next: i2,
                    }
                }
            },
        },
    }
}

/// `loopStart := '{{' 'loop' [binding] arrayAcc ['as' Variable] '}}'`.
#[verifier::opaque]
pub open spec fn sp_loop_start(toks: Seq<TokenModel>, i: int) -> PRes<LoopStartModel> {
    match sp_consume(toks, i, Token::LeftMustache) {
        PRes::Fail { err } => PRes::Fail { err },
        PRes::Good { node: _, next: i1 } => match sp_consume(toks, i1, Token::Loop) {
            PRes::Fail { err } => PRes::Fail { err },
            PRes::Good { node: _, next: i2 } => {
                let lv = if tok_at(toks, i2).token == Token::LeftParentheses {
                    match sp_loop_variable(toks, i2) {
                        PRes::Fail { err } => PRes::Fail { err },
                        PRes::Good { node: lv, next: j } => PRes::Good {
                            node: Some(lv),
                            next: j,
                        },
                    }
                } else {
                    PRes::Good { node: None, next: i2 }
                };
                match lv {
                    PRes::Fail { err } => PRes::Fail { err },
                    PRes::Good { node: loop_variable, next: i3 } => match sp_array_accessor(
                        toks,
                        i3,
                    ) {
                        PRes::Fail { err } => PRes::Fail { err },
                        PRes::Good { node: array_accessor, next: i4 } => {
                            let av = if tok_at(toks, i4).token == Token::As {
                                match sp_as_variable(toks, i4) {
                                    PRes::Fail { err } => PRes::Fail { err },
                                    PRes::Good { node: v, next: j } => PRes::Good {
                                        node: Some(v),
                                        next: j,
                                    },
                                }
                            } else {
                                PRes::Good { node: None, next: i4 }
                            };
                            match av {
                                PRes::Fail { err } => PRes::Fail { err },
                                PRes::Good { node: as_variable, next: i5 } => match sp_consume(
                                    toks,
                                    i5,
                                    Token::RightMustache,
                                ) {
                                    PRes::Fail { err } => PRes::Fail { err },
                                    PRes::Good { node: _, next: i6 } => PRes::Good {
                                        node: LoopStartModel {
                                            loop_variable,
                                            array_accessor,
                                            as_variable,
                                        },
                                        next: i6,
                                    },
                                },
                            }
                        },
                    },
                }
            },
        },
    }
}

/// `mustacheAcc := '{{' accessor '}}'`.
pub open spec fn sp_mustache(toks: Seq<TokenModel>, i: int) -> PRes<ExprModel> {
    match sp_consume(toks, i, Token::LeftMustache) {
        PRes::Fail { err } => PRes::Fail { err },
        PRes::Good { node: _, next: i1 } => match sp_accessor(toks, i1) {
            PRes::Fail { err } => PRes::Fail { err },
            PRes::Good { node: accessor, next: i2 } => match sp_consume(
                toks,
                i2,
                Token::RightMustache,
            ) {
                PRes::Fail { err } => PRes::Fail { err },
                PRes::Good { node: _, next: i3 } => PRes::Good {
                    node: ExprModel::MustacheAccessor { accessor },
                    next: i3,
                },
            },
        },
    }
}

/// Where the whitespace run that precedes offset `p + 1` begins, scanning
/// backward from `p` and stopping at offset 0 without testing it.
pub open spec fn back_scan(text: Seq<char>, p: int) -> int
    decreases p,
{
    if 0 < p < text.len() && is_space_char(text[p]) {
        back_scan(text, p - 1)
    } else {
        p
    }
}

/// The extended start of a literal token at offset `i`: the span grows
/// backward over contiguous whitespace.
pub open spec fn back_ext(text: Seq<char>, i: int) -> int {
    back_scan(text, i - 1) + 1
}

/// The literal run starting at token `i`: tokens up to the next directive
/// or the end of input, each with its span extended over the surrounding
/// whitespace.
pub open spec fn sp_anything_items(text: Seq<char>, toks: Seq<TokenModel>, i: int) -> (
    Seq<TokenModel>,
    int,
)
    decreases toks.len() - i,
{
    let t = tok_at(toks, i);
    if 0 <= i < toks.len() - 1 && t.token != Token::EOF && t.token != Token::LeftMustache {
        let ext = TokenModel {
            token: t.token,
            slice: t.slice,
            start: back_ext(text, t.start),
            end: spaces_end(text, t.end),
        };
        let (rest, j) = sp_anything_items(text, toks, i + 1);
        (seq![ext] + rest, j)
    } else {
        (Seq::empty(), i)
    }
}

/// `anything := run of non-directive tokens`, re-spanned over whitespace.
pub open spec fn sp_anything(text: Seq<char>, toks: Seq<TokenModel>, i: int) -> (ExprModel, int) {
    let (items, j) = sp_anything_items(text, toks, i);
    (ExprModel::Anything { tokens: items }, j)
}

/// The items of a block: directives and literal runs until the end of
/// input or a bare `{{end}}`. Imports are collected apart from the other
/// children, in source order.
pub open spec fn sp_block_items(text: Seq<char>, toks: Seq<TokenModel>, i: int) -> PRes<
    (Seq<ImportModel>, Seq<ExprModel>),
>
    decreases toks.len() - i, 1int,
{
    if 0 <= i < toks.len() {
        let t = tok_at(toks, i);
        if t.token == Token::EOF {
            PRes::Good { node: (Seq::empty(), Seq::empty()), next: i }
        } else if t.token == Token::LeftMustache {
            let p1 = peek1(toks, i);
            if p1.token == Token::Loop {
                match sp_loop(text, toks, i) {
                    PRes::Fail { err } => PRes::Fail { err },
                    PRes::Good { node: e, next: j } => match sp_block_items(
                        text,
                        toks,
                        bump(toks.len() as int, i, j),
                    ) {
                        PRes::Fail { err } => PRes::Fail { err },
                        PRes::Good { node: (im, bl), next: k } => PRes::Good {
                            node: (im, seq![e] + bl),
                            next: k,
                        },
                    },
                }
            } else if p1.token == Token::Import {
                match sp_import(text, toks, i) {
                    PRes::Fail { err } => PRes::Fail { err },
                    PRes::Good { node: imp, next: j } => match sp_block_items(
                        text,
                        toks,
                        bump(toks.len() as int, i, j),
                    ) {
                        PRes::Fail { err } => PRes::Fail { err },
                        PRes::Good { node: (im, bl), next: k } => PRes::Good {
                            node: (seq![imp] + im, bl),
                            next: k,
                        },
                    },
                }
            } else if p1.token == Token::End {
                PRes::Good { node: (Seq::empty(), Seq::empty()), next: i }
            } else {
                match sp_mustache(toks, i) {
                    PRes::Fail { err } => PRes::Fail { err },
                    PRes::Good { node: e, next: j } => match sp_block_items(
                        text,
                        toks,
                        bump(toks.len() as int, i, j),
                    ) {
                        PRes::Fail { err } => PRes::Fail { err },
                        PRes::Good { node: (im, bl), next: k } => PRes::Good {
                            node: (im, seq![e] + bl),
                            next: k,
                        },
                    },
                }
            }
        } else {
            let (e, j) = sp_anything(text, toks, i);
            match sp_block_items(text, toks, bump(toks.len() as int, i, j)) {
                PRes::Fail { err } => PRes::Fail { err },
                PRes::Good { node: (im, bl), next: k } => PRes::Good {
                    node: (im, seq![e] + bl),
                    next: k,
                },
            }
        }
    } else {
        PRes::Good { node: (Seq::empty(), Seq::empty()), next: i }
    }
}

/// `block := (importStmt | loopStmt | mustacheAcc | anything)*`.
pub open spec fn sp_block(text: Seq<char>, toks: Seq<TokenModel>, i: int) -> PRes<ExprModel>
    decreases toks.len() - i, 2int,
{
    match sp_block_items(text, toks, i) {
        PRes::Fail { err } => PRes::Fail { err },
        PRes::Good { node: (imports, blocks), next } => PRes::Good {
            node: ExprModel::Block { imports, blocks },
            next,
        },
    }
}

/// `loopStmt := loopStart block loopEnd`.
pub open spec fn sp_loop(text: Seq<char>, toks: Seq<TokenModel>, i: int) -> PRes<ExprModel>
    decreases toks.len() - i, 0int,
{
    if 0 <= i < toks.len() {
        match sp_loop_start(toks, i) {
            PRes::Fail { err } => PRes::Fail { err },
            PRes::Good { node: ls, next: j } => match sp_block(
                text,
                toks,
                bump(toks.len() as int, i, j),
            ) {
                PRes::Fail { err } => PRes::Fail { err },
                PRes::Good { node: body, next: k } => match sp_loop_end(toks, k) {
                    PRes::Fail { err } => PRes::Fail { err },
                    PRes::Good { node: _, next: m } => PRes::Good {
                        node: ExprModel::Loop { loop_start: ls, block: Box::new(body) },
                        next: m,
                    },
                },
            },
        }
    } else {
        PRes::Fail {
            err: FailModel::Expected { expected: Token::LeftMustache, found: tok_at(toks, i) },
        }
    }
}

/// `start := output block`; the root of every parse.
pub open spec fn sp_start(text: Seq<char>, toks: Seq<TokenModel>, i: int) -> PRes<ExprModel>
    decreases toks.len() - i, 3int,
{
    if 0 <= i < toks.len() {
        match sp_output(text, toks, i) {
            PRes::Fail { err } => PRes::Fail { err },
            PRes::Good { node: output, next: j } => match sp_block(
                text,
                toks,
                bump(toks.len() as int, i, j),
            ) {
                PRes::Fail { err } => PRes::Fail { err },
                PRes::Good { node: body, next: k } => PRes::Good {
                    node: ExprModel::Start { output, expr: Box::new(body) },
                    next: k,
                },
            },
        }
    } else {
        PRes::Fail {
            err: FailModel::Expected { expected: Token::LeftMustache, found: tok_at(toks, i) },
        }
    }
}

/// What parsing a whole source text yields.
pub open spec fn spec_parse(text: Seq<char>) -> PRes<ExprModel> {
    sp_start(text, token_stream(text), 0)
}

// ---------------------------------------------------------------------------
// Errors.
// ---------------------------------------------------------------------------

/// The mathematical content of a parse error.
pub struct ParseErrorModel {
    pub line: int,
    pub msg: Seq<char>,
}

/// A failed parse: a human-readable message and the 1-based source line it
/// is reported at.
pub struct ParseError {
    line_number: usize,
    pub msg: String,
}

impl View for ParseError {
    type V = ParseErrorModel;

    closed spec fn view(&self) -> ParseErrorModel {
        ParseErrorModel { line: self.line_number as int, msg: self.msg@ }
    }
}

/// The full report a parse error displays.
pub open spec fn error_display(m: ParseErrorModel) -> Seq<char> {
    "Error at line number "@ + dec_str(m.line as nat) + "\n"@ + m.msg
}

impl ParseError {
    /// Render this error as its full report.
    pub fn display_string(&self) -> (r: String)
        ensures
            r@ == error_display(self@),
    {
        let mut m = String::from_str("Error at line number ");
        let n = usize_to_string(self.line_number);
        m.append(n.as_str());
        m.append("\n");
        m.append(self.msg.as_str());
        proof {
            assert(m@ =~= error_display(self@));
        }
        m
    }
}

fn token_name_str(t: Token) -> (r: &'static str)
    ensures
        r@ == token_name(t),
{
    match t {
        Token::Loop => "Loop",
        Token::Output => "Output",
        Token::Import => "Import",
        Token::End => "End",
        Token::As => "As",
        Token::LeftParentheses => "LeftParentheses",
        Token::RightParentheses => "RightParentheses",
        Token::LeftBracket => "LeftBracket",
        Token::RightBracket => "RightBracket",
        Token::LeftMustache => "LeftMustache",
        Token::RightMustache => "RightMustache",
        Token::DoubleDot => "DoubleDot",
        Token::Dot => "Dot",
        Token::Comma => "Comma",
        Token::Colon => "Colon",
        Token::SemiColon => "SemiColon",
        Token::Number => "Number",
        Token::Variable => "Variable",
        Token::EOF => "EOF",
        Token::Error => "Error",
    }
}

fn make_expected_error(expected: Token, found: InfoToken, line: usize) -> (e: ParseError)
    ensures
        e@.msg == parse_fail_msg(FailModel::Expected { expected, found: found@ }),
        e@.line == line as int,
{
    let mut m = String::from_str("Expected ");
    m.append(token_name_str(expected));
    m.append(", found ");
    m.append(token_name_str(found.token));
    m.append(".\nCurrent slice reads ");
    m.append(found.slice.as_str());
    m.append(".\n The slice runs from ");
    let a = usize_to_string(found.start);
    m.append(a.as_str());
    m.append(" to ");
    let b = usize_to_string(found.end);
    m.append(b.as_str());
    proof {
        assert(m@ =~= parse_fail_msg(FailModel::Expected { expected, found: found@ }));
    }
    ParseError { line_number: line, msg: m }
}

// ---------------------------------------------------------------------------
// The executable parser.
// ---------------------------------------------------------------------------

/// Recursive-descent parser over one source text; the first structural
/// mismatch aborts the whole parse.
pub struct Parser {
    pub text: String,
    pub lexer: Tokenizer,
    pub current_line: usize,
}

impl Parser {
    /// The token cursor walks the token stream of the stored text.
    pub open spec fn wf(self) -> bool {
        &&& self.lexer.wf()
        &&& self.lexer.stream() == token_stream(self.text@)
        &&& stream_wf(self.lexer.stream(), self.text@)
    }

    pub open spec fn stream(self) -> Seq<TokenModel> {
        self.lexer.stream()
    }

    pub open spec fn at(self) -> int {
        self.lexer.cursor_pos()
    }

    /// Construct a parser over `text`.
    pub fn new(text: &str) -> (p: Parser)
        ensures
            p.wf(),
            p.text@ == text@,
            p.at() == 0,
            p.lexer.peek_offset() == 1,
            p.current_line == 0,
    {
        let p = Parser {
            text: String::from_str(text),
            lexer: Tokenizer::new(text),
            current_line: 0,
        };
        proof {
            lemma_token_stream_wf(text@, 0);
        }
        p
    }

    /// 1-based line number of character offset `index`: one more than the
    /// newline count of the preceding text.
    pub fn get_line_count_at_index(&self, index: usize) -> (r: usize)
        requires
            index <= self.text@.len(),
        ensures
            r as int == line_of(self.text@, index as int),
    {
        let s = self.text.as_str();
        let mut count: usize = 0;
        let mut i: usize = 0;
        while i < index
            invariant
                index <= s@.len(),
                s@ == self.text@,
                i <= index,
                count as int == newline_count(self.text@, i as int),
                count <= i,
            decreases index - i,
        {
            if s.get_char(i) == '\n' {
                count = count + 1;
            }
            i = i + 1;
        }
        if count == usize::MAX {
            count
        } else {
            count + 1
        }
    }

    /// Consume the current token when it has the expected kind; otherwise
    /// report what was expected and what stood there.
    fn consume(&mut self, next: Token) -> (r: Result<InfoToken, ParseError>)
        requires
            old(self).wf(),
        ensures
            final(self).wf(),
            final(self).text@ == old(self).text@,
            final(self).stream() == old(self).stream(),
            final(self).current_line as int == line_of(
                old(self).text@,
                tok_at(old(self).stream(), old(self).at()).start,
            ),
            ({
                let res = sp_consume(old(self).stream(), old(self).at(), next);
                match r {
                    Ok(tok) => {
                        &&& res is Good
                        &&& tok@ == res->node
                        &&& final(self).at() == res->next
                        &&& final(self).lexer.peek_offset() == 1
                        &&& (next != Token::EOF ==> final(self).at() == old(self).at() + 1
                            && old(self).at() < old(self).stream().len() - 1)
                    },
                    Err(e) => {
                        &&& res is Fail
                        &&& e@.msg == parse_fail_msg(res->err)
                        &&& e@.line == parse_fail_line(old(self).text@, res->err)
                        &&& final(self).at() == old(self).at()
                    },
                }
            }),
    {
        let found = self.lexer.info().duplicate();
        proof {
            assert(found@ == tok_at(old(self).stream(), old(self).at()));
            assert(found.start <= self.text@.len());
        }
        let line = self.get_line_count_at_index(found.start);
        self.current_line = line;
        if found.token == next {
            proof {
                if next != Token::EOF {
                    assert(old(self).at() < old(self).stream().len() - 1);
                }
            }
            self.lexer.advance();
            Ok(found)
        } else {
            Err(make_expected_error(next, found, line))
        }
    }

    /// Parse the entire source text into its root node, or report the first
    /// structural mismatch.
    pub fn parse(&mut self) -> (r: Result<Expr, ParseError>)
        requires
            old(self).wf(),
            old(self).lexer.peek_offset() == 1,
        ensures
            final(self).wf(),
            final(self).text@ == old(self).text@,
            ({
                let res = sp_start(old(self).text@, old(self).stream(), old(self).at());
                match r {
                    Ok(node) => res is Good && node@ == res->node,
                    Err(e) => res is Fail && e@.msg == parse_fail_msg(res->err) && e@.line
                        == parse_fail_line(old(self).text@, res->err),
                }
            }),
    {
        self.start()
    }

    fn start(&mut self) -> (r: Result<Expr, ParseError>)
        requires
            old(self).wf(),
            old(self).lexer.peek_offset() == 1,
        ensures
            final(self).wf(),
            final(self).text@ == old(self).text@,
            final(self).stream() == old(self).stream(),
            ({
                let res = sp_start(old(self).text@, old(self).stream(), old(self).at());
                match r {
                    Ok(node) => res is Good && node@ == res->node && final(self).at() == res->next,
                    Err(e) => res is Fail && e@.msg == parse_fail_msg(res->err) && e@.line
                        == parse_fail_line(old(self).text@, res->err),
                }
            }),
    {
        proof {
            assert(0 <= old(self).at() < old(self).stream().len());
        }
        let output = match self.output() {
            Ok(o) => o,
            Err(e) => {
                return Err(e);
            },
        };
        let expr = match self.block() {
            Ok(b) => b,
            Err(e) => {
                return Err(e);
            },
        };
        Ok(Expr::Start(Box::new(StartExpr { output, expr })))
    }

    #[verifier::rlimit(60)]
    fn output(&mut self) -> (r: Result<OutputExpr, ParseError>)
        requires
            old(self).wf(),
        ensures
            final(self).wf(),
            final(self).text@ == old(self).text@,
            final(self).stream() == old(self).stream(),
            ({
                let res = sp_output(old(self).text@, old(self).stream(), old(self).at());
                match r {
                    Ok(node) => res is Good && node@ == res->node && final(self).at() == res->next
                        && final(self).at() > old(self).at() && final(self).lexer.peek_offset()
                        == 1,
                    Err(e) => res is Fail && e@.msg == parse_fail_msg(res->err) && e@.line
                        == parse_fail_line(old(self).text@, res->err),
                }
            }),
    {
        proof {
            reveal(sp_output);
        }
        let left_mustache = match self.consume(Token::LeftMustache) {
            Ok(t) => t,
            Err(e) => {
                return Err(e);
            },
        };
        let output = match self.consume(Token::Output) {
            Ok(t) => t,
            Err(e) => {
                return Err(e);
            },
        };
        let ghost c2 = self.at();
        let ghost out_line = self.current_line as int;
        let mut vars: Vec<InfoToken> = Vec::new();
        proof {
            assert(sp_output_vars(self.stream(), c2).0 =~= vars.deep_view() + sp_output_vars(
                self.stream(),
                c2,
            ).0);
        }
        loop
            invariant_except_break
                self.wf(),
                self.text@ == old(self).text@,
                self.stream() == old(self).stream(),
                c2 <= self.at() < self.stream().len(),
                vars@.len() == self.at() - c2,
                forall|k: int|
                    0 <= k < vars@.len() ==> (#[trigger] vars@[k])@ == self.stream()[c2 + k],
                sp_output_vars(self.stream(), c2).0 == vars.deep_view() + sp_output_vars(
                    self.stream(),
                    self.at(),
                ).0,
                sp_output_vars(self.stream(), c2).1 == sp_output_vars(self.stream(), self.at()).1,
                vars@.len() > 0 ==> self.lexer.peek_offset() == 1,
                vars@.len() == 0 ==> self.current_line as int == out_line,
            ensures
                self.wf(),
                self.text@ == old(self).text@,
                self.stream() == old(self).stream(),
                c2 <= self.at() < self.stream().len(),
                vars@.len() == self.at() - c2,
                forall|k: int|
                    0 <= k < vars@.len() ==> (#[trigger] vars@[k])@ == self.stream()[c2 + k],
                sp_output_vars(self.stream(), c2).0 == vars.deep_view(),
                sp_output_vars(self.stream(), c2).1 == self.at(),
                vars@.len() > 0 ==> self.lexer.peek_offset() == 1,
                vars@.len() == 0 ==> self.current_line as int == out_line,
            decreases self.stream().len() - self.at(),
        {
            let t = self.lexer.info().token;
            if t == Token::EOF || t == Token::RightMustache || t == Token::LeftMustache {
                proof {
                    assert(sp_output_vars(self.stream(), self.at()) == (
                        Seq::<TokenModel>::empty(),
                        self.at(),
                    ));
                    assert(sp_output_vars(self.stream(), c2).0 =~= vars.deep_view());
                }
                break ;
            }
            let ghost pre_at = self.at();
            let ghost pre_dv = vars.deep_view();
            let tok = match self.consume(t) {
                Ok(tok) => tok,
                Err(e) => {
                    proof {
                        assert(false);
                    }
                    return Err(e);
                },
            };
            vars.push(tok);
            proof {
                assert(vars.deep_view() =~= pre_dv + seq![tok@]);
                assert(sp_output_vars(self.stream(), pre_at).0 =~= seq![tok@] + sp_output_vars(
                    self.stream(),
                    self.at(),
                ).0);
                assert(sp_output_vars(self.stream(), c2).0 =~= vars.deep_view() + sp_output_vars(
                    self.stream(),
                    self.at(),
                ).0);
            }
        }
        if vars.len() == 0 {
            proof {
                let res = sp_output(old(self).text@, old(self).stream(), old(self).at());
                assert(res is Fail);
            }
            return Err(ParseError {
                msg: String::from_str("An output file must be specified at the top of the file"),
                line_number: self.current_line,
            });
        }
        proof {
            let s = self.stream();
            let a = vars@[0]@;
            let b = vars@[vars@.len() - 1]@;
            assert(a == s[c2]);
            assert(b == s[c2 + vars@.len() - 1]);
            assert(a.start <= b.end <= self.text@.len());
        }
        let a = vars[0].start;
        let b = vars[vars.len() - 1].end;
        let value_text = String::from_str(self.text.as_str().substring_char(a, b));
        let value = InfoToken { token: Token::Variable, slice: value_text, start: a, end: b };
        let right_mustache = match self.consume(Token::RightMustache) {
            Ok(t) => t,
            Err(e) => {
                return Err(e);
            },
        };
        proof {
            let res = sp_output(old(self).text@, old(self).stream(), old(self).at());
            assert(res is Good);
            assert(value@ == res->node);
        }
        Ok(OutputExpr { left_mustache, output, file_path: value, right_mustache })
    }

    fn comma_variable(&mut self) -> (r: Result<CommaVariableExpr, ParseError>)
        requires
            old(self).wf(),
        ensures
            final(self).wf(),
            final(self).text@ == old(self).text@,
            final(self).stream() == old(self).stream(),
            ({
                let res = sp_comma_variable(old(self).stream(), old(self).at());
                match r {
                    Ok(node) => res is Good && node.variable@ == res->node && final(self).at()
                        == res->next && final(self).at() > old(self).at()
                        && final(self).lexer.peek_offset() == 1,
                    Err(e) => res is Fail && e@.msg == parse_fail_msg(res->err) && e@.line
                        == parse_fail_line(old(self).text@, res->err),
                }
            }),
    {
        let comma = match self.consume(Token::Comma) {
            Ok(t) => t,
            Err(e) => {
                return Err(e);
            },
        };
        let variable = match self.consume(Token::Variable) {
            Ok(t) => t,
            Err(e) => {
                return Err(e);
            },
        };
        Ok(CommaVariableExpr { comma, variable })
    }

    fn as_variable(&mut self) -> (r: Result<AsVariableExpr, ParseError>)
        requires
            old(self).wf(),
        ensures
            final(self).wf(),
            final(self).text@ == old(self).text@,
            final(self).stream() == old(self).stream(),
            ({
                let res = sp_as_variable(old(self).stream(), old(self).at());
                match r {
                    Ok(node) => res is Good && node.variable@ == res->node && final(self).at()
                        == res->next && final(self).at() > old(self).at()
                        && final(self).lexer.peek_offset() == 1,
                    Err(e) => res is Fail && e@.msg == parse_fail_msg(res->err) && e@.line
                        == parse_fail_line(old(self).text@, res->err),
                }
            }),
    {
        let as_word = match self.consume(Token::As) {
            Ok(t) => t,
            Err(e) => {
                return Err(e);
            },
        };
        let variable = match self.consume(Token::Variable) {
            Ok(t) => t,
            Err(e) => {
                return Err(e);
            },
        };
        Ok(AsVariableExpr { as_word, variable })
    }

    fn loop_end(&mut self) -> (r: Result<EndExpr, ParseError>)
        requires
            old(self).wf(),
        ensures
            final(self).wf(),
            final(self).text@ == old(self).text@,
            final(self).stream() == old(self).stream(),
            ({
                let res = sp_loop_end(old(self).stream(), old(self).at());
                match r {
                    Ok(node) => res is Good && final(self).at() == res->next && final(self).at()
                        > old(self).at() && final(self).lexer.peek_offset() == 1,
                    Err(e) => res is Fail && e@.msg == parse_fail_msg(res->err) && e@.line
                        == parse_fail_line(old(self).text@, res->err),
                }
            }),
    {
        let left_mustache = match self.consume(Token::LeftMustache) {
            Ok(t) => t,
            Err(e) => {
                return Err(e);
            },
        };
        let end = match self.consume(Token::End) {
            Ok(t) => t,
            Err(e) => {
                return Err(e);
            },
        };
        let right_mustache = match self.consume(Token::RightMustache) {
            Ok(t) => t,
            Err(e) => {
                return Err(e);
            },
        };
        Ok(EndExpr { left_mustache, end, right_mustache })
    }

    fn loop_variable(&mut self) -> (r: Result<ParenVariableParenExpr, ParseError>)
        requires
            old(self).wf(),
        ensures
            final(self).wf(),
            final(self).text@ == old(self).text@,
            final(self).stream() == old(self).stream(),
            ({
                let res = sp_loop_variable(old(self).stream(), old(self).at());
                match r {
                    Ok(node) => res is Good && node@ == res->node && final(self).at() == res->next
                        && final(self).at() > old(self).at() && final(self).lexer.peek_offset()
                        == 1,
                    Err(e) => res is Fail && e@.msg == parse_fail_msg(res->err) && e@.line
                        == parse_fail_line(old(self).text@, res->err),
                }
            }),
    {
        let left_paren = match self.consume(Token::LeftParentheses) {
            Ok(t) => t,
            Err(e) => {
                return Err(e);
            },
        };
        let variable = match self.consume(Token::Variable) {
            Ok(t) => t,
            Err(e) => {
                return Err(e);
            },
        };
        let second_variable = if self.lexer.info().token == Token::Comma {
            match self.comma_variable() {
                Ok(c) => Some(c),
                Err(e) => {
                    return Err(e);
                },
            }
        } else {
            None
        };
        let right_paren = match self.consume(Token::RightParentheses) {
            Ok(t) => t,
            Err(e) => {
                return Err(e);
            },
        };
        Ok(ParenVariableParenExpr { left_paren, variable, second_variable, right_paren })
    }

    fn array_bracket_index(&mut self) -> (r: Result<ArrayBracketIndexExpr, ParseError>)
        requires
            old(self).wf(),
        ensures
            final(self).wf(),
            final(self).text@ == old(self).text@,
            final(self).stream() == old(self).stream(),
            ({
                let res = sp_array_bracket_index(old(self).stream(), old(self).at());
                match r {
                    Ok(node) => res is Good && node@ == res->node && final(self).at() == res->next
                        && final(self).at() > old(self).at() && final(self).lexer.peek_offset()
                        == 1,
                    Err(e) => res is Fail && e@.msg == parse_fail_msg(res->err) && e@.line
                        == parse_fail_line(old(self).text@, res->err),
                }
            }),
    {
        let t = self.lexer.info().token;
        let token = if t == Token::Variable {
            match self.consume(Token::Variable) {
                Ok(t) => t,
                Err(e) => {
                    return Err(e);
                },
            }
        } else {
            match self.consume(Token::Number) {
                Ok(t) => t,
                Err(e) => {
                    return Err(e);
                },
            }
        };
        Ok(ArrayBracketIndexExpr { token })
    }

    fn array_bracket(&mut self) -> (r: Result<ArrayBracketExpr, ParseError>)
        requires
            old(self).wf(),
        ensures
            final(self).wf(),
            final(self).text@ == old(self).text@,
            final(self).stream() == old(self).stream(),
            ({
                let res = sp_array_bracket(old(self).stream(), old(self).at());
                match r {
                    Ok(node) => res is Good && node@ == res->node && final(self).at() == res->next
                        && final(self).at() > old(self).at() && final(self).lexer.peek_offset()
                        == 1,
                    Err(e) => res is Fail && e@.msg == parse_fail_msg(res->err) && e@.line
                        == parse_fail_line(old(self).text@, res->err),
                }
            }),
    {
        let left_paren = match self.consume(Token::LeftBracket) {
            Ok(t) => t,
            Err(e) => {
                return Err(e);
            },
        };
        let variable = match self.array_bracket_index() {
            Ok(t) => t,
            Err(e) => {
                return Err(e);
            },
        };
        let right_paren = match self.consume(Token::RightBracket) {
            Ok(t) => t,
            Err(e) => {
                return Err(e);
            },
        };
        Ok(ArrayBracketExpr { left_paren, variable, right_paren })
    }

    fn array_slice_index(&mut self) -> (r: Result<ArraySliceIndexExpr, ParseError>)
        requires
            old(self).wf(),
        ensures
            final(self).wf(),
            final(self).text@ == old(self).text@,
            final(self).stream() == old(self).stream(),
            ({
                let res = sp_array_slice_index(old(self).stream(), old(self).at());
                match r {
                    Ok(node) => res is Good && node@ == res->node && final(self).at() == res->next
                        && final(self).at() > old(self).at() && final(self).lexer.peek_offset()
                        == 1,
                    Err(e) => res is Fail && e@.msg == parse_fail_msg(res->err) && e@.line
                        == parse_fail_line(old(self).text@, res->err),
                }
            }),
    {
        let t = self.lexer.info().token;
        let token = if t == Token::DoubleDot {
            match self.consume(Token::DoubleDot) {
                Ok(t) => t,
                Err(e) => {
                    return Err(e);
                },
            }
        } else if t == Token::Variable {
            match self.consume(Token::Variable) {
                Ok(t) => t,
                Err(e) => {
                    return Err(e);
                },
            }
        } else {
            match self.consume(Token::Number) {
                Ok(t) => t,
                Err(e) => {
                    return Err(e);
                },
            }
        };
        Ok(ArraySliceIndexExpr { token })
    }

    fn array_slice(&mut self) -> (r: Result<ArraySliceExpr, ParseError>)
        requires
            old(self).wf(),
        ensures
            final(self).wf(),
            final(self).text@ == old(self).text@,
            final(self).stream() == old(self).stream(),
            ({
                let res = sp_array_slice(old(self).stream(), old(self).at());
                match r {
                    Ok(node) => res is Good && node@ == res->node && final(self).at() == res->next
                        && final(self).at() > old(self).at() && final(self).lexer.peek_offset()
                        == 1,
                    Err(e) => res is Fail && e@.msg == parse_fail_msg(res->err) && e@.line
                        == parse_fail_line(old(self).text@, res->err),
                }
            }),
    {
        let left_paren = match self.consume(Token::LeftBracket) {
            Ok(t) => t,
            Err(e) => {
                return Err(e);
            },
        };
        let start_index = match self.array_slice_index() {
            Ok(t) => t,
            Err(e) => {
                return Err(e);
            },
        };
        let comma = match self.consume(Token::Comma) {
            Ok(t) => t,
            Err(e) => {
                return Err(e);
            },
        };
        let end_index = match self.array_slice_index() {
            Ok(t) => t,
            Err(e) => {
                return Err(e);
            },
        };
        let right_paren = match self.consume(Token::RightBracket) {
            Ok(t) => t,
            Err(e) => {
                return Err(e);
            },
        };
        Ok(ArraySliceExpr { left_paren, start_index, comma, end_index, right_paren })
    }

    fn accessor(&mut self) -> (r: Result<AccessorExpr, ParseError>)
        requires
            old(self).wf(),
        ensures
            final(self).wf(),
            final(self).text@ == old(self).text@,
            final(self).stream() == old(self).stream(),
            ({
                let res = sp_accessor(old(self).stream(), old(self).at());
                match r {
                    Ok(node) => res is Good && node@ == res->node && final(self).at() == res->next
                        && final(self).at() > old(self).at() && final(self).lexer.peek_offset()
                        == 1,
                    Err(e) => res is Fail && e@.msg == parse_fail_msg(res->err) && e@.line
                        == parse_fail_line(old(self).text@, res->err),
                }
            }),
    {
        proof {
            reveal(sp_accessor);
        }
        let variable = match self.consume(Token::Variable) {
            Ok(t) => t,
            Err(e) => {
                return Err(e);
            },
        };
        let ghost ci = self.at();
        let mut indexes: Vec<ArrayBracketExpr> = Vec::new();
        proof {
            assert(sp_accessor_indexes(self.stream(), ci) is Good ==> sp_accessor_indexes(
                self.stream(),
                ci,
            )->node =~= indexes.deep_view() + sp_accessor_indexes(self.stream(), ci)->node);
        }
        loop
            invariant
                self.wf(),
                self.text@ == old(self).text@,
                self.stream() == old(self).stream(),
                ci <= self.at() < self.stream().len(),
                self.lexer.peek_offset() == 1,
                ({
                    let c = sp_consume(old(self).stream(), old(self).at(), Token::Variable);
                    c is Good && c->node == variable@ && c->next == ci
                }),
                ({
                    let full = sp_accessor_indexes(self.stream(), ci);
                    let rm = sp_accessor_indexes(self.stream(), self.at());
                    match rm {
                        PRes::Fail { err } => full == rm,
                        PRes::Good { node, next } => full is Good && full->node
                            == indexes.deep_view() + node && full->next == next,
                    }
                }),
            ensures
                self.wf(),
                self.text@ == old(self).text@,
                self.stream() == old(self).stream(),
                ci <= self.at() < self.stream().len(),
                self.lexer.peek_offset() == 1,
                sp_accessor_indexes(self.stream(), ci) is Good,
                sp_accessor_indexes(self.stream(), ci)->node == indexes.deep_view(),
                sp_accessor_indexes(self.stream(), ci)->next == self.at(),
            decreases self.stream().len() - self.at(),
        {
            if self.lexer.info().token != Token::LeftBracket {
                proof {
                    assert(sp_accessor_indexes(self.stream(), self.at()) == PRes::<
                        Seq<TokenModel>,
                    >::Good { node: Seq::empty(), next: self.at() });
                    assert(sp_accessor_indexes(self.stream(), ci) is Good);
                    assert(sp_accessor_indexes(self.stream(), ci)->node =~= indexes.deep_view());
                }
                break ;
            }
            let ghost pre_at = self.at();
            let ghost pre_dv = indexes.deep_view();
            let b = match self.array_bracket() {
                Ok(b) => b,
                Err(e) => {
                    proof {
                        reveal(sp_accessor);
                        assert(sp_accessor_indexes(self.stream(), pre_at) is Fail);
                        assert(sp_accessor_indexes(self.stream(), ci) is Fail);
                        assert(sp_accessor(old(self).stream(), old(self).at()) is Fail);
                    }
                    return Err(e);
                },
            };
            indexes.push(b);
            proof {
                assert(bump(self.stream().len() as int, pre_at, self.at()) == self.at());
                assert(indexes.deep_view() =~= pre_dv + seq![b@]);
                let rm_new = sp_accessor_indexes(self.stream(), self.at());
                if rm_new is Good {
                    assert((pre_dv + seq![b@]) + rm_new->node =~= pre_dv + (seq![b@]
                        + rm_new->node));
                }
            }
        }
        Ok(AccessorExpr { variable, indexes })
    }

    #[verifier::rlimit(60)]
    fn array_accessor(&mut self) -> (r: Result<ArrayAccessorExpr, ParseError>)
        requires
            old(self).wf(),
            old(self).lexer.peek_offset() == 1,
        ensures
            final(self).wf(),
            final(self).text@ == old(self).text@,
            final(self).stream() == old(self).stream(),
            ({
                let res = sp_array_accessor(old(self).stream(), old(self).at());
                match r {
                    Ok(node) => res is Good && node@ == res->node && final(self).at() == res->next
                        && final(self).at() > old(self).at(),
                    Err(e) => res is Fail && e@.msg == parse_fail_msg(res->err) && e@.line
                        == parse_fail_line(old(self).text@, res->err),
                }
            }),
    {
        proof {
            reveal(sp_array_accessor);
        }
        let variable = match self.consume(Token::Variable) {
            Ok(t) => t,
            Err(e) => {
                return Err(e);
            },
        };
        let ghost ci = self.at();
        let mut indexes: Vec<ArrayBracketExpr> = Vec::new();
        proof {
            assert(sp_array_indexes(self.stream(), ci) is Good ==> sp_array_indexes(
                self.stream(),
                ci,
            )->node =~= indexes.deep_view() + sp_array_indexes(self.stream(), ci)->node);
        }
        loop
            invariant_except_break
                self.lexer.peek_offset() == 1,
            invariant
                self.wf(),
                self.text@ == old(self).text@,
                self.stream() == old(self).stream(),
                ci <= self.at() < self.stream().len(),
                ({
                    let c = sp_consume(old(self).stream(), old(self).at(), Token::Variable);
                    c is Good && c->node == variable@ && c->next == ci
                }),
                ({
                    let full = sp_array_indexes(self.stream(), ci);
                    let rm = sp_array_indexes(self.stream(), self.at());
                    match rm {
                        PRes::Fail { err } => full == rm,
                        PRes::Good { node, next } => full is Good && full->node
                            == indexes.deep_view() + node && full->next == next,
                    }
                }),
            ensures
                self.wf(),
                self.text@ == old(self).text@,
                self.stream() == old(self).stream(),
                ci <= self.at() < self.stream().len(),
                sp_array_indexes(self.stream(), ci) is Good,
                sp_array_indexes(self.stream(), ci)->node == indexes.deep_view(),
                sp_array_indexes(self.stream(), ci)->next == self.at(),
            decreases self.stream().len() - self.at(),
        {
            if self.lexer.info().token != Token::LeftBracket {
                proof {
                    assert(sp_array_indexes(self.stream(), self.at()) == PRes::<
                        Seq<TokenModel>,
                    >::Good { node: Seq::empty(), next: self.at() });
                    assert(sp_array_indexes(self.stream(), ci) is Good);
                    assert(sp_array_indexes(self.stream(), ci)->node =~= indexes.deep_view());
                }
                break ;
            }
            let var_peek = self.lexer.peek();
            if var_peek.token == Token::Variable || var_peek.token == Token::DoubleDot
                || var_peek.token == Token::Number {
                let comma_peek = self.lexer.peek();
                if comma_peek.token == Token::Comma {
                    proof {
                        assert(opens_slice(self.stream(), self.at()));
                        assert(sp_array_indexes(self.stream(), self.at()) == PRes::<
                            Seq<TokenModel>,
                        >::Good { node: Seq::empty(), next: self.at() });
                        assert(sp_array_indexes(self.stream(), ci) is Good);
                        assert(sp_array_indexes(self.stream(), ci)->node
                            =~= indexes.deep_view());
                    }
                    break ;
                }
            }
            proof {
                assert(!opens_slice(self.stream(), self.at()));
            }
            let ghost pre_at = self.at();
            let ghost pre_dv = indexes.deep_view();
            let b = match self.array_bracket() {
                Ok(b) => b,
                Err(e) => {
                    proof {
                        reveal(sp_array_accessor);
                        assert(sp_array_indexes(self.stream(), pre_at) is Fail);
                        assert(sp_array_indexes(self.stream(), ci) is Fail);
                        assert(sp_array_accessor(old(self).stream(), old(self).at()) is Fail);
                    }
                    return Err(e);
                },
            };
            indexes.push(b);
            proof {
                assert(bump(self.stream().len() as int, pre_at, self.at()) == self.at());
                assert(indexes.deep_view() =~= pre_dv + seq![b@]);
                let rm_new = sp_array_indexes(self.stream(), self.at());
                if rm_new is Good {
                    assert((pre_dv + seq![b@]) + rm_new->node =~= pre_dv + (seq![b@]
                        + rm_new->node));
                }
            }
        }
        let array_slice = if self.lexer.info().token == Token::LeftBracket {
            match self.array_slice() {
                Ok(s) => Some(s),
                Err(e) => {
                    return Err(e);
                },
            }
        } else {
            None
        };
        Ok(ArrayAccessorExpr { variable, indexes, array_slice })
    }

    fn loop_start(&mut self) -> (r: Result<LoopStartExpr, ParseError>)
        requires
            old(self).wf(),
        ensures
            final(self).wf(),
            final(self).text@ == old(self).text@,
            final(self).stream() == old(self).stream(),
            ({
                let res = sp_loop_start(old(self).stream(), old(self).at());
                match r {
                    Ok(node) => res is Good && node@ == res->node && final(self).at() == res->next
                        && final(self).at() > old(self).at() && final(self).lexer.peek_offset()
                        == 1,
                    Err(e) => res is Fail && e@.msg == parse_fail_msg(res->err) && e@.line
                        == parse_fail_line(old(self).text@, res->err),
                }
            }),
    {
        proof {
            reveal(sp_loop_start);
        }
        let left_mustache = match self.consume(Token::LeftMustache) {
            Ok(t) => t,
            Err(e) => {
                return Err(e);
            },
        };
        let loop_word = match self.consume(Token::Loop) {
            Ok(t) => t,
            Err(e) => {
                return Err(e);
            },
        };
        let loop_variable = if self.lexer.info().token == Token::LeftParentheses {
            match self.loop_variable() {
                Ok(lv) => Some(lv),
                Err(e) => {
                    return Err(e);
                },
            }
        } else {
            None
        };
        let array_accessor = match self.array_accessor() {
            Ok(a) => a,
            Err(e) => {
                return Err(e);
            },
        };
        let as_variable = if self.lexer.info().token == Token::As {
            match self.as_variable() {
                Ok(a) => Some(a),
                Err(e) => {
                    return Err(e);
                },
            }
        } else {
            None
        };
        let right_mustache = match self.consume(Token::RightMustache) {
            Ok(t) => t,
            Err(e) => {
                return Err(e);
            },
        };
        Ok(LoopStartExpr {
            left_mustache,
            loop_word,
            loop_variable,
            array_accessor,
            as_variable,
            right_mustache,
        })
    }

    fn mustache_accessor(&mut self) -> (r: Result<Expr, ParseError>)
        requires
            old(self).wf(),
        ensures
            final(self).wf(),
            final(self).text@ == old(self).text@,
            final(self).stream() == old(self).stream(),
            ({
                let res = sp_mustache(old(self).stream(), old(self).at());
                match r {
                    Ok(node) => res is Good && node@ == res->node && final(self).at() == res->next
                        && final(self).at() > old(self).at() && final(self).lexer.peek_offset()
                        == 1,
                    Err(e) => res is Fail && e@.msg == parse_fail_msg(res->err) && e@.line
                        == parse_fail_line(old(self).text@, res->err),
                }
            }),
    {
        let left_mustache = match self.consume(Token::LeftMustache) {
            Ok(t) => t,
            Err(e) => {
                return Err(e);
            },
        };
        let accessor = match self.accessor() {
            Ok(a) => a,
            Err(e) => {
                return Err(e);
            },
        };
        let right_mustache = match self.consume(Token::RightMustache) {
            Ok(t) => t,
            Err(e) => {
                return Err(e);
            },
        };
        Ok(Expr::MustacheAccessor(MustacheAccessorExpr { left_mustache, accessor, right_mustache }))
    }

    #[verifier::rlimit(60)]
    fn import_option(&mut self) -> (r: Result<ImportConfigOptionExpr, ParseError>)
        requires
            old(self).wf(),
        ensures
            final(self).wf(),
            final(self).text@ == old(self).text@,
            final(self).stream() == old(self).stream(),
            ({
                let res = sp_import_option(old(self).text@, old(self).stream(), old(self).at());
                match r {
                    Ok(node) => res is Good && node@ == res->node && final(self).at() == res->next
                        && final(self).at() > old(self).at() && final(self).lexer.peek_offset()
                        == 1,
                    Err(e) => res is Fail && e@.msg == parse_fail_msg(res->err) && e@.line
                        == parse_fail_line(old(self).text@, res->err),
                }
            }),
    {
        proof {
            reveal(sp_import_option);
        }
        let variable = match self.consume(Token::Variable) {
            Ok(t) => t,
            Err(e) => {
                return Err(e);
            },
        };
        let colon = match self.consume(Token::Colon) {
            Ok(t) => t,
            Err(e) => {
                return Err(e);
            },
        };
        let ghost c2 = self.at();
        let ghost colon_line = self.current_line as int;
        let mut vars: Vec<InfoToken> = Vec::new();
        proof {
            assert(sp_option_vars(self.stream(), c2).0 =~= vars.deep_view() + sp_option_vars(
                self.stream(),
                c2,
            ).0);
        }
        loop
            invariant_except_break
                self.wf(),
                self.text@ == old(self).text@,
                self.stream() == old(self).stream(),
                c2 <= self.at() < self.stream().len(),
                vars@.len() == self.at() - c2,
                forall|k: int|
                    0 <= k < vars@.len() ==> (#[trigger] vars@[k])@ == self.stream()[c2 + k],
                sp_option_vars(self.stream(), c2).0 == vars.deep_view() + sp_option_vars(
                    self.stream(),
                    self.at(),
                ).0,
                sp_option_vars(self.stream(), c2).1 == sp_option_vars(self.stream(), self.at()).1,
                vars@.len() > 0 ==> self.lexer.peek_offset() == 1,
                vars@.len() == 0 ==> self.current_line as int == colon_line,
            ensures
                self.wf(),
                self.text@ == old(self).text@,
                self.stream() == old(self).stream(),
                c2 <= self.at() < self.stream().len(),
                vars@.len() == self.at() - c2,
                forall|k: int|
                    0 <= k < vars@.len() ==> (#[trigger] vars@[k])@ == self.stream()[c2 + k],
                sp_option_vars(self.stream(), c2).0 == vars.deep_view(),
                sp_option_vars(self.stream(), c2).1 == self.at(),
                vars@.len() > 0 ==> self.lexer.peek_offset() == 1,
                vars@.len() == 0 ==> self.current_line as int == colon_line,
            decreases self.stream().len() - self.at(),
        {
            let t = self.lexer.info().token;
            if t == Token::EOF || t == Token::SemiColon || t == Token::LeftMustache {
                proof {
                    assert(sp_option_vars(self.stream(), self.at()) == (
                        Seq::<TokenModel>::empty(),
                        self.at(),
                    ));
                    assert(sp_option_vars(self.stream(), c2).0 =~= vars.deep_view());
                }
                break ;
            }
            let ghost pre_at = self.at();
            let ghost pre_dv = vars.deep_view();
            let tok = match self.consume(t) {
                Ok(tok) => tok,
                Err(e) => {
                    proof {
                        assert(false);
                    }
                    return Err(e);
                },
            };
            vars.push(tok);
            proof {
                assert(vars.deep_view() =~= pre_dv + seq![tok@]);
                assert(sp_option_vars(self.stream(), pre_at).0 =~= seq![tok@] + sp_option_vars(
                    self.stream(),
                    self.at(),
                ).0);
                assert(sp_option_vars(self.stream(), c2).0 =~= vars.deep_view() + sp_option_vars(
                    self.stream(),
                    self.at(),
                ).0);
            }
        }
        if vars.len() == 0 {
            proof {
                let res = sp_import_option(old(self).text@, old(self).stream(), old(self).at());
                assert(res is Fail);
            }
            return Err(ParseError {
                msg: String::from_str("Configs must be in the form of: \"name: value;\""),
                line_number: self.current_line,
            });
        }
        proof {
            let s = self.stream();
            assert(vars@[0]@ == s[c2]);
            assert(vars@[vars@.len() - 1]@ == s[c2 + vars@.len() - 1]);
            assert(vars@[0]@.start <= vars@[vars@.len() - 1]@.end <= self.text@.len());
        }
        let a = vars[0].start;
        let b = vars[vars.len() - 1].end;
        let value_text = String::from_str(self.text.as_str().substring_char(a, b));
        let value = InfoToken { token: Token::Variable, slice: value_text, start: a, end: b };
        let semicolon = match self.consume(Token::SemiColon) {
            Ok(t) => t,
            Err(e) => {
                return Err(e);
            },
        };
        let node = ImportConfigOptionExpr { variable, colon, value, semicolon };
        proof {
            let res = sp_import_option(old(self).text@, old(self).stream(), old(self).at());
            assert(res is Good);
            assert(node@ == res->node);
        }
        Ok(node)
    }

    #[verifier::rlimit(60)]
    fn import_stmt(&mut self) -> (r: Result<ImportExpr, ParseError>)
        requires
            old(self).wf(),
        ensures
            final(self).wf(),
            final(self).text@ == old(self).text@,
            final(self).stream() == old(self).stream(),
            ({
                let res = sp_import(old(self).text@, old(self).stream(), old(self).at());
                match r {
                    Ok(node) => res is Good && node@ == res->node && final(self).at() == res->next
                        && final(self).at() > old(self).at() && final(self).lexer.peek_offset()
                        == 1,
                    Err(e) => res is Fail && e@.msg == parse_fail_msg(res->err) && e@.line
                        == parse_fail_line(old(self).text@, res->err),
                }
            }),
    {
        let left_mustache = match self.consume(Token::LeftMustache) {
            Ok(t) => t,
            Err(e) => {
                return Err(e);
            },
        };
        let config = match self.consume(Token::Import) {
            Ok(t) => t,
            Err(e) => {
                return Err(e);
            },
        };
        let right_mustache = match self.consume(Token::RightMustache) {
            Ok(t) => t,
            Err(e) => {
                return Err(e);
            },
        };
        let ghost ci = self.at();
        let mut configs: Vec<ImportConfigOptionExpr> = Vec::new();
        proof {
            assert(sp_import_options(old(self).text@, self.stream(), ci) is Good
                ==> sp_import_options(old(self).text@, self.stream(), ci)->node
                =~= configs.deep_view() + sp_import_options(old(self).text@, self.stream(), ci)->node);
        }
        loop
            invariant
                self.wf(),
                self.text@ == old(self).text@,
                self.stream() == old(self).stream(),
                ci <= self.at() < self.stream().len(),
                self.lexer.peek_offset() == 1,
                ({
                    let r0 = sp_consume(old(self).stream(), old(self).at(), Token::LeftMustache);
                    let r1 = sp_consume(old(self).stream(), r0->next, Token::Import);
                    let r2 = sp_consume(old(self).stream(), r1->next, Token::RightMustache);
                    r0 is Good && r1 is Good && r2 is Good && r2->next == ci
                }),
                ({
                    let full = sp_import_options(old(self).text@, self.stream(), ci);
                    let rm = sp_import_options(old(self).text@, self.stream(), self.at());
                    match rm {
                        PRes::Fail { err } => full == rm,
                        PRes::Good { node, next } => full is Good && full->node
                            == configs.deep_view() + node && full->next == next,
                    }
                }),
            ensures
                self.wf(),
                self.text@ == old(self).text@,
                self.stream() == old(self).stream(),
                ci <= self.at() < self.stream().len(),
                self.lexer.peek_offset() == 1,
                sp_import_options(old(self).text@, self.stream(), ci) is Good,
                sp_import_options(old(self).text@, self.stream(), ci)->node
                    == configs.deep_view(),
                sp_import_options(old(self).text@, self.stream(), ci)->next == self.at(),
            decreases self.stream().len() - self.at(),
        {
            if self.lexer.info().token == Token::LeftMustache {
                proof {
                    assert(sp_import_options(old(self).text@, self.stream(), self.at()) == PRes::<
                        Seq<ImportOptionModel>,
                    >::Good { node: Seq::empty(), next: self.at() });
                    assert(sp_import_options(old(self).text@, self.stream(), ci)->node
                        =~= configs.deep_view());
                }
                break ;
            }
            let ghost pre_at = self.at();
            let ghost pre_dv = configs.deep_view();
            let opt = match self.import_option() {
                Ok(o) => o,
                Err(e) => {
                    proof {
                        assert(sp_import_options(old(self).text@, self.stream(), pre_at) is Fail);
                        assert(sp_import_options(old(self).text@, self.stream(), ci) is Fail);
                        assert(sp_import(old(self).text@, old(self).stream(), old(self).at()) is Fail);
                    }
                    return Err(e);
                },
            };
            configs.push(opt);
            proof {
                assert(bump(self.stream().len() as int, pre_at, self.at()) == self.at());
                assert(configs.deep_view() =~= pre_dv + seq![opt@]);
                let rm_new = sp_import_options(old(self).text@, self.stream(), self.at());
                if rm_new is Good {
                    assert((pre_dv + seq![opt@]) + rm_new->node =~= pre_dv + (seq![opt@]
                        + rm_new->node));
                }
            }
        }
        let end = match self.loop_end() {
            Ok(t) => t,
            Err(e) => {
                return Err(e);
            },
        };
        let node = ImportExpr { left_mustache, config, right_mustache, configs, end };
        proof {
            let res = sp_import(old(self).text@, old(self).stream(), old(self).at());
            assert(res is Good);
            assert(node@ == res->node);
        }
        Ok(node)
    }

    #[verifier::rlimit(60)]
    fn anything(&mut self) -> (node: Expr)
        requires
            old(self).wf(),
            old(self).at() >= 1,
            tok_at(old(self).stream(), old(self).at()).token != Token::EOF,
            tok_at(old(self).stream(), old(self).at()).token != Token::LeftMustache,
        ensures
            final(self).wf(),
            final(self).text@ == old(self).text@,
            final(self).stream() == old(self).stream(),
            node@ == sp_anything(old(self).text@, old(self).stream(), old(self).at()).0,
            final(self).at() == sp_anything(old(self).text@, old(self).stream(), old(self).at()).1,
            final(self).at() > old(self).at(),
            final(self).lexer.peek_offset() == 1,
    {
        let ghost c0 = self.at();
        let mut tokens: Vec<InfoToken> = Vec::new();
        proof {
            assert(sp_anything_items(old(self).text@, self.stream(), c0).0 =~= tokens.deep_view()
                + sp_anything_items(old(self).text@, self.stream(), c0).0);
        }
        loop
            invariant
                self.wf(),
                self.text@ == old(self).text@,
                self.stream() == old(self).stream(),
                1 <= c0 <= self.at() < self.stream().len(),
                tokens@.len() == self.at() - c0,
                tokens@.len() > 0 ==> self.lexer.peek_offset() == 1,
                sp_anything_items(old(self).text@, self.stream(), c0).0 == tokens.deep_view()
                    + sp_anything_items(old(self).text@, self.stream(), self.at()).0,
                sp_anything_items(old(self).text@, self.stream(), c0).1 == sp_anything_items(
                    old(self).text@,
                    self.stream(),
                    self.at(),
                ).1,
            ensures
                self.wf(),
                self.text@ == old(self).text@,
                self.stream() == old(self).stream(),
                c0 <= self.at() < self.stream().len(),
                tokens@.len() == self.at() - c0,
                tokens@.len() > 0 ==> self.lexer.peek_offset() == 1,
                sp_anything_items(old(self).text@, self.stream(), c0).0 == tokens.deep_view(),
                sp_anything_items(old(self).text@, self.stream(), c0).1 == self.at(),
            decreases self.stream().len() - self.at(),
        {
            let t = self.lexer.info().token;
            if t == Token::EOF || t == Token::LeftMustache {
                proof {
                    assert(sp_anything_items(old(self).text@, self.stream(), self.at()) == (
                        Seq::<TokenModel>::empty(),
                        self.at(),
                    ));
                    assert(sp_anything_items(old(self).text@, self.stream(), c0).0
                        =~= tokens.deep_view());
                }
                break ;
            }
            let info = self.lexer.info().duplicate();
            proof {
                let s = self.stream();
                let k = self.at();
                assert(s[0].token != Token::EOF);
                assert(s[0].start < s[0].end);
                if k > 0 {
                    assert(s[0].end <= s[k].start);
                }
                assert(info.start >= 1);
                assert(info.end <= self.text@.len());
                assert(self.at() < self.stream().len() - 1);
            }
            let ext_start = back_extend(self.text.as_str(), info.start);
            let ext_end = fwd_extend(self.text.as_str(), info.end);
            let ghost pre_at = self.at();
            let ghost pre_dv = tokens.deep_view();
            let ext = InfoToken {
                token: info.token,
                slice: info.slice,
                start: ext_start,
                end: ext_end,
            };
            tokens.push(ext);
            self.lexer.advance();
            proof {
                assert(tokens.deep_view() =~= pre_dv + seq![ext@]);
                assert(sp_anything_items(old(self).text@, self.stream(), pre_at).0 =~= seq![ext@]
                    + sp_anything_items(old(self).text@, self.stream(), self.at()).0);
                assert(sp_anything_items(old(self).text@, self.stream(), c0).0
                    =~= tokens.deep_view() + sp_anything_items(
                    old(self).text@,
                    self.stream(),
                    self.at(),
                ).0);
            }
        }
        let node = Expr::Anything(Box::new(AnythingExpr { tokens }));
        proof {
            assert(node@ == sp_anything(old(self).text@, old(self).stream(), c0).0);
        }
        node
    }

    fn loop_stmt(&mut self) -> (r: Result<Expr, ParseError>)
        requires
            old(self).wf(),
        ensures
            final(self).wf(),
            final(self).text@ == old(self).text@,
            final(self).stream() == old(self).stream(),
            ({
                let res = sp_loop(old(self).text@, old(self).stream(), old(self).at());
                match r {
                    Ok(node) => res is Good && node@ == res->node && final(self).at() == res->next
                        && final(self).at() > old(self).at() && final(self).lexer.peek_offset()
                        == 1,
                    Err(e) => res is Fail && e@.msg == parse_fail_msg(res->err) && e@.line
                        == parse_fail_line(old(self).text@, res->err),
                }
            }),
        decreases old(self).stream().len() - old(self).at(), 0int,
    {
        proof {
            assert(0 <= old(self).at() < old(self).stream().len());
        }
        let loop_start = match self.loop_start() {
            Ok(ls) => ls,
            Err(e) => {
                return Err(e);
            },
        };
        proof {
            assert(bump(
                old(self).stream().len() as int,
                old(self).at(),
                self.at(),
            ) == self.at());
        }
        let block = match self.block() {
            Ok(b) => b,
            Err(e) => {
                return Err(e);
            },
        };
        let loop_end = match self.loop_end() {
            Ok(t) => t,
            Err(e) => {
                return Err(e);
            },
        };
        Ok(Expr::Loop(Box::new(LoopExpr { loop_start, block: Box::new(block), loop_end })))
    }

    #[verifier::rlimit(100)]
    #[verifier::spinoff_prover]
    fn block(&mut self) -> (r: Result<Expr, ParseError>)
        requires
            old(self).wf(),
            old(self).lexer.peek_offset() == 1,
            old(self).at() >= 1,
        ensures
            final(self).wf(),
            final(self).text@ == old(self).text@,
            final(self).stream() == old(self).stream(),
            ({
                let res = sp_block(old(self).text@, old(self).stream(), old(self).at());
                match r {
                    Ok(node) => res is Good && node@ == res->node && final(self).at() == res->next
                        && final(self).at() >= old(self).at(),
                    Err(e) => res is Fail && e@.msg == parse_fail_msg(res->err) && e@.line
                        == parse_fail_line(old(self).text@, res->err),
                }
            }),
        decreases old(self).stream().len() - old(self).at(), 2int,
    {
        let ghost c0 = self.at();
        let mut blocks: Vec<Expr> = Vec::new();
        let mut imports: Vec<ImportExpr> = Vec::new();
        proof {
            assert(sp_block_items(old(self).text@, self.stream(), c0) is Good
                ==> sp_block_items(old(self).text@, self.stream(), c0)->node.0
                =~= imports.deep_view() + sp_block_items(old(self).text@, self.stream(), c0)->node.0
                && sp_block_items(old(self).text@, self.stream(), c0)->node.1
                =~= exprs_model(blocks@) + sp_block_items(old(self).text@, self.stream(), c0)->node.1);
        }
        loop
            invariant_except_break
                self.lexer.peek_offset() == 1,
            invariant
                self.wf(),
                self.text@ == old(self).text@,
                self.stream() == old(self).stream(),
                1 <= c0 <= self.at() < self.stream().len(),
                c0 == old(self).at(),
                ({
                    let full = sp_block_items(old(self).text@, self.stream(), c0);
                    let rm = sp_block_items(old(self).text@, self.stream(), self.at());
                    match rm {
                        PRes::Fail { err } => full == rm,
                        PRes::Good { node, next } => full is Good && full->node.0
                            == imports.deep_view() + node.0 && full->node.1 == exprs_model(
                            blocks@,
                        ) + node.1 && full->next == next,
                    }
                }),
            ensures
                self.wf(),
                self.text@ == old(self).text@,
                self.stream() == old(self).stream(),
                c0 <= self.at() < self.stream().len(),
                sp_block_items(old(self).text@, self.stream(), c0) is Good,
                sp_block_items(old(self).text@, self.stream(), c0)->node.0
                    == imports.deep_view(),
                sp_block_items(old(self).text@, self.stream(), c0)->node.1 == exprs_model(
                    blocks@,
                ),
                sp_block_items(old(self).text@, self.stream(), c0)->next == self.at(),
            decreases self.stream().len() - self.at(), 1int,
        {
            let t = self.lexer.info().token;
            if t == Token::EOF {
                proof {
                    assert(sp_block_items(old(self).text@, self.stream(), self.at()) == PRes::<
                        (Seq<ImportModel>, Seq<ExprModel>),
                    >::Good { node: (Seq::empty(), Seq::empty()), next: self.at() });
                    assert(sp_block_items(old(self).text@, self.stream(), c0)->node.0
                        =~= imports.deep_view());
                    assert(sp_block_items(old(self).text@, self.stream(), c0)->node.1
                        =~= exprs_model(blocks@));
                }
                break ;
            }
            let ghost pre_at = self.at();
            let ghost pre_im = imports.deep_view();
            let ghost pre_seq = blocks@;
            let ghost pre_bl = exprs_model(blocks@);
            if t == Token::LeftMustache {
                let next_info = self.lexer.peek();
                if next_info.token == Token::Loop {
                    let e = match self.loop_stmt() {
                        Ok(e) => e,
                        Err(e) => {
                            return Err(e);
                        },
                    };
                    blocks.push(e);
                    proof {
                        assert(bump(self.stream().len() as int, pre_at, self.at()) == self.at());
                        assert(blocks@.drop_last() =~= pre_seq);
                        assert(exprs_model(blocks@) =~= pre_bl + seq![e@]);
                        let rm_new = sp_block_items(old(self).text@, self.stream(), self.at());
                        if rm_new is Good {
                            assert((pre_bl + seq![e@]) + rm_new->node.1 =~= pre_bl + (seq![e@]
                                + rm_new->node.1));
                        }
                    }
                } else if next_info.token == Token::Import {
                    let imp = match self.import_stmt() {
                        Ok(imp) => imp,
                        Err(e) => {
                            return Err(e);
                        },
                    };
                    imports.push(imp);
                    proof {
                        assert(bump(self.stream().len() as int, pre_at, self.at()) == self.at());
                        assert(imports.deep_view() =~= pre_im + seq![imp@]);
                        let rm_new = sp_block_items(old(self).text@, self.stream(), self.at());
                        if rm_new is Good {
                            assert((pre_im + seq![imp@]) + rm_new->node.0 =~= pre_im + (seq![imp@]
                                + rm_new->node.0));
                        }
                    }
                } else if next_info.token == Token::End {
                    proof {
                        assert(peek1(self.stream(), self.at()).token == Token::End);
                        assert(sp_block_items(old(self).text@, self.stream(), self.at()) == PRes::<
                            (Seq<ImportModel>, Seq<ExprModel>),
                        >::Good { node: (Seq::empty(), Seq::empty()), next: self.at() });
                        assert(sp_block_items(old(self).text@, self.stream(), c0)->node.0
                            =~= imports.deep_view());
                        assert(sp_block_items(old(self).text@, self.stream(), c0)->node.1
                            =~= exprs_model(blocks@));
                    }
                    break ;
                } else {
                    let e = match self.mustache_accessor() {
                        Ok(e) => e,
                        Err(e) => {
                            return Err(e);
                        },
                    };
                    blocks.push(e);
                    proof {
                        assert(bump(self.stream().len() as int, pre_at, self.at()) == self.at());
                        assert(blocks@.drop_last() =~= pre_seq);
                        assert(exprs_model(blocks@) =~= pre_bl + seq![e@]);
                        let rm_new = sp_block_items(old(self).text@, self.stream(), self.at());
                        if rm_new is Good {
                            assert((pre_bl + seq![e@]) + rm_new->node.1 =~= pre_bl + (seq![e@]
                                + rm_new->node.1));
                        }
                    }
                }
            } else {
                let e = self.anything();
                blocks.push(e);
                proof {
                    assert(bump(self.stream().len() as int, pre_at, self.at()) == self.at());
                    assert(blocks@.drop_last() =~= pre_seq);
                    assert(exprs_model(blocks@) =~= pre_bl + seq![e@]);
                    let rm_new = sp_block_items(old(self).text@, self.stream(), self.at());
                    if rm_new is Good {
                        assert((pre_bl + seq![e@]) + rm_new->node.1 =~= pre_bl + (seq![e@]
                            + rm_new->node.1));
                    }
                }
            }
        }
        let node = Expr::Block(Box::new(BlockExpr { imports, blocks }));
        proof {
            let res = sp_block(old(self).text@, old(self).stream(), old(self).at());
            assert(res is Good);
            assert(node@ == res->node);
        }
        Ok(node)
    }
}

/// Walk backward over the whitespace run that ends just before offset `i`,
/// returning the extended start of a literal span.
fn back_extend(text: &str, i: usize) -> (r: usize)
    requires
        1 <= i <= text@.len(),
    ensures
        r as int == back_ext(text@, i as int),
        1 <= r <= i,
{
    let mut p = i - 1;
    while p > 0 && space_at(text, p)
        invariant
            i <= text@.len(),
            p <= i - 1,
            back_scan(text@, (i - 1) as int) == back_scan(text@, p as int),
        decreases p,
    {
        p = p - 1;
    }
    proof {
        assert(back_scan(text@, p as int) == p as int);
    }
    p + 1
}

/// Walk forward over the whitespace run that starts at offset `i`,
/// returning the extended end of a literal span.
fn fwd_extend(text: &str, i: usize) -> (r: usize)
    requires
        i <= text@.len(),
    ensures
        r as int == spaces_end(text@, i as int),
        i <= r <= text@.len(),
{
    let mut p = i;
    while p < text.unicode_len() && space_at(text, p)
        invariant
            i <= p <= text@.len(),
            spaces_end(text@, i as int) == spaces_end(text@, p as int),
        decreases text@.len() - p,
    {
        p = p + 1;
    }
    proof {
        assert(spaces_end(text@, p as int) == p as int);
    }
    p
}

} // verus!
