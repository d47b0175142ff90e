use vstd::prelude::*;
use crate::importer::ImporterModel;
use crate::importer::resolve_path;
use crate::importer::scope_after_import;
use crate::importer::scope_after_imports;
use crate::interpreter::as_name;
use crate::interpreter::counter_name;
use crate::interpreter::ev_accessor;
use crate::interpreter::ev_array_slice;
use crate::interpreter::ev_block_items;
use crate::interpreter::ev_bracket;
use crate::interpreter::ev_expr;
use crate::interpreter::ev_loop_header;
use crate::interpreter::ev_loop_iters;
use crate::interpreter::ev_number_from_token;
use crate::interpreter::ev_slice_bound;
use crate::interpreter::iter_len;
use crate::interpreter::join_space;
use crate::interpreter::raw_index_name;
use crate::interpreter::RunErrModel;
use crate::loop_iterator::LoopIteratorModel;
use crate::loop_iterator::element_at;
use crate::loop_iterator::loop_step_scope;
use crate::loop_iterator::stepped;
use crate::parser::line_of;
use crate::scope::ScopeModel;
use crate::scope::undeclared_variable_message;
use crate::tokenizer::Token;
use crate::tokenizer::TokenModel;
use crate::tree_nodes::AccessorModel;
use crate::tree_nodes::ExprModel;
use crate::tree_nodes::ImportModel;
use crate::tree_nodes::LoopStartModel;
use crate::tree_nodes::SliceModel;
use crate::tree_nodes::options_value_of;
use crate::var_type::ValModel;
use crate::var_type::dec_str;

verus! {

/// Verbatim literal preservation: a literal run contributes exactly the
/// original source text of its span, byte for byte — never a
/// reconstruction from its tokens.
pub proof fn lemma_literal_run_verbatim(
    text: Seq<char>,
    im: ImporterModel,
    scope: ScopeModel,
    tokens: Seq<TokenModel>,
)
    requires
        tokens.len() > 0,
        0 <= tokens[0].start,
        tokens[0].start <= tokens[tokens.len() - 1].end,
        tokens[tokens.len() - 1].end <= text.len(),
    ensures
        ev_expr(text, im, scope, ExprModel::Anything { tokens }) == Ok::<Seq<char>, RunErrModel>(
            text.subrange(tokens[0].start, tokens[tokens.len() - 1].end),
        ),
{
}

/// Verbatim literal preservation for a whole template body: a block with
/// no directives — no imports and a single literal run — produces exactly
/// that run's source text, and leaves the surrounding scope untouched.
pub proof fn lemma_literal_template_verbatim(
    text: Seq<char>,
    im: ImporterModel,
    scope: ScopeModel,
    output: TokenModel,
    tokens: Seq<TokenModel>,
)
    requires
        tokens.len() > 0,
        0 <= tokens[0].start,
        tokens[0].start <= tokens[tokens.len() - 1].end,
        tokens[tokens.len() - 1].end <= text.len(),
    ensures
        ev_expr(
            text,
            im,
            scope,
            ExprModel::Start {
                output,
                expr: Box::new(
                    ExprModel::Block {
                        imports: Seq::empty(),
                        blocks: seq![ExprModel::Anything { tokens }],
                    },
                ),
            },
        ) == Ok::<Seq<char>, RunErrModel>(
            text.subrange(tokens[0].start, tokens[tokens.len() - 1].end),
        ),
{
    reveal_with_fuel(ev_expr, 3);
    let blocks = seq![ExprModel::Anything { tokens }];
    let scope2 = ScopeModel { vars: scope.vars, parent: scope.parent };
    let sub = text.subrange(tokens[0].start, tokens[tokens.len() - 1].end);
    assert(blocks[0] == ExprModel::Anything { tokens });
    lemma_literal_run_verbatim(text, im, ScopeModel::child_of(scope2), tokens);
    assert(ev_expr(text, im, ScopeModel::child_of(scope2), blocks[0]) == Ok::<
        Seq<char>,
        RunErrModel,
    >(sub));
    assert(crate::importer::scope_after_imports(im, scope.vars, Seq::empty()) == scope.vars);
    assert(crate::interpreter::ev_block_items(text, im, scope2, blocks, 1) == Ok::<
        Seq<char>,
        RunErrModel,
    >(Seq::empty()));
    assert(crate::interpreter::ev_block_items(text, im, scope2, blocks, 0) == Ok::<
        Seq<char>,
        RunErrModel,
    >(sub + Seq::empty()));
    assert(sub + Seq::<char>::empty() =~= sub);
}

/// Substitution of a string binding: a bare accessor whose name resolves
/// to a scalar string yields that string.
pub proof fn lemma_substitution_value(
    text: Seq<char>,
    scope: ScopeModel,
    variable: TokenModel,
    s: Seq<char>,
)
    requires
        scope.resolve(variable.slice) == Some(ValModel::Str { s }),
    ensures
        ev_accessor(text, scope, AccessorModel { variable, indexes: Seq::empty() }) == Ok::<
            Seq<char>,
            RunErrModel,
        >(s),
{
}

/// Substitution of a number binding: a bare accessor whose name resolves
/// to a number yields its decimal rendering.
pub proof fn lemma_substitution_number(
    text: Seq<char>,
    scope: ScopeModel,
    variable: TokenModel,
    n: nat,
)
    requires
        scope.resolve(variable.slice) == Some(ValModel::Num { n }),
    ensures
        ev_accessor(text, scope, AccessorModel { variable, indexes: Seq::empty() }) == Ok::<
            Seq<char>,
            RunErrModel,
        >(dec_str(n)),
{
}

/// Shadowing: a child frame's own binding hides the enclosing one, and a
/// name the child does not bind falls through to the enclosing scope —
/// the parent chain itself is never changed by the child.
pub proof fn lemma_shadowing(parent: ScopeModel, vars: Map<Seq<char>, ValModel>, name: Seq<char>)
    ensures
        ({
            let child = ScopeModel { vars, parent: Some(Box::new(parent)) };
            &&& vars.contains_key(name) ==> child.resolve(name) == Some(vars[name])
            &&& !vars.contains_key(name) ==> child.resolve(name) == parent.resolve(name)
        }),
{
}

/// Shadowing of loop counters: whatever an enclosing scope binds, each
/// iteration scope binds the counter name to its own step count, so an
/// inner loop's counter never leaks outward and an outer counter is
/// unaffected by inner iteration.
pub proof fn lemma_loop_counter_shadowing(it: LoopIteratorModel, name: Seq<char>)
    requires
        it.loop_variable_name == Some(name),
        it.collection_variable_name != Some(name),
        it.as_variable_name != Some(name),
    ensures
        loop_step_scope(it).resolve(name) == Some(ValModel::Num { n: it.loop_index as nat }),
{
}

/// Slicing: each iteration scope binds `collection_index` to the current
/// raw index and `loop_index` to the number of steps taken, and one step
/// advances both by exactly one.
pub proof fn lemma_slice_iteration_indices(it: LoopIteratorModel)
    requires
        it.loop_variable_name != Some("loop_index"@),
        it.collection_variable_name != Some("loop_index"@),
        it.as_variable_name != Some("loop_index"@),
        it.loop_variable_name != Some("collection_index"@),
        it.collection_variable_name != Some("collection_index"@),
        it.as_variable_name != Some("collection_index"@),
    ensures
        loop_step_scope(it).resolve("loop_index"@) == Some(
            ValModel::Num { n: it.loop_index as nat },
        ),
        loop_step_scope(it).resolve("collection_index"@) == Some(
            ValModel::Num { n: it.collection_index as nat },
        ),
        stepped(it).loop_index == it.loop_index + 1,
        stepped(it).collection_index == it.collection_index + 1,
{
    reveal_strlit("loop_index");
    reveal_strlit("collection_index");
    assert("loop_index"@.len() != "collection_index"@.len());
    assert("loop_index"@ != "collection_index"@);
    let sc = loop_step_scope(it);
    assert(sc.vars.contains_key("loop_index"@));
    assert(sc.vars.contains_key("collection_index"@));
    assert(sc.vars["loop_index"@] == ValModel::Num { n: it.loop_index as nat });
    assert(sc.vars["collection_index"@] == ValModel::Num { n: it.collection_index as nat });
}

/// A loop over the raw index range `[start, end)` that completes yields
/// exactly one output per raw index, in increasing order of raw index.
pub proof fn lemma_loop_iteration_count(
    text: Seq<char>,
    im: ImporterModel,
    body: ExprModel,
    it: LoopIteratorModel,
    outs: Seq<Seq<char>>,
)
    requires
        ev_loop_iters(text, im, body, it) == Ok::<Seq<Seq<char>>, RunErrModel>(outs),
    ensures
        outs.len() == if it.end > it.collection_index {
            it.end - it.collection_index
        } else {
            0
        },
    decreases it.end - it.collection_index,
{
    if it.collection_index < it.end {
        match ev_loop_iters(text, im, body, stepped(it)) {
            Ok(rest) => {
                lemma_loop_iteration_count(text, im, body, stepped(it), rest);
            },
            Err(_) => {},
        }
    }
}

/// Indexing chain: index a table and you get the row at that raw
/// position; index the row and you get the cell; both in the original
/// order with nothing rearranged.
pub proof fn lemma_indexing_chain(rows: Seq<Seq<Seq<char>>>, i: int, j: int)
    requires
        0 <= i < rows.len(),
        0 <= j < rows[i].len(),
    ensures
        (element_at(ValModel::TableVal { rows }, i) == ValModel::RowVal { cells: rows[i] }),
        (element_at(ValModel::RowVal { cells: rows[i] }, j) == ValModel::Str { s: rows[i][j] }),
{
}

/// Indexing a scalar is a reported error, not a crash: when the index
/// itself resolves, indexing a number or a string yields the error that
/// names the construct and its line.
pub proof fn lemma_index_non_iterable(
    text: Seq<char>,
    scope: ScopeModel,
    tok: TokenModel,
    value: ValModel,
    idx: int,
)
    requires
        ev_number_from_token(text, scope, tok) == Ok::<int, RunErrModel>(idx),
        value is Num || value is Str,
    ensures
        ev_bracket(text, scope, tok, value) == Err::<ValModel, RunErrModel>(
            RunErrModel {
                msg: "Attempt to index a non-iterable"@,
                line: line_of(text, tok.start),
            },
        ),
{
}

/// Concatenation asymmetry, block side: a block with no imports and two
/// children producing `x` and `y` produces `x + y` with no separator.
pub proof fn lemma_block_concatenation(
    text: Seq<char>,
    im: ImporterModel,
    scope: ScopeModel,
    e1: ExprModel,
    e2: ExprModel,
    x: Seq<char>,
    y: Seq<char>,
)
    requires
        ev_expr(
            text,
            im,
            ScopeModel::child_of(ScopeModel { vars: scope.vars, parent: scope.parent }),
            e1,
        ) == Ok::<Seq<char>, RunErrModel>(x),
        ev_expr(
            text,
            im,
            ScopeModel::child_of(ScopeModel { vars: scope.vars, parent: scope.parent }),
            e2,
        ) == Ok::<Seq<char>, RunErrModel>(y),
    ensures
        ev_expr(text, im, scope, ExprModel::Block { imports: Seq::empty(), blocks: seq![e1, e2] })
            == Ok::<Seq<char>, RunErrModel>(x + y),
{
    let blocks = seq![e1, e2];
    let scope2 = ScopeModel { vars: scope.vars, parent: scope.parent };
    assert(crate::importer::scope_after_imports(im, scope.vars, Seq::empty()) == scope.vars);
    assert(crate::interpreter::ev_block_items(text, im, scope2, blocks, 2) == Ok::<
        Seq<char>,
        RunErrModel,
    >(Seq::empty()));
    assert(crate::interpreter::ev_block_items(text, im, scope2, blocks, 1) == Ok::<
        Seq<char>,
        RunErrModel,
    >(y + Seq::empty()));
    assert(y + Seq::<char>::empty() =~= y);
    assert(crate::interpreter::ev_block_items(text, im, scope2, blocks, 0) == Ok::<
        Seq<char>,
        RunErrModel,
    >(x + y));
}

/// Concatenation asymmetry, loop side: two iteration outputs `x` and `y`
/// are joined with a single space between them.
pub proof fn lemma_loop_join(x: Seq<char>, y: Seq<char>)
    ensures
        join_space(seq![x, y]) == x + " "@ + y,
        join_space(seq![x]) == x,
{
    assert(seq![x, y].drop_first() =~= seq![y]);
    assert(join_space(seq![x, y]) == x + " "@ + join_space(seq![y]));
}

/// Round trip of an import binding: a directive with a `name` and a
/// `path` option binds, under exactly that name, exactly the table the
/// import capability resolved for that path — rows and cells in their
/// original order (iterating it then visits `element_at` positions `0`,
/// `1`, ... in order, by `lemma_slice_iteration_indices` and
/// `lemma_indexing_chain`).
pub proof fn lemma_import_round_trip(
    im: ImporterModel,
    vars: Map<Seq<char>, ValModel>,
    d: ImportModel,
    name: Seq<char>,
    path: Seq<char>,
)
    requires
        options_value_of(d.configs, "name"@) == Some(name),
        options_value_of(d.configs, "path"@) == Some(path),
    ensures
        scope_after_import(im, vars, d) == vars.insert(
            name,
            ValModel::TableVal { rows: resolve_path(im, path) },
        ),
        (scope_after_import(im, vars, d)[name] == ValModel::TableVal {
            rows: resolve_path(im, path),
        }),
{
    assert(vars.insert(name, ValModel::TableVal { rows: resolve_path(im, path) }).contains_key(
        name,
    ));
}

/// Undeclared variable: referencing a name no scope in the chain binds is
/// the reported error that names the variable, at the 1-based line of its
/// source position.
pub proof fn lemma_undeclared_variable_reported(
    text: Seq<char>,
    scope: ScopeModel,
    acc: AccessorModel,
)
    requires
        scope.resolve(acc.variable.slice) is None,
    ensures
        ev_accessor(text, scope, acc) == Err::<Seq<char>, RunErrModel>(
            RunErrModel {
                msg: undeclared_variable_message(acc.variable.slice),
                line: line_of(text, acc.variable.start),
            },
        ),
{
}

/// Empty loop: a slice whose start is at or past its end yields zero
/// iterations, and the loop contributes the empty string.
pub proof fn lemma_empty_loop(
    text: Seq<char>,
    im: ImporterModel,
    body: ExprModel,
    it: LoopIteratorModel,
)
    requires
        it.collection_index >= it.end,
    ensures
        ev_loop_iters(text, im, body, it) == Ok::<Seq<Seq<char>>, RunErrModel>(
            Seq::<Seq<char>>::empty(),
        ),
        join_space(Seq::<Seq<char>>::empty()) == Seq::<char>::empty(),
{
}


/// The texts of a run of outputs, concatenated with no separator.
pub open spec fn concat_texts(outs: Seq<Seq<char>>) -> Seq<char>
    decreases outs.len(),
{
    if outs.len() == 0 {
        Seq::empty()
    } else {
        outs[0] + concat_texts(outs.drop_first())
    }
}

proof fn lemma_block_items_concat(
    text: Seq<char>,
    im: ImporterModel,
    scope2: ScopeModel,
    items: Seq<ExprModel>,
    outs: Seq<Seq<char>>,
    k: int,
)
    requires
        0 <= k <= items.len(),
        items.len() == outs.len(),
        forall|j: int|
            0 <= j < items.len() ==> ev_expr(text, im, ScopeModel::child_of(scope2), #[trigger] items[j])
                == Ok::<Seq<char>, RunErrModel>(outs[j]),
    ensures
        ev_block_items(text, im, scope2, items, k) == Ok::<Seq<char>, RunErrModel>(
            concat_texts(outs.skip(k)),
        ),
    decreases items.len() - k,
{
    if k < items.len() {
        lemma_block_items_concat(text, im, scope2, items, outs, k + 1);
        assert(outs.skip(k).drop_first() =~= outs.skip(k + 1));
        assert(outs.skip(k)[0] == outs[k]);
    } else {
        assert(outs.skip(k) =~= Seq::<Seq<char>>::empty());
    }
}

/// Concatenation asymmetry, block side, for any number of children: when
/// each child of an import-free block produces its text under a fresh
/// child frame of the block's scope, the block produces exactly their
/// concatenation — no separator, strictly in source order.
pub proof fn lemma_block_concatenation_all(
    text: Seq<char>,
    im: ImporterModel,
    scope: ScopeModel,
    items: Seq<ExprModel>,
    outs: Seq<Seq<char>>,
)
    requires
        items.len() == outs.len(),
        ({
            let scope2 = ScopeModel { vars: scope.vars, parent: scope.parent };
            forall|j: int|
                0 <= j < items.len() ==> ev_expr(
                    text,
                    im,
                    ScopeModel::child_of(scope2),
                    #[trigger] items[j],
                ) == Ok::<Seq<char>, RunErrModel>(outs[j])
        }),
    ensures
        ev_expr(text, im, scope, ExprModel::Block { imports: Seq::empty(), blocks: items })
            == Ok::<Seq<char>, RunErrModel>(concat_texts(outs)),
{
    let scope2 = ScopeModel { vars: scope.vars, parent: scope.parent };
    assert(scope_after_imports(im, scope.vars, Seq::empty()) == scope.vars);
    lemma_block_items_concat(text, im, scope2, items, outs, 0);
    assert(outs.skip(0) =~= outs);
}

/// Concatenation asymmetry, loop side, for any number of iterations: a
/// loop whose header resolves and whose iterations produce the outputs
/// `outs` produces them joined with a single space between neighbours.
pub proof fn lemma_loop_output_join(
    text: Seq<char>,
    im: ImporterModel,
    scope: ScopeModel,
    ls: LoopStartModel,
    body: ExprModel,
    collection: ValModel,
    mn: int,
    mx: int,
    outs: Seq<Seq<char>>,
)
    requires
        (ev_loop_header(text, scope, ls) == Ok::<(ValModel, int, int), RunErrModel>(
            (collection, mn, mx),
        )),
        ({
            let it = LoopIteratorModel {
                start: mn,
                end: mx,
                scope,
                loop_index: 0,
                collection_index: mn,
                collection,
                loop_variable_name: counter_name(ls),
                collection_variable_name: raw_index_name(ls),
                as_variable_name: as_name(ls),
            };
            ev_loop_iters(text, im, body, it) == Ok::<Seq<Seq<char>>, RunErrModel>(outs)
        }),
    ensures
        (ev_expr(text, im, scope, ExprModel::Loop { loop_start: ls, block: Box::new(body) })
            == Ok::<Seq<char>, RunErrModel>(join_space(outs))),
{
}

/// Slicing, bound resolution: with an explicit clause on a table or row,
/// `..` on the left means 0, `..` on the right means the collection's
/// length, and any other bound resolves exactly like a bracket index —
/// never clamped to the collection.
pub proof fn lemma_slice_resolution(
    text: Seq<char>,
    scope: ScopeModel,
    var_tok: TokenModel,
    sl: SliceModel,
    collection: ValModel,
    mn: int,
    mx: int,
)
    requires
        collection is TableVal || collection is RowVal,
        (ev_slice_bound(text, scope, sl.start_index, 0) == Ok::<int, RunErrModel>(mn)),
        (ev_slice_bound(text, scope, sl.end_index, iter_len(collection)) == Ok::<
            int,
            RunErrModel,
        >(mx)),
    ensures
        (ev_array_slice(text, scope, var_tok, Some(sl), collection) == Ok::<
            (int, int),
            RunErrModel,
        >((mn, mx))),
        sl.start_index.token == Token::DoubleDot ==> mn == 0,
        sl.end_index.token == Token::DoubleDot ==> mx == iter_len(collection),
{
}

/// Slicing, default range: a collection with no slice clause iterates its
/// whole raw index range `[0, length)`.
pub proof fn lemma_slice_default_range(
    text: Seq<char>,
    scope: ScopeModel,
    var_tok: TokenModel,
    collection: ValModel,
)
    requires
        collection is TableVal || collection is RowVal,
    ensures
        (ev_array_slice(text, scope, var_tok, None, collection) == Ok::<
            (int, int),
            RunErrModel,
        >((0, iter_len(collection)))),
{
}

/// Round trip through iteration: with an `as` binding, the iteration at
/// raw index `i` of a table binds under that name exactly row `i` of the
/// table — the rows the import capability returned, in original order,
/// nothing reordered.
pub proof fn lemma_as_binding_rows(
    it: LoopIteratorModel,
    name: Seq<char>,
    rows: Seq<Seq<Seq<char>>>,
)
    requires
        it.as_variable_name == Some(name),
        (it.collection == ValModel::TableVal { rows }),
        0 <= it.collection_index < rows.len(),
    ensures
        (loop_step_scope(it).resolve(name) == Some(
            ValModel::RowVal { cells: rows[it.collection_index] },
        )),
{
}

} // verus!
