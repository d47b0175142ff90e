use vstd::prelude::*;

mod importer;
mod interpreter;
mod laws;
mod loop_iterator;
mod parser;
mod scope;
mod tree_nodes;
mod tokenizer;
mod var_type;

pub use importer::Importer;
pub use laws::lemma_as_binding_rows;
pub use laws::lemma_block_concatenation;
pub use laws::lemma_block_concatenation_all;
pub use laws::lemma_empty_loop;
pub use laws::lemma_import_round_trip;
pub use laws::lemma_index_non_iterable;
pub use laws::lemma_indexing_chain;
pub use laws::lemma_literal_run_verbatim;
pub use laws::lemma_literal_template_verbatim;
pub use laws::lemma_loop_counter_shadowing;
pub use laws::lemma_loop_output_join;
pub use laws::lemma_loop_iteration_count;
pub use laws::lemma_loop_join;
pub use laws::lemma_shadowing;
pub use laws::lemma_slice_default_range;
pub use laws::lemma_slice_resolution;
pub use laws::lemma_slice_iteration_indices;
pub use laws::lemma_substitution_number;
pub use laws::lemma_substitution_value;
pub use laws::lemma_undeclared_variable_reported;
pub use loop_iterator::LoopIterator;
pub use interpreter::GeneralError;
pub use interpreter::Interpreter;
pub use interpreter::InterpreterError;
pub use interpreter::InterpreterResult;
pub use parser::ParseError;
pub use parser::Parser;
pub use scope::Scope;
pub use scope::ScopeError;
pub use tokenizer::InfoToken;
pub use tree_nodes::AccessorExpr;
pub use tree_nodes::AnythingExpr;
pub use tree_nodes::ArrayAccessorExpr;
pub use tree_nodes::ArrayBracketExpr;
pub use tree_nodes::ArrayBracketIndexExpr;
pub use tree_nodes::ArraySliceExpr;
pub use tree_nodes::ArraySliceIndexExpr;
pub use tree_nodes::AsVariableExpr;
pub use tree_nodes::BlockExpr;
pub use tree_nodes::CommaVariableExpr;
pub use tree_nodes::DotVariableExpr;
pub use tree_nodes::EndExpr;
pub use tree_nodes::Expr;
pub use tree_nodes::ImportConfigOptionExpr;
pub use tree_nodes::ImportExpr;
pub use tree_nodes::LoopExpr;
pub use tree_nodes::LoopStartExpr;
pub use tree_nodes::MustacheAccessorExpr;
pub use tree_nodes::OutputExpr;
pub use tree_nodes::ParenVariableParenExpr;
pub use tree_nodes::StartExpr;
pub use tree_nodes::import_selectors;
pub use tokenizer::Token;
pub use tokenizer::Tokenizer;
pub use var_type::Var;
pub use var_type::VarType;
