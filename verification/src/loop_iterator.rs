use vstd::prelude::*;
use vstd::string::StringExecFns;
use crate::scope::Scope;
use crate::scope::ScopeModel;
use crate::var_type::ValModel;
use crate::var_type::Var;
use crate::var_type::VarType;
use crate::var_type::clone_string_vec;

verus! {

/// The mathematical content of a loop iterator.
pub struct LoopIteratorModel {
    pub start: int,
    pub end: int,
    pub scope: ScopeModel,
    pub loop_index: int,
    pub collection_index: int,
    pub collection: ValModel,
    pub loop_variable_name: Option<Seq<char>>,
    pub collection_variable_name: Option<Seq<char>>,
    pub as_variable_name: Option<Seq<char>>,
}

/// The element an iteration binds under its `as` name: the row of a table
/// or the cell of a row at the current raw index. A raw index beyond the
/// collection — a slice bound past its end — binds the degraded empty row
/// or empty string, by design: it is the same leniency that out-of-range
/// bracket indexing has, so an oversized slice is reported through its
/// output rather than stopping the run.
pub open spec fn element_at(collection: ValModel, i: int) -> ValModel {
    match collection {
        ValModel::TableVal { rows } => ValModel::RowVal {
            cells: if 0 <= i < rows.len() {
                rows[i]
            } else {
                Seq::empty()
            },
        },
        ValModel::RowVal { cells } => ValModel::Str {
            s: if 0 <= i < cells.len() {
                cells[i]
            } else {
                Seq::empty()
            },
        },
        _ => collection,
    }
}

/// The child scope one iteration step produces: chained to the enclosing
/// scope and pre-populated with the step bindings, later inserts shadowing
/// earlier ones.
pub open spec fn loop_step_scope(it: LoopIteratorModel) -> ScopeModel {
    let m0 = Map::<Seq<char>, ValModel>::empty().insert(
        "loop_index"@,
        ValModel::Num { n: it.loop_index as nat },
    ).insert("collection_index"@, ValModel::Num { n: it.collection_index as nat });
    let m1 = match it.loop_variable_name {
        Some(nm) => m0.insert(nm, ValModel::Num { n: it.loop_index as nat }),
        None => m0,
    };
    let m2 = match it.collection_variable_name {
        Some(nm) => m1.insert(nm, ValModel::Num { n: it.collection_index as nat }),
        None => m1,
    };
    let m3 = match it.as_variable_name {
        Some(nm) => m2.insert(nm, element_at(it.collection, it.collection_index)),
        None => m2,
    };
    ScopeModel { vars: m3, parent: Some(Box::new(it.scope)) }
}

/// The model of the iterator after one step.
pub open spec fn stepped(it: LoopIteratorModel) -> LoopIteratorModel {
    LoopIteratorModel {
        loop_index: it.loop_index + 1,
        collection_index: it.collection_index + 1,
        ..it
    }
}

/// A lazy, forward-only sequence of per-iteration child scopes over a
/// sliced collection.
pub struct LoopIterator {
    start: usize,
    end: usize,
    scope: Scope,
    loop_index: usize,
    collection_index: usize,
    collection: VarType,
    loop_variable_name: Option<String>,
    collection_variable_name: Option<String>,
    as_variable_name: Option<String>,
}

impl View for LoopIterator {
    type V = LoopIteratorModel;

    closed spec fn view(&self) -> LoopIteratorModel {
        LoopIteratorModel {
            start: self.start as int,
            end: self.end as int,
            scope: self.scope@,
            loop_index: self.loop_index as int,
            collection_index: self.collection_index as int,
            collection: self.collection@,
            loop_variable_name: match self.loop_variable_name {
                Some(s) => Some(s@),
                None => None,
            },
            collection_variable_name: match self.collection_variable_name {
                Some(s) => Some(s@),
                None => None,
            },
            as_variable_name: match self.as_variable_name {
                Some(s) => Some(s@),
                None => None,
            },
        }
    }
}

impl LoopIterator {
    pub closed spec fn wf(self) -> bool {
        &&& self.scope.wf()
        &&& (self.collection@ is TableVal || self.collection@ is RowVal)
        &&& self.loop_index <= self.collection_index
    }

    /// Construct an iterator over `collection` restricted to the half-open
    /// raw index range `[min, max)`, chaining each produced scope to `scope`.
    pub fn new(
        scope: &Scope,
        collection: VarType,
        min: usize,
        max: usize,
        loop_variable_name: Option<String>,
        collection_variable_name: Option<String>,
        as_variable_name: Option<String>,
    ) -> (it: LoopIterator)
        requires
            scope.wf(),
            collection@ is TableVal || collection@ is RowVal,
        ensures
            it.wf(),
            it@ == (LoopIteratorModel {
                start: min as int,
                end: max as int,
                scope: scope@,
                loop_index: 0,
                collection_index: min as int,
                collection: collection@,
                loop_variable_name: match loop_variable_name {
                    Some(s) => Some(s@),
                    None => None,
                },
                collection_variable_name: match collection_variable_name {
                    Some(s) => Some(s@),
                    None => None,
                },
                as_variable_name: match as_variable_name {
                    Some(s) => Some(s@),
                    None => None,
                },
            }),
    {
        LoopIterator {
            scope: crate::scope::clone_scope(scope),
            collection,
            start: min,
            end: max,
            loop_variable_name,
            collection_variable_name,
            as_variable_name,
            collection_index: min,
            loop_index: 0,
        }
    }

    /// While the raw index has not reached the end bound, produce the next
    /// iteration's child scope and advance both counters; afterwards the
    /// sequence is exhausted. An `as` binding whose raw index lies beyond
    /// the collection is bound to `element_at`'s degraded empty value — a
    /// deliberate widening: iteration itself never fails, matching the
    /// degrade-on-out-of-range rule for indexing.
    pub fn next(&mut self) -> (r: Option<Scope>)
        requires
            old(self).wf(),
        ensures
            final(self).wf(),
            old(self)@.collection_index < old(self)@.end ==> ({
                &&& r is Some
                &&& match r {
                    Some(s) => s@ == loop_step_scope(old(self)@) && s.wf(),
                    None => false,
                }
                &&& final(self)@ == stepped(old(self)@)
            }),
            old(self)@.collection_index >= old(self)@.end ==> r is None && final(self)@ == old(
                self,
            )@,
    {
        if self.collection_index < self.end {
            let mut scope = Scope::with_parent(&self.scope);
            scope.insert(
                String::from_str("loop_index"),
                VarType::Number(Var::new(self.loop_index)),
            );
            scope.insert(
                String::from_str("collection_index"),
                VarType::Number(Var::new(self.collection_index)),
            );
            if let Some(variable) = &self.loop_variable_name {
                scope.insert(variable.clone(), VarType::Number(Var::new(self.loop_index)));
            }
            if let Some(variable) = &self.collection_variable_name {
                scope.insert(variable.clone(), VarType::Number(Var::new(self.collection_index)));
            }
            match &self.collection {
                VarType::Table(var) => {
                    if let Some(variable) = &self.as_variable_name {
                        let row: Vec<String> = if self.collection_index < var.data.len() {
                            clone_string_vec(&var.data[self.collection_index])
                        } else {
                            Vec::new()
                        };
                        proof {
                            assert(row.deep_view() =~= match element_at(
                                self.collection@,
                                self.collection_index as int,
                            ) {
                                ValModel::RowVal { cells } => cells,
                                _ => Seq::empty(),
                            });
                        }
                        scope.insert(variable.clone(), VarType::Row(Var::new(row)));
                    }
                },
                VarType::Row(var) => {
                    if let Some(variable) = &self.as_variable_name {
                        let cell: String = if self.collection_index < var.data.len() {
                            var.data[self.collection_index].clone()
                        } else {
                            String::new()
                        };
                        proof {
                            assert(cell@ =~= match element_at(
                                self.collection@,
                                self.collection_index as int,
                            ) {
                                ValModel::Str { s } => s,
                                _ => Seq::empty(),
                            });
                        }
                        scope.insert(variable.clone(), VarType::Value(Var::new(cell)));
                    }
                },
                VarType::Number(_) => {
                    proof {
                        assert(false);
                    }
                },
                VarType::Value(_) => {
                    proof {
                        assert(false);
                    }
                },
            }
            self.loop_index = self.loop_index + 1;
            self.collection_index = self.collection_index + 1;
            proof {
                assert(scope@ == loop_step_scope(old(self)@));
            }
            Some(scope)
        } else {
            None
        }
    }
}

} // verus!
