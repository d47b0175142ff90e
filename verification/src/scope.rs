use vstd::prelude::*;
use vstd::string::StringExecFns;
use crate::var_type::ValModel;
use crate::var_type::VarType;

verus! {

/// The mathematical content of a scope: local bindings plus the chain of
/// enclosing scopes.
pub struct ScopeModel {
    pub vars: Map<Seq<char>, ValModel>,
    pub parent: Option<Box<ScopeModel>>,
}

impl ScopeModel {
    /// The value `name` resolves to: the local binding if there is one,
    /// otherwise whatever the nearest enclosing scope gives it.
    pub open spec fn resolve(self, name: Seq<char>) -> Option<ValModel>
        decreases self,
    {
        if self.vars.contains_key(name) {
            Some(self.vars[name])
        } else {
            match self.parent {
                Some(p) => p.resolve(name),
                None => None,
            }
        }
    }

    /// A scope with no bindings and no parent.
    pub open spec fn empty() -> ScopeModel {
        ScopeModel { vars: Map::empty(), parent: None }
    }

    /// A fresh child frame chained to `parent`.
    pub open spec fn child_of(parent: ScopeModel) -> ScopeModel {
        ScopeModel { vars: Map::empty(), parent: Some(Box::new(parent)) }
    }
}

/// Local bindings as a map; a later pair with the same name replaces an
/// earlier one.
pub open spec fn bindings_map(vars: Seq<(String, VarType)>) -> Map<Seq<char>, ValModel>
    decreases vars.len(),
{
    if vars.len() == 0 {
        Map::empty()
    } else {
        bindings_map(vars.drop_last()).insert(vars.last().0@, vars.last().1@)
    }
}

/// No two local pairs bind the same name.
pub open spec fn keys_unique(vars: Seq<(String, VarType)>) -> bool {
    forall|i: int, j: int|
        0 <= i < j < vars.len() ==> (#[trigger] vars[i]).0@ != (#[trigger] vars[j]).0@
}

proof fn lemma_bindings_map_found(vars: Seq<(String, VarType)>, i: int)
    requires
        keys_unique(vars),
        0 <= i < vars.len(),
    ensures
        bindings_map(vars).contains_key(vars[i].0@),
        bindings_map(vars)[vars[i].0@] == vars[i].1@,
    decreases vars.len(),
{
    if i < vars.len() - 1 {
        assert(vars.drop_last()[i] == vars[i]);
        lemma_bindings_map_found(vars.drop_last(), i);
        assert(vars[i].0@ != vars[vars.len() - 1].0@);
    }
}

proof fn lemma_bindings_map_not_found(vars: Seq<(String, VarType)>, name: Seq<char>)
    requires
        forall|i: int| 0 <= i < vars.len() ==> (#[trigger] vars[i]).0@ != name,
    ensures
        !bindings_map(vars).contains_key(name),
    decreases vars.len(),
{
    if vars.len() > 0 {
        assert forall|i: int| 0 <= i < vars.drop_last().len() implies (#[trigger] vars.drop_last()[i]).0@
            != name by {
            assert(vars.drop_last()[i] == vars[i]);
        }
        lemma_bindings_map_not_found(vars.drop_last(), name);
        assert(vars[vars.len() - 1].0@ != name);
    }
}

proof fn lemma_bindings_map_update(vars: Seq<(String, VarType)>, i: int, p: (String, VarType))
    requires
        keys_unique(vars),
        0 <= i < vars.len(),
        p.0@ == vars[i].0@,
    ensures
        bindings_map(vars.update(i, p)) == bindings_map(vars).insert(p.0@, p.1@),
    decreases vars.len(),
{
    let u = vars.update(i, p);
    if i == vars.len() - 1 {
        assert(u.drop_last() =~= vars.drop_last());
        assert(u.last() == p);
        assert(bindings_map(u) =~= bindings_map(vars).insert(p.0@, p.1@));
    } else {
        assert(u.drop_last() =~= vars.drop_last().update(i, p));
        assert forall|a: int, b: int| 0 <= a < b < vars.drop_last().len() implies (#[trigger] vars.drop_last()[a]).0@
            != (#[trigger] vars.drop_last()[b]).0@ by {
            assert(vars.drop_last()[a] == vars[a]);
            assert(vars.drop_last()[b] == vars[b]);
        }
        assert(vars.drop_last()[i] == vars[i]);
        lemma_bindings_map_update(vars.drop_last(), i, p);
        assert(u.last() == vars.last());
        assert(p.0@ != vars.last().0@);
        assert(bindings_map(u) =~= bindings_map(vars).insert(p.0@, p.1@));
    }
}

/// A chained lexical environment: name-to-value bindings plus at most one
/// parent scope, which lookups fall back to and which is never mutated
/// through the child.
pub struct Scope {
    pub vars: Vec<(String, VarType)>,
    pub parent: Option<Box<Scope>>,
}

/// The model a scope denotes.
pub open spec fn scope_model(s: Scope) -> ScopeModel
    decreases s,
{
    ScopeModel {
        vars: bindings_map(s.vars@),
        parent: match s.parent {
            Some(p) => Some(Box::new(scope_model(*p))),
            None => None,
        },
    }
}

impl View for Scope {
    type V = ScopeModel;

    open spec fn view(&self) -> ScopeModel {
        scope_model(*self)
    }
}

impl Scope {
    /// Every frame in the chain binds each name at most once.
    pub open spec fn wf(self) -> bool
        decreases self,
    {
        keys_unique(self.vars@) && match self.parent {
            Some(p) => p.wf(),
            None => true,
        }
    }

    /// Construct a parentless `Scope`.
    pub fn new() -> (s: Scope)
        ensures
            s.wf(),
            s@ == ScopeModel::empty(),
    {
        let s = Scope { vars: Vec::new(), parent: None };
        proof {
            assert(bindings_map(s.vars@) =~= Map::<Seq<char>, ValModel>::empty());
        }
        s
    }

    /// Construct a `Scope` whose lookups fall back to `parent`.
    pub fn with_parent(parent: &Scope) -> (s: Scope)
        requires
            parent.wf(),
        ensures
            s.wf(),
            s@ == ScopeModel::child_of(parent@),
    {
        let s = Scope { vars: Vec::new(), parent: Some(Box::new(clone_scope(parent))) };
        proof {
            assert(bindings_map(s.vars@) =~= Map::<Seq<char>, ValModel>::empty());
        }
        s
    }

    /// Set this `Scope`'s parent.
    pub fn set_parent(&mut self, parent: &Scope)
        requires
            old(self).wf(),
            parent.wf(),
        ensures
            final(self).wf(),
            final(self)@.vars == old(self)@.vars,
            final(self)@.parent == Some(Box::new(parent@)),
    {
        self.parent = Some(Box::new(clone_scope(parent)));
    }

    /// Insert a binding into this scope's own frame, returning the value it
    /// replaces, if any. Enclosing scopes are untouched.
    pub fn insert(&mut self, key: String, var: VarType) -> (r: Option<VarType>)
        requires
            old(self).wf(),
        ensures
            final(self).wf(),
            final(self)@.vars == old(self)@.vars.insert(key@, var@),
            final(self)@.parent == old(self)@.parent,
            match r {
                Some(v) => old(self)@.vars.contains_key(key@) && v@ == old(self)@.vars[key@],
                None => !old(self)@.vars.contains_key(key@),
            },
    {
        let n = self.vars.len();
        let mut i: usize = 0;
        while i < n
            invariant
                *self == *old(self),
                old(self).wf(),
                n == self.vars@.len(),
                i <= n,
                forall|k: int| 0 <= k < i ==> (#[trigger] self.vars@[k]).0@ != key@,
            decreases n - i,
        {
            if self.vars[i].0 == key {
                proof {
                    lemma_bindings_map_found(self.vars@, i as int);
                    lemma_bindings_map_update(self.vars@, i as int, (key, var));
                }
                let prior = self.vars.remove(i);
                self.vars.insert(i, (key, var));
                proof {
                    assert(self.vars@ =~= old(self).vars@.update(i as int, (key, var)));
                }
                return Some(prior.1);
            }
            i = i + 1;
        }
        proof {
            lemma_bindings_map_not_found(self.vars@, key@);
        }
        self.vars.push((key, var));
        proof {
            assert(self.vars@.drop_last() =~= old(self).vars@);
        }
        None
    }

    /// Look `key` up in this scope and then in its ancestors; report an
    /// undeclared variable when no scope in the chain binds it.
    pub fn lookup(&self, key: &String) -> (r: Result<&VarType, ScopeError>)
        requires
            self.wf(),
        ensures
            match r {
                Ok(v) => self@.resolve(key@) == Some(v@),
                Err(e) => self@.resolve(key@) is None && e@ == undeclared_variable_message(key@),
            },
    {
        match self.query(key) {
            Some(v) => Ok(v),
            None => Err(ScopeError { msg: make_undeclared_message(key) }),
        }
    }

    fn query(&self, key: &String) -> (r: Option<&VarType>)
        requires
            self.wf(),
        ensures
            match r {
                Some(v) => self@.resolve(key@) == Some(v@),
                None => self@.resolve(key@) is None,
            },
        decreases *self,
    {
        let n = self.vars.len();
        let mut i: usize = 0;
        while i < n
            invariant
                self.wf(),
                n == self.vars@.len(),
                i <= n,
                forall|k: int| 0 <= k < i ==> (#[trigger] self.vars@[k]).0@ != key@,
            decreases n - i,
        {
            if self.vars[i].0 == *key {
                proof {
                    lemma_bindings_map_found(self.vars@, i as int);
                }
                return Some(&self.vars[i].1);
            }
            i = i + 1;
        }
        proof {
            lemma_bindings_map_not_found(self.vars@, key@);
        }
        match &self.parent {
            Some(p) => p.query(key),
            None => None,
        }
    }
}

/// Copy a whole scope chain; the copy denotes the same model.
pub fn clone_scope(s: &Scope) -> (r: Scope)
    requires
        s.wf(),
    ensures
        r@ == s@,
        r.wf(),
    decreases *s,
{
    let n = s.vars.len();
    let mut vars: Vec<(String, VarType)> = Vec::new();
    let mut i: usize = 0;
    while i < n
        invariant
            s.wf(),
            n == s.vars@.len(),
            i <= n,
            vars@.len() == i,
            forall|k: int| 0 <= k < i ==> (#[trigger] vars@[k]).0@ == s.vars@[k].0@ && vars@[k].1@
                == s.vars@[k].1@,
        decreases n - i,
    {
        let pair = (s.vars[i].0.clone(), s.vars[i].1.duplicate());
        vars.push(pair);
        i = i + 1;
    }
    proof {
        lemma_bindings_map_congruence(vars@, s.vars@);
    }
    let parent = match &s.parent {
        Some(p) => Some(Box::new(clone_scope(p))),
        None => None,
    };
    Scope { vars, parent }
}

proof fn lemma_bindings_map_congruence(a: Seq<(String, VarType)>, b: Seq<(String, VarType)>)
    requires
        a.len() == b.len(),
        forall|i: int| 0 <= i < a.len() ==> (#[trigger] a[i]).0@ == b[i].0@ && a[i].1@ == b[i].1@,
    ensures
        bindings_map(a) == bindings_map(b),
        keys_unique(a) == keys_unique(b),
    decreases a.len(),
{
    if keys_unique(a) {
        assert forall|i: int, j: int| 0 <= i < j < b.len() implies (#[trigger] b[i]).0@
            != (#[trigger] b[j]).0@ by {
            assert(a[i].0@ == b[i].0@);
            assert(a[j].0@ == b[j].0@);
        }
    }
    if keys_unique(b) {
        assert forall|i: int, j: int| 0 <= i < j < a.len() implies (#[trigger] a[i]).0@
            != (#[trigger] a[j]).0@ by {
            assert(a[i].0@ == b[i].0@);
            assert(a[j].0@ == b[j].0@);
        }
    }
    if a.len() > 0 {
        assert forall|i: int| 0 <= i < a.drop_last().len() implies (#[trigger] a.drop_last()[i]).0@
            == b.drop_last()[i].0@ && a.drop_last()[i].1@ == b.drop_last()[i].1@ by {
            assert(a.drop_last()[i] == a[i]);
            assert(b.drop_last()[i] == b[i]);
        }
        lemma_bindings_map_congruence(a.drop_last(), b.drop_last());
        assert(bindings_map(a) =~= bindings_map(b));
    } else {
        assert(bindings_map(a) =~= bindings_map(b));
    }
}

/// The message reported when no scope in the chain binds a name.
pub open spec fn undeclared_variable_message(name: Seq<char>) -> Seq<char> {
    "Attempted to use undeclared variable "@ + name
}

fn make_undeclared_message(key: &String) -> (m: String)
    ensures
        m@ == undeclared_variable_message(key@),
{
    let mut m = String::from_str("Attempted to use undeclared variable ");
    m.append(key.as_str());
    m
}

/// The failure of a scope lookup, carrying its message.
pub struct ScopeError {
    msg: String,
}

impl View for ScopeError {
    type V = Seq<char>;

    closed spec fn view(&self) -> Seq<char> {
        self.msg@
    }
}

impl ScopeError {
    /// The human-readable description of this failure.
    pub fn message(&self) -> (m: &String)
        ensures
            m@ == self@,
    {
        &self.msg
    }
}

} // verus!
