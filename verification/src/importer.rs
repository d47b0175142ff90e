use vstd::prelude::*;
use crate::scope::Scope;
use crate::tree_nodes::ImportExpr;
use crate::tree_nodes::ImportModel;
use crate::tree_nodes::options_value_of;
use crate::var_type::ValModel;
use crate::var_type::Var;
use crate::var_type::VarType;
use crate::var_type::clone_string_table;

verus! {

/// The rows of the comma-delimited text `s`, as the `csv` reader yields
/// them: no header special-casing, records that fail to parse skipped.
pub uninterp spec fn csv_rows_of(s: Seq<char>) -> Seq<Seq<Seq<char>>>;

/// Relies on csv::ReaderBuilder and csv::StringRecord: parses in-memory
/// comma-delimited text into rows of fields, with no header row; the result
/// depends on the text alone.
#[verifier::external_body]
fn parse_csv_rows(content: &str) -> (rows: Vec<Vec<String>>)
    ensures
        rows.deep_view() == csv_rows_of(content@),
{
    let mut rdr = csv::ReaderBuilder::new().has_headers(false).from_reader(content.as_bytes());
    let mut rows: Vec<Vec<String>> = Vec::new();
    for result in rdr.records() {
        if let Ok(record) = result {
            rows.push(record.iter().map(|field| field.to_string()).collect());
        }
    }
    rows
}

/// The mathematical content of an importer: the tables it has resolved,
/// keyed by the path or remote key they were requested under.
pub struct ImporterModel {
    pub path_tables: Map<Seq<char>, Seq<Seq<Seq<char>>>>,
    pub sheet_tables: Map<Seq<char>, Seq<Seq<Seq<char>>>>,
}

/// The table a path resolves to; an unresolved path degrades to the empty
/// table.
pub open spec fn resolve_path(im: ImporterModel, p: Seq<char>) -> Seq<Seq<Seq<char>>> {
    if im.path_tables.contains_key(p) {
        im.path_tables[p]
    } else {
        Seq::empty()
    }
}

/// The table a remote key resolves to; an unresolved key degrades to the
/// empty table.
pub open spec fn resolve_sheet(im: ImporterModel, k: Seq<char>) -> Seq<Seq<Seq<char>>> {
    if im.sheet_tables.contains_key(k) {
        im.sheet_tables[k]
    } else {
        Seq::empty()
    }
}

/// The bindings of a scope frame after one import directive: nothing
/// without a `name` option; under `name`, the table of its `path` if one is
/// given, else of its `key` if one is given, else nothing.
pub open spec fn scope_after_import(
    im: ImporterModel,
    vars: Map<Seq<char>, ValModel>,
    d: ImportModel,
) -> Map<Seq<char>, ValModel> {
    match options_value_of(d.configs, "name"@) {
        None => vars,
        Some(name) => match options_value_of(d.configs, "path"@) {
            Some(p) => vars.insert(name, ValModel::TableVal { rows: resolve_path(im, p) }),
            None => match options_value_of(d.configs, "key"@) {
                Some(k) => vars.insert(name, ValModel::TableVal { rows: resolve_sheet(im, k) }),
                None => vars,
            },
        },
    }
}

/// The bindings of a scope frame after a run of import directives, applied
/// in source order.
pub open spec fn scope_after_imports(
    im: ImporterModel,
    vars: Map<Seq<char>, ValModel>,
    ds: Seq<ImportModel>,
) -> Map<Seq<char>, ValModel>
    decreases ds.len(),
{
    if ds.len() == 0 {
        vars
    } else {
        scope_after_imports(im, scope_after_import(im, vars, ds[0]), ds.drop_first())
    }
}

/// Association list of resolved tables as a map; a later entry with the
/// same key replaces an earlier one.
pub open spec fn tables_map(entries: Seq<(String, Vec<Vec<String>>)>) -> Map<
    Seq<char>,
    Seq<Seq<Seq<char>>>,
>
    decreases entries.len(),
{
    if entries.len() == 0 {
        Map::empty()
    } else {
        tables_map(entries.drop_last()).insert(
            entries.last().0@,
            entries.last().1.deep_view(),
        )
    }
}

proof fn lemma_tables_map_found(entries: Seq<(String, Vec<Vec<String>>)>, i: int)
    requires
        0 <= i < entries.len(),
        forall|a: int, b: int|
            0 <= a < b < entries.len() ==> (#[trigger] entries[a]).0@ != (#[trigger] entries[b]).0@,
    ensures
        tables_map(entries).contains_key(entries[i].0@),
        tables_map(entries)[entries[i].0@] == entries[i].1.deep_view(),
    decreases entries.len(),
{
    if i < entries.len() - 1 {
        assert(entries.drop_last()[i] == entries[i]);
        assert forall|a: int, b: int| 0 <= a < b < entries.drop_last().len() implies (#[trigger] entries.drop_last()[a]).0@
            != (#[trigger] entries.drop_last()[b]).0@ by {
            assert(entries.drop_last()[a] == entries[a]);
            assert(entries.drop_last()[b] == entries[b]);
        }
        lemma_tables_map_found(entries.drop_last(), i);
        assert(entries[i].0@ != entries[entries.len() - 1].0@);
    }
}

proof fn lemma_tables_map_not_found(entries: Seq<(String, Vec<Vec<String>>)>, key: Seq<char>)
    requires
        forall|a: int| 0 <= a < entries.len() ==> (#[trigger] entries[a]).0@ != key,
    ensures
        !tables_map(entries).contains_key(key),
    decreases entries.len(),
{
    if entries.len() > 0 {
        assert forall|a: int| 0 <= a < entries.drop_last().len() implies (#[trigger] entries.drop_last()[a]).0@
            != key by {
            assert(entries.drop_last()[a] == entries[a]);
        }
        lemma_tables_map_not_found(entries.drop_last(), key);
        assert(entries[entries.len() - 1].0@ != key);
    }
}

/// Resolves template imports to rectangular tables of strings. The tables
/// themselves are loaded ahead of interpretation from in-memory text (the
/// surrounding tooling does the reading and fetching); during
/// interpretation every resolution is a pure lookup, and a name that was
/// never loaded degrades to the empty table.
pub struct Importer {
    pub path_entries: Vec<(String, Vec<Vec<String>>)>,
    pub sheet_entries: Vec<(String, Vec<Vec<String>>)>,
    pub current_directory: String,
}

impl View for Importer {
    type V = ImporterModel;

    open spec fn view(&self) -> ImporterModel {
        ImporterModel {
            path_tables: tables_map(self.path_entries@),
            sheet_tables: tables_map(self.sheet_entries@),
        }
    }
}

impl Importer {
    pub open spec fn wf(self) -> bool {
        &&& forall|a: int, b: int|
            0 <= a < b < self.path_entries@.len() ==> (#[trigger] self.path_entries@[a]).0@
                != (#[trigger] self.path_entries@[b]).0@
        &&& forall|a: int, b: int|
            0 <= a < b < self.sheet_entries@.len() ==> (#[trigger] self.sheet_entries@[a]).0@
                != (#[trigger] self.sheet_entries@[b]).0@
    }

    /// Construct an `Importer` with no tables loaded yet.
    pub fn new(current_directory: String) -> (im: Importer)
        ensures
            im.wf(),
            im@.path_tables == Map::<Seq<char>, Seq<Seq<Seq<char>>>>::empty(),
            im@.sheet_tables == Map::<Seq<char>, Seq<Seq<Seq<char>>>>::empty(),
            im.current_directory == current_directory,
    {
        Importer { path_entries: Vec::new(), sheet_entries: Vec::new(), current_directory }
    }

    /// Parse comma-delimited text and file its rows under `filename`,
    /// replacing any table previously filed there.
    pub fn add_file_source(&mut self, filename: String, content: &str)
        requires
            old(self).wf(),
        ensures
            final(self).wf(),
            final(self)@.path_tables == old(self)@.path_tables.insert(
                filename@,
                csv_rows_of(content@),
            ),
            final(self)@.sheet_tables == old(self)@.sheet_tables,
            final(self).current_directory == old(self).current_directory,
    {
        let rows = parse_csv_rows(content);
        let n = self.path_entries.len();
        let mut i: usize = 0;
        while i < n
            invariant
                *self == *old(self),
                old(self).wf(),
                rows.deep_view() == csv_rows_of(content@),
                n == self.path_entries@.len(),
                i <= n,
                forall|k: int|
                    0 <= k < i ==> (#[trigger] self.path_entries@[k]).0@ != filename@,
            decreases n - i,
        {
            if self.path_entries[i].0 == filename {
                let _ = self.path_entries.remove(i);
                self.path_entries.insert(i, (filename, rows));
                proof {
                    assert(self.path_entries@ =~= old(self).path_entries@.update(
                        i as int,
                        self.path_entries@[i as int],
                    ));
                    lemma_tables_map_update(
                        old(self).path_entries@,
                        i as int,
                        self.path_entries@[i as int],
                    );
                    assert forall|a: int, b: int| 0 <= a < b < self.path_entries@.len() implies (#[trigger] self.path_entries@[a]).0@
                        != (#[trigger] self.path_entries@[b]).0@ by {
                        assert(old(self).path_entries@[a].0@ != old(self).path_entries@[b].0@);
                    }
                }
                return ;
            }
            i = i + 1;
        }
        proof {
            lemma_tables_map_not_found(self.path_entries@, filename@);
        }
        self.path_entries.push((filename, rows));
        proof {
            assert(self.path_entries@.drop_last() =~= old(self).path_entries@);
        }
    }

    /// Parse comma-delimited text and file its rows under the remote key,
    /// replacing any table previously filed there.
    pub fn add_sheet_source(&mut self, key: String, content: &str)
        requires
            old(self).wf(),
        ensures
            final(self).wf(),
            final(self)@.sheet_tables == old(self)@.sheet_tables.insert(
                key@,
                csv_rows_of(content@),
            ),
            final(self)@.path_tables == old(self)@.path_tables,
            final(self).current_directory == old(self).current_directory,
    {
        let rows = parse_csv_rows(content);
        let n = self.sheet_entries.len();
        let mut i: usize = 0;
        while i < n
            invariant
                *self == *old(self),
                old(self).wf(),
                rows.deep_view() == csv_rows_of(content@),
                n == self.sheet_entries@.len(),
                i <= n,
                forall|k: int|
                    0 <= k < i ==> (#[trigger] self.sheet_entries@[k]).0@ != key@,
            decreases n - i,
        {
            if self.sheet_entries[i].0 == key {
                let _ = self.sheet_entries.remove(i);
                self.sheet_entries.insert(i, (key, rows));
                proof {
                    assert(self.sheet_entries@ =~= old(self).sheet_entries@.update(
                        i as int,
                        self.sheet_entries@[i as int],
                    ));
                    lemma_tables_map_update(
                        old(self).sheet_entries@,
                        i as int,
                        self.sheet_entries@[i as int],
                    );
                    assert forall|a: int, b: int| 0 <= a < b < self.sheet_entries@.len() implies (#[trigger] self.sheet_entries@[a]).0@
                        != (#[trigger] self.sheet_entries@[b]).0@ by {
                        assert(old(self).sheet_entries@[a].0@ != old(self).sheet_entries@[b].0@);
                    }
                }
                return ;
            }
            i = i + 1;
        }
        proof {
            lemma_tables_map_not_found(self.sheet_entries@, key@);
        }
        self.sheet_entries.push((key, rows));
        proof {
            assert(self.sheet_entries@.drop_last() =~= old(self).sheet_entries@);
        }
    }

    /// The rows filed under `filename`, or the empty table.
    fn get_from_file(&self, filename: &String) -> (rows: Vec<Vec<String>>)
        requires
            self.wf(),
        ensures
            rows.deep_view() == resolve_path(self@, filename@),
    {
        let n = self.path_entries.len();
        let mut i: usize = 0;
        while i < n
            invariant
                self.wf(),
                n == self.path_entries@.len(),
                i <= n,
                forall|k: int|
                    0 <= k < i ==> (#[trigger] self.path_entries@[k]).0@ != filename@,
            decreases n - i,
        {
            if self.path_entries[i].0 == *filename {
                proof {
                    lemma_tables_map_found(self.path_entries@, i as int);
                }
                return clone_string_table(&self.path_entries[i].1);
            }
            i = i + 1;
        }
        proof {
            lemma_tables_map_not_found(self.path_entries@, filename@);
        }
        let r: Vec<Vec<String>> = Vec::new();
        proof {
            assert(r.deep_view() =~= Seq::<Seq<Seq<char>>>::empty());
        }
        r
    }

    /// The rows filed under the remote key `key`, or the empty table.
    fn get_google_sheet(&self, key: &String) -> (rows: Vec<Vec<String>>)
        requires
            self.wf(),
        ensures
            rows.deep_view() == resolve_sheet(self@, key@),
    {
        let n = self.sheet_entries.len();
        let mut i: usize = 0;
        while i < n
            invariant
                self.wf(),
                n == self.sheet_entries@.len(),
                i <= n,
                forall|k: int|
                    0 <= k < i ==> (#[trigger] self.sheet_entries@[k]).0@ != key@,
            decreases n - i,
        {
            if self.sheet_entries[i].0 == *key {
                proof {
                    lemma_tables_map_found(self.sheet_entries@, i as int);
                }
                return clone_string_table(&self.sheet_entries[i].1);
            }
            i = i + 1;
        }
        proof {
            lemma_tables_map_not_found(self.sheet_entries@, key@);
        }
        let r: Vec<Vec<String>> = Vec::new();
        proof {
            assert(r.deep_view() =~= Seq::<Seq<Seq<char>>>::empty());
        }
        r
    }

    /// Bind the table filed under `filename` into `scope` as
    /// `variable_name`.
    pub fn update_with_file(&self, scope: &mut Scope, variable_name: String, filename: String)
        requires
            self.wf(),
            old(scope).wf(),
        ensures
            final(scope).wf(),
            final(scope)@.vars == old(scope)@.vars.insert(
                variable_name@,
                ValModel::TableVal { rows: resolve_path(self@, filename@) },
            ),
            final(scope)@.parent == old(scope)@.parent,
    {
        let rows = self.get_from_file(&filename);
        let _ = scope.insert(variable_name, VarType::Table(Var::new(rows)));
    }

    /// Bind the table filed under the remote key into `scope` as
    /// `variable_name`.
    pub fn update_with_sheet(&self, scope: &mut Scope, variable_name: String, sheet_id: String)
        requires
            self.wf(),
            old(scope).wf(),
        ensures
            final(scope).wf(),
            final(scope)@.vars == old(scope)@.vars.insert(
                variable_name@,
                ValModel::TableVal { rows: resolve_sheet(self@, sheet_id@) },
            ),
            final(scope)@.parent == old(scope)@.parent,
    {
        let rows = self.get_google_sheet(&sheet_id);
        let _ = scope.insert(variable_name, VarType::Table(Var::new(rows)));
    }

    /// Resolve each import directive in source order and bind its table
    /// into `scope`; a directive without a usable `name`, or with neither
    /// `path` nor `key`, binds nothing.
    pub fn update_scope(&self, scope: &mut Scope, imports: &Vec<ImportExpr>)
        requires
            self.wf(),
            old(scope).wf(),
        ensures
            final(scope).wf(),
            final(scope)@.vars == scope_after_imports(
                self@,
                old(scope)@.vars,
                imports.deep_view(),
            ),
            final(scope)@.parent == old(scope)@.parent,
    {
        let n = imports.len();
        let mut i: usize = 0;
        proof {
            assert(imports.deep_view().skip(0) =~= imports.deep_view());
        }
        while i < n
            invariant
                self.wf(),
                scope.wf(),
                n == imports@.len(),
                i <= n,
                scope@.parent == old(scope)@.parent,
                scope_after_imports(self@, old(scope)@.vars, imports.deep_view())
                    == scope_after_imports(self@, scope@.vars, imports.deep_view().skip(i as int)),
            decreases n - i,
        {
            let imp = &imports[i];
            let ghost pre_vars = scope@.vars;
            proof {
                assert(imports.deep_view().skip(i as int)[0] == imp.deep_view());
                assert(imports.deep_view().skip(i as int).drop_first() =~= imports.deep_view().skip(
                    i + 1,
                ));
            }
            match imp.value_of("name") {
                None => {},
                Some(name) => {
                    match imp.value_of("path") {
                        Some(filename) => {
                            self.update_with_file(scope, name, filename);
                        },
                        None => {
                            match imp.value_of("key") {
                                Some(key) => {
                                    self.update_with_sheet(scope, name, key);
                                },
                                None => {},
                            }
                        },
                    }
                },
            }
            proof {
                assert(scope@.vars == scope_after_import(self@, pre_vars, imp.deep_view()));
            }
            i = i + 1;
        }
        proof {
            assert(imports.deep_view().skip(n as int).len() == 0);
        }
    }
}

/// Copy an importer's resolved tables; the copy denotes the same model.
pub fn clone_importer(im: &Importer) -> (r: Importer)
    requires
        im.wf(),
    ensures
        r.wf(),
        r@ == im@,
        r.current_directory@ == im.current_directory@,
{
    Importer {
        path_entries: clone_entries(&im.path_entries),
        sheet_entries: clone_entries(&im.sheet_entries),
        current_directory: im.current_directory.clone(),
    }
}

fn clone_entries(v: &Vec<(String, Vec<Vec<String>>)>) -> (r: Vec<(String, Vec<Vec<String>>)>)
    ensures
        r@.len() == v@.len(),
        forall|k: int|
            0 <= k < v@.len() ==> (#[trigger] r@[k]).0@ == v@[k].0@ && r@[k].1.deep_view()
                == v@[k].1.deep_view(),
        tables_map(r@) == tables_map(v@),
{
    let mut r: Vec<(String, Vec<Vec<String>>)> = Vec::new();
    let mut i: usize = 0;
    while i < v.len()
        invariant
            i <= v@.len(),
            r@.len() == i,
            forall|k: int|
                0 <= k < i ==> (#[trigger] r@[k]).0@ == v@[k].0@ && r@[k].1.deep_view()
                    == v@[k].1.deep_view(),
        decreases v@.len() - i,
    {
        r.push((v[i].0.clone(), clone_string_table(&v[i].1)));
        i = i + 1;
    }
    proof {
        lemma_tables_map_congruence(r@, v@);
    }
    r
}

proof fn lemma_tables_map_congruence(
    a: Seq<(String, Vec<Vec<String>>)>,
    b: Seq<(String, Vec<Vec<String>>)>,
)
    requires
        a.len() == b.len(),
        forall|k: int|
            0 <= k < a.len() ==> (#[trigger] a[k]).0@ == b[k].0@ && a[k].1.deep_view()
                == b[k].1.deep_view(),
    ensures
        tables_map(a) == tables_map(b),
    decreases a.len(),
{
    if a.len() > 0 {
        assert forall|k: int| 0 <= k < a.drop_last().len() implies (#[trigger] a.drop_last()[k]).0@
            == b.drop_last()[k].0@ && a.drop_last()[k].1.deep_view()
            == b.drop_last()[k].1.deep_view() by {
            assert(a.drop_last()[k] == a[k]);
            assert(b.drop_last()[k] == b[k]);
        }
        lemma_tables_map_congruence(a.drop_last(), b.drop_last());
        assert(a[a.len() - 1].0@ == b[b.len() - 1].0@);
        assert(a[a.len() - 1].1.deep_view() == b[b.len() - 1].1.deep_view());
        assert(tables_map(a) =~= tables_map(b));
    } else {
        assert(tables_map(a) =~= tables_map(b));
    }
}

proof fn lemma_tables_map_update(
    entries: Seq<(String, Vec<Vec<String>>)>,
    i: int,
    p: (String, Vec<Vec<String>>),
)
    requires
        0 <= i < entries.len(),
        forall|a: int, b: int|
            0 <= a < b < entries.len() ==> (#[trigger] entries[a]).0@ != (#[trigger] entries[b]).0@,
        p.0@ == entries[i].0@,
    ensures
        tables_map(entries.update(i, p)) == tables_map(entries).insert(p.0@, p.1.deep_view()),
    decreases entries.len(),
{
    let u = entries.update(i, p);
    if i == entries.len() - 1 {
        assert(u.drop_last() =~= entries.drop_last());
        assert(u.last() == p);
        assert(tables_map(u) =~= tables_map(entries).insert(p.0@, p.1.deep_view()));
    } else {
        assert(u.drop_last() =~= entries.drop_last().update(i, p));
        assert forall|a: int, b: int| 0 <= a < b < entries.drop_last().len() implies (#[trigger] entries.drop_last()[a]).0@
            != (#[trigger] entries.drop_last()[b]).0@ by {
            assert(entries.drop_last()[a] == entries[a]);
            assert(entries.drop_last()[b] == entries[b]);
        }
        assert(entries.drop_last()[i] == entries[i]);
        lemma_tables_map_update(entries.drop_last(), i, p);
        assert(u.last() == entries.last());
        assert(p.0@ != entries.last().0@);
        assert(tables_map(u) =~= tables_map(entries).insert(p.0@, p.1.deep_view()));
    }
}

} // verus!
