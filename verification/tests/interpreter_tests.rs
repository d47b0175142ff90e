use hamster_wheel::Importer;
use hamster_wheel::Interpreter;
use hamster_wheel::Scope;
use hamster_wheel::Var;
use hamster_wheel::VarType;

fn empty_importer() -> Importer {
    Importer::new(String::from("."))
}

fn table(rows: &[&[&str]]) -> VarType {
    let data: Vec<Vec<String>> = rows
        .iter()
        .map(|row| row.iter().map(|cell| cell.to_string()).collect())
        .collect();
    VarType::Table(Var::new(data))
}

fn run(text: &str, scope: &mut Scope) -> Result<(String, String), String> {
    let importer = empty_importer();
    run_with(text, scope, &importer)
}

fn run_with(text: &str, scope: &mut Scope, importer: &Importer) -> Result<(String, String), String> {
    let mut interpreter = Interpreter::new(text, importer);
    match interpreter.interpret(scope) {
        Ok(result) => Ok((result.text, result.output_file)),
        Err(e) => Err(e.msg),
    }
}

#[test]
fn verbatim_literal_preservation() {
    let mut scope = Scope::new();
    let (text, output_file) = run("{{output out.txt}}hello world", &mut scope).unwrap();
    assert_eq!(text, "hello world");
    assert_eq!(output_file, "out.txt");
}

#[test]
fn verbatim_preserves_whitespace_bytes() {
    let mut scope = Scope::new();
    let (text, _) = run("{{output o}} a  b\nc ", &mut scope).unwrap();
    assert_eq!(text, " a  b\nc ");
}

#[test]
fn substitution_of_string_binding() {
    let mut scope = Scope::new();
    scope.insert(String::from("x"), VarType::Value(Var::new(String::from("a"))));
    let (text, _) = run("{{output o}}{{x}}", &mut scope).unwrap();
    assert_eq!(text, "a");
}

#[test]
fn substitution_of_number_binding() {
    let mut scope = Scope::new();
    scope.insert(String::from("n"), VarType::Number(Var::new(3)));
    let (text, _) = run("{{output o}}{{n}}", &mut scope).unwrap();
    assert_eq!(text, "3");
}

#[test]
fn substitution_of_large_number() {
    let mut scope = Scope::new();
    scope.insert(String::from("n"), VarType::Number(Var::new(1203040)));
    let (text, _) = run("{{output o}}{{n}}", &mut scope).unwrap();
    assert_eq!(text, "1203040");
}

#[test]
fn nested_loop_counters_shadow_independently() {
    let mut scope = Scope::new();
    scope.insert(String::from("t"), table(&[&["a"], &["b"]]));
    let template = "{{output o}}{{loop(i) t as r}}{{i}}{{loop(i) t as r2}}{{i}}{{end}}{{end}}";
    let (text, _) = run(template, &mut scope).unwrap();
    // outer iteration 0: "0" then the inner loop's "0 1"; outer iteration 1 likewise
    assert_eq!(text, "00 1 10 1");
}

#[test]
fn slicing_iterates_raw_indices() {
    let mut scope = Scope::new();
    scope.insert(String::from("t"), table(&[&["a"], &["b"], &["c"]]));
    let template = "{{output o}}{{loop t[1, ..] as r}}{{collection_index}}{{loop_index}}{{end}}";
    let (text, _) = run(template, &mut scope).unwrap();
    assert_eq!(text, "10 21");
}

#[test]
fn indexing_chain_resolves_cell() {
    let mut scope = Scope::new();
    scope.insert(String::from("t"), table(&[&["a", "b"], &["c", "d"]]));
    let (text, _) = run("{{output o}}{{t[0][1]}}", &mut scope).unwrap();
    assert_eq!(text, "b");
}

#[test]
fn indexing_by_bound_number_variable() {
    let mut scope = Scope::new();
    scope.insert(String::from("t"), table(&[&["a", "b"], &["c", "d"]]));
    scope.insert(String::from("j"), VarType::Number(Var::new(1)));
    let (text, _) = run("{{output o}}{{t[j][0]}}", &mut scope).unwrap();
    assert_eq!(text, "c");
}

#[test]
fn indexing_out_of_range_degrades_to_empty() {
    let mut scope = Scope::new();
    scope.insert(String::from("t"), table(&[&["a", "b"]]));
    let (text, _) = run("{{output o}}<{{t[0][9]}}>", &mut scope).unwrap();
    assert_eq!(text, "<>");
}

#[test]
fn unparseable_numeric_index_is_reported() {
    let mut scope = Scope::new();
    scope.insert(String::from("t"), table(&[&["a", "b"]]));
    let err = run("{{output o}}{{t[99999999999999999999999]}}", &mut scope).unwrap_err();
    assert_eq!(err, "Error at line number 1\nCannot index using 99999999999999999999999");
}

#[test]
fn non_number_variable_index_is_reported() {
    let mut scope = Scope::new();
    scope.insert(String::from("t"), table(&[&["a", "b"]]));
    scope.insert(String::from("j"), VarType::Value(Var::new(String::from("x"))));
    let err = run("{{output o}}{{t[j]}}", &mut scope).unwrap_err();
    assert_eq!(err, "Error at line number 1\nCannot index using the variable j");
}

#[test]
fn indexing_a_scalar_is_reported() {
    let mut scope = Scope::new();
    scope.insert(String::from("x"), VarType::Number(Var::new(7)));
    let err = run("{{output o}}{{x[0]}}", &mut scope).unwrap_err();
    assert_eq!(err, "Error at line number 1\nAttempt to index a non-iterable");
}

#[test]
fn block_concatenates_without_separator() {
    let mut scope = Scope::new();
    scope.insert(String::from("x"), VarType::Value(Var::new(String::from("b"))));
    let (text, _) = run("{{output o}}a{{x}}c", &mut scope).unwrap();
    assert_eq!(text, "abc");
}

#[test]
fn loop_outputs_join_with_single_space() {
    let mut scope = Scope::new();
    scope.insert(String::from("t"), table(&[&["x"], &["y"]]));
    let (text, _) = run("{{output o}}{{loop t as r}}{{r[0]}}{{end}}", &mut scope).unwrap();
    assert_eq!(text, "x y");
}

#[test]
fn import_binding_round_trip() {
    let mut importer = empty_importer();
    importer.add_file_source(String::from("rows.csv"), "a,b\nc,d");
    let mut scope = Scope::new();
    let template = "{{output o}}{{import}}name: rows; path: rows.csv;{{end}}{{loop rows as r}}{{r[0]}}{{r[1]}}{{end}}";
    let (text, _) = run_with(template, &mut scope, &importer).unwrap();
    assert_eq!(text, "ab cd");
}

#[test]
fn import_from_sheet_source() {
    let mut importer = empty_importer();
    importer.add_sheet_source(String::from("sheetkey"), "1,2\n3,4");
    let mut scope = Scope::new();
    let template = "{{output o}}{{import}}name: nums; key: sheetkey;{{end}}{{loop nums as r}}{{r[1]}}{{end}}";
    let (text, _) = run_with(template, &mut scope, &importer).unwrap();
    assert_eq!(text, "2 4");
}

#[test]
fn missing_import_degrades_to_empty_table() {
    let importer = empty_importer();
    let mut scope = Scope::new();
    let template = "{{output o}}A{{import}}name: rows; path: nowhere.csv;{{end}}{{loop rows as r}}x{{end}}B";
    let (text, _) = run_with(template, &mut scope, &importer).unwrap();
    assert_eq!(text, "AB");
}

#[test]
fn pre_populated_scope_survives_imports() {
    let mut importer = empty_importer();
    importer.add_file_source(String::from("rows.csv"), "p\nq");
    let mut scope = Scope::new();
    scope.insert(String::from("x"), VarType::Value(Var::new(String::from("kept"))));
    let template = "{{output o}}{{import}}name: rows; path: rows.csv;{{end}}{{x}}";
    let (text, _) = run_with(template, &mut scope, &importer).unwrap();
    assert_eq!(text, "kept");
}

#[test]
fn undeclared_variable_names_it_with_line() {
    let mut scope = Scope::new();
    let err = run("{{output o}}{{missing}}", &mut scope).unwrap_err();
    assert_eq!(err, "Error at line number 1\nAttempted to use undeclared variable missing");
}

#[test]
fn undeclared_variable_on_later_line() {
    let mut scope = Scope::new();
    let err = run("{{output o}}\nline\n{{missing}}", &mut scope).unwrap_err();
    assert_eq!(err, "Error at line number 3\nAttempted to use undeclared variable missing");
}

#[test]
fn empty_loop_contributes_empty_string() {
    let mut scope = Scope::new();
    scope.insert(String::from("t"), table(&[&["a"], &["b"], &["c"]]));
    let (text, _) = run("{{output o}}A{{loop t[2, 2] as r}}x{{end}}B", &mut scope).unwrap();
    assert_eq!(text, "AB");
}

#[test]
fn reversed_slice_is_an_empty_loop() {
    let mut scope = Scope::new();
    scope.insert(String::from("t"), table(&[&["a"], &["b"], &["c"]]));
    let (text, _) = run("{{output o}}{{loop t[2, 1] as r}}x{{end}}", &mut scope).unwrap();
    assert_eq!(text, "");
}

#[test]
fn empty_output_path_is_a_parse_error() {
    let mut scope = Scope::new();
    let err = run("{{output}}", &mut scope).unwrap_err();
    assert_eq!(err, "Error at line number 1\nAn output file must be specified at the top of the file");
}

#[test]
fn empty_template_reports_expected_token() {
    let mut scope = Scope::new();
    let err = run("", &mut scope).unwrap_err();
    assert_eq!(
        err,
        "Error at line number 1\nExpected LeftMustache, found EOF.\nCurrent slice reads .\n The slice runs from 0 to 0"
    );
}

#[test]
fn looping_over_a_scalar_is_reported() {
    let mut scope = Scope::new();
    scope.insert(String::from("x"), VarType::Value(Var::new(String::from("a"))));
    let err = run("{{output o}}{{loop x as r}}y{{end}}", &mut scope).unwrap_err();
    assert_eq!(err, "Error at line number 1\nAttempt to loop on a non-iterable");
}

#[test]
fn loop_over_row_binds_cells() {
    let mut scope = Scope::new();
    scope.insert(String::from("t"), table(&[&["a", "b", "c"]]));
    let (text, _) = run("{{output o}}{{loop t[0] as cell}}{{cell}}{{end}}", &mut scope).unwrap();
    assert_eq!(text, "a b c");
}

#[test]
fn output_path_preserves_inner_spacing() {
    let mut scope = Scope::new();
    let (_, output_file) = run("{{output my dir.txt}}body", &mut scope).unwrap();
    assert_eq!(output_file, "my dir.txt");
}
