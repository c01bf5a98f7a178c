use cnvx::mps::{model_of_document, read_mps, BoundCode, RowKind};

fn s(b: &[u8]) -> String {
    String::from_utf8(b.to_vec()).unwrap()
}

const SAMPLE: &str = "NAME          TESTLP
* a comment line
ROWS
 N  COST
 L  LIM1
 g  LIM2
 E  MYEQN
COLUMNS
    X1        COST         1.0   LIM1         1.0
    X1        LIM2         1.0
    X2        COST         2.0   LIM1         1.0
    X2        MYEQN       -1.0
RHS
    RHS       LIM1         4.0   LIM2         1.0
    MYEQN     7.0
RANGES
    RNG       LIM1         2.5
BOUNDS
 UP BND       X1           4.0
 lo BND       X2          -1.0
 FR BND       X3
 ZZ BND       X4           1.0
ENDATA
ROWS
 L  AFTER
";

#[test]
fn mps_rows_in_order_with_kinds() {
    let doc = read_mps(SAMPLE.as_bytes());
    let rows: Vec<(String, RowKind)> = doc.rows.iter().map(|r| (s(&r.name), r.kind)).collect();
    assert_eq!(
        rows,
        vec![
            ("COST".to_string(), RowKind::Objective),
            ("LIM1".to_string(), RowKind::Leq),
            ("LIM2".to_string(), RowKind::Geq),
            ("MYEQN".to_string(), RowKind::Eq),
        ]
    );
}

#[test]
fn mps_entries_one_per_pair() {
    let doc = read_mps(SAMPLE.as_bytes());
    let entries: Vec<(String, String, String)> =
        doc.entries.iter().map(|e| (s(&e.column), s(&e.row), s(&e.value))).collect();
    assert_eq!(
        entries,
        vec![
            ("X1".into(), "COST".into(), "1.0".into()),
            ("X1".into(), "LIM1".into(), "1.0".into()),
            ("X1".into(), "LIM2".into(), "1.0".into()),
            ("X2".into(), "COST".into(), "2.0".into()),
            ("X2".into(), "LIM1".into(), "1.0".into()),
            ("X2".into(), "MYEQN".into(), "-1.0".into()),
        ]
    );
}

#[test]
fn mps_rhs_with_and_without_set_name() {
    let doc = read_mps(SAMPLE.as_bytes());
    let rhs: Vec<(String, String)> = doc.rhs.iter().map(|h| (s(&h.row), s(&h.value))).collect();
    assert_eq!(
        rhs,
        vec![("LIM1".into(), "4.0".into()), ("LIM2".into(), "1.0".into()), ("MYEQN".into(), "7.0".into())]
    );
}

#[test]
fn mps_bounds_known_codes_only() {
    let doc = read_mps(SAMPLE.as_bytes());
    let bounds: Vec<(BoundCode, String, Option<String>)> =
        doc.bounds.iter().map(|b| (b.code, s(&b.column), b.value.as_deref().map(s))).collect();
    assert_eq!(
        bounds,
        vec![
            (BoundCode::Up, "X1".into(), Some("4.0".into())),
            (BoundCode::Lo, "X2".into(), Some("-1.0".into())),
            (BoundCode::Fr, "X3".into(), None),
        ]
    );
}

#[test]
fn mps_nothing_after_endata() {
    let doc = read_mps(SAMPLE.as_bytes());
    assert!(doc.rows.iter().all(|r| s(&r.name) != "AFTER"));
}

#[test]
fn mps_empty_and_crlf_input() {
    let empty = read_mps(b"");
    assert!(empty.rows.is_empty() && empty.entries.is_empty());
    let doc = read_mps(b"ROWS\r\n N obj\r\n L c1\r\nCOLUMNS\r\n x obj 3 c1 1\r\nENDATA\r\n");
    assert_eq!(doc.rows.len(), 2);
    assert_eq!(s(&doc.rows[1].name), "c1");
    assert_eq!(doc.entries.len(), 2);
    assert_eq!(s(&doc.entries[0].value), "3");
}

#[test]
fn mps_model_numbers_variables_by_first_appearance() {
    let m = model_of_document(&read_mps(SAMPLE.as_bytes()));
    let cols: Vec<String> = m.columns.iter().map(|c| s(c)).collect();
    // X4 appears only on a bound line with an unknown code, which is dropped.
    assert_eq!(cols, vec!["X1", "X2", "X3"]);
}

#[test]
fn mps_model_objective_is_first_n_row() {
    let m = model_of_document(&read_mps(SAMPLE.as_bytes()));
    let obj = m.objective.unwrap();
    assert_eq!(s(&obj.name), "COST");
    let terms: Vec<(usize, String)> = obj.terms.iter().map(|t| (t.var, s(&t.value))).collect();
    assert_eq!(terms, vec![(0, "1.0".to_string()), (1, "2.0".to_string())]);
}

#[test]
fn mps_model_constraints_with_rhs() {
    let m = model_of_document(&read_mps(SAMPLE.as_bytes()));
    let cons: Vec<(RowKind, Vec<(usize, String)>, Option<String>)> = m
        .constraints
        .iter()
        .map(|c| (c.kind, c.terms.iter().map(|t| (t.var, s(&t.value))).collect(), c.rhs.as_deref().map(s)))
        .collect();
    assert_eq!(
        cons,
        vec![
            (RowKind::Leq, vec![(0, "1.0".to_string()), (1, "1.0".to_string())], Some("4.0".to_string())),
            (RowKind::Geq, vec![(0, "1.0".to_string())], Some("1.0".to_string())),
            (RowKind::Eq, vec![(1, "-1.0".to_string())], Some("7.0".to_string())),
        ]
    );
}

#[test]
fn mps_model_bounds_by_variable_and_last_rhs_wins() {
    let m = model_of_document(&read_mps(SAMPLE.as_bytes()));
    let b: Vec<(BoundCode, usize)> = m.bounds.iter().map(|b| (b.code, b.var)).collect();
    assert_eq!(b, vec![(BoundCode::Up, 0), (BoundCode::Lo, 1), (BoundCode::Fr, 2)]);
    let text = "ROWS\n N obj\n L c\n N second\nCOLUMNS\n x c 1\nRHS\n R c 1\n R c 2\nENDATA\n";
    let m = model_of_document(&read_mps(text.as_bytes()));
    assert_eq!(m.constraints.len(), 1);
    assert_eq!(s(m.constraints[0].rhs.as_ref().unwrap()), "2");
    assert!(m.objective.unwrap().terms.is_empty());
}
