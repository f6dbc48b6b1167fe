use macro_workshop::sorted::{
    check, check_match, display, is_sorted, marked_as_sorted, name_less, path_less, sorted,
    CheckOutcome, CheckedExpr, PatModel, SortError, SortTarget, Sortable,
};
use macro_workshop::syntax::{PathModel, SegmentName};

fn text(s: &str) -> Vec<char> {
    s.chars().collect()
}

fn string(v: &[char]) -> String {
    v.iter().collect()
}

fn variants(names: &[&str]) -> SortTarget {
    SortTarget::Enum { variants: names.iter().map(|n| text(n)).collect() }
}

fn path(segments: &[&str]) -> Vec<Vec<char>> {
    segments.iter().map(|s| text(s)).collect()
}

fn simple_path(name: &str) -> PathModel {
    PathModel {
        leading_colon: false,
        segments: vec![SegmentName { ident: text(name), has_arguments: false }],
    }
}

fn unsorted(r: Result<(), SortError>) -> (usize, usize, String) {
    match r {
        Err(SortError::Unsorted { index, before, message }) => (index, before, string(&message)),
        _ => panic!("expected an ordering error"),
    }
}

#[test]
fn sorted_enum_is_accepted() {
    let r = sorted(&variants(&["RustBeltRust", "RustConf", "RustFest", "RustLatam", "RustRush"]));
    assert!(r.is_ok());
}

#[test]
fn empty_enum_is_accepted() {
    assert!(sorted(&variants(&[])).is_ok());
}

#[test]
fn out_of_order_variant_names_first_greater() {
    let r = sorted(&variants(&["ThatFailed", "ThisFailed", "SomethingFailed", "WhoKnowsWhatFailed"]));
    assert_eq!(unsorted(r), (2, 0, "SomethingFailed should sort before ThatFailed".to_string()));
}

#[test]
fn out_of_order_reports_first_unsorted_item() {
    let r = sorted(&variants(&["Alpha", "Gamma", "Beta", "Aardvark"]));
    assert_eq!(unsorted(r), (2, 1, "Beta should sort before Gamma".to_string()));
}

#[test]
fn non_enum_is_refused() {
    match sorted(&SortTarget::Other) {
        Err(SortError::NotAnEnum { message }) => {
            assert_eq!(string(&message), "expected enum or match expression")
        }
        _ => panic!("expected a refusal"),
    }
}

#[test]
fn names_compare_by_characters() {
    assert!(name_less(&text("Fmt"), &text("Io")));
    assert!(!name_less(&text("Io"), &text("Fmt")));
    assert!(name_less(&text("Io"), &text("IoError")));
    assert!(!name_less(&text("Io"), &text("Io")));
    assert!(name_less(&text("Z"), &text("a")));
}

#[test]
fn paths_compare_segment_by_segment() {
    let a = Sortable { names: path(&["Error", "Fmt"]) };
    let b = Sortable { names: path(&["Error", "Io"]) };
    let c = Sortable { names: path(&["Error"]) };
    assert!(path_less(&a, &b));
    assert!(!path_less(&b, &a));
    assert!(path_less(&c, &a));
    assert_eq!(string(&display(&a)), "Error::Fmt");
}

#[test]
fn sorted_match_is_accepted() {
    let pats = vec![
        PatModel::TupleStruct { segments: path(&["Error", "Fmt"]) },
        PatModel::TupleStruct { segments: path(&["Error", "Io"]) },
        PatModel::Struct { segments: path(&["Error", "Utf8"]) },
        PatModel::Ident { name: text("Other") },
        PatModel::Wild,
    ];
    assert!(check_match(&pats).is_ok());
}

#[test]
fn binding_sorts_after_wildcard_when_lower_case() {
    let pats = vec![PatModel::Ident { name: text("other") }, PatModel::Wild];
    assert_eq!(unsorted(check_match(&pats)), (1, 0, "_ should sort before other".to_string()));
}

#[test]
fn out_of_order_match_arms() {
    let pats = vec![
        PatModel::TupleStruct { segments: path(&["Error", "Io"]) },
        PatModel::TupleStruct { segments: path(&["Error", "Fmt"]) },
    ];
    assert_eq!(unsorted(check_match(&pats)), (1, 0, "Error::Fmt should sort before Error::Io".to_string()));
}

#[test]
fn wildcard_must_come_last_among_capitals() {
    let pats = vec![PatModel::Wild, PatModel::Path { segments: path(&["Fmt"]) }];
    assert_eq!(unsorted(check_match(&pats)), (1, 0, "Fmt should sort before _".to_string()));
}

#[test]
fn unsupported_pattern_is_reported() {
    let pats = vec![
        PatModel::Path { segments: path(&["A"]) },
        PatModel::Other,
        PatModel::Path { segments: path(&["B"]) },
    ];
    match check_match(&pats) {
        Err(SortError::Unsupported { index, message }) => {
            assert_eq!(index, 1);
            assert_eq!(string(&message), "unsupported by #[sorted]");
        }
        _ => panic!("expected an unsupported pattern"),
    }
}

#[test]
fn unsupported_pattern_wins_over_order() {
    let pats = vec![
        PatModel::Path { segments: path(&["B"]) },
        PatModel::Path { segments: path(&["A"]) },
        PatModel::Other,
    ];
    assert!(matches!(check_match(&pats), Err(SortError::Unsupported { index: 2, .. })));
}

fn names(attrs: &[PathModel]) -> Vec<String> {
    attrs.iter().map(|p| p.segments.iter().map(|s| string(&s.ident)).collect::<Vec<_>>().join("::")).collect()
}

#[test]
fn sorted_marker_is_found_and_removed() {
    let mut attrs = vec![simple_path("allow"), simple_path("sorted"), simple_path("sorted")];
    assert_eq!(marked_as_sorted(&mut attrs), Some(1));
    assert_eq!(names(&attrs), vec!["allow", "sorted"]);
    let mut unmarked = vec![simple_path("allow")];
    assert_eq!(marked_as_sorted(&mut unmarked), None);
    assert_eq!(names(&unmarked), vec!["allow"]);
    let qualified = PathModel {
        leading_colon: false,
        segments: vec![
            SegmentName { ident: text("sorted"), has_arguments: false },
            SegmentName { ident: text("sorted"), has_arguments: false },
        ],
    };
    let mut q = vec![qualified];
    assert_eq!(marked_as_sorted(&mut q), None);
    assert_eq!(q.len(), 1);
}

#[test]
fn check_leaves_unmarked_expressions() {
    assert!(matches!(check(&mut CheckedExpr::Other), CheckOutcome::Untouched));
    let mut e = CheckedExpr::Match {
        attrs: vec![simple_path("allow")],
        pats: vec![PatModel::Wild, PatModel::Path { segments: path(&["A"]) }],
    };
    assert!(matches!(check(&mut e), CheckOutcome::Untouched));
}

#[test]
fn check_removes_marker_and_checks_arms() {
    let mut e = CheckedExpr::Match {
        attrs: vec![simple_path("allow"), simple_path("sorted")],
        pats: vec![
            PatModel::TupleStruct { segments: path(&["Error", "Io"]) },
            PatModel::TupleStruct { segments: path(&["Error", "Fmt"]) },
        ],
    };
    match check(&mut e) {
        CheckOutcome::Checked { marker, result } => {
            assert_eq!(marker, 1);
            match &e {
                CheckedExpr::Match { attrs, pats } => {
                    assert_eq!(names(attrs), vec!["allow"]);
                    assert_eq!(pats.len(), 2);
                }
                CheckedExpr::Other => panic!("the match stays a match"),
            }
            assert_eq!(unsorted(result), (1, 0, "Error::Fmt should sort before Error::Io".to_string()));
        }
        CheckOutcome::Untouched => panic!("expected the match to be checked"),
    }
}

#[test]
fn sorted_law_on_values() {
    let items: Vec<Sortable> = ["a", "b", "b", "c"]
        .iter()
        .map(|n| Sortable { names: path(&[n]) })
        .collect();
    assert!(is_sorted(&items).is_ok());
    let items: Vec<Sortable> = ["a", "c", "b"].iter().map(|n| Sortable { names: path(&[n]) }).collect();
    assert!(is_sorted(&items).is_err());
}
