use macro_workshop::builder::{AttrArgs, AttrModel, NestedMeta, NestedValue};
use macro_workshop::debug::{
    DebugBounds, DebugField, DebugFieldAttr, DebugFieldGenerics, DebugFieldInput,
    DebugInput, GenericsVisitor,
};
use macro_workshop::syntax::{ArgsModel, GenericArgModel, PathModel, SegmentModel, SegmentName, TypeModel};
use macro_workshop::tokens::MacroError;

fn text(s: &str) -> Vec<char> {
    s.chars().collect()
}

fn string(v: &[char]) -> String {
    v.iter().collect()
}

fn path_type(id: usize, segments: Vec<SegmentModel>) -> TypeModel {
    TypeModel::Path { id, qself: None, leading_colon: false, segments }
}

fn seg(name: &str) -> SegmentModel {
    SegmentModel { ident: text(name), args: ArgsModel::Plain }
}

fn seg_args(name: &str, args: Vec<TypeModel>) -> SegmentModel {
    SegmentModel {
        ident: text(name),
        args: ArgsModel::AngleBracketed {
            args: args.into_iter().map(|ty| GenericArgModel::Type { ty }).collect(),
        },
    }
}

fn simple_path(name: &str) -> PathModel {
    PathModel {
        leading_colon: false,
        segments: vec![SegmentName { ident: text(name), has_arguments: false }],
    }
}

fn format_attr(format: Option<usize>) -> DebugFieldAttr {
    DebugFieldAttr { path: simple_path("debug"), meta_span: 20, format }
}

fn field(name: &str, ty: TypeModel, attrs: Vec<DebugFieldAttr>) -> DebugFieldInput {
    DebugFieldInput { name: text(name), ty, attrs }
}

fn bound_attr(key: &str, value: &str) -> AttrModel {
    AttrModel {
        path: simple_path("debug"),
        meta_span: 30,
        args: AttrArgs::List {
            items: vec![NestedMeta {
                path: simple_path(key),
                span: 31,
                value: NestedValue::Str { value: text(value), suffix: vec![], span: 32 },
            }],
            trailing: None,
        },
    }
}

fn input(params: &[&str], attrs: Vec<AttrModel>, fields: Vec<DebugFieldInput>) -> DebugInput {
    DebugInput {
        name: text("Field"),
        type_params: params.iter().map(|p| text(p)).collect(),
        attrs,
        fields,
    }
}

fn error_of<T>(r: Result<T, MacroError>) -> (usize, String) {
    match r {
        Err(e) => (e.span, string(&e.message)),
        Ok(_) => panic!("expected an error"),
    }
}

fn found(ty: &TypeModel) -> Vec<String> {
    let mut v = GenericsVisitor::new();
    v.visit_type(ty);
    v.results
        .iter()
        .map(|g| match g {
            DebugFieldGenerics::TypeParam { name } => format!("param {}", string(name)),
            DebugFieldGenerics::AssocType { ty } => format!("assoc {}", ty),
        })
        .collect()
}

#[test]
fn fields_keep_names_and_formats() {
    let i = input(
        &[],
        vec![],
        vec![
            field("name", path_type(1, vec![seg("String")]), vec![]),
            field("bitmask", path_type(2, vec![seg("u8")]), vec![format_attr(Some(7))]),
        ],
    );
    let plan = macro_workshop::debug::derive(&i).ok().unwrap();
    assert_eq!(plan.fields.len(), 2);
    assert_eq!(string(&plan.fields[0].name), "name");
    assert_eq!(plan.fields[0].format, None);
    assert_eq!(string(&plan.fields[1].name), "bitmask");
    assert_eq!(plan.fields[1].format, Some(7));
}

#[test]
fn last_format_wins() {
    let f = field("x", path_type(1, vec![seg("u8")]), vec![format_attr(Some(1)), format_attr(Some(2))]);
    assert_eq!(DebugField::try_from(&f).ok().unwrap().format, Some(2));
}

#[test]
fn malformed_field_attribute() {
    let f = field("x", path_type(1, vec![seg("u8")]), vec![format_attr(None)]);
    assert_eq!(error_of(DebugField::try_from(&f)), (20, "expected debug = \"...\"".to_string()));
}

#[test]
fn type_parameter_used_directly_is_bounded() {
    let i = input(
        &["T", "U"],
        vec![],
        vec![field("value", path_type(1, vec![seg("T")]), vec![])],
    );
    match macro_workshop::debug::derive(&i).ok().unwrap().bounds {
        DebugBounds::Inferred { params, assoc } => {
            assert_eq!(params, vec![true, false]);
            assert!(assoc.is_empty());
        }
        DebugBounds::Explicit { .. } => panic!("expected inferred bounds"),
    }
}

#[test]
fn phantom_data_does_not_bound() {
    let phantom = path_type(1, vec![seg_args("PhantomData", vec![path_type(2, vec![seg("T")])])]);
    let i = input(&["T"], vec![], vec![field("marker", phantom, vec![])]);
    match macro_workshop::debug::derive(&i).ok().unwrap().bounds {
        DebugBounds::Inferred { params, .. } => assert_eq!(params, vec![false]),
        DebugBounds::Explicit { .. } => panic!("expected inferred bounds"),
    }
}

#[test]
fn associated_type_is_bounded_by_node() {
    let assoc = path_type(3, vec![seg("T"), seg("Value")]);
    let ty = path_type(1, vec![seg_args("Vec", vec![assoc])]);
    assert_eq!(found(&ty), vec!["assoc 3".to_string()]);
    let i = input(&["T"], vec![], vec![field("values", ty, vec![])]);
    match macro_workshop::debug::derive(&i).ok().unwrap().bounds {
        DebugBounds::Inferred { params, assoc } => {
            assert_eq!(params, vec![false]);
            assert_eq!(assoc, vec![3]);
        }
        DebugBounds::Explicit { .. } => panic!("expected inferred bounds"),
    }
}

#[test]
fn nested_generic_finds_inner_parameter() {
    let ty = path_type(1, vec![seg_args("Box", vec![path_type(2, vec![seg_args("Option", vec![path_type(3, vec![seg("T")])])])])]);
    assert_eq!(found(&ty), vec!["param T".to_string()]);
}

#[test]
fn explicit_bound_replaces_inference() {
    let i = input(
        &["T"],
        vec![bound_attr("bound", "T::Value: Debug")],
        vec![field("value", path_type(1, vec![seg("T")]), vec![])],
    );
    match macro_workshop::debug::derive(&i).ok().unwrap().bounds {
        DebugBounds::Explicit { predicate, span } => {
            assert_eq!(string(&predicate), "T::Value: Debug");
            assert_eq!(span, 32);
        }
        DebugBounds::Inferred { .. } => panic!("expected the explicit bound"),
    }
}

#[test]
fn bound_must_be_a_where_predicate() {
    let i = input(&["T"], vec![bound_attr("bound", "T ::")], vec![]);
    assert_eq!(error_of(macro_workshop::debug::derive(&i)).0, 32);
}

#[test]
fn unknown_struct_option() {
    let i = input(&["T"], vec![bound_attr("bond", "T: Debug")], vec![]);
    assert_eq!(error_of(macro_workshop::debug::derive(&i)), (30, "expected debug(bound = \"...\")".to_string()));
}

#[test]
fn second_struct_attribute_after_bound() {
    let mut second = bound_attr("bound", "T: Clone");
    second.meta_span = 40;
    let i = input(&["T"], vec![bound_attr("bound", "T: Debug"), second], vec![]);
    assert_eq!(error_of(macro_workshop::debug::derive(&i)), (40, "no other options accepted".to_string()));
}

#[test]
fn field_error_comes_before_struct_error() {
    let i = input(
        &["T"],
        vec![bound_attr("bond", "T: Debug")],
        vec![field("x", path_type(1, vec![seg("u8")]), vec![format_attr(None)])],
    );
    assert_eq!(error_of(macro_workshop::debug::derive(&i)).0, 20);
}

#[test]
fn bound_string_with_suffix_is_refused() {
    let mut attr = bound_attr("bound", "T: Debug");
    if let AttrArgs::List { items, .. } = &mut attr.args {
        items[0].value = NestedValue::Str { value: text("T: Debug"), suffix: text("x"), span: 32 };
    }
    let i = input(&["T"], vec![attr], vec![]);
    assert_eq!(error_of(macro_workshop::debug::derive(&i)), (32, "unexpected suffix `x` on string literal".to_string()));
}

#[test]
fn visitor_forgets_segment_name_after_arguments() {
    let mut v = GenericsVisitor::new();
    v.visit_path_segment(&seg("T"));
    assert!(v.path_ident.is_none());
    v.path_ident = Some(text("Outer"));
    v.visit_path_segment(&seg("U"));
    assert_eq!(v.path_ident.as_ref().map(|p| string(p)), Some("Outer".to_string()));
    v.visit_path_segment(&seg_args("Vec", vec![path_type(1, vec![seg("T")])]));
    assert!(v.path_ident.is_none());
    v.path_ident = Some(text("Box"));
    v.visit_angle_bracketed_generic_arguments(&vec![GenericArgModel::Type { ty: path_type(2, vec![seg("T")]) }]);
    assert_eq!(v.path_ident.as_ref().map(|p| string(p)), Some("Box".to_string()));
    v.visit_angle_bracketed_generic_arguments(&vec![GenericArgModel::Type {
        ty: path_type(3, vec![seg_args("Option", vec![path_type(4, vec![seg("T")])])]),
    }]);
    assert!(v.path_ident.is_none());
}

#[test]
fn bound_from_each_answer() {
    let item = NestedMeta {
        path: simple_path("bound"),
        span: 31,
        value: NestedValue::Str { value: text("T: Debug"), suffix: vec![], span: 32 },
    };
    let ok = macro_workshop::debug::bound_after_answer(&item, Ok(())).ok().unwrap();
    assert_eq!(ok.map(|(p, span)| (string(&p), span)), Some(("T: Debug".to_string(), 32)));
    assert_eq!(error_of(macro_workshop::debug::bound_after_answer(&item, Err(text("bad")))), (32, "bad".to_string()));
}

#[test]
fn plain_bound_is_accepted() {
    let i = input(&["T"], vec![bound_attr("bound", "T: std::fmt::Debug")], vec![]);
    match macro_workshop::debug::derive(&i).ok().unwrap().bounds {
        DebugBounds::Explicit { predicate, .. } => assert_eq!(string(&predicate), "T: std::fmt::Debug"),
        DebugBounds::Inferred { .. } => panic!("expected the explicit bound"),
    }
}

#[test]
fn empty_bound_is_refused() {
    let i = input(&["T"], vec![bound_attr("bound", "")], vec![]);
    assert_eq!(error_of(macro_workshop::debug::derive(&i)).0, 32);
}
