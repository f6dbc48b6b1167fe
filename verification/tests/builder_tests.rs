use macro_workshop::builder::{
    AttrArgs, AttrModel, BuilderField, BuilderFieldConfig, BuilderFieldInput,
    ConstructField, FieldDefinition, FieldInit, FieldMethod, NestedMeta, NestedValue,
};
use macro_workshop::syntax::{ArgsModel, GenericArgModel, PathModel, SegmentModel, SegmentName, TypeModel};
use macro_workshop::tokens::MacroError;

fn text(s: &str) -> Vec<char> {
    s.chars().collect()
}

fn string(v: &[char]) -> String {
    v.iter().collect()
}

fn plain(id: usize, name: &str) -> TypeModel {
    TypeModel::Path {
        id,
        qself: None,
        leading_colon: false,
        segments: vec![SegmentModel { ident: text(name), args: ArgsModel::Plain }],
    }
}

fn generic(id: usize, name: &str, arg: TypeModel) -> TypeModel {
    TypeModel::Path {
        id,
        qself: None,
        leading_colon: false,
        segments: vec![SegmentModel {
            ident: text(name),
            args: ArgsModel::AngleBracketed { args: vec![GenericArgModel::Type { ty: arg }] },
        }],
    }
}

fn simple_path(name: &str) -> PathModel {
    PathModel {
        leading_colon: false,
        segments: vec![SegmentName { ident: text(name), has_arguments: false }],
    }
}

fn each_attr(key: &str, value: &str) -> AttrModel {
    AttrModel {
        path: simple_path("builder"),
        meta_span: 10,
        args: AttrArgs::List {
            items: vec![NestedMeta {
                path: simple_path(key),
                span: 11,
                value: NestedValue::Str { value: text(value), suffix: vec![], span: 12 },
            }],
            trailing: None,
        },
    }
}

fn field(name: &str, ty: TypeModel, attrs: Vec<AttrModel>) -> BuilderFieldInput {
    BuilderFieldInput { ident: text(name), ty, attrs }
}

fn command_fields() -> Vec<BuilderFieldInput> {
    vec![
        field("executable", plain(1, "String"), vec![]),
        field("args", generic(2, "Vec", plain(3, "String")), vec![each_attr("each", "arg")]),
        field("env", generic(4, "Vec", plain(5, "String")), vec![each_attr("each", "env")]),
        field("current_dir", generic(6, "Option", plain(7, "String")), vec![]),
    ]
}

fn error_of<T>(r: Result<T, MacroError>) -> (usize, String) {
    match r {
        Err(e) => (e.span, string(&e.message)),
        Ok(_) => panic!("expected an error"),
    }
}

#[test]
fn builder_name_and_field_count() {
    let plan = macro_workshop::builder::derive(&text("Command"), &command_fields()).ok().unwrap();
    assert_eq!(string(&plan.builder_name), "CommandBuilder");
    assert_eq!(plan.fields.len(), 4);
}

#[test]
fn raw_struct_name_loses_its_prefix() {
    let plan = macro_workshop::builder::derive(&text("r#Type"), &vec![]).ok().unwrap();
    assert_eq!(string(&plan.builder_name), "TypeBuilder");
    assert!(plan.fields.is_empty());
}

#[test]
fn required_field_plan() {
    let plan = macro_workshop::builder::derive(&text("Command"), &command_fields()).ok().unwrap();
    let f = &plan.fields[0];
    assert!(matches!(&f.definition, FieldDefinition::Optional { ty: 1, .. }));
    assert!(matches!(&f.init, FieldInit::Unset { .. }));
    assert!(matches!(&f.method, FieldMethod::Setter { ty: 1, .. }));
    match &f.construct {
        ConstructField::Required { ident, message } => {
            assert_eq!(string(ident), "executable");
            assert_eq!(string(message), "executable is not set");
        }
        _ => panic!("expected a required field"),
    }
}

#[test]
fn each_field_plan() {
    let plan = macro_workshop::builder::derive(&text("Command"), &command_fields()).ok().unwrap();
    let f = &plan.fields[1];
    assert!(matches!(&f.definition, FieldDefinition::Direct { ty: 2, .. }));
    assert!(matches!(&f.init, FieldInit::EmptyVec { .. }));
    assert!(matches!(&f.construct, ConstructField::Drain { .. }));
    match &f.method {
        FieldMethod::Each { ident, ty, each, item_type, whole_setter } => {
            assert_eq!(string(ident), "args");
            assert_eq!(*ty, 2);
            assert_eq!(string(&each.name), "arg");
            assert_eq!(each.span, 12);
            assert_eq!(*item_type, Some(3));
            assert!(*whole_setter);
        }
        _ => panic!("expected an each method"),
    }
}

#[test]
fn each_named_like_the_field_has_no_whole_setter() {
    let plan = macro_workshop::builder::derive(&text("Command"), &command_fields()).ok().unwrap();
    match &plan.fields[2].method {
        FieldMethod::Each { whole_setter, .. } => assert!(!*whole_setter),
        _ => panic!("expected an each method"),
    }
}

#[test]
fn optional_field_plan() {
    let plan = macro_workshop::builder::derive(&text("Command"), &command_fields()).ok().unwrap();
    let f = &plan.fields[3];
    assert!(matches!(&f.definition, FieldDefinition::Optional { ty: 7, .. }));
    assert!(matches!(&f.method, FieldMethod::Setter { ty: 7, .. }));
    assert!(matches!(&f.construct, ConstructField::Optional { .. }));
}

#[test]
fn optional_vec_field_knows_its_item_type() {
    let f = field(
        "list",
        generic(1, "Option", generic(2, "Vec", plain(3, "u8"))),
        vec![],
    );
    let b = BuilderField::try_from(&f).ok().unwrap();
    assert!(b.optional);
    assert_eq!(b.ty, 2);
    assert_eq!(b.vec_item, Some(3));
}

#[test]
fn qualified_option_is_not_optional() {
    let ty = TypeModel::Path {
        id: 1,
        qself: None,
        leading_colon: false,
        segments: vec![
            SegmentModel { ident: text("std"), args: ArgsModel::Plain },
            SegmentModel {
                ident: text("Option"),
                args: ArgsModel::AngleBracketed {
                    args: vec![GenericArgModel::Type { ty: plain(2, "u8") }],
                },
            },
        ],
    };
    let b = BuilderField::try_from(&field("x", ty, vec![])).ok().unwrap();
    assert!(!b.optional);
    assert_eq!(b.ty, 1);
}

#[test]
fn unrecognized_attribute_key() {
    let fields = vec![field("args", generic(1, "Vec", plain(2, "String")), vec![each_attr("eac", "arg")])];
    assert_eq!(error_of(macro_workshop::builder::derive(&text("Command"), &fields)), (10, "expected `builder(each = \"...\")`".to_string()));
}

#[test]
fn each_twice_is_refused() {
    let attrs = vec![each_attr("each", "a"), each_attr("each", "b")];
    assert_eq!(error_of(BuilderFieldConfig::try_from(&attrs)), (11, "each specified already".to_string()));
}

#[test]
fn keyword_each_name_is_refused_at_the_string() {
    let attrs = vec![each_attr("each", "fn")];
    let (span, message) = error_of(BuilderFieldConfig::try_from(&attrs));
    assert_eq!(span, 12);
    assert!(!message.is_empty());
}

#[test]
fn other_attributes_are_ignored() {
    let attrs = vec![AttrModel {
        path: simple_path("doc"),
        meta_span: 3,
        args: AttrArgs::NotAList { error: MacroError { span: 3, message: text("bad") } },
    }];
    let c = BuilderFieldConfig::try_from(&attrs).ok().unwrap();
    assert!(c.each.is_none());
}

#[test]
fn malformed_builder_attribute_reports_parser_error() {
    let attrs = vec![AttrModel {
        path: simple_path("builder"),
        meta_span: 3,
        args: AttrArgs::NotAList { error: MacroError { span: 4, message: text("expected parentheses") } },
    }];
    assert_eq!(error_of(BuilderFieldConfig::try_from(&attrs)), (4, "expected parentheses".to_string()));
}

#[test]
fn trailing_parser_error_after_items() {
    let attrs = vec![AttrModel {
        path: simple_path("builder"),
        meta_span: 3,
        args: AttrArgs::List {
            items: vec![],
            trailing: Some(MacroError { span: 5, message: text("expected `=`") }),
        },
    }];
    assert_eq!(error_of(BuilderFieldConfig::try_from(&attrs)), (5, "expected `=`".to_string()));
}

#[test]
fn first_field_error_is_reported() {
    let fields = vec![
        field("a", plain(1, "u8"), vec![each_attr("x", "a")]),
        field("b", plain(2, "u8"), vec![each_attr("each", "b"), each_attr("each", "c")]),
    ];
    assert_eq!(error_of(macro_workshop::builder::derive(&text("S"), &fields)).1, "expected `builder(each = \"...\")`");
}

fn std_path(segments: &[&str], _arg: TypeModel, id: usize) -> TypeModel {
    let n = segments.len();
    TypeModel::Path {
        id,
        qself: None,
        leading_colon: true,
        segments: segments
            .iter()
            .enumerate()
            .map(|(k, name)| SegmentModel {
                ident: text(name),
                args: if k + 1 == n {
                    ArgsModel::AngleBracketed { args: vec![GenericArgModel::Type { ty: plain(id + 1, "String") }] }
                } else {
                    ArgsModel::Plain
                },
            })
            .collect(),
    }
}

#[test]
fn std_option_path_is_optional() {
    for path in [&["std", "option", "Option"][..], &["core", "option", "Option"][..]] {
        let b = BuilderField::try_from(&field("x", std_path(path, plain(0, "x"), 10), vec![])).ok().unwrap();
        assert!(b.optional);
        assert_eq!(b.ty, 11);
    }
}

#[test]
fn std_vec_path_gives_item_type() {
    for path in [&["std", "vec", "Vec"][..], &["alloc", "vec", "Vec"][..]] {
        let b = BuilderField::try_from(&field("x", std_path(path, plain(0, "x"), 20), vec![])).ok().unwrap();
        assert!(!b.optional);
        assert_eq!(b.vec_item, Some(21));
    }
}

#[test]
fn other_module_path_is_not_optional() {
    let b = BuilderField::try_from(&field("x", std_path(&["my", "option", "Option"], plain(0, "x"), 30), vec![])).ok().unwrap();
    assert!(!b.optional);
    assert_eq!(b.ty, 30);
}

#[test]
fn each_string_with_suffix_is_refused() {
    let attrs = vec![AttrModel {
        path: simple_path("builder"),
        meta_span: 10,
        args: AttrArgs::List {
            items: vec![NestedMeta {
                path: simple_path("each"),
                span: 11,
                value: NestedValue::Str { value: text("arg"), suffix: text("s"), span: 12 },
            }],
            trailing: None,
        },
    }];
    assert_eq!(
        error_of(BuilderFieldConfig::try_from(&attrs)),
        (12, "unexpected suffix `s` on string literal".to_string())
    );
}
