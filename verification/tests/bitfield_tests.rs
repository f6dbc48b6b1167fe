use macro_workshop::bits::{get_bits, set_bits};
use macro_workshop::bitfield::{
    bitfield, exponent_of_two, variant_for_raw, BitField, BitfieldFieldInput, BitfieldFields,
    BitfieldInput, BitfieldPlan, BitsAttr, BitsValue, VariantInput,
};
use macro_workshop::syntax::{ArgsModel, GenericArgModel, PathModel, SegmentModel, SegmentName, TypeModel};
use macro_workshop::tokens::MacroError;

fn text(s: &str) -> Vec<char> {
    s.chars().collect()
}

fn string(v: &[char]) -> String {
    v.iter().collect()
}

fn strings(v: &[Vec<char>]) -> Vec<String> {
    v.iter().map(|t| string(t)).collect()
}

fn simple_path(name: &str) -> PathModel {
    PathModel {
        leading_colon: false,
        segments: vec![SegmentName { ident: text(name), has_arguments: false }],
    }
}

fn ty(name: &str) -> TypeModel {
    TypeModel::Path {
        id: 0,
        qself: None,
        leading_colon: false,
        segments: vec![SegmentModel { ident: text(name), args: ArgsModel::Plain }],
    }
}

fn field(name: &str, t: TypeModel, attrs: Vec<BitsAttr>) -> BitfieldFieldInput {
    BitfieldFieldInput { ident: text(name), ty: t, ty_span: 5, path_span: 6, attrs }
}

fn bits_attr(value: BitsValue, span: usize) -> BitsAttr {
    BitsAttr { path: simple_path("bits"), span, meta_span: span + 1, value }
}

fn int_lit(lit: &str, span: usize) -> BitsValue {
    BitsValue::IntLiteral { text: text(lit), span }
}

fn item(fields: Vec<BitfieldFieldInput>) -> BitfieldInput {
    BitfieldInput { name: text("MyFourBytes"), fields: BitfieldFields::Named { fields } }
}

fn four_bytes() -> BitfieldInput {
    item(vec![
        field("a", ty("B1"), vec![]),
        field("b", ty("B3"), vec![]),
        field("c", ty("B4"), vec![bits_attr(int_lit("4", 40), 41)]),
        field("d", ty("B24"), vec![]),
    ])
}

fn error_of<T>(r: Result<T, MacroError>) -> (usize, String) {
    match r {
        Err(e) => (e.span, string(&e.message)),
        Ok(_) => panic!("expected an error"),
    }
}

fn plan_of(i: &BitfieldInput) -> BitfieldPlan {
    bitfield(i).ok().unwrap()
}

#[test]
fn plan_names_struct_and_types() {
    let p = plan_of(&four_bytes());
    assert_eq!(string(&p.name), "MyFourBytes");
    assert_eq!(strings(&p.field_types), vec!["B1", "B3", "B4", "B24"]);
}

#[test]
fn accessors_are_named_after_fields() {
    let p = plan_of(&four_bytes());
    let names: Vec<(String, String)> =
        p.accessors.iter().map(|a| (string(&a.getter), string(&a.setter))).collect();
    assert_eq!(names[0], ("get_a".to_string(), "set_a".to_string()));
    assert_eq!(names[3], ("get_d".to_string(), "set_d".to_string()));
}

#[test]
fn raw_field_name_loses_its_prefix() {
    let p = plan_of(&item(vec![field("r#type", ty("B8"), vec![])]));
    assert_eq!(string(&p.accessors[0].getter), "get_type");
    assert_eq!(string(&p.accessors[0].setter), "set_type");
}

#[test]
fn offsets_are_the_types_before_each_field() {
    let p = plan_of(&four_bytes());
    assert!(p.accessors[0].offset_types.is_empty());
    assert_eq!(strings(&p.accessors[1].offset_types), vec!["B1"]);
    assert_eq!(strings(&p.accessors[3].offset_types), vec!["B1", "B3", "B4"]);
    assert_eq!(string(&p.accessors[2].ty), "B4");
}

#[test]
fn size_checks_follow_bits_attributes() {
    let p = plan_of(&four_bytes());
    assert_eq!(p.size_checks.len(), 1);
    assert_eq!(string(&p.size_checks[0].literal), "4");
    assert_eq!(p.size_checks[0].span, 40);
    assert_eq!(string(&p.size_checks[0].ty), "B4");
}

#[test]
fn other_field_attributes_are_ignored() {
    let attr = BitsAttr { path: simple_path("doc"), span: 1, meta_span: 2, value: BitsValue::Other };
    let p = plan_of(&item(vec![field("a", ty("B8"), vec![attr])]));
    assert!(p.size_checks.is_empty());
}

#[test]
fn bits_twice_is_refused() {
    let i = item(vec![field("a", ty("B8"), vec![bits_attr(int_lit("8", 10), 11), bits_attr(int_lit("8", 20), 21)])]);
    assert_eq!(error_of(bitfield(&i)), (21, "bits already set".to_string()));
}

#[test]
fn bits_must_be_an_integer() {
    let i = item(vec![field("a", ty("B8"), vec![bits_attr(BitsValue::Other, 11)])]);
    assert_eq!(error_of(bitfield(&i)), (12, "expected bits = ...".to_string()));
}

#[test]
fn field_type_must_be_a_path() {
    let t = TypeModel::Other { id: 0, children: vec![] };
    let i = item(vec![field("a", t, vec![])]);
    assert_eq!(error_of(bitfield(&i)), (5, "unsupported type".to_string()));
}

#[test]
fn field_type_must_be_one_identifier() {
    let t = TypeModel::Path {
        id: 0,
        qself: None,
        leading_colon: true,
        segments: vec![SegmentModel { ident: text("B8"), args: ArgsModel::Plain }],
    };
    let i = item(vec![field("a", t, vec![])]);
    assert_eq!(error_of(bitfield(&i)), (6, "expected this path to be an identifier".to_string()));
    let generic = TypeModel::Path {
        id: 0,
        qself: None,
        leading_colon: false,
        segments: vec![SegmentModel {
            ident: text("Wrap"),
            args: ArgsModel::AngleBracketed { args: vec![GenericArgModel::Type { ty: ty("B8") }] },
        }],
    };
    let i = item(vec![field("a", generic, vec![])]);
    assert_eq!(error_of(bitfield(&i)).1, "expected this path to be an identifier");
}

#[test]
fn type_error_comes_before_attribute_error() {
    let t = TypeModel::Other { id: 0, children: vec![] };
    let i = item(vec![field("a", t, vec![bits_attr(BitsValue::Other, 11)])]);
    assert_eq!(error_of(bitfield(&i)).1, "unsupported type");
}

#[test]
fn first_bitfield_field_error_is_reported() {
    let i = item(vec![
        field("a", ty("B8"), vec![bits_attr(BitsValue::Other, 11)]),
        field("b", TypeModel::Other { id: 0, children: vec![] }, vec![]),
    ]);
    assert_eq!(error_of(BitField::try_from(&i)).0, 12);
}

#[test]
fn tuple_struct_is_refused() {
    let i = BitfieldInput { name: text("T"), fields: BitfieldFields::NotNamed { span: 9 } };
    assert_eq!(error_of(bitfield(&i)), (9, "unsupported by bitfield".to_string()));
}

fn variants(names: &[&str]) -> Vec<VariantInput> {
    names
        .iter()
        .enumerate()
        .map(|(k, n)| VariantInput { ident: text(n), span: 100 + k, ident_span: 200 + k, unit: true })
        .collect()
}

#[test]
fn enum_of_four_variants() {
    let p = macro_workshop::bitfield::derive(&text("TriggerMode"), &variants(&["Edge", "Level", "High", "Low"])).ok().unwrap();
    assert_eq!(string(&p.name), "TriggerMode");
    assert_eq!(p.bits, 2);
    assert_eq!(string(&p.int_type), "u8");
    assert_eq!(p.variants.len(), 4);
    assert_eq!(string(&p.variants[2].ident), "High");
    assert_eq!(p.variants[2].span, 202);
}

#[test]
fn enum_widths_follow_variant_count() {
    let names: Vec<String> = (0..64).map(|k| format!("V{}", k)).collect();
    let refs: Vec<&str> = names.iter().map(|s| s.as_str()).collect();
    let p = macro_workshop::bitfield::derive(&text("E"), &variants(&refs[..8])).ok().unwrap();
    assert_eq!((p.bits, string(&p.int_type)), (3, "u8".to_string()));
    let p = macro_workshop::bitfield::derive(&text("E"), &variants(&refs[..16])).ok().unwrap();
    assert_eq!((p.bits, string(&p.int_type)), (4, "u16".to_string()));
    let p = macro_workshop::bitfield::derive(&text("E"), &variants(&refs[..64])).ok().unwrap();
    assert_eq!((p.bits, string(&p.int_type)), (6, "u64".to_string()));
    let p = macro_workshop::bitfield::derive(&text("E"), &variants(&refs[..1])).ok().unwrap();
    assert_eq!((p.bits, string(&p.int_type)), (0, "u8".to_string()));
}

#[test]
fn variant_count_must_be_a_power_of_two() {
    let (span, message) = error_of(macro_workshop::bitfield::derive(&text("Bad"), &variants(&["A", "B", "C"])));
    assert_eq!(span, 0);
    assert_eq!(message, "BitfieldSpecifier expected a number of variants which is a power of 2");
    assert_eq!(error_of(macro_workshop::bitfield::derive(&text("Empty"), &variants(&[]))).0, 0);
}

#[test]
fn variant_with_fields_is_refused() {
    let mut vs = variants(&["A", "B", "C"]);
    vs[1].unit = false;
    vs[2].unit = false;
    assert_eq!(error_of(macro_workshop::bitfield::derive(&text("Bad"), &vs)), (101, "expected unit variant".to_string()));
}

#[test]
fn exponents_of_two() {
    assert_eq!(exponent_of_two(1), Some(0));
    assert_eq!(exponent_of_two(2), Some(1));
    assert_eq!(exponent_of_two(1024), Some(10));
    assert_eq!(exponent_of_two(1 << 63), Some(63));
    assert_eq!(exponent_of_two(0), None);
    assert_eq!(exponent_of_two(3), None);
    assert_eq!(exponent_of_two(96), None);
    assert_eq!(exponent_of_two(usize::MAX), None);
}

fn width(ty: &str) -> usize {
    match ty {
        "B1" => 1,
        "B3" => 3,
        "B4" => 4,
        "B24" => 24,
        _ => panic!("unknown width"),
    }
}

#[test]
fn planned_layout_keeps_fields_apart() {
    let p = plan_of(&four_bytes());
    let total: usize = p.field_types.iter().map(|t| width(&string(t))).sum();
    assert_eq!(total, 32);
    let offsets: Vec<usize> = p
        .accessors
        .iter()
        .map(|a| a.offset_types.iter().map(|t| width(&string(t))).sum())
        .collect();
    assert_eq!(offsets, vec![0, 1, 4, 8]);
    let mut data = [0u8; 4];
    let values = [1u64, 5, 9, 0xabcdef];
    for (k, a) in p.accessors.iter().enumerate() {
        set_bits(&mut data, offsets[k], width(&string(&a.ty)), values[k]);
    }
    for (k, a) in p.accessors.iter().enumerate() {
        assert_eq!(get_bits(&data, offsets[k], width(&string(&a.ty))), values[k]);
    }
}

#[test]
fn raw_value_selects_the_first_matching_variant() {
    let discriminants: Vec<u64> = vec![0, 2, 1, 3];
    assert_eq!(variant_for_raw(&discriminants, 0), Some(0));
    assert_eq!(variant_for_raw(&discriminants, 1), Some(2));
    assert_eq!(variant_for_raw(&discriminants, 3), Some(3));
    assert_eq!(variant_for_raw(&discriminants, 4), None);
    assert_eq!(variant_for_raw(&vec![5, 5], 5), Some(0));
}

#[test]
fn derived_variant_round_trips_through_its_bits() {
    // Four variants in two bits; the variant with discriminant 2 is written
    // at bit 3 of a cleared byte and read back.
    let discriminants: Vec<u64> = vec![3, 0, 2, 1];
    let mut data = [0u8; 1];
    set_bits(&mut data, 3, 2, discriminants[2]);
    let raw = get_bits(&data, 3, 2);
    assert_eq!(variant_for_raw(&discriminants, raw), Some(2));
}
