use text_to_cypher::dispatch::{
    module_from_type_path, plan_dispatch, ArmError, DispatchError, FieldType, ItemShape,
    VariantFields, VariantShape,
};

fn path(segs: &[&str]) -> Vec<String> {
    segs.iter().map(|s| s.to_string()).collect()
}

fn tuple_variant(name: &str, segs: &[&str]) -> VariantShape {
    VariantShape {
        name: name.to_string(),
        fields: VariantFields::Unnamed(vec![FieldType::Path(path(segs))]),
    }
}

#[test]
fn module_path_drops_last_segment() {
    assert_eq!(module_from_type_path(&path(&["stats", "SubArgs"])), path(&["stats"]));
    assert_eq!(
        module_from_type_path(&path(&["crate", "subcommand", "dataset", "SubArgs"])),
        path(&["crate", "subcommand", "dataset"])
    );
}

#[test]
fn plan_sends_each_variant_to_its_module() {
    let item = ItemShape::Enum(vec![
        tuple_variant("Stats", &["stats", "SubArgs"]),
        tuple_variant("Pretrain", &["pretrain", "SubArgs"]),
        tuple_variant("Dataset", &["dataset", "SubArgs"]),
    ]);
    let arms = plan_dispatch(&item).ok().unwrap();
    assert_eq!(arms.len(), 3);
    let a = arms[1].as_ref().ok().unwrap();
    assert_eq!(a.variant, "Pretrain");
    assert_eq!(a.module, path(&["pretrain"]));
    let c = arms[2].as_ref().ok().unwrap();
    assert_eq!(c.variant, "Dataset");
    assert_eq!(c.module, path(&["dataset"]));
}

#[test]
fn plan_reports_bad_variants_in_place() {
    let item = ItemShape::Enum(vec![
        VariantShape { name: "Named".to_string(), fields: VariantFields::Named },
        VariantShape { name: "Unit".to_string(), fields: VariantFields::Unit },
        VariantShape {
            name: "Two".to_string(),
            fields: VariantFields::Unnamed(vec![FieldType::Other, FieldType::Other]),
        },
        VariantShape {
            name: "Ref".to_string(),
            fields: VariantFields::Unnamed(vec![FieldType::Other]),
        },
        tuple_variant("Ok", &["a", "b", "SubArgs"]),
    ]);
    let arms = plan_dispatch(&item).ok().unwrap();
    assert!(matches!(arms[0], Err(ArmError::NotTupleVariant)));
    assert!(matches!(arms[1], Err(ArmError::NotTupleVariant)));
    assert!(matches!(arms[2], Err(ArmError::FieldCount)));
    assert!(matches!(arms[3], Err(ArmError::NotPathType)));
    assert_eq!(arms[4].as_ref().ok().unwrap().module, path(&["a", "b"]));
}

#[test]
fn plan_refuses_non_enums() {
    assert!(matches!(plan_dispatch(&ItemShape::Other), Err(DispatchError::NotEnum)));
    assert_eq!(DispatchError::NotEnum.message(), "Dispatch only works on enums");
}

#[test]
fn arm_error_messages() {
    assert_eq!(
        ArmError::NotTupleVariant.message(),
        "Dispatch requires single-field tuple variants, e.g. Stats(stats::SubArgs)"
    );
    assert_eq!(ArmError::FieldCount.message(), "Dispatch requires exactly one field per variant");
    assert_eq!(
        ArmError::NotPathType.message(),
        "Dispatch requires a plain path type (e.g. stats::SubArgs)"
    );
}
