use recallable_macro::diag::{Diagnostic, ErrorKind, Site};
use recallable_macro::model::{
    AttrModel, CfgArgs, FieldModel, MetaModel, NestedMeta, NestedValue, PathModel, Segment, TypeKind,
    TypeModel,
};
use recallable_macro::serde_attrs::{
    analyze_struct_serde_attrs, conflicting_rename_message, merge_field_attrs, parse_recallable_serde_attrs, parse_serde_attrs,
    SerdeFieldAttrs,
};

fn name_path(name: &str) -> PathModel {
    PathModel { leading_colon: false, segments: vec![Segment { ident: name.to_string(), has_args: false }] }
}

fn word(name: &str) -> NestedMeta {
    NestedMeta::Item { path: name_path(name), value: NestedValue::Absent }
}

fn string_entry(name: &str, value: &str) -> NestedMeta {
    NestedMeta::Item { path: name_path(name), value: NestedValue::Str(value.to_string()) }
}

fn attr_list(name: &str, items: Vec<NestedMeta>) -> AttrModel {
    AttrModel { path: name_path(name), meta: MetaModel::List(items), cfg: CfgArgs::NotCfg }
}

fn i32_field(name: &str, attrs: Vec<AttrModel>) -> FieldModel {
    FieldModel {
        name: Some(name.to_string()),
        ty: TypeModel {
            text: "i32".to_string(),
            kind: TypeKind::Path { qself: false, path: name_path("i32") },
            mentions: vec![],
        },
        attrs,
    }
}

fn names(rename: Option<&str>, aliases: &[&str]) -> SerdeFieldAttrs {
    SerdeFieldAttrs { rename: rename.map(|s| s.to_string()), aliases: aliases.iter().map(|s| s.to_string()).collect() }
}

fn ok_attrs(r: Result<SerdeFieldAttrs, Diagnostic>) -> SerdeFieldAttrs {
    match r {
        Ok(a) => a,
        Err(d) => panic!("unexpected {:?}", d),
    }
}

#[test]
fn both_empty_produces_empty() {
    let result = ok_attrs(merge_field_attrs(SerdeFieldAttrs::empty(), SerdeFieldAttrs::empty(), None, 0));
    assert!(result.rename.is_none() && result.aliases.is_empty());
}

#[test]
fn recallable_rename_only() {
    let result = ok_attrs(merge_field_attrs(names(Some("x"), &[]), SerdeFieldAttrs::empty(), None, 0));
    assert_eq!(result.rename.unwrap(), "x");
}

#[test]
fn serde_rename_only_in_derive_mode() {
    let result = ok_attrs(merge_field_attrs(SerdeFieldAttrs::empty(), names(Some("x"), &[]), None, 0));
    assert_eq!(result.rename.unwrap(), "x");
}

#[test]
fn matching_rename_values_merge() {
    let result = ok_attrs(merge_field_attrs(names(Some("x"), &[]), names(Some("x"), &[]), None, 0));
    assert_eq!(result.rename.unwrap(), "x");
}

#[test]
fn conflicting_rename_values_rejected() {
    let result = merge_field_attrs(names(Some("x"), &[]), names(Some("y"), &[]), None, 0);
    assert!(result.is_err());
    let d = result.err().unwrap();
    assert_eq!(d, Diagnostic { kind: ErrorKind::ConflictingRename, site: Site::Field { variant: None, field: 0 } });
    assert!(d.kind.message().contains("conflicting"));
}

#[test]
fn aliases_are_unioned_and_deduplicated() {
    let result = ok_attrs(merge_field_attrs(names(None, &["a", "b"]), names(None, &["b", "c"]), None, 0));
    assert_eq!(result.aliases, vec!["a", "b", "c"]);
}

#[test]
fn merge_keeps_the_serde_aliases_after_the_recallable_ones() {
    let result = ok_attrs(merge_field_attrs(names(None, &["b", "b"]), names(Some("w"), &["a", "b"]), Some(2), 1));
    assert_eq!(result.rename, Some("w".to_string()));
    assert_eq!(result.aliases, vec!["b", "a"]);
}

#[test]
fn accumulates_no_serde_errors_across_fields() {
    let fields = vec![
        i32_field("first", vec![attr_list("recallable", vec![string_entry("rename", "a")])]),
        i32_field("second", vec![attr_list("recallable", vec![string_entry("alias", "b")])]),
    ];
    let errors = match analyze_struct_serde_attrs(&fields, false) {
        Ok(_) => panic!("expected errors"),
        Err(es) => es,
    };
    assert!(
        errors[0].kind.message().contains("serde"),
        "expected serde feature error, got: {:?}",
        errors[0]
    );
    assert_eq!(errors.len(), 2, "expected 2 accumulated errors, got {}", errors.len());
    assert_eq!(errors[0].kind, ErrorKind::SerdeFeatureRequired);
    assert_eq!(errors[1].kind, ErrorKind::SerdeFeatureRequired);
}

#[test]
fn accumulates_skip_rename_errors_across_fields() {
    let fields = vec![
        i32_field("first", vec![attr_list("recallable", vec![word("skip"), string_entry("rename", "a")])]),
        i32_field("second", vec![attr_list("recallable", vec![word("skip"), string_entry("alias", "b")])]),
    ];
    let errors = match analyze_struct_serde_attrs(&fields, true) {
        Ok(_) => panic!("expected errors"),
        Err(es) => es,
    };
    assert_eq!(errors.len(), 2, "expected 2 accumulated errors, got {}", errors.len());
    assert!(errors.iter().all(|e| e.kind == ErrorKind::RenameOnSkippedField));
}

#[test]
fn struct_pass_gives_each_field_its_names() {
    let fields = vec![
        i32_field("first", vec![attr_list("recallable", vec![string_entry("rename", "wire")])]),
        i32_field("second", vec![attr_list("serde", vec![string_entry("alias", "old")])]),
    ];
    let result = match analyze_struct_serde_attrs(&fields, true) {
        Ok(r) => r,
        Err(es) => panic!("unexpected {:?}", es),
    };
    assert_eq!(result.len(), 2);
    assert_eq!(result[0].rename, Some("wire".to_string()));
    assert!(result[0].aliases.is_empty());
    assert_eq!(result[1].rename, None);
    assert_eq!(result[1].aliases, vec!["old"]);
}

#[test]
fn recallable_rename_parsed() {
    let attrs = vec![attr_list("recallable", vec![string_entry("rename", "wire")])];
    let parsed = ok_attrs(parse_recallable_serde_attrs(&attrs, None, 0));
    assert_eq!(parsed.rename.unwrap(), "wire");
    assert!(parsed.aliases.is_empty());
}

#[test]
fn recallable_alias_parsed() {
    let attrs = vec![attr_list("recallable", vec![string_entry("alias", "old"), string_entry("alias", "legacy")])];
    let parsed = ok_attrs(parse_recallable_serde_attrs(&attrs, None, 0));
    assert!(parsed.rename.is_none());
    assert_eq!(parsed.aliases.len(), 2);
    assert_eq!(parsed.aliases[0], "old");
    assert_eq!(parsed.aliases[1], "legacy");
}

#[test]
fn recallable_rename_and_alias_combined() {
    let attrs = vec![attr_list("recallable", vec![string_entry("rename", "new"), string_entry("alias", "alt")])];
    let parsed = ok_attrs(parse_recallable_serde_attrs(&attrs, None, 0));
    assert_eq!(parsed.rename.unwrap(), "new");
    assert_eq!(parsed.aliases.len(), 1);
}

#[test]
fn serde_rename_parsed() {
    let attrs = vec![attr_list("serde", vec![string_entry("rename", "wire")])];
    let parsed = ok_attrs(parse_serde_attrs(&attrs, None, 0));
    assert_eq!(parsed.rename.unwrap(), "wire");
}

#[test]
fn serde_alias_parsed() {
    let attrs = vec![attr_list("serde", vec![string_entry("alias", "old")])];
    let parsed = ok_attrs(parse_serde_attrs(&attrs, None, 0));
    assert_eq!(parsed.aliases.len(), 1);
    assert_eq!(parsed.aliases[0], "old");
}

#[test]
fn no_attrs_returns_empty() {
    let attrs: Vec<AttrModel> = vec![];
    let recallable = ok_attrs(parse_recallable_serde_attrs(&attrs, None, 0));
    let serde = ok_attrs(parse_serde_attrs(&attrs, None, 0));
    assert!(recallable.rename.is_none());
    assert!(recallable.aliases.is_empty());
    assert!(serde.rename.is_none());
    assert!(serde.aliases.is_empty());
}

#[test]
fn recallable_skip_field_is_ignored() {
    let attrs = vec![attr_list("recallable", vec![word("skip")])];
    let parsed = ok_attrs(parse_recallable_serde_attrs(&attrs, None, 0));
    assert!(parsed.rename.is_none());
    assert!(parsed.aliases.is_empty());
}

#[test]
fn duplicate_rename_is_rejected() {
    let attrs = vec![attr_list("serde", vec![string_entry("rename", "a"), string_entry("rename", "b")])];
    assert_eq!(
        parse_serde_attrs(&attrs, None, 3).err(),
        Some(Diagnostic {
            kind: ErrorKind::DuplicateSerdeRename,
            site: Site::FieldAttr { variant: None, field: 3, attr: 0 },
        })
    );
    let attrs = vec![attr_list("recallable", vec![string_entry("rename", "a"), string_entry("rename", "b")])];
    assert_eq!(
        parse_recallable_serde_attrs(&attrs, Some(1), 0).err().map(|d| d.kind),
        Some(ErrorKind::DuplicateRecallableRename)
    );
}

#[test]
fn rename_must_be_a_string_literal() {
    let attrs = vec![attr_list(
        "serde",
        vec![NestedMeta::Item { path: name_path("rename"), value: NestedValue::Other }],
    )];
    assert_eq!(parse_serde_attrs(&attrs, None, 0).err().map(|d| d.kind), Some(ErrorKind::ExpectedStringLiteral));
}

#[test]
fn conflicting_rename_message_names_both_values() {
    assert_eq!(
        conflicting_rename_message(&"y".to_string(), &"x".to_string()),
        "conflicting `rename` values: `#[serde(rename = \"y\")]` and `#[recallable(rename = \"x\")]` must match"
    );
}

#[test]
fn rename_without_a_value_expects_equals() {
    let attrs = vec![attr_list("serde", vec![word("rename")])];
    assert_eq!(parse_serde_attrs(&attrs, None, 0).err().map(|d| d.kind), Some(ErrorKind::ExpectedEquals));
    assert_eq!(ErrorKind::ExpectedEquals.message(), "expected `=`");
    let attrs = vec![attr_list("recallable", vec![word("alias")])];
    assert_eq!(parse_recallable_serde_attrs(&attrs, None, 0).err().map(|d| d.kind), Some(ErrorKind::ExpectedEquals));
}
