use recallable_macro::derive::{recallable_model, ModelPlan};
use recallable_macro::diag::{Diagnostic, ErrorKind, Site};
use recallable_macro::model::{
    AttrModel, CfgArgs, FieldModel, GenericsModel, InnerAttr, ItemData, ItemModel, MetaModel,
    NestedMeta, NestedValue, PathModel, Segment, Shape, TypeKind, TypeModel, VariantModel, Visibility,
};
use recallable_macro::model_macro::{
    is_serde_serialize_path, parse_model_item, serde_skip_attrs_to_add, validate_model_attr, SerdeSkip,
    SourceItemKind,
};

fn path(leading_colon: bool, segs: &[&str]) -> PathModel {
    PathModel {
        leading_colon,
        segments: segs.iter().map(|s| Segment { ident: s.to_string(), has_args: false }).collect(),
    }
}

fn word(name: &str) -> NestedMeta {
    NestedMeta::Item { path: path(false, &[name]), value: NestedValue::Absent }
}

fn attr_path(name: &str) -> AttrModel {
    AttrModel { path: path(false, &[name]), meta: MetaModel::Path, cfg: CfgArgs::NotCfg }
}

fn inner_path(name: &str) -> InnerAttr {
    InnerAttr { path: path(false, &[name]), meta: MetaModel::Path }
}

fn inner_list(name: &str, items: Vec<NestedMeta>) -> InnerAttr {
    InnerAttr { path: path(false, &[name]), meta: MetaModel::List(items) }
}

/// `#[cfg_attr(feature = "std", ...)]`
fn cfg_attr(attrs: Vec<InnerAttr>) -> AttrModel {
    AttrModel {
        path: path(false, &["cfg_attr"]),
        meta: MetaModel::List(vec![]),
        cfg: CfgArgs::Args { predicate: "feature = \"std\"".to_string(), attrs },
    }
}

fn derive_serialize() -> AttrModel {
    AttrModel {
        path: path(false, &["derive"]),
        meta: MetaModel::List(vec![NestedMeta::Item {
            path: path(false, &["serde", "Serialize"]),
            value: NestedValue::Absent,
        }]),
        cfg: CfgArgs::NotCfg,
    }
}

fn ty(name: &str) -> TypeModel {
    TypeModel {
        text: name.to_string(),
        kind: TypeKind::Path { qself: false, path: path(false, &[name]) },
        mentions: vec![],
    }
}

fn example_struct(attrs: Vec<AttrModel>, field_attrs: Vec<AttrModel>) -> ItemModel {
    ItemModel {
        vis: Visibility::Inherited,
        name: "Example".to_string(),
        attrs,
        generics: GenericsModel { params: vec![], where_clause: None },
        data: ItemData::Struct {
            shape: Shape::Named,
            fields: vec![FieldModel { name: Some("value".to_string()), ty: ty("u32"), attrs: field_attrs }],
        },
    }
}

fn unit_struct() -> ItemModel {
    ItemModel {
        vis: Visibility::Inherited,
        name: "Example".to_string(),
        attrs: vec![],
        generics: GenericsModel { params: vec![], where_clause: None },
        data: ItemData::Struct { shape: Shape::Unit, fields: vec![] },
    }
}

fn expect_err(r: Result<ModelPlan, Vec<Diagnostic>>) -> Vec<Diagnostic> {
    match r {
        Ok(_) => panic!("expected an error"),
        Err(es) => es,
    }
}

fn expect_ok(r: Result<ModelPlan, Vec<Diagnostic>>) -> ModelPlan {
    match r {
        Ok(p) => p,
        Err(es) => panic!("unexpected {:?}", es),
    }
}

#[test]
fn serde_serialize_path_detection_is_precise() {
    assert!(is_serde_serialize_path(&path(false, &["Serialize"])));
    assert!(is_serde_serialize_path(&path(false, &["serde", "Serialize"])));
    assert!(is_serde_serialize_path(&path(true, &["serde", "Serialize"])));
    assert!(is_serde_serialize_path(&path(false, &["serde_derive", "Serialize"])));
    assert!(is_serde_serialize_path(&path(true, &["serde_derive", "Serialize"])));

    assert!(!is_serde_serialize_path(&path(false, &["other", "Serialize"])));
    assert!(!is_serde_serialize_path(&path(false, &["serde", "ser", "Serialize"])));
    assert!(!is_serde_serialize_path(&path(false, &["other", "serde", "Serialize"])));
    assert!(!is_serde_serialize_path(&path(false, &["SerializeOwned"])));
}

#[test]
fn recallable_model_rejects_arguments() {
    let error = validate_model_attr(false).err().unwrap();
    assert!(error.kind.message().contains("`#[recallable_model]` does not accept arguments"));
    assert_eq!(validate_model_attr(true), Ok(()));
}

#[test]
fn parse_model_item_rejects_non_struct_or_enum_items() {
    let error = match parse_model_item(SourceItemKind::Other) {
        Ok(_) => panic!("expected parse_model_item to reject functions"),
        Err(error) => error,
    };
    assert_eq!(error.kind.message(), "`#[recallable_model]` can only be applied to structs or enums");
    assert_eq!(parse_model_item(SourceItemKind::Enum), Ok(()));
}

#[test]
fn expand_tokens_reject_model_arguments() {
    let errors = expect_err(recallable_model(false, SourceItemKind::Struct, &unit_struct(), true));
    assert_eq!(errors, vec![Diagnostic { kind: ErrorKind::ModelTakesNoArguments, site: Site::ModelArguments }]);
    assert!(errors[0].kind.message().contains("does not accept arguments"));
}

#[test]
fn expand_tokens_reject_non_model_items() {
    let errors = expect_err(recallable_model(true, SourceItemKind::Other, &unit_struct(), true));
    assert_eq!(errors, vec![Diagnostic { kind: ErrorKind::ModelNotStructOrEnum, site: Site::Item }]);
    assert!(errors[0].kind.message().contains("can only be applied to structs or enums"));
}

#[test]
fn expand_tokens_reject_model_analysis_failures() {
    let item = ItemModel {
        vis: Visibility::Inherited,
        name: "Example".to_string(),
        attrs: vec![],
        generics: GenericsModel { params: vec![], where_clause: None },
        data: ItemData::Enum {
            variants: vec![VariantModel {
                name: "Value".to_string(),
                shape: Shape::Unnamed,
                fields: vec![FieldModel { name: None, ty: ty("Inner"), attrs: vec![attr_path("recallable")] }],
            }],
        },
    };
    let errors = expect_err(recallable_model(true, SourceItemKind::Enum, &item, true));
    assert_eq!(errors, vec![Diagnostic { kind: ErrorKind::EnumModelManualOnly, site: Site::ItemName }]);
    assert!(errors[0].kind.message().contains("assignment-only variants"));
}

#[test]
fn expand_tokens_reject_manual_serialize_derives() {
    let item = example_struct(vec![derive_serialize()], vec![]);
    let errors = expect_err(recallable_model(true, SourceItemKind::Struct, &item, true));
    assert_eq!(errors.len(), 1);
    assert_eq!(errors[0].kind, ErrorKind::ManualSerializeDerive);
    assert!(errors[0].kind.message().contains("already derives"));
    // Without serde the manual derive is left alone.
    let plan = expect_ok(recallable_model(true, SourceItemKind::Struct, &item, false));
    assert!(!plan.derive_serialize);
}

#[test]
fn expand_tokens_injects_matching_cfg_attr_serde_skip() {
    let item = example_struct(vec![], vec![cfg_attr(vec![inner_list("recallable", vec![word("skip")])])]);
    let plan = expect_ok(recallable_model(true, SourceItemKind::Struct, &item, true));
    assert!(plan.derive_serialize);
    assert_eq!(plan.skips, vec![vec![vec![SerdeSkip::Under(0)]]]);
}

#[test]
fn expand_tokens_does_not_duplicate_cfg_attr_serde_skip_when_already_present() {
    let item = example_struct(
        vec![],
        vec![cfg_attr(vec![inner_list("recallable", vec![word("skip")]), inner_list("serde", vec![word("skip")])])],
    );
    let plan = expect_ok(recallable_model(true, SourceItemKind::Struct, &item, true));
    assert_eq!(plan.skips, vec![vec![Vec::<SerdeSkip>::new()]]);
}

#[test]
fn expand_tokens_rejects_cfg_attr_recallable_and_serde_skip_conflicts() {
    let item = example_struct(
        vec![],
        vec![cfg_attr(vec![inner_path("recallable"), inner_list("serde", vec![word("skip")])])],
    );
    let errors = expect_err(recallable_model(true, SourceItemKind::Struct, &item, true));
    assert_eq!(errors.len(), 1);
    assert_eq!(errors[0].kind, ErrorKind::RecallWithSerdeSkip);
    assert!(errors[0].kind.message().contains("`#[recallable]` cannot coexist with `#[serde(skip)]`"));
}

#[test]
fn expand_tokens_rejects_cfg_attr_recallable_unknown_parameters() {
    let item = example_struct(
        vec![],
        vec![cfg_attr(vec![inner_list("recallable", vec![word("skip"), word("garbage")])])],
    );
    let errors = expect_err(recallable_model(true, SourceItemKind::Struct, &item, true));
    assert_eq!(errors.len(), 1);
    assert_eq!(errors[0].kind.message(), "unrecognized `recallable` parameter");
}

fn skip_attr(name: &str) -> AttrModel {
    AttrModel { path: path(false, &[name]), meta: MetaModel::List(vec![word("skip")]), cfg: CfgArgs::NotCfg }
}

#[test]
fn plain_skip_gets_an_unconditional_serde_skip() {
    let attrs = vec![skip_attr("recallable")];
    assert_eq!(serde_skip_attrs_to_add(&attrs, None, 0), Ok(vec![SerdeSkip::Always]));
    let already = vec![skip_attr("recallable"), skip_attr("serde")];
    assert_eq!(serde_skip_attrs_to_add(&already, None, 0), Ok(vec![]));
    let conflict = vec![attr_path("recallable"), skip_attr("serde")];
    assert_eq!(
        serde_skip_attrs_to_add(&conflict, Some(2), 1).err().map(|d| d.kind),
        Some(ErrorKind::RecallWithSerdeSkip)
    );
}

#[test]
fn derive_attributes_need_an_argument_list() {
    let bare = AttrModel { path: path(false, &["derive"]), meta: MetaModel::Path, cfg: CfgArgs::NotCfg };
    let errors = expect_err(recallable_model(true, SourceItemKind::Struct, &example_struct(vec![bare], vec![]), true));
    assert_eq!(errors, vec![Diagnostic { kind: ErrorKind::DeriveNeedsArgs, site: Site::ItemAttr { attr: 0 } }]);
    assert_eq!(errors[0].kind.message(), "expected attribute arguments in parentheses: #[derive(...)]");
    let eq = AttrModel { path: path(false, &["derive"]), meta: MetaModel::NameValue, cfg: CfgArgs::NotCfg };
    let errors = expect_err(recallable_model(true, SourceItemKind::Struct, &example_struct(vec![eq], vec![]), true));
    assert_eq!(errors[0].kind, ErrorKind::DeriveNeedsParens);
    assert_eq!(errors[0].kind.message(), "expected parentheses: #[derive(...)]");
}

#[test]
fn malformed_cfg_attr_is_reported() {
    let bad = AttrModel { path: path(false, &["cfg_attr"]), meta: MetaModel::List(vec![]), cfg: CfgArgs::Malformed };
    let errors = expect_err(recallable_model(true, SourceItemKind::Struct, &example_struct(vec![], vec![bad]), true));
    assert_eq!(
        errors,
        vec![Diagnostic {
            kind: ErrorKind::MalformedCfgAttr,
            site: Site::FieldAttr { variant: None, field: 0, attr: 0 },
        }]
    );
}

fn cfg_attr_under(predicate: &str, attrs: Vec<InnerAttr>) -> AttrModel {
    AttrModel {
        path: path(false, &["cfg_attr"]),
        meta: MetaModel::List(vec![]),
        cfg: CfgArgs::Args { predicate: predicate.to_string(), attrs },
    }
}

#[test]
fn serde_skips_follow_each_condition() {
    let skip = || inner_list("recallable", vec![word("skip")]);
    let serde_skip = || inner_list("serde", vec![word("skip")]);
    let attrs = vec![cfg_attr_under("feature = \"std\"", vec![skip()]), cfg_attr_under("test", vec![skip()])];
    assert_eq!(serde_skip_attrs_to_add(&attrs, None, 0), Ok(vec![SerdeSkip::Under(0), SerdeSkip::Under(1)]));
    let attrs = vec![
        cfg_attr_under("feature = \"std\"", vec![skip()]),
        cfg_attr_under("test", vec![skip(), serde_skip()]),
        cfg_attr_under("feature = \"std\"", vec![serde_skip()]),
    ];
    assert_eq!(serde_skip_attrs_to_add(&attrs, None, 0), Ok(vec![]));
    let attrs = vec![cfg_attr_under("feature = \"std\"", vec![skip()]), cfg_attr_under("feature = \"std\"", vec![skip()])];
    assert_eq!(serde_skip_attrs_to_add(&attrs, Some(1), 2), Ok(vec![SerdeSkip::Under(0)]));
}
