use recallable_macro::bounds::{
    collect_from_bounds_with_spec, collect_recall_like_bounds_with_spec,
    collect_shared_memento_bounds_with_spec, recallable_params, whole_type_bound_targets, Bound,
    MementoTraitSpec, Predicate, Target,
};
use recallable_macro::derive::{crate_path_name, CrateLookup, analyze_recall_input, derive_recall, derive_recallable, memento_name, MementoPlan};
use recallable_macro::diag::{Diagnostic, ErrorKind, Site};
use recallable_macro::fields::{
    classify_recallable_field_type, is_phantom_data, validate_no_borrowed_fields, FieldIr,
    FieldStrategy,
};
use recallable_macro::attrs::has_skip_memento_default_derives;
use recallable_macro::generics::Retention;
use recallable_macro::impls::gen_recallable_impl;
use recallable_macro::ir::{analyze_item, ItemIr, ItemKind};
use recallable_macro::memento::gen_memento_struct;
use recallable_macro::model::{
    AttrModel, CfgArgs, FieldModel, Malformation, GenericParamModel, GenericsModel, ItemData, ItemModel, Mention,
    MetaModel, NestedMeta, NestedValue, ParamKind, PathModel, Segment, Shape, TypeKind, TypeModel,
    VariantModel, Visibility, WherePredModel,
};

fn seg(s: &str, has_args: bool) -> Segment {
    Segment { ident: s.to_string(), has_args }
}

fn path(leading_colon: bool, segs: &[(&str, bool)]) -> PathModel {
    PathModel { leading_colon, segments: segs.iter().map(|(s, a)| seg(s, *a)).collect() }
}

fn tp(first: &str, bare_single: bool, in_angle_args: bool) -> Mention {
    Mention::TypePath { first: first.to_string(), bare_single, in_angle_args }
}

/// A one-segment path type such as `T` or `u32`.
fn ty_name(name: &str) -> TypeModel {
    TypeModel {
        text: name.to_string(),
        kind: TypeKind::Path { qself: false, path: path(false, &[(name, false)]) },
        mentions: vec![tp(name, true, false)],
    }
}

/// `Outer<Inner>` for a one-segment inner type.
fn ty_generic(outer: &str, inner: &str) -> TypeModel {
    TypeModel {
        text: format!("{} < {} >", outer, inner),
        kind: TypeKind::Path { qself: false, path: path(false, &[(outer, true)]) },
        mentions: vec![tp(outer, false, false), tp(inner, true, true)],
    }
}

/// `::core::marker::PhantomData<U>`.
fn ty_phantom(inner: &str) -> TypeModel {
    TypeModel {
        text: format!(":: core :: marker :: PhantomData < {} >", inner),
        kind: TypeKind::Path {
            qself: false,
            path: path(true, &[("core", false), ("marker", false), ("PhantomData", true)]),
        },
        mentions: vec![tp("core", false, false), tp(inner, true, true)],
    }
}

/// `[u8; N]`.
fn ty_array(len: &str) -> TypeModel {
    TypeModel {
        text: format!("[u8 ; {}]", len),
        kind: TypeKind::Other,
        mentions: vec![tp("u8", true, false), Mention::ExprPath(len.to_string())],
    }
}

/// `&'a str`.
fn ty_ref(lifetime: &str) -> TypeModel {
    TypeModel {
        text: format!("& '{} str", lifetime),
        kind: TypeKind::Other,
        mentions: vec![Mention::Lifetime(lifetime.to_string()), tp("str", true, false)],
    }
}

fn attr_path(name: &str) -> AttrModel {
    AttrModel { path: path(false, &[(name, false)]), meta: MetaModel::Path, cfg: CfgArgs::NotCfg }
}

fn word(name: &str) -> NestedMeta {
    NestedMeta::Item { path: path(false, &[(name, false)]), value: NestedValue::Absent }
}

fn attr_list(name: &str, items: Vec<NestedMeta>) -> AttrModel {
    AttrModel { path: path(false, &[(name, false)]), meta: MetaModel::List(items), cfg: CfgArgs::NotCfg }
}

fn recallable() -> AttrModel {
    attr_path("recallable")
}

fn recallable_skip() -> AttrModel {
    attr_list("recallable", vec![word("skip")])
}

fn field(name: &str, ty: TypeModel, attrs: Vec<AttrModel>) -> FieldModel {
    FieldModel { name: Some(name.to_string()), ty, attrs }
}

fn tuple_field(ty: TypeModel, attrs: Vec<AttrModel>) -> FieldModel {
    FieldModel { name: None, ty, attrs }
}

fn type_param(name: &str, mentions: Vec<Mention>) -> GenericParamModel {
    GenericParamModel { kind: ParamKind::Type, name: name.to_string(), mentions }
}

fn lifetime_param(name: &str) -> GenericParamModel {
    GenericParamModel {
        kind: ParamKind::Lifetime,
        name: name.to_string(),
        mentions: vec![Mention::Lifetime(name.to_string())],
    }
}

fn const_param(name: &str) -> GenericParamModel {
    GenericParamModel { kind: ParamKind::Const, name: name.to_string(), mentions: vec![tp("usize", true, false)] }
}

fn generics(params: Vec<GenericParamModel>, where_clause: Option<Vec<WherePredModel>>) -> GenericsModel {
    GenericsModel { params, where_clause }
}

fn strukt(name: &str, g: GenericsModel, shape: Shape, fields: Vec<FieldModel>) -> ItemModel {
    ItemModel { vis: Visibility::Inherited, name: name.to_string(), attrs: vec![], generics: g, data: ItemData::Struct { shape, fields } }
}

fn enm(name: &str, g: GenericsModel, variants: Vec<VariantModel>) -> ItemModel {
    ItemModel { vis: Visibility::Inherited, name: name.to_string(), attrs: vec![], generics: g, data: ItemData::Enum { variants } }
}

fn ok_ir(r: Result<ItemIr, Vec<Diagnostic>>) -> ItemIr {
    match r {
        Ok(ir) => ir,
        Err(es) => panic!("analysis failed: {:?}", es),
    }
}

fn err_of<T>(r: Result<T, Vec<Diagnostic>>) -> Vec<Diagnostic> {
    match r {
        Ok(_) => panic!("expected an error"),
        Err(es) => es,
    }
}

/// `struct Example<T, U, V> { #[recallable] current: T, #[recallable] history: Option<U>, extra: V }`
fn order_example() -> ItemModel {
    strukt(
        "Example",
        generics(vec![type_param("T", vec![]), type_param("U", vec![]), type_param("V", vec![])], None),
        Shape::Named,
        vec![
            field("current", ty_name("T"), vec![recallable()]),
            field("history", ty_generic("Option", "U"), vec![recallable()]),
            field("extra", ty_name("V"), vec![]),
        ],
    )
}

#[test]
fn split_internal_reexports_cover_both_item_kinds() {
    let struct_input = strukt(
        "Example",
        generics(vec![type_param("T", vec![])], None),
        Shape::Named,
        vec![field("value", ty_name("T"), vec![])],
    );
    let enum_input = enm(
        "Choice",
        generics(vec![type_param("T", vec![])], None),
        vec![VariantModel {
            name: "One".to_string(),
            shape: Shape::Unnamed,
            fields: vec![tuple_field(ty_name("T"), vec![])],
        }],
    );
    let struct_ir = ok_ir(analyze_item(&struct_input));
    let enum_ir = ok_ir(analyze_item(&enum_input));
    assert_eq!(struct_ir.kind, ItemKind::Struct(Shape::Named));
    assert_eq!(enum_ir.kind, ItemKind::Enum);
    assert_eq!(memento_name(&struct_input.name), "ExampleMemento");
    assert_eq!(memento_name(&enum_input.name), "ChoiceMemento");
    match derive_recallable(&struct_input, true, false) {
        Ok(d) => assert!(matches!(d.memento, MementoPlan::Struct(_))),
        Err(es) => panic!("unexpected {:?}", es),
    }
}

#[test]
fn helper_name_and_manual_only_guidance_manual_only_error() {
    let input = enm(
        "Example",
        generics(vec![], None),
        vec![VariantModel {
            name: "Value".to_string(),
            shape: Shape::Unnamed,
            fields: vec![tuple_field(ty_name("Inner"), vec![recallable()])],
        }],
    );
    let errors = err_of(analyze_recall_input(&input));
    assert_eq!(
        errors,
        vec![Diagnostic {
            kind: ErrorKind::EnumRecallManualOnly,
            site: Site::Field { variant: Some(0), field: 0 },
        }]
    );
    assert!(errors[0]
        .kind
        .message()
        .contains("derive `Recallable` and implement `Recall` or `TryRecall` manually"));
}

#[test]
fn facade_reexports_support_analysis_and_codegen() {
    let mut input = strukt(
        "Example",
        generics(vec![type_param("T", vec![])], None),
        Shape::Named,
        vec![field("value", ty_name("T"), vec![recallable()])],
    );
    input.vis = Visibility::Restricted("pub (crate)".to_string());
    let ir = ok_ir(analyze_item(&input));
    let memento = gen_memento_struct(&input, &ir, false);
    assert_eq!(memento_name(&input.name), "ExampleMemento");
    assert!(matches!(&memento.vis, Visibility::Restricted(t) if t == "pub (crate)"));
    assert_eq!(memento.generics, vec![0]);
    assert_eq!(memento.fields.len(), 1);
    assert_eq!(memento.fields[0].ty, recallable_macro::memento::MementoFieldTy::ParamMemento(0));
}

#[test]
fn analyze_item_rejects_unions_at_outer_boundary() {
    let input = ItemModel {
        vis: Visibility::Inherited,
        name: "Example".to_string(),
        attrs: vec![],
        generics: generics(vec![], None),
        data: ItemData::Union,
    };
    let errors = err_of(analyze_item(&input));
    assert_eq!(errors, vec![Diagnostic { kind: ErrorKind::NotStructOrEnum, site: Site::Item }]);
    assert_eq!(errors[0].kind.message(), "This derive macro can only be applied to structs or enums");
}

#[test]
fn bounds_shared_bound_helpers_preserve_predicate_order() {
    let input = order_example();
    let ir = ok_ir(analyze_item(&input));
    let rp = recallable_params(&ir.plan.retention);
    let wt = whole_type_bound_targets(&input, &ir);
    assert_eq!(rp, vec![0]);
    assert_eq!(wt, vec![Target::FieldType { group: 0, field: 1 }]);

    let history = Target::FieldType { group: 0, field: 1 };
    let shared = collect_shared_memento_bounds_with_spec(&rp, &wt, MementoTraitSpec::new(true, false));
    assert_eq!(
        shared,
        vec![
            Predicate::Memento(Target::Param(0), Bound::CommonTraits),
            Predicate::Memento(history, Bound::CommonTraits),
            Predicate::Memento(history, Bound::DeserializeOwned),
        ]
    );

    let recall_like =
        collect_recall_like_bounds_with_spec(&rp, &wt, Bound::Recall, MementoTraitSpec::new(true, false));
    assert_eq!(
        recall_like,
        vec![
            Predicate::Direct(Target::Param(0), Bound::Recall),
            Predicate::Memento(Target::Param(0), Bound::CommonTraits),
            Predicate::Direct(history, Bound::Recall),
            Predicate::Memento(history, Bound::CommonTraits),
            Predicate::Memento(history, Bound::DeserializeOwned),
        ]
    );
}

#[test]
fn bounds_whole_type_bound_helpers_deduplicate_repeated_types() {
    let input = strukt(
        "Example",
        generics(vec![type_param("T", vec![])], None),
        Shape::Named,
        vec![
            field("current", ty_name("T"), vec![recallable()]),
            field("first", ty_generic("Wrapper", "T"), vec![recallable()]),
            field("second", ty_generic("Wrapper", "T"), vec![recallable()]),
        ],
    );
    let ir = ok_ir(analyze_item(&input));
    let rp = recallable_params(&ir.plan.retention);
    let wt = whole_type_bound_targets(&input, &ir);
    let wrapper = Target::FieldType { group: 0, field: 1 };
    assert_eq!(wt, vec![wrapper]);

    let spec = MementoTraitSpec::new(true, false);
    let shared = collect_shared_memento_bounds_with_spec(&rp, &wt, spec);
    assert_eq!(
        shared,
        vec![
            Predicate::Memento(Target::Param(0), Bound::CommonTraits),
            Predicate::Memento(wrapper, Bound::CommonTraits),
            Predicate::Memento(wrapper, Bound::DeserializeOwned),
        ]
    );

    let from = collect_from_bounds_with_spec(&rp, &wt, spec);
    assert_eq!(
        from[from.len() - 2..].to_vec(),
        vec![Predicate::Direct(wrapper, Bound::Recallable), Predicate::MementoFrom(wrapper)]
    );

    let recall_like = collect_recall_like_bounds_with_spec(&rp, &wt, Bound::Recallable, spec);
    assert_eq!(
        recall_like,
        vec![
            Predicate::Direct(Target::Param(0), Bound::Recallable),
            Predicate::Memento(Target::Param(0), Bound::CommonTraits),
            Predicate::Direct(wrapper, Bound::Recallable),
            Predicate::Memento(wrapper, Bound::CommonTraits),
            Predicate::Memento(wrapper, Bound::DeserializeOwned),
        ]
    );
}

#[test]
fn bounds_memento_trait_spec_formats_derives_for_serde_modes() {
    let serde_derives = MementoTraitSpec::new(true, false).derive_attr();
    assert!(serde_derives.common);
    assert!(serde_derives.deserialize);
    let no_serde_derives = MementoTraitSpec::new(false, false).derive_attr();
    assert!(no_serde_derives.common);
    assert!(!no_serde_derives.deserialize);
}

#[test]
fn bounds_memento_trait_spec_derive_off_suppresses_common_traits() {
    let derive_off_serde = MementoTraitSpec::new(true, true).derive_attr();
    assert!(!derive_off_serde.common);
    assert!(derive_off_serde.deserialize);
    let derive_off_no_serde = MementoTraitSpec::new(false, true).derive_attr();
    assert!(!derive_off_no_serde.common && !derive_off_no_serde.deserialize);
}

#[test]
fn bounds_memento_trait_spec_derive_off_empties_common_bounds() {
    let spec = MementoTraitSpec::new(true, true);
    assert_eq!(spec.common_bound(), Bound::NoTraits);
    assert!(!spec.has_common_traits());
    assert_eq!(spec.serde_nested_bound(), Some(Bound::DeserializeOwned));
    assert_eq!(MementoTraitSpec::new(false, false).common_bound(), Bound::CommonTraits);
    assert_eq!(MementoTraitSpec::new(false, false).serde_nested_bound(), None);
}

#[test]
fn recallable_type_classifier_accepts_any_path_type() {
    let params = vec![type_param("T", vec![])];
    assert_eq!(classify_recallable_field_type(&ty_generic("Option", "T"), &params), Ok(None));
    assert_eq!(classify_recallable_field_type(&ty_name("T"), &params), Ok(Some(0)));
    assert_eq!(classify_recallable_field_type(&ty_array("N"), &params), Err(()));
}

#[test]
fn memento_generics_preserve_retained_bounds_defaults_and_where_clauses() {
    // struct Example<T: Clone = i32, U, const N: usize = 4>
    // where T: ::core::convert::From<U>, U: Copy, [u8; N]: Copy
    // { value: T, bytes: [u8; N], #[recallable(skip)] marker: ::core::marker::PhantomData<U> }
    let input = strukt(
        "Example",
        generics(
            vec![type_param("T", vec![tp("i32", true, false)]), type_param("U", vec![]), const_param("N")],
            Some(vec![
                WherePredModel { mentions: vec![tp("T", true, false), tp("U", true, true)] },
                WherePredModel { mentions: vec![tp("U", true, false)] },
                WherePredModel { mentions: vec![tp("u8", true, false), Mention::ExprPath("N".to_string())] },
            ]),
        ),
        Shape::Named,
        vec![
            field("value", ty_name("T"), vec![]),
            field("bytes", ty_array("N"), vec![]),
            field("marker", ty_phantom("U"), vec![recallable_skip()]),
        ],
    );
    let ir = ok_ir(analyze_item(&input));
    assert_eq!(ir.plan.retention, vec![Retention::Retained, Retention::Retained, Retention::Retained]);
    assert_eq!(ir.plan.kept_preds, Some(vec![0, 1, 2]));

    let memento = gen_memento_struct(&input, &ir, false);
    assert_eq!(memento.generics, vec![0, 1, 2]);
    assert_eq!(
        memento.where_clause,
        Some(vec![Predicate::Item(0), Predicate::Item(1), Predicate::Item(2)])
    );
    let recallable = gen_recallable_impl(&input, &ir, false);
    assert_eq!(recallable.memento_args, vec![0, 1, 2]);
}

#[test]
fn memento_where_clause_filters_predicates_for_dropped_params() {
    // struct Example<T, U> where T: Clone, U: Copy
    // { value: T, #[recallable(skip)] marker: ::core::marker::PhantomData<U> }
    let input = strukt(
        "Example",
        generics(
            vec![type_param("T", vec![]), type_param("U", vec![])],
            Some(vec![
                WherePredModel { mentions: vec![tp("T", true, false)] },
                WherePredModel { mentions: vec![tp("U", true, false)] },
            ]),
        ),
        Shape::Named,
        vec![field("value", ty_name("T"), vec![]), field("marker", ty_phantom("U"), vec![recallable_skip()])],
    );
    let ir = ok_ir(analyze_item(&input));
    assert_eq!(ir.plan.retention, vec![Retention::Retained, Retention::Dropped]);
    let memento =
        gen_memento_struct(&input, &ir, false);
    assert_eq!(memento.generics, vec![0]);
    assert_eq!(memento.where_clause, Some(vec![Predicate::Item(0)]));
    let recallable = gen_recallable_impl(&input, &ir, false);
    assert_eq!(recallable.memento_args, vec![0]);
}

#[test]
fn struct_level_unknown_recallable_parameter_is_rejected() {
    let attrs = vec![attr_list("recallable", vec![word("unknown")])];
    let error = has_skip_memento_default_derives(&attrs);
    assert_eq!(
        error,
        Err(Diagnostic { kind: ErrorKind::UnrecognizedRecallableParam, site: Site::ItemAttr { attr: 0 } })
    );
    assert_eq!(ErrorKind::UnrecognizedRecallableParam.message(), "unrecognized `recallable` parameter");
}

#[test]
fn phantom_data_detection_accepts_common_path_variants() {
    let phantom = |leading: bool, prefix: &[&str]| {
        let mut segs: Vec<(&str, bool)> = prefix.iter().map(|s| (*s, false)).collect();
        segs.push(("PhantomData", true));
        TypeModel {
            text: String::new(),
            kind: TypeKind::Path { qself: false, path: path(leading, &segs) },
            mentions: vec![],
        }
    };
    assert!(is_phantom_data(&phantom(false, &[])));
    assert!(is_phantom_data(&phantom(false, &["marker"])));
    assert!(is_phantom_data(&phantom(false, &["core", "marker"])));
    assert!(is_phantom_data(&phantom(true, &["core", "marker"])));
    assert!(is_phantom_data(&phantom(false, &["std", "marker"])));
    assert!(is_phantom_data(&phantom(true, &["std", "marker"])));
}

#[test]
fn borrowed_field_validation_rejects_non_skipped_borrows() {
    // struct Example<'a> { value: &'a str, #[recallable(skip)] skipped: &'a str,
    //                      marker: ::core::marker::PhantomData<&'a ()> }
    let params = vec![lifetime_param("a")];
    let marker = TypeModel {
        text: ":: core :: marker :: PhantomData < & 'a () >".to_string(),
        kind: TypeKind::Path {
            qself: false,
            path: path(true, &[("core", false), ("marker", false), ("PhantomData", true)]),
        },
        mentions: vec![tp("core", false, false), Mention::Lifetime("a".to_string())],
    };
    let fields = vec![
        field("value", ty_ref("a"), vec![]),
        field("skipped", ty_ref("a"), vec![recallable_skip()]),
        field("marker", marker, vec![]),
    ];
    let errors = validate_no_borrowed_fields(&fields, &params, None);
    assert_eq!(
        errors,
        vec![Diagnostic { kind: ErrorKind::BorrowedField, site: Site::FieldType { variant: None, field: 0 } }]
    );
    assert!(errors[0].kind.message().contains("Recall derives do not support borrowed fields"));
}

#[test]
fn unit_structs_never_need_synthetic_markers() {
    // struct Example<'a, T: From<U>, U, const N: usize>;
    let input = strukt(
        "Example",
        generics(
            vec![
                lifetime_param("a"),
                type_param("T", vec![tp("U", true, true)]),
                type_param("U", vec![]),
                const_param("N"),
            ],
            None,
        ),
        Shape::Unit,
        vec![],
    );
    let ir = ok_ir(analyze_item(&input));
    assert_eq!(ir.kind, ItemKind::Struct(Shape::Unit));
    assert!(ir.markers.is_empty());
    let memento = gen_memento_struct(&input, &ir, false);
    assert_eq!(memento.shape, Shape::Unit);
    assert!(!memento.marker);
}

#[test]
fn helper_name_and_manual_only_guidance_helper_name() {
    let input = enm(
        "Example",
        generics(vec![], None),
        vec![VariantModel {
            name: "Value".to_string(),
            shape: Shape::Unnamed,
            fields: vec![tuple_field(ty_name("u32"), vec![])],
        }],
    );
    let ir = ok_ir(analyze_item(&input));
    let plan = gen_recallable_impl(&input, &ir, false);
    let restore = plan.restore.expect("an assignment-only enum is rebuilt by the restore helper");
    assert_eq!(restore.arms.len(), 1);
    assert_eq!(restore.arms[0].bindings, vec![0]);
}

#[test]
fn stored_fields_get_consecutive_memento_indices() {
    let input = strukt(
        "Pair",
        generics(vec![], None),
        Shape::Unnamed,
        vec![
            tuple_field(ty_name("u8"), vec![recallable_skip()]),
            tuple_field(ty_name("u16"), vec![]),
            tuple_field(ty_name("Inner"), vec![recallable()]),
        ],
    );
    let ir = ok_ir(analyze_item(&input));
    assert_eq!(
        ir.groups[0],
        vec![
            FieldIr { strategy: FieldStrategy::Skip, memento_index: None },
            FieldIr { strategy: FieldStrategy::StoreAsSelf, memento_index: Some(0) },
            FieldIr { strategy: FieldStrategy::StoreAsMemento, memento_index: Some(1) },
        ]
    );
    assert!(FieldStrategy::Skip.is_skip());
    assert!(!FieldStrategy::StoreAsSelf.is_skip());
}

#[test]
fn conflicting_field_attributes_are_rejected() {
    let input = strukt(
        "Example",
        generics(vec![], None),
        Shape::Named,
        vec![field("value", ty_name("u32"), vec![recallable(), recallable_skip()])],
    );
    let errors = err_of(analyze_item(&input));
    assert_eq!(errors.len(), 1);
    assert_eq!(errors[0].kind, ErrorKind::ConflictingRecallableAttrs);
}

#[test]
fn recallable_field_must_have_a_path_type() {
    let input = strukt(
        "Example",
        generics(vec![], None),
        Shape::Named,
        vec![field("bytes", ty_array("4"), vec![recallable()])],
    );
    let errors = err_of(analyze_item(&input));
    assert_eq!(
        errors,
        vec![Diagnostic { kind: ErrorKind::OnlyPathTypes, site: Site::FieldType { variant: None, field: 0 } }]
    );
}

#[test]
fn skip_on_the_item_is_rejected() {
    let mut input = strukt("Example", generics(vec![], None), Shape::Unit, vec![]);
    input.attrs = vec![recallable_skip()];
    let errors = err_of(analyze_item(&input));
    assert_eq!(errors, vec![Diagnostic { kind: ErrorKind::SkipIsFieldLevel, site: Site::ItemAttr { attr: 0 } }]);
}

#[test]
fn skip_memento_default_derives_switches_off_common_derives() {
    let mut input = strukt(
        "Example",
        generics(vec![], None),
        Shape::Named,
        vec![field("value", ty_name("u32"), vec![])],
    );
    input.attrs = vec![attr_list("recallable", vec![word("skip_memento_default_derives")])];
    let ir = ok_ir(analyze_item(&input));
    assert!(ir.skip_default_derives);
    let memento = gen_memento_struct(&input, &ir, true);
    assert!(!memento.derives.common);
    assert!(memento.derives.deserialize);
}

#[test]
fn derive_recall_plans_one_statement_per_stored_field() {
    let input = strukt(
        "Example",
        generics(vec![type_param("T", vec![])], None),
        Shape::Named,
        vec![
            field("level", ty_name("u8"), vec![]),
            field("nested", ty_name("T"), vec![recallable()]),
            field("skipped", ty_name("u8"), vec![recallable_skip()]),
        ],
    );
    match derive_recall(&input, true) {
        Ok((_, recallable_macro::derive::RecallPlan::Struct(plan))) => {
            assert!(plan.uses_memento);
            assert_eq!(plan.statements.len(), 2);
            assert_eq!(plan.statements[0].field, 0);
            assert!(!plan.statements[0].nested);
            assert_eq!(plan.statements[1].field, 1);
            assert!(plan.statements[1].nested);
            assert_eq!(
                plan.where_clause,
                Some(vec![
                    Predicate::Direct(Target::Param(0), Bound::Recall),
                    Predicate::Memento(Target::Param(0), Bound::CommonTraits),
                ])
            );
        }
        _ => panic!("expected a struct recall plan"),
    }
}

#[test]
fn derive_recall_rejects_enums_with_nested_fields() {
    let input = enm(
        "Example",
        generics(vec![], None),
        vec![
            VariantModel { name: "Empty".to_string(), shape: Shape::Unit, fields: vec![] },
            VariantModel {
                name: "Value".to_string(),
                shape: Shape::Named,
                fields: vec![field("a", ty_name("u8"), vec![]), field("b", ty_name("Inner"), vec![recallable()])],
            },
        ],
    );
    let errors = err_of(derive_recall(&input, false));
    assert_eq!(
        errors,
        vec![Diagnostic { kind: ErrorKind::EnumRecallManualOnly, site: Site::Field { variant: Some(1), field: 1 } }]
    );
    // The same enum can still derive `Recallable`.
    assert!(derive_recallable(&input, false, true).is_ok());
}

#[test]
fn recall_reads_each_member_that_from_writes() {
    // struct Example<T>(u8, #[recallable(skip)] u16, #[recallable] T);
    let input = strukt(
        "Example",
        generics(vec![type_param("T", vec![])], None),
        Shape::Unnamed,
        vec![
            tuple_field(ty_name("u8"), vec![]),
            tuple_field(ty_name("u16"), vec![recallable_skip()]),
            tuple_field(ty_name("T"), vec![recallable()]),
        ],
    );
    let derived = match derive_recallable(&input, false, true) {
        Ok(d) => d,
        Err(es) => panic!("unexpected {:?}", es),
    };
    let from = match derived.from {
        Some(recallable_macro::derive::FromPlan::Struct(p)) => p,
        _ => panic!("expected a struct From plan"),
    };
    let recall = match derive_recall(&input, false) {
        Ok((_, recallable_macro::derive::RecallPlan::Struct(p))) => p,
        _ => panic!("expected a struct recall plan"),
    };
    let fields_written: Vec<(usize, bool)> = from.inits.iter().map(|i| (i.field, i.nested)).collect();
    let fields_read: Vec<(usize, bool)> = recall.statements.iter().map(|s| (s.field, s.nested)).collect();
    assert_eq!(fields_written, vec![(0, false), (2, true)]);
    assert_eq!(fields_read, fields_written);
    assert_eq!(recall.statements[0].from, recallable_macro::impls::MementoMember::Index(0));
    assert_eq!(recall.statements[1].from, recallable_macro::impls::MementoMember::Index(1));
}

#[test]
fn enum_restore_rebuilds_what_from_stored() {
    // enum Example<T> { A(u8, #[recallable(skip)] ::core::marker::PhantomData<T>), B { x: u16 } }
    let input = enm(
        "Example",
        generics(vec![type_param("T", vec![])], None),
        vec![
            VariantModel {
                name: "A".to_string(),
                shape: Shape::Unnamed,
                fields: vec![
                    tuple_field(ty_name("u8"), vec![]),
                    tuple_field(ty_phantom("T"), vec![recallable_skip()]),
                ],
            },
            VariantModel { name: "B".to_string(), shape: Shape::Named, fields: vec![field("x", ty_name("u16"), vec![])] },
        ],
    );
    let derived = match derive_recallable(&input, false, true) {
        Ok(d) => d,
        Err(es) => panic!("unexpected {:?}", es),
    };
    let restore = derived.recallable.restore.expect("restore helper");
    assert_eq!(restore.arms.len(), 2);
    assert_eq!(restore.arms[0].bindings, vec![0]);
    assert_eq!(
        restore.arms[0].values,
        vec![recallable_macro::impls::RestoreValue::Binding(0), recallable_macro::impls::RestoreValue::Phantom]
    );
    assert_eq!(restore.arms[1].values, vec![recallable_macro::impls::RestoreValue::Binding(0)]);
    // `T` is named only by a skipped field: the memento drops it and needs no marker.
    assert!(!restore.marker_arm);
    assert_eq!(derived.ir.plan.retention, vec![Retention::Dropped]);
    match derived.from {
        Some(recallable_macro::derive::FromPlan::Enum(p)) => {
            assert_eq!(p.arms[0].inits.iter().map(|i| i.field).collect::<Vec<_>>(), vec![0]);
            assert!(p.arms[0].inits.iter().all(|i| !i.nested));
        }
        _ => panic!("expected an enum From plan"),
    }
}

#[test]
fn derive_field_attributes_do_not_take_serde_names() {
    let rename = NestedMeta::Item { path: path(false, &[("rename", false)]), value: NestedValue::Str("x".to_string()) };
    let input = strukt(
        "Example",
        generics(vec![], None),
        Shape::Named,
        vec![field("value", ty_name("u32"), vec![attr_list("recallable", vec![rename])])],
    );
    let errors = err_of(analyze_item(&input));
    assert_eq!(
        errors,
        vec![Diagnostic {
            kind: ErrorKind::UnrecognizedRecallableParam,
            site: Site::FieldAttr { variant: None, field: 0, attr: 0 },
        }]
    );
}

#[test]
fn malformed_field_attributes_are_syntax_errors() {
    let with_value = NestedMeta::Item { path: path(false, &[("skip", false)]), value: NestedValue::Other };
    let input = strukt(
        "Example",
        generics(vec![], None),
        Shape::Named,
        vec![
            field("first", ty_name("u8"), vec![attr_list("recallable", vec![with_value])]),
            field("second", ty_name("u8"), vec![attr_list("recallable", vec![NestedMeta::Malformed(Malformation::Literal)])]),
        ],
    );
    let errors = err_of(analyze_item(&input));
    assert_eq!(
        errors,
        vec![Diagnostic { kind: ErrorKind::ExpectedComma, site: Site::FieldAttr { variant: None, field: 0, attr: 0 } }]
    );
    assert_eq!(ErrorKind::ExpectedComma.message(), "expected `,`");
}

fn field_attr_error(items: Vec<NestedMeta>) -> ErrorKind {
    let input = strukt(
        "Example",
        generics(vec![], None),
        Shape::Named,
        vec![field("value", ty_name("u8"), vec![attr_list("recallable", items)])],
    );
    err_of(analyze_item(&input))[0].kind
}

#[test]
fn each_malformed_list_gets_its_own_message() {
    assert_eq!(field_attr_error(vec![NestedMeta::Malformed(Malformation::Empty)]), ErrorKind::ExpectedNestedAttribute);
    assert_eq!(ErrorKind::ExpectedNestedAttribute.message(), "expected nested attribute");
    assert_eq!(field_attr_error(vec![NestedMeta::Malformed(Malformation::Literal)]), ErrorKind::UnexpectedLiteral);
    assert_eq!(
        ErrorKind::UnexpectedLiteral.message(),
        "unexpected literal in nested attribute, expected ident"
    );
    assert_eq!(field_attr_error(vec![NestedMeta::Malformed(Malformation::Token)]), ErrorKind::UnexpectedToken);
    assert_eq!(ErrorKind::UnexpectedToken.message(), "unexpected token in nested attribute, expected ident");
    assert_eq!(
        field_attr_error(vec![word("skip"), NestedMeta::Malformed(Malformation::MissingComma)]),
        ErrorKind::ExpectedComma
    );
}

#[test]
fn item_level_recallable_needs_an_argument_list() {
    let mut input = strukt("Example", generics(vec![], None), Shape::Unit, vec![]);
    input.attrs = vec![recallable()];
    let errors = err_of(analyze_item(&input));
    assert_eq!(errors, vec![Diagnostic { kind: ErrorKind::RecallableNeedsArgs, site: Site::ItemAttr { attr: 0 } }]);
    assert_eq!(errors[0].kind.message(), "expected attribute arguments in parentheses: #[recallable(...)]");
    input.attrs = vec![AttrModel { path: path(false, &[("recallable", false)]), meta: MetaModel::NameValue, cfg: CfgArgs::NotCfg }];
    let errors = err_of(analyze_item(&input));
    assert_eq!(errors[0].kind, ErrorKind::RecallableNeedsParens);
    assert_eq!(errors[0].kind.message(), "expected parentheses: #[recallable(...)]");
}

#[test]
fn parameters_kept_only_through_bounds_get_a_marker() {
    // struct Example<T: AsRef<[u8; N]>, const N: usize> { value: T }
    let input = strukt(
        "Example",
        generics(
            vec![
                type_param("T", vec![tp("u8", true, true), Mention::ExprPath("N".to_string())]),
                const_param("N"),
            ],
            None,
        ),
        Shape::Named,
        vec![field("value", ty_name("T"), vec![])],
    );
    let ir = ok_ir(analyze_item(&input));
    assert_eq!(ir.plan.retention, vec![Retention::Retained, Retention::Retained]);
    assert_eq!(ir.markers, vec![1]);
    let memento = gen_memento_struct(&input, &ir, true);
    assert_eq!(memento.generics, vec![0, 1]);
    assert!(memento.marker);
    assert!(memento.marker_serde_skip);
    assert_eq!(memento.const_helpers, vec![1]);
    assert_eq!(memento.where_clause, None);
}

#[test]
fn generated_memento_visibility_matches_companion_struct() {
    let mut restricted = strukt("Example", generics(vec![], None), Shape::Named, vec![field("value", ty_name("u32"), vec![])]);
    restricted.vis = Visibility::Restricted("pub (crate)".to_string());
    let ir = ok_ir(analyze_item(&restricted));
    let memento = gen_memento_struct(&restricted, &ir, true);
    assert!(matches!(&memento.vis, Visibility::Restricted(t) if t == "pub (crate)"));

    let private = strukt("PrivateExample", generics(vec![], None), Shape::Named, vec![field("value", ty_name("u32"), vec![])]);
    let ir = ok_ir(analyze_item(&private));
    let memento = gen_memento_struct(&private, &ir, true);
    assert!(matches!(memento.vis, Visibility::Inherited));

    let public = enm(
        "Choice",
        generics(vec![], None),
        vec![VariantModel { name: "One".to_string(), shape: Shape::Unit, fields: vec![] }],
    );
    let mut public = public;
    public.vis = Visibility::Public;
    match derive_recallable(&public, false, false) {
        Ok(d) => match d.memento {
            MementoPlan::Enum(p) => assert!(matches!(p.vis, Visibility::Public)),
            _ => panic!("expected an enum memento"),
        },
        Err(es) => panic!("unexpected {:?}", es),
    }
}

#[test]
fn serde_attributes_are_not_forwarded_to_the_memento() {
    // struct S { #[serde(rename = "wire")] value: u32 }
    let rename = NestedMeta::Item { path: path(false, &[("rename", false)]), value: NestedValue::Str("wire".to_string()) };
    let input = strukt(
        "S",
        generics(vec![], None),
        Shape::Named,
        vec![field("value", ty_name("u32"), vec![attr_list("serde", vec![rename])])],
    );
    match derive_recallable(&input, true, false) {
        Ok(d) => match d.memento {
            MementoPlan::Struct(p) => {
                assert_eq!(
                    p.fields,
                    vec![recallable_macro::memento::StoredField {
                        field: 0,
                        ty: recallable_macro::memento::MementoFieldTy::Same,
                    }]
                );
            }
            _ => panic!("expected a struct memento"),
        },
        Err(es) => panic!("unexpected {:?}", es),
    }
}

#[test]
fn crate_path_follows_the_dependency_name() {
    assert_eq!(crate_path_name(&CrateLookup::Itself), "recallable");
    assert_eq!(crate_path_name(&CrateLookup::Failed), "recallable");
    assert_eq!(crate_path_name(&CrateLookup::Renamed("my_recallable".to_string())), "my_recallable");
}
