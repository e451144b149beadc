use dessin::derive::{
    legacy_fields_accepted, plan_shape, plan_shape_legacy, ArgPos, FieldAttr, FieldError, FieldOutcome, FieldSpec,
    SetterKind,
};

fn field(name: &str, attrs: Vec<FieldAttr>, has_inner_type: bool) -> FieldSpec {
    FieldSpec { name: name.to_string(), attrs, has_inner_type }
}

fn shape(args: &[&str]) -> FieldAttr {
    FieldAttr::Shape(Some(args.iter().map(|s| s.to_string()).collect()))
}

fn setters(o: &FieldOutcome) -> (SetterKind, String, String, Option<(SetterKind, String, String)>) {
    match o {
        FieldOutcome::Generated { setters, maybe, .. } => (
            setters.kind,
            setters.name.clone(),
            setters.with_name.clone(),
            maybe.as_ref().map(|m| (m.kind, m.name.clone(), m.with_name.clone())),
        ),
        other => panic!("expected setters, got {:?}", other),
    }
}

#[test]
fn documented_fields() {
    let fields = vec![
        field("my_parameter", vec![], false),
        field("my_bool", vec![shape(&["bool"])], false),
        field("skip_this", vec![shape(&["skip"])], true),
        field("skip_option", vec![shape(&["some"])], true),
        field("or_not", vec![], true),
        field("or_both", vec![shape(&["some", "option_fn"])], true),
        field("into_string", vec![shape(&["into"])], false),
        field("maybe_into_string", vec![shape(&["into", "some"])], true),
    ];
    let plan = plan_shape(&fields);
    assert_eq!(plan.fields.len(), 8);
    assert_eq!(plan.local_transform, None);
    assert_eq!(
        setters(&plan.fields[0]),
        (SetterKind::Plain, "my_parameter".into(), "with_my_parameter".into(), None)
    );
    assert_eq!(setters(&plan.fields[1]), (SetterKind::Flag, "my_bool".into(), "with_my_bool".into(), None));
    assert_eq!(plan.fields[2], FieldOutcome::Omitted);
    assert_eq!(
        setters(&plan.fields[3]),
        (SetterKind::SetSome, "skip_option".into(), "with_skip_option".into(), None)
    );
    assert_eq!(setters(&plan.fields[4]), (SetterKind::Plain, "or_not".into(), "with_or_not".into(), None));
    assert_eq!(
        setters(&plan.fields[5]),
        (
            SetterKind::SetSome,
            "or_both".into(),
            "with_or_both".into(),
            Some((SetterKind::MaybePlain, "maybe_or_both".into(), "with_maybe_or_both".into()))
        )
    );
    assert_eq!(setters(&plan.fields[6]), (SetterKind::Into, "into_string".into(), "with_into_string".into(), None));
    assert_eq!(
        setters(&plan.fields[7]),
        (SetterKind::IntoSome, "maybe_into_string".into(), "with_maybe_into_string".into(), None)
    );
}

#[test]
fn local_transform_taken_once() {
    let fields = vec![
        field("a", vec![], false),
        field("local_transform", vec![FieldAttr::LocalTransform, shape(&["nonsense"])], false),
        field("other", vec![FieldAttr::Doc, FieldAttr::LocalTransform], false),
    ];
    let plan = plan_shape(&fields);
    assert_eq!(plan.local_transform, Some(1));
    assert_eq!(plan.fields[1], FieldOutcome::Omitted);
    assert_eq!(plan.fields[2], FieldOutcome::Failed(FieldError::DuplicateLocalTransform { first_field: 1 }));
}

#[test]
fn errors() {
    let fields = vec![
        field("malformed", vec![FieldAttr::Doc, FieldAttr::Shape(None)], true),
        field("unknown", vec![shape(&["into", "weird", "other"])], true),
        field("skip_and_into", vec![shape(&["skip"]), shape(&["into"])], true),
        field("bool_and_some", vec![shape(&["some", "bool"])], true),
        field("some_plain_type", vec![FieldAttr::Other, shape(&["some"])], false),
        field("into_option_fn_plain_type", vec![shape(&["option_fn", "into"])], false),
    ];
    let plan = plan_shape(&fields);
    assert_eq!(plan.fields[0], FieldOutcome::Failed(FieldError::MalformedShapeArgs { attr: 1 }));
    assert_eq!(plan.fields[1], FieldOutcome::Failed(FieldError::UnknownArg { pos: ArgPos { attr: 0, arg: 1 } }));
    assert_eq!(plan.fields[2], FieldOutcome::Failed(FieldError::SkipWithOthers { skip: ArgPos { attr: 0, arg: 0 } }));
    assert_eq!(
        plan.fields[3],
        FieldOutcome::Failed(FieldError::BoolWithIntoOrSome { bool_pos: ArgPos { attr: 0, arg: 1 } })
    );
    assert_eq!(plan.fields[4], FieldOutcome::Failed(FieldError::NotSupported { pos: ArgPos { attr: 1, arg: 0 } }));
    assert_eq!(plan.fields[5], FieldOutcome::Failed(FieldError::NotSupported { pos: ArgPos { attr: 0, arg: 0 } }));
}

#[test]
fn option_fn_with_into() {
    let fields = vec![field("font", vec![shape(&["into", "some", "option_fn"])], true)];
    let plan = plan_shape(&fields);
    assert_eq!(
        setters(&plan.fields[0]),
        (
            SetterKind::IntoSome,
            "font".into(),
            "with_font".into(),
            Some((SetterKind::MaybeInto, "maybe_font".into(), "with_maybe_font".into()))
        )
    );
}

#[test]
fn doc_comment_kept() {
    let fields = vec![field("x", vec![FieldAttr::Doc, FieldAttr::Other, FieldAttr::Doc], false)];
    let plan = plan_shape(&fields);
    match &plan.fields[0] {
        FieldOutcome::Generated { doc, .. } => assert_eq!(*doc, Some(2)),
        other => panic!("{:?}", other),
    }
}

#[test]
fn legacy_plan() {
    let fields = vec![
        field("local_transform", vec![FieldAttr::LocalTransform], false),
        field("closed", vec![shape(&["bool"])], false),
        field("text", vec![shape(&["into", "unknown_is_ignored"])], false),
        field("hidden", vec![shape(&["skip", "into"])], false),
        field("plain", vec![], false),
    ];
    assert!(legacy_fields_accepted(&fields));
    let plan = plan_shape_legacy(&fields);
    assert_eq!(plan.local_transform, Some(0));
    assert_eq!(plan.fields[0], FieldOutcome::Omitted);
    assert_eq!(setters(&plan.fields[1]), (SetterKind::Flag, "closed".into(), "with_closed".into(), None));
    assert_eq!(setters(&plan.fields[2]), (SetterKind::Into, "text".into(), "with_text".into(), None));
    assert_eq!(plan.fields[3], FieldOutcome::Omitted);
    assert_eq!(setters(&plan.fields[4]), (SetterKind::Plain, "plain".into(), "with_plain".into(), None));
}

#[test]
fn legacy_rejects() {
    let two_transforms = vec![
        field("a", vec![FieldAttr::LocalTransform], false),
        field("b", vec![FieldAttr::LocalTransform], false),
    ];
    assert!(!legacy_fields_accepted(&two_transforms));
    let malformed = vec![field("a", vec![FieldAttr::Shape(None)], false)];
    assert!(!legacy_fields_accepted(&malformed));
}
