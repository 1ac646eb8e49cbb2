use derive_core::diagnostic::Diagnostic;
use derive_core::plan::{
    classify, plan_builder, BuilderSpec, FieldPlan, FinalizeExpression, InitValue, MutationKind,
    SetterSpec,
};
use derive_core::schema::{
    Annotation, MemberDescriptor, RecordSchema, SourceLocation, TypeExpression,
};

fn named(head: &str) -> TypeExpression {
    TypeExpression::Generic {
        qualifier: String::new(),
        head: head.to_string(),
        arguments: Vec::new(),
    }
}

fn wrapped(head: &str, inner: TypeExpression) -> TypeExpression {
    TypeExpression::Generic {
        qualifier: String::new(),
        head: head.to_string(),
        arguments: vec![inner],
    }
}

fn each(value: &str, line: usize) -> Annotation {
    Annotation {
        key: "each".to_string(),
        value: value.to_string(),
        location: SourceLocation { line, column: 5 },
    }
}

fn member(name: &str, ty: TypeExpression, annotations: Vec<Annotation>) -> MemberDescriptor {
    MemberDescriptor {
        name: name.to_string(),
        declared_type: ty,
        annotations,
        location: SourceLocation { line: 1, column: 1 },
    }
}

fn setter(name: &str, parameter: TypeExpression, kind: MutationKind) -> Vec<SetterSpec> {
    vec![SetterSpec {
        exposed_name: name.to_string(),
        parameter_type: parameter,
        mutation_kind: kind,
    }]
}

#[test]
fn optional_member_is_stored_as_it_is() {
    let ty = wrapped("Option", named("String"));
    let plan = classify(&member("current_dir", ty.clone(), vec![])).unwrap();
    assert_eq!(
        plan,
        FieldPlan {
            name: "current_dir".to_string(),
            builder_storage_type: ty,
            init_value: InitValue::Absent,
            setters: setter("current_dir", named("String"), MutationKind::Replace),
            required: false,
            finalize_expression: FinalizeExpression::Copy,
        }
    );
}

#[test]
fn optional_member_ignores_each() {
    let ty = wrapped("Option", named("String"));
    let plain = classify(&member("dir", ty.clone(), vec![])).unwrap();
    let annotated = classify(&member("dir", ty, vec![each("d", 3)])).unwrap();
    assert_eq!(annotated, plain);
}

#[test]
fn sequence_member_with_each_appends_under_the_given_name() {
    let ty = wrapped("Vec", named("String"));
    let plan = classify(&member("args", ty.clone(), vec![each("arg", 3)])).unwrap();
    assert_eq!(
        plan,
        FieldPlan {
            name: "args".to_string(),
            builder_storage_type: ty,
            init_value: InitValue::Empty,
            setters: setter("arg", named("String"), MutationKind::Append),
            required: false,
            finalize_expression: FinalizeExpression::Copy,
        }
    );
}

#[test]
fn sequence_member_with_each_of_its_own_name_has_one_setter() {
    let ty = wrapped("Vec", named("String"));
    let plan = classify(&member("env", ty, vec![each("env", 3)])).unwrap();
    assert_eq!(plan.setters, setter("env", named("String"), MutationKind::Append));
    assert_eq!(plan.setters.len(), 1);
}

#[test]
fn sequence_member_without_each_takes_the_whole_sequence() {
    let ty = wrapped("Vec", named("String"));
    let plan = classify(&member("args", ty.clone(), vec![])).unwrap();
    assert_eq!(
        plan,
        FieldPlan {
            name: "args".to_string(),
            builder_storage_type: ty.clone(),
            init_value: InitValue::Empty,
            setters: setter("args", ty, MutationKind::Replace),
            required: false,
            finalize_expression: FinalizeExpression::Copy,
        }
    );
}

#[test]
fn plain_member_is_required_and_stored_in_an_option() {
    let plan = classify(&member("executable", named("String"), vec![])).unwrap();
    assert_eq!(
        plan,
        FieldPlan {
            name: "executable".to_string(),
            builder_storage_type: wrapped("Option", named("String")),
            init_value: InitValue::Absent,
            setters: setter("executable", named("String"), MutationKind::Replace),
            required: true,
            finalize_expression: FinalizeExpression::Unwrap,
        }
    );
}

#[test]
fn verbatim_member_is_plain() {
    let ty = TypeExpression::Verbatim { text: "[u8; 4]".to_string() };
    let plan = classify(&member("raw", ty.clone(), vec![])).unwrap();
    assert!(plan.required);
    assert_eq!(plan.builder_storage_type, wrapped("Option", ty.clone()));
    assert_eq!(plan.setters, setter("raw", ty, MutationKind::Replace));
}

#[test]
fn only_plain_members_are_required() {
    let cases = [
        (named("u32"), true),
        (wrapped("Box", named("u32")), true),
        (wrapped("Option", named("u32")), false),
        (wrapped("Vec", named("u32")), false),
    ];
    for (ty, required) in cases {
        assert_eq!(classify(&member("m", ty, vec![])).unwrap().required, required);
    }
}

#[test]
fn malformed_annotation_stops_classification() {
    let group = Annotation {
        key: "group".to_string(),
        value: "x".to_string(),
        location: SourceLocation { line: 8, column: 5 },
    };
    let at = SourceLocation { line: 8, column: 5 };
    for ty in [
        named("String"),
        wrapped("Option", named("String")),
        wrapped("Vec", named("String")),
    ] {
        assert_eq!(
            classify(&member("m", ty, vec![group.clone()])),
            Err(Diagnostic::malformed_annotation(at))
        );
    }
}

#[test]
fn record_is_planned_member_by_member() {
    let schema = RecordSchema {
        name: "Command".to_string(),
        members: vec![
            member("executable", named("String"), vec![]),
            member("args", wrapped("Vec", named("String")), vec![each("arg", 4)]),
        ],
        location: SourceLocation { line: 1, column: 1 },
    };
    let spec = plan_builder(&schema).unwrap();
    assert_eq!(
        spec,
        BuilderSpec {
            record_name: "Command".to_string(),
            plans: vec![
                classify(&schema.members[0]).unwrap(),
                classify(&schema.members[1]).unwrap(),
            ],
        }
    );
}

#[test]
fn record_without_members_has_no_plans() {
    let schema = RecordSchema {
        name: "Unit".to_string(),
        members: vec![],
        location: SourceLocation { line: 1, column: 1 },
    };
    assert_eq!(
        plan_builder(&schema),
        Ok(BuilderSpec { record_name: "Unit".to_string(), plans: vec![] })
    );
}
