use derive_core::builder::{self, GeneratedDeclarationSet};
use derive_core::plan::{FinalizeExpression, InitValue};
use derive_core::runtime::{Argument, Builder, FieldValue, MissingField};
use derive_core::schema::{
    Annotation, MemberDescriptor, RecordSchema, SourceLocation, TypeExpression,
};

fn named(head: &str) -> TypeExpression {
    TypeExpression::Generic {
        qualifier: String::new(),
        head: head.to_string(),
        arguments: Vec::new(),
    }
}

fn wrapped(head: &str, inner: TypeExpression) -> TypeExpression {
    TypeExpression::Generic {
        qualifier: String::new(),
        head: head.to_string(),
        arguments: vec![inner],
    }
}

fn each(value: &str) -> Vec<Annotation> {
    vec![Annotation {
        key: "each".to_string(),
        value: value.to_string(),
        location: SourceLocation { line: 2, column: 5 },
    }]
}

fn member(name: &str, ty: TypeExpression, annotations: Vec<Annotation>) -> MemberDescriptor {
    MemberDescriptor {
        name: name.to_string(),
        declared_type: ty,
        annotations,
        location: SourceLocation { line: 1, column: 1 },
    }
}

fn record(name: &str, members: Vec<MemberDescriptor>) -> RecordSchema {
    RecordSchema {
        name: name.to_string(),
        members,
        location: SourceLocation { line: 1, column: 1 },
    }
}

fn command() -> GeneratedDeclarationSet {
    builder::derive(&record(
        "Command",
        vec![
            member("executable", named("String"), vec![]),
            member("args", wrapped("Vec", named("String")), each("arg")),
            member("env", wrapped("Vec", named("String")), each("env")),
            member("current_dir", wrapped("Option", named("String")), vec![]),
            member("flags", wrapped("Vec", named("String")), vec![]),
        ],
    ))
    .unwrap()
}

/// Calls a setter and says whether the builder took the call.
fn put<V>(b: &mut Builder<V>, setter: usize, argument: Argument<V>) -> bool {
    let taken = b.takes(setter, &argument);
    b.call(setter, argument);
    taken
}

fn missing(member: &str) -> MissingField {
    MissingField { member: member.to_string() }
}

#[test]
fn first_unset_member_is_reported_for_every_subset() {
    let names = ["alpha", "beta", "gamma", "delta"];
    let members = names.iter().map(|n| member(n, named("u32"), vec![])).collect();
    let g = builder::derive(&record("Four", members)).unwrap();
    // Every choice of members to set, given as a bit mask.
    for set in 0u32..16 {
        let mut b: Builder<u32> = Builder::new(&g).unwrap();
        // Set them in reverse declaration order: the order of the calls is
        // not what decides.
        for i in (0..4).rev() {
            if set & (1 << i) != 0 {
                assert!(put(&mut b, i, Argument::One(10 + i as u32)));
            }
        }
        let first_unset = (0..4).find(|i| set & (1 << i) == 0);
        match first_unset {
            Some(i) => assert_eq!(b.build(), Err(missing(names[i]))),
            None => assert_eq!(
                b.build(),
                Ok(vec![
                    FieldValue::Required(10),
                    FieldValue::Required(11),
                    FieldValue::Required(12),
                    FieldValue::Required(13),
                ])
            ),
        }
    }
}

#[test]
fn fresh_builder_misses_its_first_member() {
    let g = command();
    let b: Builder<String> = Builder::new(&g).unwrap();
    let e = b.build().unwrap_err();
    assert_eq!(e, missing("executable"));
    assert_eq!(e.message(), "executable field is missing!");
}

#[test]
fn optional_member_may_stay_unset() {
    let g = command();
    let mut b: Builder<String> = Builder::new(&g).unwrap();
    assert!(put(&mut b, 0, Argument::One("cargo".to_string())));
    let built = b.build().unwrap();
    assert_eq!(built[3], FieldValue::Optional(None));
    assert_eq!(
        built,
        vec![
            FieldValue::Required("cargo".to_string()),
            FieldValue::Sequence(vec![]),
            FieldValue::Sequence(vec![]),
            FieldValue::Optional(None),
            FieldValue::Sequence(vec![]),
        ]
    );
}

#[test]
fn record_of_optional_members_needs_no_call() {
    let g = builder::derive(&record(
        "Loose",
        vec![
            member("a", wrapped("Option", named("u8")), vec![]),
            member("b", wrapped("Vec", named("u8")), vec![]),
            member("c", wrapped("Vec", named("u8")), each("one")),
        ],
    ))
    .unwrap();
    let b: Builder<u8> = Builder::new(&g).unwrap();
    assert_eq!(
        b.build(),
        Ok(vec![
            FieldValue::Optional(None),
            FieldValue::Sequence(vec![]),
            FieldValue::Sequence(vec![]),
        ])
    );
}

#[test]
fn each_setter_collects_values_in_call_order() {
    let g = command();
    let arg = g.setter_named("arg").unwrap();
    for n in 0..6usize {
        let mut b: Builder<String> = Builder::new(&g).unwrap();
        assert!(put(&mut b, 0, Argument::One("cargo".to_string())));
        let mut wanted = Vec::new();
        for k in 0..n {
            // Calls on other members in between do not disturb the order.
            assert!(put(&mut b, 2, Argument::One(format!("E{}", k))));
            assert!(put(&mut b, arg, Argument::One(format!("a{}", k))));
            wanted.push(format!("a{}", k));
        }
        let built = b.build().unwrap();
        assert_eq!(built[1], FieldValue::Sequence(wanted));
    }
}

#[test]
fn each_setter_takes_one_element_at_a_time() {
    let g = command();
    let mut b: Builder<String> = Builder::new(&g).unwrap();
    assert!(!put(&mut b, 1, Argument::Whole(vec!["a".to_string(), "b".to_string()])));
    assert!(put(&mut b, 0, Argument::One("cargo".to_string())));
    assert_eq!(b.build().unwrap()[1], FieldValue::Sequence(vec![]));
}

#[test]
fn sequence_setter_without_each_replaces_the_whole_sequence() {
    let g = command();
    let mut b: Builder<String> = Builder::new(&g).unwrap();
    assert!(put(&mut b, 0, Argument::One("cargo".to_string())));
    assert!(put(&mut b, 4, Argument::Whole(vec!["-v".to_string(), "-q".to_string()])));
    assert!(put(&mut b, 4, Argument::Whole(vec!["-x".to_string()])));
    assert!(!put(&mut b, 4, Argument::One("-y".to_string())));
    assert_eq!(b.build().unwrap()[4], FieldValue::Sequence(vec!["-x".to_string()]));
}

#[test]
fn replacing_setter_keeps_the_last_value() {
    let g = command();
    let mut b: Builder<String> = Builder::new(&g).unwrap();
    assert!(put(&mut b, 0, Argument::One("cargo".to_string())));
    assert!(put(&mut b, 0, Argument::One("rustc".to_string())));
    assert!(put(&mut b, 3, Argument::One("..".to_string())));
    assert!(put(&mut b, 3, Argument::One("/tmp".to_string())));
    assert!(!put(&mut b, 0, Argument::Whole(vec![])));
    let built = b.build().unwrap();
    assert_eq!(built[0], FieldValue::Required("rustc".to_string()));
    assert_eq!(built[3], FieldValue::Optional(Some("/tmp".to_string())));
}

#[test]
fn call_to_a_setter_that_does_not_exist_changes_nothing() {
    let g = command();
    let mut b: Builder<String> = Builder::new(&g).unwrap();
    assert!(!put(&mut b, 5, Argument::One("x".to_string())));
    assert!(!put(&mut b, usize::MAX, Argument::One("x".to_string())));
    assert_eq!(b.build(), Err(missing("executable")));
}

#[test]
fn whole_builder_run() {
    let g = command();
    let mut b: Builder<String> = Builder::new(&g).unwrap();
    let calls = [
        ("executable", "cargo"),
        ("arg", "build"),
        ("arg", "--release"),
        ("env", "A=1"),
        ("current_dir", ".."),
    ];
    for (setter, value) in calls {
        let position = g.setter_named(setter).unwrap();
        assert!(put(&mut b, position, Argument::One(value.to_string())));
    }
    assert_eq!(
        b.build(),
        Ok(vec![
            FieldValue::Required("cargo".to_string()),
            FieldValue::Sequence(vec!["build".to_string(), "--release".to_string()]),
            FieldValue::Sequence(vec!["A=1".to_string()]),
            FieldValue::Optional(Some("..".to_string())),
            FieldValue::Sequence(vec![]),
        ])
    );
}

#[test]
fn declarations_that_do_not_fit_make_no_builder() {
    let mut g = command();
    assert!(g.is_well_formed());
    g.construction.inits.push(InitValue::Absent);
    assert!(!g.is_well_formed());
    assert!(Builder::<String>::new(&g).is_none());

    let mut g = command();
    g.finalize.assembly.pop();
    assert!(!g.is_well_formed());
    assert!(Builder::<String>::new(&g).is_none());

    let mut g = command();
    g.setters[2].target = 5;
    assert!(!g.is_well_formed());
    assert!(Builder::<String>::new(&g).is_none());

    let mut g = command();
    g.finalize.checks.push(7);
    assert!(!g.is_well_formed());
    assert!(Builder::<String>::new(&g).is_none());
}

#[test]
fn member_to_unwrap_without_a_check_still_fails_when_unset() {
    let mut g = command();
    g.finalize.checks.clear();
    g.finalize.assembly[3] = FinalizeExpression::Unwrap;
    assert!(g.is_well_formed());
    let b: Builder<String> = Builder::new(&g).unwrap();
    // No check is left; the members are unwrapped in declaration order.
    assert_eq!(b.build(), Err(missing("executable")));
    let mut b: Builder<String> = Builder::new(&g).unwrap();
    assert!(put(&mut b, 0, Argument::One("cargo".to_string())));
    assert_eq!(b.build(), Err(missing("current_dir")));
}

#[test]
fn checks_are_made_in_their_own_order() {
    let members = ["a", "b", "c"].iter().map(|n| member(n, named("u8"), vec![])).collect();
    let mut g = builder::derive(&record("Three", members)).unwrap();
    g.finalize.checks = vec![2, 0, 1];
    let b: Builder<u8> = Builder::new(&g).unwrap();
    assert_eq!(b.build(), Err(missing("c")));
}

#[test]
fn setter_calls_can_be_chained() {
    let g = command();
    let mut b: Builder<String> = Builder::new(&g).unwrap();
    b.call(0, Argument::One("cargo".to_string()))
        .call(1, Argument::One("build".to_string()))
        .call(1, Argument::One("--release".to_string()))
        .call(3, Argument::One("..".to_string()));
    assert_eq!(
        b.build(),
        Ok(vec![
            FieldValue::Required("cargo".to_string()),
            FieldValue::Sequence(vec!["build".to_string(), "--release".to_string()]),
            FieldValue::Sequence(vec![]),
            FieldValue::Optional(Some("..".to_string())),
            FieldValue::Sequence(vec![]),
        ])
    );
}

#[test]
fn chained_call_gives_back_the_same_builder() {
    let g = command();
    let mut b: Builder<String> = Builder::new(&g).unwrap();
    {
        let same = b.call(0, Argument::One("cargo".to_string()));
        // What is done through the reference that came back is done to `b`.
        same.call(2, Argument::One("A=1".to_string()));
    }
    let built = b.build().unwrap();
    assert_eq!(built[0], FieldValue::Required("cargo".to_string()));
    assert_eq!(built[2], FieldValue::Sequence(vec!["A=1".to_string()]));
}

#[test]
fn takes_does_not_change_the_builder() {
    let g = command();
    let b: Builder<String> = Builder::new(&g).unwrap();
    assert!(b.takes(0, &Argument::One("cargo".to_string())));
    assert!(!b.takes(0, &Argument::Whole(vec![])));
    assert!(b.takes(4, &Argument::Whole(vec![])));
    assert!(!b.takes(9, &Argument::One("x".to_string())));
    assert_eq!(b.build(), Err(missing("executable")));
}
