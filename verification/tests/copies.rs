use derive_core::diagnostic::Diagnostic;
use derive_core::runtime::MissingField;
use derive_core::schema::{
    Annotation, Declaration, MemberDescriptor, RecordSchema, SourceLocation, TypeExpression,
    UnionSchema,
};

fn member(name: &str) -> MemberDescriptor {
    MemberDescriptor {
        name: name.to_string(),
        declared_type: TypeExpression::Generic {
            qualifier: "std::vec::".to_string(),
            head: "Vec".to_string(),
            arguments: vec![TypeExpression::Verbatim { text: "&str".to_string() }],
        },
        annotations: vec![
            Annotation {
                key: "each".to_string(),
                value: "arg".to_string(),
                location: SourceLocation { line: 3, column: 7 },
            },
            Annotation {
                key: "group".to_string(),
                value: String::new(),
                location: SourceLocation { line: 4, column: 7 },
            },
        ],
        location: SourceLocation { line: 5, column: 5 },
    }
}

#[test]
fn copies_of_declarations_are_equal_to_them() {
    let m = member("args");
    assert_eq!(m.annotations[0].clone(), m.annotations[0]);
    assert_eq!(m.clone(), m);

    let record = RecordSchema {
        name: "Command".to_string(),
        members: vec![member("args"), member("env")],
        location: SourceLocation { line: 1, column: 1 },
    };
    assert_eq!(record.clone(), record);
    assert_eq!(Declaration::Record(record.clone()).clone(), Declaration::Record(record));

    let union = UnionSchema {
        name: "Error".to_string(),
        variants: vec![member("Io"), member("Fmt")],
        location: SourceLocation { line: 9, column: 1 },
    };
    assert_eq!(union.clone(), union);
    assert_eq!(Declaration::Union(union.clone()).clone(), Declaration::Union(union));

    let empty = RecordSchema {
        name: String::new(),
        members: Vec::new(),
        location: SourceLocation { line: 0, column: 0 },
    };
    assert_eq!(empty.clone(), empty);
}

#[test]
fn copies_of_errors_are_equal_to_them() {
    let d = Diagnostic::out_of_order("A", "B", SourceLocation { line: 2, column: 3 });
    assert_eq!(d.clone(), d);
    let e = MissingField { member: "executable".to_string() };
    assert_eq!(e.clone(), e);
    assert_eq!(e.clone().message(), "executable field is missing!");
}
