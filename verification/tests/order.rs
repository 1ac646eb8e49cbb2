use derive_core::diagnostic::{Diagnostic, DiagnosticKind};
use derive_core::schema::{
    Declaration, MemberDescriptor, RecordSchema, SourceLocation, TypeExpression, UnionSchema,
};
use derive_core::sorted::{sorted, validate_order};

fn variant(name: &str, line: usize) -> MemberDescriptor {
    MemberDescriptor {
        name: name.to_string(),
        declared_type: TypeExpression::Verbatim { text: String::new() },
        annotations: Vec::new(),
        location: SourceLocation { line, column: 5 },
    }
}

fn union_of(names: &[&str]) -> UnionSchema {
    let mut variants = Vec::new();
    for (i, name) in names.iter().enumerate() {
        variants.push(variant(name, i + 2));
    }
    UnionSchema {
        name: "Error".to_string(),
        variants,
        location: SourceLocation { line: 1, column: 1 },
    }
}

fn report(names: &[&str]) -> Option<(String, usize)> {
    validate_order(&union_of(names)).map(|d| (d.message, d.location.line))
}

#[test]
fn variants_in_order_give_no_diagnostic() {
    let schema = union_of(&["Fmt", "Io", "Utf8", "Var"]);
    assert_eq!(validate_order(&schema), None);
}

#[test]
fn empty_and_single_unions_are_in_order() {
    assert_eq!(validate_order(&union_of(&[])), None);
    assert_eq!(validate_order(&union_of(&["Only"])), None);
}

#[test]
fn first_misplaced_variant_is_reported() {
    let schema = union_of(&["Variant3", "Variant1", "Variant2"]);
    let declaration = Declaration::Union(schema.clone());
    let (back, verdict) = sorted(declaration);
    assert_eq!(back, Declaration::Union(schema));
    match back {
        Declaration::Union(u) => {
            let names: Vec<&str> = u.variants.iter().map(|v| v.name.as_str()).collect();
            assert_eq!(names, vec!["Variant3", "Variant1", "Variant2"]);
        }
        Declaration::Record(_) => panic!("the union came back as a record"),
    }
    assert_eq!(
        verdict,
        Some(Diagnostic {
            kind: DiagnosticKind::OutOfOrder,
            message: "Variant1 should sort before Variant3".to_string(),
            location: SourceLocation { line: 3, column: 5 },
        })
    );
}

#[test]
fn only_the_first_violation_is_reported() {
    // Sorted: A B C D. Position 0 agrees, position 1 holds D where B belongs.
    assert_eq!(
        report(&["A", "D", "C", "B"]),
        Some(("B should sort before D".to_string(), 5))
    );
    // Two violations; the one at the earlier position is the one reported.
    assert_eq!(
        report(&["B", "A", "D", "C"]),
        Some(("A should sort before B".to_string(), 3))
    );
}

#[test]
fn last_pair_swapped_is_reported_at_the_last_variant() {
    assert_eq!(
        report(&["Fmt", "Io", "Var", "Utf8"]),
        Some(("Utf8 should sort before Var".to_string(), 5))
    );
}

#[test]
fn order_is_by_code_point() {
    // Upper case letters come before lower case ones, digits before both.
    assert_eq!(report(&["Zeta", "alpha"]), None);
    assert_eq!(
        report(&["alpha", "Zeta"]),
        Some(("Zeta should sort before alpha".to_string(), 3))
    );
    assert_eq!(report(&["V1", "V10", "V2"]), None);
    // A proper prefix comes first.
    assert_eq!(report(&["Ab", "Abc"]), None);
    assert_eq!(
        report(&["Abc", "Ab"]),
        Some(("Ab should sort before Abc".to_string(), 3))
    );
    // Characters outside ASCII are ordered by code point too.
    assert_eq!(report(&["Z", "\u{e9}", "\u{4e2d}"]), None);
    assert_eq!(
        report(&["\u{4e2d}", "\u{e9}"]),
        Some(("\u{e9} should sort before \u{4e2d}".to_string(), 3))
    );
}

#[test]
fn repeated_names_do_not_count_as_misplaced() {
    assert_eq!(report(&["A", "A", "B"]), None);
    // Sorted: A A B. Position 1 holds B where the second A belongs; the
    // diagnostic stands at the first A from that position on.
    assert_eq!(
        report(&["A", "B", "A"]),
        Some(("A should sort before B".to_string(), 4))
    );
}

#[test]
fn order_check_agrees_with_the_standard_sort() {
    let pool = ["Delta", "Alpha", "Charlie", "Bravo", "Alpha2", "Echo"];
    // Every arrangement of four names out of the pool.
    for a in 0..pool.len() {
        for b in 0..pool.len() {
            for c in 0..pool.len() {
                for d in 0..pool.len() {
                    let names = [pool[a], pool[b], pool[c], pool[d]];
                    let mut expected = names.to_vec();
                    expected.sort();
                    let first = (0..names.len()).find(|&i| names[i] != expected[i]);
                    let want = first.map(|i| {
                        let at = (i..names.len()).find(|&m| names[m] == expected[i]).unwrap();
                        (format!("{} should sort before {}", expected[i], names[i]), at + 2)
                    });
                    assert_eq!(report(&names), want);
                }
            }
        }
    }
}

#[test]
fn record_is_an_unsupported_shape() {
    let record = RecordSchema {
        name: "Point".to_string(),
        members: vec![variant("y", 2), variant("x", 3)],
        location: SourceLocation { line: 7, column: 3 },
    };
    let (back, verdict) = sorted(Declaration::Record(record.clone()));
    assert_eq!(back, Declaration::Record(record));
    assert_eq!(
        verdict,
        Some(Diagnostic {
            kind: DiagnosticKind::UnsupportedShape,
            message: "expected enum or match expression".to_string(),
            location: SourceLocation { line: 7, column: 3 },
        })
    );
}

#[test]
fn declaration_knows_its_location() {
    let union = union_of(&["A"]);
    assert_eq!(
        Declaration::Union(union).location(),
        SourceLocation { line: 1, column: 1 }
    );
}

#[test]
fn diagnostics_are_built_uniformly() {
    let at = SourceLocation { line: 4, column: 9 };
    assert_eq!(
        Diagnostic::out_of_order("Io", "Var", at),
        Diagnostic {
            kind: DiagnosticKind::OutOfOrder,
            message: "Io should sort before Var".to_string(),
            location: at,
        }
    );
    assert_eq!(
        Diagnostic::malformed_annotation(at),
        Diagnostic {
            kind: DiagnosticKind::MalformedAnnotation,
            message: "expected `builder(each = \"...\")`".to_string(),
            location: at,
        }
    );
    assert_eq!(
        Diagnostic::unsupported_shape(at),
        Diagnostic {
            kind: DiagnosticKind::UnsupportedShape,
            message: "expected enum or match expression".to_string(),
            location: at,
        }
    );
}
