use mat5::derive::{create_trait_function_body, DeriveError, DeriveInput, FieldInfo, WriteStep};

fn describe(steps: &[WriteStep]) -> Vec<String> {
    steps
        .iter()
        .map(|s| match s {
            WriteStep::WriteDefaultHeader => "header".to_string(),
            WriteStep::WriteContainer { field, deref } => format!("{field}:{deref}"),
            WriteStep::ReturnOk => "ok".to_string(),
        })
        .collect()
}

#[test]
fn derived_body_writes_header_then_fields() {
    let fields = vec![
        FieldInfo { ident: Some("a".to_string()), deref: true },
        FieldInfo { ident: Some("b".to_string()), deref: false },
    ];
    let input = DeriveInput {
        ident: "Foo".to_string(),
        impl_generics: "< 'a , T >".to_string(),
        ty_generics: "< 'a , T >".to_string(),
        where_clause: "where T : Copy".to_string(),
        fields,
    };
    let derived = mat5::derive::derive(input).unwrap();
    assert_eq!(derived.ident, "Foo");
    assert_eq!(derived.impl_generics, "< 'a , T >");
    assert_eq!(derived.ty_generics, "< 'a , T >");
    assert_eq!(derived.where_clause, "where T : Copy");
    assert_eq!(describe(&derived.body), vec!["header", "a:true", "b:false", "ok"]);
}

#[test]
fn derived_body_of_empty_struct() {
    let steps = create_trait_function_body(vec![]);
    assert_eq!(describe(&steps), vec!["header", "ok"]);
}

#[test]
fn derive_rejects_tuple_structs() {
    let fields = vec![
        FieldInfo { ident: Some("a".to_string()), deref: false },
        FieldInfo { ident: None, deref: false },
    ];
    let input = DeriveInput {
        ident: "Pair".to_string(),
        impl_generics: String::new(),
        ty_generics: String::new(),
        where_clause: String::new(),
        fields,
    };
    let err = mat5::derive::derive(input).err().unwrap();
    assert_eq!(err, DeriveError::UnnamedField);
    assert_eq!(err.message(), "Tuple structs are not accepted. Each field must be named");
}
