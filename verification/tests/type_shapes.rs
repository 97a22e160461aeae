use builder_pattern_fsm::type_expr::{
    extract_from_option_type, GenericArgument, PathArguments, PathSegment, TypeExpr,
};

fn plain(ident: &str) -> PathSegment {
    PathSegment { ident: ident.to_string(), arguments: PathArguments::Absent }
}

fn applied(ident: &str, args: Vec<GenericArgument>) -> PathSegment {
    PathSegment { ident: ident.to_string(), arguments: PathArguments::AngleBracketed { args } }
}

fn path(source: &str, segments: Vec<PathSegment>) -> TypeExpr {
    TypeExpr::Path { source: source.to_string(), segments }
}

fn option_of(source: &str, inner: TypeExpr) -> TypeExpr {
    path(source, vec![applied("Option", vec![GenericArgument::Type(inner)])])
}

fn source_of(ty: &TypeExpr) -> String {
    match ty {
        TypeExpr::Path { source, .. } => source.clone(),
        TypeExpr::Other { source } => source.clone(),
    }
}

#[test]
fn extract_from_option_type_test() {
    let cases: Vec<(TypeExpr, Option<&str>)> = vec![
        (option_of("Option < i32 >", path("i32", vec![plain("i32")])), Some("i32")),
        (
            path(
                "Result < Option < i32 > , String >",
                vec![applied(
                    "Result",
                    vec![
                        GenericArgument::Type(option_of(
                            "Option < i32 >",
                            path("i32", vec![plain("i32")]),
                        )),
                        GenericArgument::Type(path("String", vec![plain("String")])),
                    ],
                )],
            ),
            None,
        ),
        (
            option_of(
                "Option < Option < i32 > >",
                option_of("Option < i32 >", path("i32", vec![plain("i32")])),
            ),
            Some("Option < i32 >"),
        ),
        (path("i32", vec![plain("i32")]), None),
        (
            path(
                "Vec < String >",
                vec![applied(
                    "Vec",
                    vec![GenericArgument::Type(path("String", vec![plain("String")]))],
                )],
            ),
            None,
        ),
    ];
    for (input, expected) in cases {
        let result = extract_from_option_type(&input).map(source_of);
        assert_eq!(result, expected.map(|s| s.to_string()));
    }
}

fn number() -> TypeExpr {
    path("i32", vec![plain("i32")])
}

#[test]
fn a_path_through_the_wrapper_is_no_wrapper() {
    let through = path(
        "Option < i32 > :: Foo",
        vec![applied("Option", vec![GenericArgument::Type(number())]), plain("Foo")],
    );
    assert_eq!(extract_from_option_type(&through), None);
    let through_twice = path(
        "Option < i32 > :: Option",
        vec![applied("Option", vec![GenericArgument::Type(number())]), plain("Option")],
    );
    assert_eq!(extract_from_option_type(&through_twice), None);
}

#[test]
fn the_wrapper_may_be_written_with_its_path() {
    let full = path(
        "std :: option :: Option < i32 >",
        vec![plain("std"), plain("option"), applied("Option", vec![GenericArgument::Type(number())])],
    );
    assert_eq!(extract_from_option_type(&full), Some(&number()));
    let below_its_namesake = path(
        "Option :: Option < i32 >",
        vec![plain("Option"), applied("Option", vec![GenericArgument::Type(number())])],
    );
    assert_eq!(extract_from_option_type(&below_its_namesake), Some(&number()));
}

#[test]
fn the_wrapper_takes_exactly_one_type() {
    assert_eq!(extract_from_option_type(&path("Option", vec![plain("Option")])), None);
    assert_eq!(extract_from_option_type(&path("Option < >", vec![applied("Option", vec![])])), None);
    let two = path(
        "Option < i32 , i32 >",
        vec![applied(
            "Option",
            vec![GenericArgument::Type(number()), GenericArgument::Type(number())],
        )],
    );
    assert_eq!(extract_from_option_type(&two), None);
    let lifetime = path("Option < 'a >", vec![applied("Option", vec![GenericArgument::Other])]);
    assert_eq!(extract_from_option_type(&lifetime), None);
    let called = path(
        "Option (i32)",
        vec![PathSegment { ident: "Option".to_string(), arguments: PathArguments::Parenthesized }],
    );
    assert_eq!(extract_from_option_type(&called), None);
    assert_eq!(extract_from_option_type(&path("", vec![])), None);
    assert_eq!(
        extract_from_option_type(&TypeExpr::Other { source: "& Option < i32 >".to_string() }),
        None
    );
    let lower = path("option < i32 >", vec![applied("option", vec![GenericArgument::Type(number())])]);
    assert_eq!(extract_from_option_type(&lower), None);
}
