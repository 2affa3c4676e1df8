use serde_generate::format::{
    ContainerFormat, DocComments, ExternalDefinitions, Format, Named, Registry, VariantFormat,
};
use serde_generate::rust::{
    module_manifest, module_parts, output, output_preamble,
    output_with_external_dependencies_and_comments, quote_container_definitions,
};
use serde_generate::Error;

fn named<T>(name: &str, value: T) -> Named<T> {
    Named { name: name.to_string(), value }
}

fn registry(entries: Vec<(&str, ContainerFormat)>) -> Registry {
    Registry {
        entries: entries.into_iter().map(|(n, c)| named(n, c)).collect(),
    }
}

fn no_externals() -> ExternalDefinitions {
    ExternalDefinitions { entries: Vec::new() }
}

fn no_comments() -> DocComments {
    DocComments { entries: Vec::new() }
}

const PLAIN_PREAMBLE: &str =
    "#![allow(unused_imports)]\nuse std::collections::BTreeMap as Map;\n\ntype Bytes = Vec<u8>;\n\n";

#[test]
fn enum_variants_in_index_order() {
    let reg = registry(vec![(
        "E",
        ContainerFormat::Enum(vec![
            (0, named("A", VariantFormat::Unit)),
            (1, named("B", VariantFormat::Unit)),
            (2, named("C", VariantFormat::Unit)),
        ]),
    )]);
    let text = output(false, &reg).unwrap();
    let expected = format!("{}pub enum E {{\n    A,\n    B,\n    C,\n}}\n\n", PLAIN_PREAMBLE);
    assert_eq!(text, expected);
}

#[test]
fn enum_with_gap_is_rejected_before_output() {
    let reg = registry(vec![(
        "E",
        ContainerFormat::Enum(vec![
            (0, named("A", VariantFormat::Unit)),
            (2, named("C", VariantFormat::Unit)),
        ]),
    )]);
    assert_eq!(output(false, &reg), Err(Error::NonContiguousEnumIndices));
}

#[test]
fn self_reference_inside_sequence_is_direct() {
    let reg = registry(vec![(
        "Node",
        ContainerFormat::Struct(vec![named(
            "children",
            Format::Sequence(Box::new(Format::TypeName("Node".to_string()))),
        )]),
    )]);
    let text = output(false, &reg).unwrap();
    let expected = format!(
        "{}pub struct Node {{\n     pub children: Vec<Node>,\n}}\n\n",
        PLAIN_PREAMBLE
    );
    assert_eq!(text, expected);
}

#[test]
fn direct_self_reference_is_boxed() {
    let reg = registry(vec![(
        "Node",
        ContainerFormat::Struct(vec![named(
            "next",
            Format::TypeName("Node".to_string()),
        )]),
    )]);
    let text = output(false, &reg).unwrap();
    let expected = format!(
        "{}pub struct Node {{\n     pub next: Box<Node>,\n}}\n\n",
        PLAIN_PREAMBLE
    );
    assert_eq!(text, expected);
}

#[test]
fn acyclic_dependency_emitted_in_topological_order() {
    // Registry order puts the dependent container first; the analyzer must
    // still emit its hard dependency before it, and the reference is then
    // rendered directly.
    let reg = registry(vec![
        (
            "B",
            ContainerFormat::Struct(vec![named("a", Format::TypeName("A".to_string()))]),
        ),
        ("A", ContainerFormat::UnitStruct),
    ]);
    let text = output(false, &reg).unwrap();
    let expected = format!(
        "{}pub struct A;\n\npub struct B {{\n     pub a: A,\n}}\n\n",
        PLAIN_PREAMBLE
    );
    assert_eq!(text, expected);
}

#[test]
fn mutual_recursion_falls_back_to_registry_order_with_indirection() {
    let reg = registry(vec![
        (
            "A",
            ContainerFormat::Struct(vec![named("b", Format::TypeName("B".to_string()))]),
        ),
        (
            "B",
            ContainerFormat::Struct(vec![named("a", Format::TypeName("A".to_string()))]),
        ),
    ]);
    let text = output(false, &reg).unwrap();
    let expected = format!(
        "{}pub struct A {{\n     pub b: Box<B>,\n}}\n\npub struct B {{\n     pub a: A,\n}}\n\n",
        PLAIN_PREAMBLE
    );
    assert_eq!(text, expected);
}

#[test]
fn dangling_reference_is_named_in_the_error() {
    let reg = registry(vec![(
        "S",
        ContainerFormat::Struct(vec![named("x", Format::TypeName("Missing".to_string()))]),
    )]);
    assert_eq!(
        output(false, &reg),
        Err(Error::DanglingTypeName("Missing".to_string()))
    );
}

#[test]
fn placeholder_format_is_rejected() {
    let reg = registry(vec![(
        "S",
        ContainerFormat::Struct(vec![named("x", Format::Variable)]),
    )]);
    assert_eq!(output(false, &reg), Err(Error::UnresolvedPlaceholder));
}

#[test]
fn external_bytes_suppresses_the_byte_buffer_alias() {
    let reg = registry(vec![(
        "W",
        ContainerFormat::NewTypeStruct(Box::new(Format::Bytes)),
    )]);
    let externals = ExternalDefinitions {
        entries: vec![(String::new(), vec!["Bytes".to_string()])],
    };
    let text = output_with_external_dependencies_and_comments(
        false,
        &reg,
        &externals,
        &no_comments(),
    )
    .unwrap();
    let expected = "#![allow(unused_imports)]\nuse std::collections::BTreeMap as Map;\n\n\
                    pub struct W(pub Bytes);\n\n";
    assert_eq!(text, expected);
    assert!(!text.contains("type Bytes"));
}

#[test]
fn external_module_gets_a_use_statement() {
    let reg = registry(vec![(
        "W",
        ContainerFormat::NewTypeStruct(Box::new(Format::TypeName("Other".to_string()))),
    )]);
    let externals = ExternalDefinitions {
        entries: vec![("my_module".to_string(), vec!["Other".to_string()])],
    };
    let text = output_with_external_dependencies_and_comments(
        false,
        &reg,
        &externals,
        &no_comments(),
    )
    .unwrap();
    let expected = "#![allow(unused_imports)]\nuse std::collections::BTreeMap as Map;\n\
                    use my_module::{Other};\n\ntype Bytes = Vec<u8>;\n\n\
                    pub struct W(pub Other);\n\n";
    assert_eq!(text, expected);
}

#[test]
fn doc_comment_appears_only_above_its_field() {
    let reg = registry(vec![(
        "Test",
        ContainerFormat::Struct(vec![
            named("a", Format::U32),
            named("b", Format::U32),
        ]),
    )]);
    let comments = DocComments {
        entries: vec![(
            vec!["Test".to_string(), "a".to_string()],
            "Comment.\n".to_string(),
        )],
    };
    let text = output_with_external_dependencies_and_comments(
        false,
        &reg,
        &no_externals(),
        &comments,
    )
    .unwrap();
    let expected = format!(
        "{}pub struct Test {{\n\n    /// Comment.\n     pub a: u32,\n     pub b: u32,\n}}\n\n",
        PLAIN_PREAMBLE
    );
    assert_eq!(text, expected);
    assert_eq!(text.matches("Comment.").count(), 1);
}

#[test]
fn multi_line_doc_comment_keeps_its_empty_line() {
    let reg = registry(vec![("T", ContainerFormat::UnitStruct)]);
    let comments = DocComments {
        entries: vec![(vec!["T".to_string()], "First.\n\nSecond.\n".to_string())],
    };
    let text = output_with_external_dependencies_and_comments(
        false,
        &reg,
        &no_externals(),
        &comments,
    )
    .unwrap();
    let expected = format!(
        "{}\n/// First.\n///\n/// Second.\npub struct T;\n\n",
        PLAIN_PREAMBLE
    );
    assert_eq!(text, expected);
}

#[test]
fn runtime_integrated_profile_adds_derives_and_imports() {
    let reg = registry(vec![(
        "P",
        ContainerFormat::Struct(vec![
            named("t", Format::Tuple(vec![Format::U8, Format::Str])),
            named(
                "arr",
                Format::TupleArray { content: Box::new(Format::Bool), size: 3 },
            ),
            named(
                "m",
                Format::Mapping {
                    key: Box::new(Format::Str),
                    value: Box::new(Format::I64),
                },
            ),
            named("o", Format::Option(Box::new(Format::TypeName("P".to_string())))),
            named("raw", Format::Bytes),
        ]),
    )]);
    let text = output(true, &reg).unwrap();
    let expected = "#![allow(unused_imports)]\n\
        use std::collections::BTreeMap as Map;\n\
        use serde::{Serialize, Deserialize};\n\
        use serde_bytes::ByteBuf as Bytes;\n\n\
        #[derive(Serialize, Deserialize, Clone, Debug, PartialEq, PartialOrd)]\n\
        pub struct P {\n     pub t: (u8, String),\n     pub arr: [bool; 3],\n     pub m: Map<String, i64>,\n     pub o: Option<Box<P>>,\n     pub raw: Bytes,\n}\n\n";
    assert_eq!(text, expected);
}

#[test]
fn enum_variant_shapes_render_with_explicit_payload_forms() {
    let reg = registry(vec![(
        "E",
        ContainerFormat::Enum(vec![
            (0, named("U", VariantFormat::Unit)),
            (1, named("N", VariantFormat::NewType(Box::new(Format::U16)))),
            (
                2,
                named("T", VariantFormat::Tuple(vec![Format::Char, Format::I8])),
            ),
            (
                3,
                named(
                    "S",
                    VariantFormat::Struct(vec![named("f", Format::Unit)]),
                ),
            ),
        ]),
    )]);
    let text = output(false, &reg).unwrap();
    let expected = format!(
        "{}pub enum E {{\n    U,\n    N(u16),\n    T(char, i8),\n    S {{\n        f: (),\n    }},\n}}\n\n",
        PLAIN_PREAMBLE
    );
    assert_eq!(text, expected);
}

#[test]
fn quoted_definitions_are_trimmed_and_keyed_by_name() {
    let reg = registry(vec![
        ("A", ContainerFormat::UnitStruct),
        (
            "B",
            ContainerFormat::NewTypeStruct(Box::new(Format::TypeName("A".to_string()))),
        ),
    ]);
    let defs = quote_container_definitions(&reg).unwrap();
    assert_eq!(defs.len(), 2);
    assert_eq!(defs[0].0, "A");
    assert_eq!(defs[0].1, "struct A;\n");
    assert_eq!(defs[1].0, "B");
    assert_eq!(defs[1].1, "struct B(A);\n");
}

#[test]
fn quoted_definitions_reject_a_gapped_enum() {
    let reg = registry(vec![(
        "E",
        ContainerFormat::Enum(vec![(1, named("A", VariantFormat::Unit))]),
    )]);
    assert_eq!(
        quote_container_definitions(&reg),
        Err(Error::NonContiguousEnumIndices)
    );
}

#[test]
fn preamble_in_runtime_integrated_profile() {
    let text = output_preamble(true, &no_externals());
    assert_eq!(
        text,
        "#![allow(unused_imports)]\nuse std::collections::BTreeMap as Map;\n\
         use serde::{Serialize, Deserialize};\nuse serde_bytes::ByteBuf as Bytes;\n\n"
    );
}

#[test]
fn module_name_splits_on_the_first_colon() {
    assert_eq!(
        module_parts("generated:0.2.0"),
        ("generated".to_string(), "0.2.0".to_string())
    );
    assert_eq!(
        module_parts("generated"),
        ("generated".to_string(), "0.1.0".to_string())
    );
    assert_eq!(
        module_parts("a:b:c"),
        ("a".to_string(), "b:c".to_string())
    );
}

#[test]
fn module_manifest_text() {
    let text = module_manifest(&"generated".to_string(), &"0.1.0".to_string());
    let expected = "[package]\nname = \"generated\"\nversion = \"0.1.0\"\nedition = \"2018\"\n\n\
                    [dependencies]\nserde = { version = \"1.0\", features = [\"derive\"] }\n\
                    serde_bytes = \"0.11\"\n";
    assert_eq!(text, expected);
}

#[test]
fn empty_registry_yields_only_the_preamble() {
    let reg = registry(vec![]);
    assert_eq!(output(false, &reg).unwrap(), PLAIN_PREAMBLE);
}

#[test]
fn fixed_array_sizes_render_in_decimal() {
    let reg = registry(vec![(
        "A",
        ContainerFormat::TupleStruct(vec![
            Format::TupleArray { content: Box::new(Format::U8), size: 0 },
            Format::TupleArray { content: Box::new(Format::U8), size: 1234567890 },
        ]),
    )]);
    let text = output(false, &reg).unwrap();
    let expected = format!(
        "{}pub struct A([u8; 0], [u8; 1234567890]);\n\n",
        PLAIN_PREAMBLE
    );
    assert_eq!(text, expected);
}

#[test]
fn runtimes_are_not_installed() {
    assert_eq!(
        serde_generate::rust::Installer::runtimes_not_implemented(),
        Err(Error::RuntimeInstallationUnsupported)
    );
}
