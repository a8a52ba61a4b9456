use pyi_stub::docs::{extract_doc_comments, format_doc_comments};
use pyi_stub::order::sort_by_name_exec;
use pyi_stub::pyi::{
    enum_block, enum_def, impl_block, method_signature, record_block, struct_def, Field, Method,
    MethodCollection, Param, Record, TaggedUnion, Variant,
};
use pyi_stub::sink::StubSink;
use pyi_stub::text::{join, same_text, text_le_exec};
use pyi_stub::types::{rust_to_python_type, TypeExpr};
use pyi_stub::{pyi, pyi_impl, DeclData};

const HEADER: &str = "from datetime import datetime as DateTime\nfrom typing import *\nfrom enum import Enum";

fn scalar(n: &str) -> TypeExpr {
    TypeExpr::Scalar(n.to_string())
}

fn boxed(t: TypeExpr) -> Option<Box<TypeExpr>> {
    Some(Box::new(t))
}

fn map(owner: &str, t: TypeExpr) -> Option<String> {
    rust_to_python_type(owner, &t)
}

fn method(name: &str, params: Vec<(&str, TypeExpr)>, ret: Option<TypeExpr>, is_static: bool) -> Method {
    Method {
        name: name.to_string(),
        params: params
            .into_iter()
            .map(|(n, ty)| Param { name: n.to_string(), ty })
            .collect(),
        ret,
        is_static,
        docs: Vec::new(),
    }
}

fn field(name: &str, ty: TypeExpr, exported: bool) -> Field {
    Field { name: name.to_string(), ty, exported, docs: Vec::new() }
}

#[test]
fn optional_of_scalar() {
    assert_eq!(map("W", TypeExpr::Optional(boxed(scalar("i32")))), Some("Optional[int]".to_string()));
}

#[test]
fn optional_without_argument() {
    assert_eq!(map("W", TypeExpr::Optional(None)), Some("Optional[Any]".to_string()));
}

#[test]
fn fallible_is_union() {
    let t = TypeExpr::Fallible(boxed(scalar("String")), boxed(TypeExpr::Named("MyError".to_string())));
    assert_eq!(map("W", t), Some("Union[str, MyError]".to_string()));
}

#[test]
fn fallible_missing_arguments_are_any() {
    assert_eq!(map("W", TypeExpr::Fallible(None, None)), Some("Union[Any, Any]".to_string()));
    assert_eq!(
        map("W", TypeExpr::Fallible(boxed(scalar("i64")), None)),
        Some("Union[int, Any]".to_string())
    );
}

#[test]
fn engine_owned_unwraps() {
    assert_eq!(map("W", TypeExpr::EngineOwned(boxed(scalar("f64")))), Some("float".to_string()));
    assert_eq!(map("W", TypeExpr::EngineOwned(None)), Some("Any".to_string()));
}

#[test]
fn self_reference_is_owner() {
    assert_eq!(map("Widget", TypeExpr::SelfReference), Some("Widget".to_string()));
}

#[test]
fn opaque_is_any() {
    assert_eq!(map("W", TypeExpr::Opaque), Some("Any".to_string()));
}

#[test]
fn host_opaque_has_no_rendering() {
    assert_eq!(map("W", TypeExpr::HostOpaque), None);
    assert_eq!(map("W", TypeExpr::Optional(boxed(TypeExpr::HostOpaque))), None);
    assert_eq!(map("W", TypeExpr::Fallible(boxed(TypeExpr::HostOpaque), None)), None);
}

#[test]
fn scalars_and_names() {
    assert_eq!(map("W", scalar("i64")), Some("int".to_string()));
    assert_eq!(map("W", scalar("String")), Some("str".to_string()));
    assert_eq!(map("W", scalar("u8")), Some("u8".to_string()));
    assert_eq!(map("W", TypeExpr::Named("Point".to_string())), Some("Point".to_string()));
    let nested = TypeExpr::Optional(boxed(TypeExpr::Fallible(boxed(TypeExpr::SelfReference), None)));
    assert_eq!(map("Node", nested), Some("Optional[Union[Node, Any]]".to_string()));
}

#[test]
fn doc_block_two_lines() {
    let lines = vec!["first".to_string(), "second".to_string()];
    assert_eq!(
        extract_doc_comments(&lines, "    ", " ..."),
        "\n    \"\"\"\n    first\n    second\n    \"\"\"\n    ...".to_string()
    );
}

#[test]
fn doc_block_empty_is_suffix() {
    assert_eq!(extract_doc_comments(&Vec::new(), "    ", " ..."), " ...".to_string());
    assert_eq!(extract_doc_comments(&Vec::new(), "    ", ""), "".to_string());
}

#[test]
fn doc_block_with_given_trim() {
    let lines = vec!["only".to_string()];
    assert_eq!(
        format_doc_comments(&lines, "  ", " x ", "x"),
        "\n  \"\"\"\n  only\n  \"\"\"\n  x".to_string()
    );
}

#[test]
fn methods_sorted_by_name() {
    let item = MethodCollection {
        owner: "W".to_string(),
        methods: vec![
            method("zeta", vec![], None, false),
            method("alpha", vec![], None, false),
            method("mid", vec![], None, false),
        ],
    };
    assert_eq!(
        impl_block(&item),
        "\n\n    def alpha(self) -> None: ...\n\n    def mid(self) -> None: ...\n\n    def zeta(self) -> None: ..."
            .to_string()
    );
}

#[test]
fn sort_keeps_equal_names_in_order() {
    let v = vec![
        ("b".to_string(), "1".to_string()),
        ("a".to_string(), "2".to_string()),
        ("b".to_string(), "3".to_string()),
        ("ab".to_string(), "4".to_string()),
    ];
    let r: Vec<String> = sort_by_name_exec(&v).into_iter().map(|e| e.1).collect();
    assert_eq!(r, vec!["2", "4", "1", "3"]);
}

#[test]
fn initializer_returns_none() {
    let m = method("__init__", vec![("x", scalar("i32"))], Some(TypeExpr::SelfReference), false);
    assert_eq!(method_signature("W", &m), "    def __init__(self, x: int) -> None: ...".to_string());
}

#[test]
fn return_types() {
    let m = method("get", vec![], Some(scalar("f64")), false);
    assert_eq!(method_signature("W", &m), "    def get(self) -> float: ...".to_string());
    let m = method("py", vec![], Some(TypeExpr::HostOpaque), false);
    assert_eq!(method_signature("W", &m), "    def py(self) -> None: ...".to_string());
}

#[test]
fn static_method_signature() {
    let m = method("make", vec![("x", scalar("i32"))], Some(TypeExpr::SelfReference), true);
    assert_eq!(
        method_signature("Widget", &m),
        "    @staticmethod\n    def make(x: int) -> Widget: ...".to_string()
    );
}

#[test]
fn instance_method_signature() {
    let m = method(
        "set",
        vec![("py", TypeExpr::HostOpaque), ("v", scalar("String")), ("w", TypeExpr::Opaque)],
        None,
        false,
    );
    assert_eq!(method_signature("W", &m), "    def set(self, v: str, w: Any) -> None: ...".to_string());
}

#[test]
fn method_with_docs() {
    let mut m = method("f", vec![], None, false);
    m.docs = vec!["Does f.".to_string()];
    assert_eq!(
        method_signature("W", &m),
        "    def f(self) -> None:\n        \"\"\"\n        Does f.\n        \"\"\"\n        ...".to_string()
    );
}

#[test]
fn record_fields_excluded_and_fallback() {
    let item = Record {
        fields: vec![
            field("a", scalar("i32"), true),
            field("hidden", scalar("i32"), false),
            field("h", TypeExpr::HostOpaque, true),
        ],
    };
    assert_eq!(record_block(&item, "P"), "\n\nclass P:\n    a: int\n    h: Any".to_string());
}

#[test]
fn record_without_fields() {
    let item = Record { fields: vec![field("x", scalar("i32"), false)] };
    assert_eq!(record_block(&item, "Empty"), "\n\nclass Empty:".to_string());
}

#[test]
fn record_field_docs() {
    let mut f = field("a", scalar("String"), true);
    f.docs = vec!["The a.".to_string()];
    let item = Record { fields: vec![f] };
    assert_eq!(
        record_block(&item, "P"),
        "\n\nclass P:\n    a: str\n    \"\"\"\n    The a.\n    \"\"\"\n    ".to_string()
    );
}

#[test]
fn enum_variants() {
    let item = TaggedUnion {
        variants: vec![
            Variant { name: "Red".to_string(), docs: vec![] },
            Variant { name: "Green".to_string(), docs: vec![] },
        ],
    };
    assert_eq!(enum_block(&item, "Color"), "\n\nclass Color(Enum):\n    Red = 'Red'\n    Green = 'Green'".to_string());
}

#[test]
fn empty_collection_writes_nothing() {
    let mut sink = StubSink::new();
    let item = MethodCollection { owner: "W".to_string(), methods: vec![] };
    assert_eq!(pyi_impl(&item, &mut sink), None);
    assert!(!sink.header_written());
}

#[test]
fn header_written_once_first() {
    let mut sink = StubSink::new();
    let rec = Record { fields: vec![] };
    let first = struct_def(&rec, "A", &mut sink);
    assert_eq!(first, format!("{}\n\nclass A:", HEADER));
    let en = TaggedUnion { variants: vec![Variant { name: "X".to_string(), docs: vec![] }] };
    let second = enum_def(&en, "E", &mut sink);
    assert_eq!(second, "\n\nclass E(Enum):\n    X = 'X'".to_string());
    let item = MethodCollection { owner: "A".to_string(), methods: vec![method("go", vec![], None, true)] };
    let third = pyi_impl(&item, &mut sink);
    assert_eq!(third, Some("\n\n    @staticmethod\n    def go() -> None: ...".to_string()));
    assert!(sink.header_written());
}

#[test]
fn dispatch_by_kind() {
    let mut sink = StubSink::new();
    assert_eq!(pyi("U", &DeclData::Union, &mut sink), None);
    assert!(!sink.header_written());
    let r = pyi("S", &DeclData::Struct(Record { fields: vec![] }), &mut sink);
    assert_eq!(r, Some(format!("{}\n\nclass S:", HEADER)));
}

#[test]
fn text_helpers() {
    assert!(same_text("abc", "abc"));
    assert!(!same_text("abc", "abd"));
    assert!(!same_text("ab", "abc"));
    assert!(text_le_exec("ab", "abc"));
    assert!(!text_le_exec("b", "abc"));
    assert!(text_le_exec("", ""));
    assert_eq!(join(&vec!["a".to_string(), "b".to_string(), "c".to_string()], ", "), "a, b, c".to_string());
    assert_eq!(join(&Vec::new(), ", "), "".to_string());
}

#[test]
fn method_order_ignores_declared_order() {
    let names = [["mid", "zeta", "alpha"], ["alpha", "mid", "zeta"], ["zeta", "alpha", "mid"]];
    let blocks: Vec<String> = names
        .iter()
        .map(|order| {
            let item = MethodCollection {
                owner: "W".to_string(),
                methods: order.iter().map(|n| method(n, vec![], Some(scalar("i32")), false)).collect(),
            };
            impl_block(&item)
        })
        .collect();
    assert_eq!(blocks[0], blocks[1]);
    assert_eq!(blocks[1], blocks[2]);
    assert!(blocks[0].starts_with("\n\n    def alpha(self) -> int: ..."));
}
