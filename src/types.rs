use vstd::prelude::*;

use crate::text::same_text;

verus! {

/// A type annotation, reduced to the forms that the stub syntax tells apart.
pub enum TypeExpr {
    /// A primitive named by its source spelling (`i32`, `f64`, `String`, ...).
    Scalar(String),
    /// A construct with no known rendering.
    Opaque,
    /// The enclosing declaration itself.
    SelfReference,
    /// An optional value, with its argument if one was written.
    Optional(Option<Box<TypeExpr>>),
    /// An outcome with success and failure arguments, each possibly missing.
    Fallible(Option<Box<TypeExpr>>, Option<Box<TypeExpr>>),
    /// A success type whose error channel belongs to the host runtime.
    EngineOwned(Option<Box<TypeExpr>>),
    /// The runtime-bridge handle, which has no rendering at all.
    HostOpaque,
    /// Any other named type, rendered under its own name.
    Named(String),
}


/// The rendering of a primitive: the integer widths, the float and the text type
/// have fixed names, anything else keeps its own.
pub open spec fn scalar_text(name: Seq<char>) -> Seq<char> {
    if name == "i32"@ || name == "i64"@ {
        "int"@
    } else if name == "f64"@ {
        "float"@
    } else if name == "String"@ {
        "str"@
    } else {
        name
    }
}

/// What a type renders to inside declaration `owner`; `None` means the type has
/// no rendering and whatever carries it is left out.
pub open spec fn type_text(owner: Seq<char>, t: TypeExpr) -> Option<Seq<char>>
    decreases t,
{
    match t {
        TypeExpr::Scalar(n) => Some(scalar_text(n@)),
        TypeExpr::Opaque => Some("Any"@),
        TypeExpr::SelfReference => Some(owner),
        TypeExpr::Optional(arg) => match arg {
            None => Some("Optional[Any]"@),
            Some(b) => match type_text(owner, *b) {
                Some(s) => Some("Optional["@ + s + "]"@),
                None => None,
            },
        },
        TypeExpr::Fallible(ok, err) => {
            let o = match ok {
                None => Some("Any"@),
                Some(b) => type_text(owner, *b),
            };
            let e = match err {
                None => Some("Any"@),
                Some(b) => type_text(owner, *b),
            };
            if o is Some && e is Some {
                Some("Union["@ + o.unwrap() + ", "@ + e.unwrap() + "]"@)
            } else {
                None
            }
        },
        TypeExpr::EngineOwned(arg) => match arg {
            None => Some("Any"@),
            Some(b) => type_text(owner, *b),
        },
        TypeExpr::HostOpaque => None,
        TypeExpr::Named(n) => Some(n@),
    }
}

/// The characters of an optional string.
pub open spec fn opt_text(o: Option<String>) -> Option<Seq<char>> {
    match o {
        Some(s) => Some(s@),
        None => None,
    }
}

/// The unknown-value type.
pub fn any() -> (r: Option<String>)
    ensures
        opt_text(r) == Some("Any"@),
{
    Some(String::from_str("Any"))
}

fn scalar_to_python(name: &String) -> (r: String)
    ensures
        r@ == scalar_text(name@),
{
    if same_text(name.as_str(), "i32") || same_text(name.as_str(), "i64") {
        String::from_str("int")
    } else if same_text(name.as_str(), "f64") {
        String::from_str("float")
    } else if same_text(name.as_str(), "String") {
        String::from_str("str")
    } else {
        name.clone()
    }
}

fn arg_to_python(class_name: &str, arg: &Option<Box<TypeExpr>>) -> (r: Option<String>)
    ensures
        opt_text(r) == match *arg {
            None => Some("Any"@),
            Some(b) => type_text(class_name@, *b),
        },
    decreases *arg,
{
    match arg {
        None => any(),
        Some(b) => rust_to_python_type(class_name, &**b),
    }
}

/// Renders `ty` in stub syntax inside the declaration named `class_name`.
pub fn rust_to_python_type(class_name: &str, ty: &TypeExpr) -> (r: Option<String>)
    ensures
        opt_text(r) == type_text(class_name@, *ty),
    decreases *ty,
{
    match ty {
        TypeExpr::Scalar(n) => Some(scalar_to_python(n)),
        TypeExpr::Opaque => any(),
        TypeExpr::SelfReference => Some(String::from_str(class_name)),
        TypeExpr::Optional(arg) => match arg {
            None => Some(String::from_str("Optional[Any]")),
            Some(b) => match rust_to_python_type(class_name, &**b) {
                Some(s) => {
                    let mut r = String::from_str("Optional[");
                    r.append(s.as_str());
                    r.append("]");
                    Some(r)
                },
                None => None,
            },
        },
        TypeExpr::Fallible(ok, err) => {
            let o = arg_to_python(class_name, ok);
            let e = arg_to_python(class_name, err);
            match (o, e) {
                (Some(o), Some(e)) => {
                    let mut r = String::from_str("Union[");
                    r.append(o.as_str());
                    r.append(", ");
                    r.append(e.as_str());
                    r.append("]");
                    Some(r)
                },
                _ => None,
            }
        },
        TypeExpr::EngineOwned(arg) => arg_to_python(class_name, arg),
        TypeExpr::HostOpaque => None,
        TypeExpr::Named(n) => Some(n.clone()),
    }
}

} // verus!
