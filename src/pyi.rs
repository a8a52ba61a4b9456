use vstd::prelude::*;

use crate::docs::{doc_text, extract_doc_comments, trim_of};
use crate::order::{entry_views, lemma_order_independent, lemma_sorted_by_name, names_sorted, sort_by_name, sort_by_name_exec};
use crate::sink::StubSink;
use crate::text::{join, joined, same_text, texts};
use crate::types::{rust_to_python_type, type_text, TypeExpr};

verus! {

/// A field of a record.
pub struct Field {
    pub name: String,
    pub ty: TypeExpr,
    /// Whether the field carries the external-binding marker; only such fields
    /// are shown in the stub.
    pub exported: bool,
    pub docs: Vec<String>,
}

/// A record declaration's fields, in order.
pub struct Record {
    pub fields: Vec<Field>,
}

/// A member of a tagged union.
pub struct Variant {
    pub name: String,
    pub docs: Vec<String>,
}

/// A tagged-union declaration's members, in order.
pub struct TaggedUnion {
    pub variants: Vec<Variant>,
}

/// A parameter of a method, the receiver excluded.
pub struct Param {
    pub name: String,
    pub ty: TypeExpr,
}

/// A method of a method collection.
pub struct Method {
    pub name: String,
    pub params: Vec<Param>,
    /// The declared return type; `None` where the method returns no value.
    pub ret: Option<TypeExpr>,
    pub is_static: bool,
    pub docs: Vec<String>,
}

/// The methods that a block of associated functions gives the declaration
/// named `owner`.
pub struct MethodCollection {
    pub owner: String,
    pub methods: Vec<Method>,
}

/// The doc block of a field or a variant.
pub open spec fn member_doc(docs: Seq<String>) -> Seq<char> {
    doc_text(texts(docs), "    "@, ""@, trim_of(""@))
}

/// The line of an exported field; a type without a rendering shows as `Any`.
pub open spec fn field_line(owner: Seq<char>, f: Field) -> Seq<char> {
    let ty = match type_text(owner, f.ty) {
        Some(s) => s,
        None => "Any"@,
    };
    "    "@ + f.name@ + ": "@ + ty + member_doc(f.docs@)
}

/// The lines of the exported fields, in order.
pub open spec fn field_lines(owner: Seq<char>, fields: Seq<Field>) -> Seq<Seq<char>> {
    fields.filter_map(
        |f: Field|
            if f.exported {
                Some(field_line(owner, f))
            } else {
                None
            },
    )
}

/// The block of a record named `name`.
pub open spec fn record_text(name: Seq<char>, fields: Seq<Field>) -> Seq<char> {
    let lines = field_lines(name, fields);
    "\n\nclass "@ + name + ":"@ + (if lines.len() == 0 {
        Seq::empty()
    } else {
        "\n"@
    }) + joined(lines, "\n"@)
}

/// The line of a tagged-union member, whose value is its own name.
pub open spec fn variant_line(v: Variant) -> Seq<char> {
    "    "@ + v.name@ + " = '"@ + v.name@ + "'"@ + member_doc(v.docs@)
}

/// The block of a tagged union named `name`.
pub open spec fn enum_text(name: Seq<char>, variants: Seq<Variant>) -> Seq<char> {
    "\n\nclass "@ + name + "(Enum):\n"@ + joined(variants.map_values(|v: Variant| variant_line(v)), "\n"@)
}

/// The annotated parameters, in order; one whose type has no rendering is left out.
pub open spec fn param_texts(owner: Seq<char>, params: Seq<Param>) -> Seq<Seq<char>> {
    params.filter_map(
        |p: Param|
            match type_text(owner, p.ty) {
                Some(s) => Some(p.name@ + ": "@ + s),
                None => None,
            },
    )
}

/// The parameter list: an instance method's starts with a bare `self`.
pub open spec fn arg_texts(owner: Seq<char>, m: Method) -> Seq<Seq<char>> {
    if m.is_static {
        param_texts(owner, m.params@)
    } else {
        seq!["self"@] + param_texts(owner, m.params@)
    }
}

/// The return annotation: `None` for the initializer, for a method without a
/// return type, and for one whose return type has no rendering.
pub open spec fn return_text(owner: Seq<char>, m: Method) -> Seq<char> {
    if m.name@ == "__init__"@ {
        "None"@
    } else {
        match m.ret {
            None => "None"@,
            Some(t) => match type_text(owner, t) {
                Some(s) => s,
                None => "None"@,
            },
        }
    }
}

/// The decoration line that a static method has before its signature.
pub open spec fn static_prefix(m: Method) -> Seq<char> {
    if m.is_static {
        "    @staticmethod\n"@
    } else {
        ""@
    }
}

/// The signature of a method, with its doc block or the `...` body.
pub open spec fn signature_text(owner: Seq<char>, m: Method) -> Seq<char> {
    static_prefix(m) + "    def "@ + m.name@ + "("@ + joined(arg_texts(owner, m), ", "@) + ") -> "@
        + return_text(owner, m) + ":"@ + doc_text(texts(m.docs@), "        "@, " ..."@, trim_of(" ..."@))
}


fn field_to_python(owner: &str, f: &Field) -> (r: String)
    ensures
        r@ == field_line(owner@, *f),
{
    let ty = match rust_to_python_type(owner, &f.ty) {
        Some(s) => s,
        None => String::from_str("Any"),
    };
    let doc = extract_doc_comments(&f.docs, "    ", "");
    let mut r = String::from_str("    ");
    r.append(f.name.as_str());
    r.append(": ");
    r.append(ty.as_str());
    r.append(doc.as_str());
    r
}

/// The block of the record `item` named `name`, without writing it.
pub fn record_block(item: &Record, name: &str) -> (r: String)
    ensures
        r@ == record_text(name@, item.fields@),
{
    let mut properties: Vec<String> = Vec::new();
    let mut i: usize = 0;
    while i < item.fields.len()
        invariant
            i <= item.fields@.len(),
            texts(properties@) == field_lines(name@, item.fields@.subrange(0, i as int)),
        decreases item.fields@.len() - i,
    {
        let ghost sub = item.fields@.subrange(0, i + 1);
        assert(sub.drop_last() == item.fields@.subrange(0, i as int));
        let f = &item.fields[i];
        if f.exported {
            let line = field_to_python(name, f);
            properties.push(line);
        }
        assert(texts(properties@) == field_lines(name@, sub));
        i = i + 1;
    }
    assert(item.fields@.subrange(0, item.fields@.len() as int) == item.fields@);
    assert(texts(properties@).len() == properties@.len());
    let mut r = String::from_str("\n\nclass ");
    r.append(name);
    r.append(":");
    if properties.len() > 0 {
        r.append("\n");
    }
    let body = join(&properties, "\n");
    r.append(body.as_str());
    r
}

/// Writes the block of the record `item` named `name` to `sink`, and returns
/// the text to append to the file.
pub fn struct_def(item: &Record, name: &str, sink: &mut StubSink) -> (r: String)
    requires
        old(sink).wf(),
    ensures
        final(sink).wf(),
        final(sink)@ == old(sink)@.push(record_text(name@, item.fields@)),
        crate::sink::file_text(old(sink)@) + r@ == crate::sink::file_text(final(sink)@),
{
    let block = record_block(item, name);
    sink.write_file(block)
}

fn variant_to_python(v: &Variant) -> (r: String)
    ensures
        r@ == variant_line(*v),
{
    let doc = extract_doc_comments(&v.docs, "    ", "");
    let mut r = String::from_str("    ");
    r.append(v.name.as_str());
    r.append(" = '");
    r.append(v.name.as_str());
    r.append("'");
    r.append(doc.as_str());
    r
}

/// The block of the tagged union `item` named `name`, without writing it.
pub fn enum_block(item: &TaggedUnion, name: &str) -> (r: String)
    ensures
        r@ == enum_text(name@, item.variants@),
{
    let mut variants: Vec<String> = Vec::new();
    let mut i: usize = 0;
    while i < item.variants.len()
        invariant
            i <= item.variants@.len(),
            texts(variants@) == item.variants@.subrange(0, i as int).map_values(
                |v: Variant| variant_line(v),
            ),
        decreases item.variants@.len() - i,
    {
        let ghost prev = variants@;
        let line = variant_to_python(&item.variants[i]);
        variants.push(line);
        assert(texts(variants@) =~= texts(prev).push(line@));
        assert(texts(variants@) =~= item.variants@.subrange(0, i + 1).map_values(
            |v: Variant| variant_line(v),
        ));
        i = i + 1;
    }
    assert(item.variants@.subrange(0, item.variants@.len() as int) == item.variants@);
    let mut r = String::from_str("\n\nclass ");
    r.append(name);
    r.append("(Enum):\n");
    let body = join(&variants, "\n");
    r.append(body.as_str());
    r
}

/// Writes the block of the tagged union `item` named `name` to `sink`, and
/// returns the text to append to the file.
pub fn enum_def(item: &TaggedUnion, name: &str, sink: &mut StubSink) -> (r: String)
    requires
        old(sink).wf(),
    ensures
        final(sink).wf(),
        final(sink)@ == old(sink)@.push(enum_text(name@, item.variants@)),
        crate::sink::file_text(old(sink)@) + r@ == crate::sink::file_text(final(sink)@),
{
    let block = enum_block(item, name);
    sink.write_file(block)
}


fn params_to_python(owner: &str, m: &Method) -> (r: Vec<String>)
    ensures
        texts(r@) == arg_texts(owner@, *m),
{
    let mut args: Vec<String> = Vec::new();
    if !m.is_static {
        args.push(String::from_str("self"));
    }
    let ghost start = texts(args@);
    let mut i: usize = 0;
    while i < m.params.len()
        invariant
            i <= m.params@.len(),
            start == (if m.is_static {
                Seq::<Seq<char>>::empty()
            } else {
                seq!["self"@]
            }),
            texts(args@) == start + param_texts(owner@, m.params@.subrange(0, i as int)),
        decreases m.params@.len() - i,
    {
        let ghost prev = args@;
        let ghost sub = m.params@.subrange(0, i + 1);
        assert(sub.drop_last() == m.params@.subrange(0, i as int));
        let p = &m.params[i];
        match rust_to_python_type(owner, &p.ty) {
            Some(ty) => {
                let mut a = String::from_str(p.name.as_str());
                a.append(": ");
                a.append(ty.as_str());
                args.push(a);
                assert(texts(args@) =~= texts(prev).push(a@));
            },
            None => {},
        }
        assert(texts(args@) =~= start + param_texts(owner@, sub));
        i = i + 1;
    }
    assert(m.params@.subrange(0, m.params@.len() as int) == m.params@);
    if m.is_static {
        assert(texts(args@) =~= param_texts(owner@, m.params@));
    }
    args
}

fn return_to_python(owner: &str, m: &Method) -> (r: String)
    ensures
        r@ == return_text(owner@, *m),
{
    if same_text(m.name.as_str(), "__init__") {
        return String::from_str("None");
    }
    match &m.ret {
        None => String::from_str("None"),
        Some(t) => match rust_to_python_type(owner, t) {
            Some(s) => s,
            None => String::from_str("None"),
        },
    }
}

/// The signature of method `m` of the declaration named `owner`.
pub fn method_signature(owner: &str, m: &Method) -> (r: String)
    ensures
        r@ == signature_text(owner@, *m),
{
    let doc = extract_doc_comments(&m.docs, "        ", " ...");
    let args = params_to_python(owner, m);
    let ret = return_to_python(owner, m);
    let mut r = if m.is_static {
        String::from_str("    @staticmethod\n")
    } else {
        String::from_str("")
    };
    r.append("    def ");
    r.append(m.name.as_str());
    r.append("(");
    let joined_args = join(&args, ", ");
    r.append(joined_args.as_str());
    r.append(") -> ");
    r.append(ret.as_str());
    r.append(":");
    r.append(doc.as_str());
    r
}


/// Each method's name, with its signature.
pub open spec fn method_entries(owner: Seq<char>, methods: Seq<Method>) -> Seq<
    (Seq<char>, Seq<char>),
> {
    methods.map_values(|m: Method| (m.name@, signature_text(owner, m)))
}

/// The block of a method collection: the signatures sorted by method name,
/// with a blank line between each two.
pub open spec fn impl_text(owner: Seq<char>, methods: Seq<Method>) -> Seq<char> {
    "\n\n"@ + joined(
        sort_by_name(method_entries(owner, methods)).map_values(
            |e: (Seq<char>, Seq<char>)| e.1,
        ),
        "\n\n"@,
    )
}

/// The block of the method collection `item`, without writing it.
pub fn impl_block(item: &MethodCollection) -> (r: String)
    ensures
        r@ == impl_text(item.owner@, item.methods@),
{
    let owner = item.owner.as_str();
    let mut entries: Vec<(String, String)> = Vec::new();
    let mut i: usize = 0;
    while i < item.methods.len()
        invariant
            owner@ == item.owner@,
            i <= item.methods@.len(),
            entry_views(entries@) == method_entries(item.owner@, item.methods@.subrange(0, i as int)),
        decreases item.methods@.len() - i,
    {
        let ghost prev = entries@;
        let m = &item.methods[i];
        let sig = method_signature(owner, m);
        entries.push((m.name.clone(), sig));
        assert(entry_views(entries@) =~= entry_views(prev).push((m.name@, sig@)));
        assert(entry_views(entries@) =~= method_entries(item.owner@, item.methods@.subrange(0, i + 1)));
        i = i + 1;
    }
    assert(item.methods@.subrange(0, item.methods@.len() as int) == item.methods@);
    let sorted = sort_by_name_exec(&entries);
    let ghost sorted_views = sort_by_name(method_entries(item.owner@, item.methods@));
    let mut signatures: Vec<String> = Vec::new();
    let mut k: usize = 0;
    while k < sorted.len()
        invariant
            k <= sorted@.len(),
            entry_views(sorted@) == sorted_views,
            texts(signatures@) == sorted_views.subrange(0, k as int).map_values(
                |e: (Seq<char>, Seq<char>)| e.1,
            ),
        decreases sorted@.len() - k,
    {
        let ghost prev = signatures@;
        let sig = sorted[k].1.clone();
        assert(sig@ == sorted_views[k as int].1);
        signatures.push(sig);
        assert(texts(signatures@) =~= texts(prev).push(sig@));
        assert(texts(signatures@) =~= sorted_views.subrange(0, k + 1).map_values(
            |e: (Seq<char>, Seq<char>)| e.1,
        ));
        k = k + 1;
    }
    assert(sorted_views.subrange(0, sorted@.len() as int) == sorted_views);
    let body = join(&signatures, "\n\n");
    let mut r = String::from_str("\n\n");
    r.append(body.as_str());
    r
}

/// Writes the block of the method collection `item` to `sink` and returns the
/// text to append to the file; a collection without methods writes nothing.
pub fn pyi_impl(item: &MethodCollection, sink: &mut StubSink) -> (r: Option<String>)
    requires
        old(sink).wf(),
    ensures
        final(sink).wf(),
        item.methods@.len() == 0 ==> r is None && final(sink)@ == old(sink)@,
        item.methods@.len() > 0 ==> r is Some && final(sink)@ == old(sink)@.push(
            impl_text(item.owner@, item.methods@),
        ) && crate::sink::file_text(old(sink)@) + r.unwrap()@ == crate::sink::file_text(
            final(sink)@,
        ),
{
    if item.methods.len() == 0 {
        return None;
    }
    let block = impl_block(item);
    Some(sink.write_file(block))
}


proof fn lemma_field_lines_step(owner: Seq<char>, fields: Seq<Field>)
    requires
        fields.len() > 0,
    ensures
        field_lines(owner, fields) == (if fields.last().exported {
            field_lines(owner, fields.drop_last()).push(field_line(owner, fields.last()))
        } else {
            field_lines(owner, fields.drop_last())
        }),
{
}

proof fn lemma_exported_shown(owner: Seq<char>, fields: Seq<Field>, i: int)
    requires
        0 <= i < fields.len(),
        fields[i].exported,
    ensures
        field_lines(owner, fields).contains(field_line(owner, fields[i])),
    decreases fields.len(),
{
    let t = fields.drop_last();
    lemma_field_lines_step(owner, fields);
    let l = field_lines(owner, fields);
    if i < t.len() {
        assert(t[i] == fields[i]);
        lemma_exported_shown(owner, t, i);
        let lt = field_lines(owner, t);
        let k = choose|k: int| 0 <= k < lt.len() && lt[k] == field_line(owner, t[i]);
        assert(l[k] == lt[k]);
    } else {
        assert(l[l.len() - 1] == field_line(owner, fields[i]));
    }
}

proof fn lemma_lines_of_exported(owner: Seq<char>, fields: Seq<Field>)
    ensures
        field_lines(owner, fields) == fields.filter(|f: Field| f.exported).map_values(
            |f: Field| field_line(owner, f),
        ),
    decreases fields.len(),
{
    reveal(Seq::filter);
    if fields.len() > 0 {
        let t = fields.drop_last();
        lemma_field_lines_step(owner, fields);
        lemma_lines_of_exported(owner, t);
        let ft = t.filter(|f: Field| f.exported);
        assert(fields.filter(|f: Field| f.exported) == if fields.last().exported {
            ft.push(fields.last())
        } else {
            ft
        });
        if fields.last().exported {
            assert(ft.push(fields.last()).map_values(|f: Field| field_line(owner, f)) =~= ft.map_values(
                |f: Field| field_line(owner, f),
            ).push(field_line(owner, fields.last())));
        }
    } else {
        assert(fields.filter(|f: Field| f.exported).len() == 0);
        assert(field_lines(owner, fields) =~= Seq::<Seq<char>>::empty());
    }
}

/// A field with the external-binding marker always has its line in the record
/// block, with `Any` where its type has no rendering, and every line of the
/// block belongs to such a field, in order: an unmarked field never shows.
pub proof fn lemma_field_exclusion(owner: Seq<char>, fields: Seq<Field>)
    ensures
        forall|i: int|
            0 <= i < fields.len() && (#[trigger] fields[i]).exported ==> field_lines(
                owner,
                fields,
            ).contains(field_line(owner, fields[i])),
        field_lines(owner, fields) == fields.filter(|f: Field| f.exported).map_values(
            |f: Field| field_line(owner, f),
        ),
        forall|i: int|
            0 <= i < fields.len() && type_text(owner, (#[trigger] fields[i]).ty) is None
                ==> field_line(owner, fields[i]) == "    "@ + fields[i].name@ + ": "@ + "Any"@
                + member_doc(fields[i].docs@),
{
    assert forall|i: int| 0 <= i < fields.len() && (#[trigger] fields[i]).exported implies field_lines(
        owner,
        fields,
    ).contains(field_line(owner, fields[i])) by {
        lemma_exported_shown(owner, fields, i);
    }
    lemma_lines_of_exported(owner, fields);
}

/// The initializer returns `None`, whatever return type it declares.
pub proof fn lemma_init_returns_none(owner: Seq<char>, m: Method)
    requires
        m.name@ == "__init__"@,
    ensures
        return_text(owner, m) == "None"@,
{
}

/// A static method's signature starts with the decoration line and its
/// parameters are the annotated ones alone; an instance method's signature has
/// no decoration and its first parameter is a bare `self`.
pub proof fn lemma_static_signature(owner: Seq<char>, m: Method)
    ensures
        signature_text(owner, m).subrange(0, static_prefix(m).len() as int) == static_prefix(m),
        m.is_static ==> static_prefix(m) == "    @staticmethod\n"@ && arg_texts(owner, m)
            == param_texts(owner, m.params@),
        !m.is_static ==> static_prefix(m) == Seq::<char>::empty() && arg_texts(owner, m)[0]
            == "self"@ && arg_texts(owner, m).drop_first() == param_texts(owner, m.params@),
{
    let sig = signature_text(owner, m);
    assert(sig.subrange(0, static_prefix(m).len() as int) =~= static_prefix(m));
    if !m.is_static {
        reveal_strlit("");
        assert(arg_texts(owner, m).drop_first() =~= param_texts(owner, m.params@));
    }
}

/// However the methods are declared, the block lists them sorted by name, each
/// method once.
pub proof fn lemma_methods_by_name(owner: Seq<char>, methods: Seq<Method>)
    ensures
        names_sorted(sort_by_name(method_entries(owner, methods))),
        sort_by_name(method_entries(owner, methods)).to_multiset() == method_entries(
            owner,
            methods,
        ).to_multiset(),
{
    lemma_sorted_by_name(method_entries(owner, methods));
}


proof fn lemma_entries_permuted(owner: Seq<char>, m1: Seq<Method>, m2: Seq<Method>)
    requires
        m1.to_multiset() == m2.to_multiset(),
    ensures
        method_entries(owner, m1).to_multiset() == method_entries(owner, m2).to_multiset(),
    decreases m1.len(),
{
    broadcast use vstd::seq_lib::group_to_multiset_ensures;
    broadcast use vstd::seq_lib::to_multiset_remove;

    let e1 = method_entries(owner, m1);
    let e2 = method_entries(owner, m2);
    if m1.len() == 0 {
        assert(m2.len() == m2.to_multiset().len());
        assert(e1 =~= Seq::empty());
        assert(e2 =~= Seq::empty());
    } else {
        let e = m1.last();
        let t = m1.drop_last();
        assert(m1 =~= t.push(e));
        assert(m1.to_multiset().count(e) > 0);
        assert(m2.contains(e));
        let k = choose|k: int| 0 <= k < m2.len() && m2[k] == e;
        let m2r = m2.remove(k);
        assert(t.to_multiset() =~= m1.to_multiset().remove(e));
        assert(m2r.to_multiset() == m2.to_multiset().remove(m2[k]));
        lemma_entries_permuted(owner, t, m2r);
        let x = (e.name@, signature_text(owner, e));
        assert(method_entries(owner, m2r) =~= e2.remove(k));
        assert(e2[k] == x);
        assert(method_entries(owner, m2r).to_multiset() == e2.to_multiset().remove(x));
        assert(e1 =~= method_entries(owner, t).push(x));
        assert(e2.to_multiset().count(x) > 0);
        assert(e1.to_multiset() =~= e2.to_multiset());
    }
}

/// Two orderings of the same methods, no two of which share a name, give the
/// same block: the methods come out by name whatever their declared order.
pub proof fn lemma_method_order_independent(owner: Seq<char>, m1: Seq<Method>, m2: Seq<Method>)
    requires
        m1.to_multiset() == m2.to_multiset(),
        forall|i: int, j: int| 0 <= i < j < m1.len() ==> #[trigger] m1[i].name@ != #[trigger] m1[j].name@,
        forall|i: int, j: int| 0 <= i < j < m2.len() ==> #[trigger] m2[i].name@ != #[trigger] m2[j].name@,
    ensures
        impl_text(owner, m1) == impl_text(owner, m2),
{
    lemma_entries_permuted(owner, m1, m2);
    let e1 = method_entries(owner, m1);
    let e2 = method_entries(owner, m2);
    assert forall|i: int, j: int| 0 <= i < j < e1.len() implies #[trigger] e1[i].0 != #[trigger] e1[j].0 by {
        assert(e1[i].0 == m1[i].name@ && e1[j].0 == m1[j].name@);
    }
    assert forall|i: int, j: int| 0 <= i < j < e2.len() implies #[trigger] e2[i].0 != #[trigger] e2[j].0 by {
        assert(e2[i].0 == m2[i].name@ && e2[j].0 == m2[j].name@);
    }
    lemma_order_independent(e1, e2);
}

} // verus!
