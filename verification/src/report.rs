//! What a page script run hands back to the host: the document as nested
//! map values, the script's value, and the console lines; and the list of
//! browser APIs that the page bindings offer.

use vstd::prelude::*;

use crate::document::{
    attrs_view, document_view, lemma_nodes_view, node_view, nodes_view, Document, Node, NodeV,
};
use crate::url::PairV;
use crate::call_args::str_result;
use crate::text::{nat_digits, u64_text};
use crate::value::{
    clone_value, entries_view, kind_name_spec, lemma_entries_view_ext, lemma_values_view,
    lemma_values_view_ext, put, value_view, values_view, Value, ValueV,
};

verus! {

/// A node as a map value: `{type: "text", text}` or
/// `{type: "element", tag, attrs, children}`.
pub open spec fn node_value_spec(v: NodeV) -> ValueV
    decreases v,
{
    match v {
        NodeV::Text(t) => ValueV::Dict(seq![("type"@, ValueV::Str("text"@)), ("text"@, ValueV::Str(t))]),
        NodeV::Element { tag, attrs, children } => ValueV::Dict(seq![
            ("type"@, ValueV::Str("element"@)),
            ("tag"@, ValueV::Str(tag)),
            ("attrs"@, ValueV::Dict(attrs.map(|i: int, a: PairV| (a.0, ValueV::Str(a.1))))),
            ("children"@, ValueV::List(nodes_value_spec(children))),
        ]),
    }
}

pub open spec fn nodes_value_spec(cs: Seq<NodeV>) -> Seq<ValueV>
    decreases cs,
{
    if cs.len() == 0 {
        Seq::empty()
    } else {
        nodes_value_spec(cs.drop_last()).push(node_value_spec(cs.last()))
    }
}

proof fn lemma_nodes_value(cs: Seq<NodeV>)
    ensures
        nodes_value_spec(cs).len() == cs.len(),
        forall|i: int| 0 <= i < cs.len() ==> #[trigger] nodes_value_spec(cs)[i] == node_value_spec(cs[i]),
    decreases cs.len(),
{
    if cs.len() > 0 {
        lemma_nodes_value(cs.drop_last());
    }
}

/// A node as a map value.
pub fn node_value(node: &Node) -> (r: Value)
    ensures
        r@ == node_value_spec(node_view(*node)),
    decreases node,
{
    let mut es: Vec<(String, Value)> = Vec::new();
    assert(es@ =~= Seq::<(String, Value)>::empty());
    match node {
        Node::Text(t) => {
            put(&mut es, "type", Value::Str(String::from_str("text")));
            put(&mut es, "text", Value::Str(t.clone()));
            assert(entries_view(es@) =~= node_value_spec(node_view(*node))->Dict_0);
        },
        Node::Element(el) => {
            let mut attrs: Vec<(String, Value)> = Vec::new();
            for i in 0..el.attrs.len()
                invariant
                    attrs.len() == i,
                    i <= el.attrs.len(),
                    forall|j: int| 0 <= j < i ==> (#[trigger] attrs@[j]).0@ == el.attrs@[j].0@ && value_view(attrs@[j].1) == ValueV::Str(el.attrs@[j].1@),
            {
                attrs.push((el.attrs[i].0.clone(), Value::Str(el.attrs[i].1.clone())));
            }
            proof {
                lemma_entries_view_ext(attrs@, attrs_view(el.attrs@).map(|i: int, a: PairV| (a.0, ValueV::Str(a.1))));
                lemma_nodes_view(el.children@);
            }
            let ghost cs = nodes_view(el.children@);
            let mut children: Vec<Value> = Vec::new();
            for i in 0..el.children.len()
                invariant
                    *node == Node::Element(*el),
                    cs == nodes_view(el.children@),
                    cs.len() == el.children@.len(),
                    forall|j: int| 0 <= j < cs.len() ==> #[trigger] cs[j] == node_view(el.children@[j]),
                    children.len() == i,
                    i <= el.children.len(),
                    forall|j: int| 0 <= j < i ==> value_view(#[trigger] children@[j]) == node_value_spec(cs[j]),
            {
                proof {
                    assert(decreases_to!(*node => (*node)->Element_0));
                    assert(decreases_to!((*node)->Element_0 => (*node)->Element_0.children));
                    assert(decreases_to!((*node)->Element_0.children => (*node)->Element_0.children@));
                    assert(decreases_to!((*node)->Element_0.children@ => (*node)->Element_0.children@[i as int]));
                }
                let v = node_value(&el.children[i]);
                children.push(v);
            }
            proof {
                lemma_nodes_value(cs);
                lemma_values_view_ext(children@, nodes_value_spec(cs));
            }
            put(&mut es, "type", Value::Str(String::from_str("element")));
            put(&mut es, "tag", Value::Str(el.tag.clone()));
            put(&mut es, "attrs", Value::Dict(attrs));
            put(&mut es, "children", Value::List(children));
            assert(entries_view(es@) =~= node_value_spec(node_view(*node))->Dict_0);
        },
    }
    Value::Dict(es)
}

/// A document as a list of node values.
pub fn document_value(document: &Document) -> (r: Value)
    ensures
        r@ == ValueV::List(nodes_value_spec(document_view(*document))),
{
    proof {
        lemma_nodes_view(document.children@);
    }
    let ghost cs = document_view(*document);
    let mut out: Vec<Value> = Vec::new();
    for i in 0..document.children.len()
        invariant
            cs == document_view(*document),
            cs.len() == document.children@.len(),
            forall|j: int| 0 <= j < cs.len() ==> #[trigger] cs[j] == node_view(document.children@[j]),
            out.len() == i,
            i <= document.children.len(),
            forall|j: int| 0 <= j < i ==> value_view(#[trigger] out@[j]) == node_value_spec(cs[j]),
    {
        out.push(node_value(&document.children[i]));
    }
    proof {
        lemma_nodes_value(cs);
        lemma_values_view_ext(out@, nodes_value_spec(cs));
    }
    Value::List(out)
}

/// The outcome of running page scripts: the final document, the value of
/// the last script (as a host value) and the console lines.
#[derive(Debug)]
pub struct BrowserJsResult {
    pub document: Document,
    pub value: Value,
    pub console: Vec<String>,
}

/// `{dom, value, console}` of a script run.
pub open spec fn result_value_spec(doc: Seq<NodeV>, value: ValueV, console: Seq<Seq<char>>) -> ValueV {
    ValueV::Dict(seq![
        ("dom"@, ValueV::List(nodes_value_spec(doc))),
        ("value"@, value),
        ("console"@, ValueV::List(console.map(|i: int, s: Seq<char>| ValueV::Str(s)))),
    ])
}

pub fn result_to_value(result: BrowserJsResult) -> (r: Value)
    ensures
        r@ == result_value_spec(
            document_view(result.document),
            result.value@,
            result.console@.map(|i: int, s: String| s@),
        ),
{
    let dom = document_value(&result.document);
    let mut lines: Vec<Value> = Vec::new();
    for i in 0..result.console.len()
        invariant
            lines.len() == i,
            i <= result.console.len(),
            forall|j: int| 0 <= j < i ==> value_view(#[trigger] lines@[j]) == ValueV::Str(result.console@[j]@),
    {
        lines.push(Value::Str(result.console[i].clone()));
    }
    proof {
        lemma_values_view_ext(
            lines@,
            result.console@.map(|i: int, s: String| s@).map(|i: int, s: Seq<char>| ValueV::Str(s)),
        );
    }
    let mut es: Vec<(String, Value)> = Vec::new();
    assert(es@ =~= Seq::<(String, Value)>::empty());
    put(&mut es, "dom", dom);
    put(&mut es, "value", clone_value(&result.value));
    put(&mut es, "console", Value::List(lines));
    assert(entries_view(es@) =~= result_value_spec(
        document_view(result.document),
        result.value@,
        result.console@.map(|i: int, s: String| s@),
    )->Dict_0);
    Value::Dict(es)
}

/// The browser APIs that the page bindings offer.
pub open spec fn compatibility_features() -> Seq<Seq<char>> {
    seq![
        "document"@, "window"@, "self"@, "selectors"@, "attributes"@, "textContent"@,
        "innerHTML"@, "createElement"@, "append"@, "remove"@, "events"@, "this"@, "typeof"@,
        "functionExpressions"@, "forLoops"@, "location"@, "URL"@, "URLSearchParams"@,
        "navigator"@, "setTimeout"@, "clearTimeout"@, "deterministicTimers"@, "localStorage"@,
        "sessionStorage"@, "Storage.getItem"@, "Storage.setItem"@, "Storage.removeItem"@,
        "Storage.clear"@, "Storage.key"@, "Storage.length"@, "fetch"@, "Headers"@, "Response"@,
        "Response.text"@, "Response.json"@,
    ]
}

/// The list of supported browser APIs, as a list of strings; arguments are
/// ignored.
pub fn compatibility_report_to_value(_args: &[Value]) -> (r: Result<Value, String>)
    ensures
        (r matches Ok(v) && v@ == ValueV::List(compatibility_features().map(|i: int, s: Seq<char>| ValueV::Str(s)))),
{
    let names: [&str; 35] = [
        "document", "window", "self", "selectors", "attributes", "textContent", "innerHTML",
        "createElement", "append", "remove", "events", "this", "typeof", "functionExpressions",
        "forLoops", "location", "URL", "URLSearchParams", "navigator", "setTimeout",
        "clearTimeout", "deterministicTimers", "localStorage", "sessionStorage",
        "Storage.getItem", "Storage.setItem", "Storage.removeItem", "Storage.clear",
        "Storage.key", "Storage.length", "fetch", "Headers", "Response", "Response.text",
        "Response.json",
    ];
    let mut out: Vec<Value> = Vec::new();
    for i in 0..35
        invariant
            out.len() == i,
            i <= 35,
            names@ == seq![
                "document", "window", "self", "selectors", "attributes", "textContent", "innerHTML",
                "createElement", "append", "remove", "events", "this", "typeof", "functionExpressions",
                "forLoops", "location", "URL", "URLSearchParams", "navigator", "setTimeout",
                "clearTimeout", "deterministicTimers", "localStorage", "sessionStorage",
                "Storage.getItem", "Storage.setItem", "Storage.removeItem", "Storage.clear",
                "Storage.key", "Storage.length", "fetch", "Headers", "Response", "Response.text",
                "Response.json",
            ],
            forall|j: int| 0 <= j < i ==> value_view(#[trigger] out@[j]) == ValueV::Str(names@[j]@),
    {
        out.push(Value::Str(String::from_str(names[i])));
    }
    proof {
        let want = compatibility_features().map(|i: int, s: Seq<char>| ValueV::Str(s));
        assert forall|j: int| 0 <= j < 35 implies value_view(#[trigger] out@[j]) == want[j] by {}
        lemma_values_view_ext(out@, want);
    }
    Ok(Value::List(out))
}


/// The page text that `browser_run_scripts` takes: exactly one string.
pub open spec fn run_scripts_args_spec(args: Seq<ValueV>) -> Result<Seq<char>, Seq<char>> {
    if args.len() != 1 {
        Err("browser_run_scripts: expected 1 arg, got "@ + nat_digits(args.len()))
    } else {
        match args[0] {
            ValueV::Str(h) => Ok(h),
            v => Err("browser_run_scripts: expected str, got "@ + kind_name_spec(v)),
        }
    }
}

/// Checks the arguments of `browser_run_scripts`.
pub fn run_scripts_args(args: &[Value]) -> (r: Result<String, String>)
    ensures
        str_result(r) == run_scripts_args_spec(values_view(args@)),
{
    proof {
        lemma_values_view(args@);
    }
    if args.len() != 1 {
        let mut e = String::from_str("browser_run_scripts: expected 1 arg, got ");
        e.append(u64_text(args.len() as u64).as_str());
        return Err(e);
    }
    match &args[0] {
        Value::Str(h) => Ok(h.clone()),
        other => {
            let mut e = String::from_str("browser_run_scripts: expected str, got ");
            e.append(other.kind_name().as_str());
            Err(e)
        },
    }
}

/// The page text and script that `browser_eval_js` takes: two strings.
pub open spec fn eval_js_args_spec(args: Seq<ValueV>) -> Result<(Seq<char>, Seq<char>), Seq<char>> {
    if args.len() != 2 {
        Err("browser_eval_js: expected 2 args, got "@ + nat_digits(args.len()))
    } else {
        match args[0] {
            ValueV::Str(h) => match args[1] {
                ValueV::Str(s) => Ok((h, s)),
                v => Err("browser_eval_js: script must be str, got "@ + kind_name_spec(v)),
            },
            v => Err("browser_eval_js: html must be str, got "@ + kind_name_spec(v)),
        }
    }
}

pub open spec fn pair_result(r: Result<(String, String), String>) -> Result<(Seq<char>, Seq<char>), Seq<char>> {
    match r {
        Ok((a, b)) => Ok((a@, b@)),
        Err(e) => Err(e@),
    }
}

/// Checks the arguments of `browser_eval_js`.
pub fn eval_js_args(args: &[Value]) -> (r: Result<(String, String), String>)
    ensures
        pair_result(r) == eval_js_args_spec(values_view(args@)),
{
    proof {
        lemma_values_view(args@);
    }
    if args.len() != 2 {
        let mut e = String::from_str("browser_eval_js: expected 2 args, got ");
        e.append(u64_text(args.len() as u64).as_str());
        return Err(e);
    }
    let html = match &args[0] {
        Value::Str(h) => h.clone(),
        other => {
            let mut e = String::from_str("browser_eval_js: html must be str, got ");
            e.append(other.kind_name().as_str());
            return Err(e);
        },
    };
    match &args[1] {
        Value::Str(s) => Ok((html, s.clone())),
        other => {
            let mut e = String::from_str("browser_eval_js: script must be str, got ");
            e.append(other.kind_name().as_str());
            Err(e)
        },
    }
}

} // verus!
