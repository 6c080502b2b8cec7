//! The dynamic value exchanged with the scripting host: nil, booleans,
//! integers, strings, lists and string-keyed maps. Maps keep their entries
//! in insertion order; the library builds them with distinct keys, and a
//! lookup finds the first entry with the key.

use vstd::prelude::*;
use crate::text::{i64_text, int_text, push_char};

verus! {

/// A host value.
#[derive(Debug)]
pub enum Value {
    Nil,
    Bool(bool),
    Int(i64),
    Str(String),
    List(Vec<Value>),
    Dict(Vec<(String, Value)>),
}

/// Mathematical value of a host value.
pub enum ValueV {
    Nil,
    Bool(bool),
    Int(int),
    Str(Seq<char>),
    List(Seq<ValueV>),
    Dict(Seq<(Seq<char>, ValueV)>),
}

pub open spec fn value_view(v: Value) -> ValueV
    decreases v,
{
    match v {
        Value::Nil => ValueV::Nil,
        Value::Bool(b) => ValueV::Bool(b),
        Value::Int(n) => ValueV::Int(n as int),
        Value::Str(s) => ValueV::Str(s@),
        Value::List(xs) => ValueV::List(values_view(xs@)),
        Value::Dict(es) => ValueV::Dict(entries_view(es@)),
    }
}

pub open spec fn values_view(s: Seq<Value>) -> Seq<ValueV>
    decreases s,
{
    if s.len() == 0 {
        Seq::empty()
    } else {
        values_view(s.drop_last()).push(value_view(s.last()))
    }
}

pub open spec fn entries_view(s: Seq<(String, Value)>) -> Seq<(Seq<char>, ValueV)>
    decreases s,
{
    if s.len() == 0 {
        Seq::empty()
    } else {
        entries_view(s.drop_last()).push((s.last().0@, value_view(s.last().1)))
    }
}

impl View for Value {
    type V = ValueV;

    open spec fn view(&self) -> ValueV {
        value_view(*self)
    }
}

pub proof fn lemma_values_view(s: Seq<Value>)
    ensures
        values_view(s).len() == s.len(),
        forall|i: int| 0 <= i < s.len() ==> #[trigger] values_view(s)[i] == value_view(s[i]),
    decreases s.len(),
{
    if s.len() > 0 {
        lemma_values_view(s.drop_last());
    }
}

pub proof fn lemma_entries_view(s: Seq<(String, Value)>)
    ensures
        entries_view(s).len() == s.len(),
        forall|i: int| 0 <= i < s.len() ==> #[trigger] entries_view(s)[i] == (s[i].0@, value_view(s[i].1)),
    decreases s.len(),
{
    if s.len() > 0 {
        lemma_entries_view(s.drop_last());
    }
}

/// A list of values whose views are given pointwise has that view.
pub proof fn lemma_values_view_ext(a: Seq<Value>, b: Seq<ValueV>)
    requires
        a.len() == b.len(),
        forall|i: int| 0 <= i < a.len() ==> value_view(#[trigger] a[i]) == b[i],
    ensures
        values_view(a) == b,
{
    lemma_values_view(a);
    assert(values_view(a) =~= b);
}

/// Entries whose views are given pointwise have that view.
pub proof fn lemma_entries_view_ext(a: Seq<(String, Value)>, b: Seq<(Seq<char>, ValueV)>)
    requires
        a.len() == b.len(),
        forall|i: int| 0 <= i < a.len() ==> (#[trigger] a[i]).0@ == b[i].0 && value_view(a[i].1) == b[i].1,
    ensures
        entries_view(a) == b,
{
    lemma_entries_view(a);
    assert(entries_view(a) =~= b);
}

/// Deep copy of a value.
pub fn clone_value(v: &Value) -> (r: Value)
    ensures
        r@ == v@,
    decreases v,
{
    match v {
        Value::Nil => Value::Nil,
        Value::Bool(b) => Value::Bool(*b),
        Value::Int(n) => Value::Int(*n),
        Value::Str(s) => Value::Str(s.clone()),
        Value::List(xs) => {
            let mut out: Vec<Value> = Vec::new();
            for i in 0..xs.len()
                invariant
                    out.len() == i,
                    i <= xs.len(),
                    *v == Value::List(*xs),
                    forall|j: int| 0 <= j < i ==> value_view(#[trigger] out@[j]) == value_view(xs@[j]),
            {
                proof {
                    assert(decreases_to!(*v => (*v)->List_0));
                    assert(decreases_to!((*v)->List_0 => (*v)->List_0@));
                    assert(decreases_to!((*v)->List_0@ => (*v)->List_0@[i as int]));
                }
                let c = clone_value(&xs[i]);
                out.push(c);
            }
            proof {
                lemma_values_view(xs@);
                lemma_values_view_ext(out@, values_view(xs@));
            }
            Value::List(out)
        },
        Value::Dict(es) => {
            let mut out: Vec<(String, Value)> = Vec::new();
            for i in 0..es.len()
                invariant
                    out.len() == i,
                    i <= es.len(),
                    *v == Value::Dict(*es),
                    forall|j: int| 0 <= j < i ==> (#[trigger] out@[j]).0@ == es@[j].0@ && value_view(out@[j].1) == value_view(es@[j].1),
            {
                proof {
                    assert(decreases_to!(*v => (*v)->Dict_0));
                    assert(decreases_to!((*v)->Dict_0 => (*v)->Dict_0@));
                    assert(decreases_to!((*v)->Dict_0@ => (*v)->Dict_0@[i as int]));
                    assert(decreases_to!((*v)->Dict_0@[i as int] => (*v)->Dict_0@[i as int].1));
                }
                let c = clone_value(&es[i].1);
                out.push((es[i].0.clone(), c));
            }
            proof {
                lemma_entries_view(es@);
                lemma_entries_view_ext(out@, entries_view(es@));
            }
            Value::Dict(out)
        },
    }
}


/// The name of a value's type, as reported in argument errors.
pub open spec fn kind_name_spec(v: ValueV) -> Seq<char> {
    match v {
        ValueV::Nil => "nil"@,
        ValueV::Bool(_) => "bool"@,
        ValueV::Int(_) => "int"@,
        ValueV::Str(_) => "str"@,
        ValueV::List(_) => "list"@,
        ValueV::Dict(_) => "map"@,
    }
}

impl Value {
    /// The name of the value's type.
    pub fn kind_name(&self) -> (r: String)
        ensures
            r@ == kind_name_spec(self@),
    {
        match self {
            Value::Nil => String::from_str("nil"),
            Value::Bool(_) => String::from_str("bool"),
            Value::Int(_) => String::from_str("int"),
            Value::Str(_) => String::from_str("str"),
            Value::List(_) => String::from_str("list"),
            Value::Dict(_) => String::from_str("map"),
        }
    }
}

/// The value stored under `k`: that of the first entry with that key.
pub open spec fn dict_get(es: Seq<(Seq<char>, ValueV)>, k: Seq<char>) -> Option<ValueV>
    decreases es.len(),
{
    if es.len() == 0 {
        None
    } else if es[0].0 == k {
        Some(es[0].1)
    } else {
        dict_get(es.drop_first(), k)
    }
}

/// Looks a key up in map entries.
pub fn lookup<'a>(es: &'a Vec<(String, Value)>, k: &str) -> (r: Option<&'a Value>)
    ensures
        r matches Some(v) ==> dict_get(entries_view(es@), k@) == Some(v@),
        r is None ==> dict_get(entries_view(es@), k@) is None,
{
    proof {
        lemma_entries_view(es@);
    }
    let key = String::from_str(k);
    let mut i: usize = 0;
    assert(entries_view(es@).skip(0) =~= entries_view(es@));
    while i < es.len()
        invariant
            i <= es@.len(),
            entries_view(es@).len() == es@.len(),
            key@ == k@,
            dict_get(entries_view(es@), k@) == dict_get(entries_view(es@).skip(i as int), k@),
        decreases es.len() - i,
    {
        let ghost rest = entries_view(es@).skip(i as int);
        proof {
            lemma_entries_view(es@);
        }
        assert(rest.len() > 0);
        assert(rest[0] == entries_view(es@)[i as int]);
        assert(entries_view(es@)[i as int] == (es@[i as int].0@, value_view(es@[i as int].1)));
        if es[i].0 == key {
            return Some(&es[i].1);
        }
        assert(rest.drop_first() =~= entries_view(es@).skip(i + 1));
        i = i + 1;
    }
    None
}

/// Appends an entry to map entries under construction.
pub fn put(es: &mut Vec<(String, Value)>, k: &str, v: Value)
    ensures
        entries_view(final(es)@) == entries_view(old(es)@).push((k@, v@)),
{
    let ghost before = es@;
    es.push((String::from_str(k), v));
    assert(es@.drop_last() =~= before);
}

/// A list of strings as a list value.
pub open spec fn str_list_view(values: Seq<Seq<char>>) -> ValueV {
    ValueV::List(values.map(|i: int, s: Seq<char>| ValueV::Str(s)))
}

pub open spec fn strings_view(values: Seq<String>) -> Seq<Seq<char>> {
    values.map(|i: int, s: String| s@)
}

/// A list value of the given strings.
pub fn list_str(values: &Vec<String>) -> (r: Value)
    ensures
        r@ == str_list_view(strings_view(values@)),
{
    let mut out: Vec<Value> = Vec::new();
    for i in 0..values.len()
        invariant
            out.len() == i,
            i <= values.len(),
            forall|j: int| 0 <= j < i ==> value_view(#[trigger] out@[j]) == ValueV::Str(values@[j]@),
    {
        out.push(Value::Str(values[i].clone()));
    }
    proof {
        lemma_values_view_ext(out@, strings_view(values@).map(|i: int, s: Seq<char>| ValueV::Str(s)));
    }
    Value::List(out)
}

/// An optional string as a value: the string, or nil.
pub open spec fn opt_str_view(v: Option<Seq<char>>) -> ValueV {
    match v {
        Some(s) => ValueV::Str(s),
        None => ValueV::Nil,
    }
}

pub open spec fn opt_view(v: Option<String>) -> Option<Seq<char>> {
    match v {
        Some(s) => Some(s@),
        None => None,
    }
}

pub fn opt_str(v: &Option<String>) -> (r: Value)
    ensures
        r@ == opt_str_view(opt_view(*v)),
{
    match v {
        Some(s) => Value::Str(s.clone()),
        None => Value::Nil,
    }
}


/// Text of a value: strings as they are, integers in decimal, `nil`,
/// `true`/`false`, lists as `[a, b]` and maps as `{k: v}`.
pub open spec fn display_spec(v: ValueV) -> Seq<char>
    decreases v,
{
    match v {
        ValueV::Nil => "nil"@,
        ValueV::Bool(b) => if b { "true"@ } else { "false"@ },
        ValueV::Int(n) => int_text(n),
        ValueV::Str(s) => s,
        ValueV::List(xs) => seq!['['] + display_items(xs) + seq![']'],
        ValueV::Dict(es) => seq!['{'] + display_entries(es) + seq!['}'],
    }
}

pub open spec fn display_items(xs: Seq<ValueV>) -> Seq<char>
    decreases xs,
{
    if xs.len() == 0 {
        Seq::empty()
    } else if xs.len() == 1 {
        display_spec(xs[0])
    } else {
        display_items(xs.drop_last()) + ", "@ + display_spec(xs.last())
    }
}

pub open spec fn display_entries(es: Seq<(Seq<char>, ValueV)>) -> Seq<char>
    decreases es,
{
    if es.len() == 0 {
        Seq::empty()
    } else if es.len() == 1 {
        es[0].0 + ": "@ + display_spec(es[0].1)
    } else {
        display_entries(es.drop_last()) + ", "@ + es.last().0 + ": "@ + display_spec(es.last().1)
    }
}

/// The text of a value.
pub fn display(v: &Value) -> (r: String)
    ensures
        r@ == display_spec(v@),
    decreases v,
{
    match v {
        Value::Nil => String::from_str("nil"),
        Value::Bool(b) => if *b { String::from_str("true") } else { String::from_str("false") },
        Value::Int(n) => i64_text(*n),
        Value::Str(s) => s.clone(),
        Value::List(xs) => {
            let ghost xv = values_view(xs@);
            proof {
                lemma_values_view(xs@);
            }
            let mut r = String::new();
            for i in 0..xs.len()
                invariant
                    *v == Value::List(*xs),
                    xv == values_view(xs@),
                    xv.len() == xs@.len(),
                    forall|j: int| 0 <= j < xs@.len() ==> #[trigger] xv[j] == value_view(xs@[j]),
                    r@ == display_items(xv.take(i as int)),
            {
                proof {
                    assert(decreases_to!(*v => (*v)->List_0));
                    assert(decreases_to!((*v)->List_0 => (*v)->List_0@));
                    assert(decreases_to!((*v)->List_0@ => (*v)->List_0@[i as int]));
                }
                if i > 0 {
                    r.append(", ");
                }
                let d = display(&xs[i]);
                r.append(d.as_str());
                assert(xv.take(i + 1).drop_last() =~= xv.take(i as int));
                assert(r@ =~= display_items(xv.take(i + 1)));
            }
            assert(xv.take(xs@.len() as int) =~= xv);
            let mut out = String::new();
            push_char(&mut out, '[');
            out.append(r.as_str());
            push_char(&mut out, ']');
            assert(out@ =~= seq!['['] + r@ + seq![']']);
            out
        },
        Value::Dict(es) => {
            let ghost ev = entries_view(es@);
            proof {
                lemma_entries_view(es@);
            }
            let mut r = String::new();
            for i in 0..es.len()
                invariant
                    *v == Value::Dict(*es),
                    ev == entries_view(es@),
                    ev.len() == es@.len(),
                    forall|j: int| 0 <= j < es@.len() ==> #[trigger] ev[j] == (es@[j].0@, value_view(es@[j].1)),
                    r@ == display_entries(ev.take(i as int)),
            {
                proof {
                    assert(decreases_to!(*v => (*v)->Dict_0));
                    assert(decreases_to!((*v)->Dict_0 => (*v)->Dict_0@));
                    assert(decreases_to!((*v)->Dict_0@ => (*v)->Dict_0@[i as int]));
                    assert(decreases_to!((*v)->Dict_0@[i as int] => (*v)->Dict_0@[i as int].1));
                }
                if i > 0 {
                    r.append(", ");
                }
                r.append(es[i].0.as_str());
                r.append(": ");
                let d = display(&es[i].1);
                r.append(d.as_str());
                assert(ev[i as int] == (es@[i as int].0@, value_view(es@[i as int].1)));
                assert(ev.take(i + 1).drop_last() =~= ev.take(i as int));
                assert(r@ =~= display_entries(ev.take(i + 1)));
            }
            assert(ev.take(es@.len() as int) =~= ev);
            let mut out = String::new();
            push_char(&mut out, '{');
            out.append(r.as_str());
            push_char(&mut out, '}');
            assert(out@ =~= seq!['{'] + r@ + seq!['}']);
            out
        },
    }
}


/// A hexadecimal digit, lower case.
pub open spec fn hex_digit(d: nat) -> char {
    if d < 10 { ((('0' as u32) + d) as char) } else { ((('a' as u32) + d - 10) as char) }
}

/// One character inside a JSON string literal.
pub open spec fn json_char(c: char) -> Seq<char> {
    if c == '"' {
        seq!['\\', '"']
    } else if c == '\\' {
        seq!['\\', '\\']
    } else if c == '\n' {
        seq!['\\', 'n']
    } else if c == '\r' {
        seq!['\\', 'r']
    } else if c == '\t' {
        seq!['\\', 't']
    } else if (c as u32) == 8 {
        seq!['\\', 'b']
    } else if (c as u32) == 12 {
        seq!['\\', 'f']
    } else if (c as u32) < 32 {
        seq!['\\', 'u', '0', '0', hex_digit((c as u32 / 16) as nat), hex_digit((c as u32 % 16) as nat)]
    } else {
        seq![c]
    }
}

pub open spec fn json_chars(s: Seq<char>) -> Seq<char>
    decreases s.len(),
{
    if s.len() == 0 {
        Seq::empty()
    } else {
        json_chars(s.drop_last()) + json_char(s.last())
    }
}

/// A JSON string literal.
pub open spec fn json_string(s: Seq<char>) -> Seq<char> {
    seq!['"'] + json_chars(s) + seq!['"']
}

/// The JSON text of a value: `null`, booleans, integers, strings, arrays,
/// and objects with their entries in order.
pub open spec fn json_spec(v: ValueV) -> Seq<char>
    decreases v,
{
    match v {
        ValueV::Nil => "null"@,
        ValueV::Bool(b) => if b { "true"@ } else { "false"@ },
        ValueV::Int(n) => int_text(n),
        ValueV::Str(s) => json_string(s),
        ValueV::List(xs) => seq!['['] + json_items(xs) + seq![']'],
        ValueV::Dict(es) => seq!['{'] + json_entries(es) + seq!['}'],
    }
}

pub open spec fn json_items(xs: Seq<ValueV>) -> Seq<char>
    decreases xs,
{
    if xs.len() == 0 {
        Seq::empty()
    } else if xs.len() == 1 {
        json_spec(xs[0])
    } else {
        json_items(xs.drop_last()) + seq![','] + json_spec(xs.last())
    }
}

pub open spec fn json_entries(es: Seq<(Seq<char>, ValueV)>) -> Seq<char>
    decreases es,
{
    if es.len() == 0 {
        Seq::empty()
    } else if es.len() == 1 {
        json_string(es[0].0) + seq![':'] + json_spec(es[0].1)
    } else {
        json_entries(es.drop_last()) + seq![','] + json_string(es.last().0) + seq![':'] + json_spec(es.last().1)
    }
}

fn hex_char(d: u32) -> (c: char)
    requires
        d < 16,
    ensures
        c == hex_digit(d as nat),
{
    if d < 10 {
        let b: u8 = d as u8;
        (b + 48) as char
    } else {
        let b: u8 = d as u8;
        (b + 87) as char
    }
}

/// A JSON string literal for `s`.
pub fn json_quote(s: &str) -> (r: String)
    ensures
        r@ == json_string(s@),
{
    let cs = crate::text::chars_of(s);
    let mut r = String::new();
    push_char(&mut r, '"');
    for i in 0..cs.len()
        invariant
            cs@ == s@,
            r@ == seq!['"'] + json_chars(s@.take(i as int)),
    {
        let c = cs[i];
        let code = c as u32;
        assert(s@.take(i + 1).drop_last() =~= s@.take(i as int));
        if c == '"' || c == '\\' {
            push_char(&mut r, '\\');
            push_char(&mut r, c);
        } else if c == '\n' {
            push_char(&mut r, '\\');
            push_char(&mut r, 'n');
        } else if c == '\r' {
            push_char(&mut r, '\\');
            push_char(&mut r, 'r');
        } else if c == '\t' {
            push_char(&mut r, '\\');
            push_char(&mut r, 't');
        } else if code == 8 {
            push_char(&mut r, '\\');
            push_char(&mut r, 'b');
        } else if code == 12 {
            push_char(&mut r, '\\');
            push_char(&mut r, 'f');
        } else if code < 32 {
            push_char(&mut r, '\\');
            push_char(&mut r, 'u');
            push_char(&mut r, '0');
            push_char(&mut r, '0');
            push_char(&mut r, hex_char(code / 16));
            push_char(&mut r, hex_char(code % 16));
        } else {
            push_char(&mut r, c);
        }
        assert(r@ =~= seq!['"'] + json_chars(s@.take(i + 1)));
    }
    push_char(&mut r, '"');
    assert(s@.take(cs.len() as int) =~= s@);
    r
}

/// The JSON text of a value.
pub fn encode_json(v: &Value) -> (r: String)
    ensures
        r@ == json_spec(v@),
    decreases v,
{
    match v {
        Value::Nil => String::from_str("null"),
        Value::Bool(b) => if *b { String::from_str("true") } else { String::from_str("false") },
        Value::Int(n) => i64_text(*n),
        Value::Str(s) => json_quote(s.as_str()),
        Value::List(xs) => {
            let ghost xv = values_view(xs@);
            proof {
                lemma_values_view(xs@);
            }
            let mut r = String::new();
            push_char(&mut r, '[');
            for i in 0..xs.len()
                invariant
                    *v == Value::List(*xs),
                    xv == values_view(xs@),
                    xv.len() == xs@.len(),
                    forall|j: int| 0 <= j < xs@.len() ==> #[trigger] xv[j] == value_view(xs@[j]),
                    r@ == seq!['['] + json_items(xv.take(i as int)),
            {
                proof {
                    assert(decreases_to!(*v => (*v)->List_0));
                    assert(decreases_to!((*v)->List_0 => (*v)->List_0@));
                    assert(decreases_to!((*v)->List_0@ => (*v)->List_0@[i as int]));
                }
                if i > 0 {
                    push_char(&mut r, ',');
                }
                let d = encode_json(&xs[i]);
                r.append(d.as_str());
                assert(xv.take(i + 1).drop_last() =~= xv.take(i as int));
                assert(r@ =~= seq!['['] + json_items(xv.take(i + 1)));
            }
            assert(xv.take(xs@.len() as int) =~= xv);
            push_char(&mut r, ']');
            r
        },
        Value::Dict(es) => {
            let ghost ev = entries_view(es@);
            proof {
                lemma_entries_view(es@);
            }
            let mut r = String::new();
            push_char(&mut r, '{');
            for i in 0..es.len()
                invariant
                    *v == Value::Dict(*es),
                    ev == entries_view(es@),
                    ev.len() == es@.len(),
                    forall|j: int| 0 <= j < es@.len() ==> #[trigger] ev[j] == (es@[j].0@, value_view(es@[j].1)),
                    r@ == seq!['{'] + json_entries(ev.take(i as int)),
            {
                proof {
                    assert(decreases_to!(*v => (*v)->Dict_0));
                    assert(decreases_to!((*v)->Dict_0 => (*v)->Dict_0@));
                    assert(decreases_to!((*v)->Dict_0@ => (*v)->Dict_0@[i as int]));
                    assert(decreases_to!((*v)->Dict_0@[i as int] => (*v)->Dict_0@[i as int].1));
                }
                if i > 0 {
                    push_char(&mut r, ',');
                }
                let k = json_quote(es[i].0.as_str());
                r.append(k.as_str());
                push_char(&mut r, ':');
                let d = encode_json(&es[i].1);
                r.append(d.as_str());
                assert(ev[i as int] == (es@[i as int].0@, value_view(es@[i as int].1)));
                assert(ev.take(i + 1).drop_last() =~= ev.take(i as int));
                assert(r@ =~= seq!['{'] + json_entries(ev.take(i + 1)));
            }
            assert(ev.take(es@.len() as int) =~= ev);
            push_char(&mut r, '}');
            r
        },
    }
}

} // verus!
