//! Checks on the positional arguments of a browser call, with the error
//! text that each failure reports.

use vstd::prelude::*;

use crate::text::{nat_digits, u64_text};
use crate::value::{
    clone_value, kind_name_spec, lemma_values_view, value_view, values_view, Value, ValueV,
};

verus! {

/// The argument at `i`, if given.
pub open spec fn arg_at(args: Seq<ValueV>, i: int) -> Option<ValueV> {
    if 0 <= i < args.len() {
        Some(args[i])
    } else {
        None
    }
}

/// 1-based position text of argument `i`.
pub open spec fn position(i: nat) -> Seq<char> {
    nat_digits(i + 1)
}

pub open spec fn no_args_spec(m: Seq<char>, args: Seq<ValueV>) -> Result<(), Seq<char>> {
    if args.len() == 0 {
        Ok(())
    } else {
        Err("browser."@ + m + " expects no arguments"@)
    }
}

pub open spec fn missing_arg(m: Seq<char>, i: nat) -> Seq<char> {
    "browser."@ + m + " missing arg "@ + position(i)
}

pub open spec fn expect_str_spec(m: Seq<char>, args: Seq<ValueV>, i: nat) -> Result<Seq<char>, Seq<char>> {
    match arg_at(args, i as int) {
        Some(ValueV::Str(s)) => Ok(s),
        Some(v) => Err("browser."@ + m + " arg "@ + position(i) + " must be str, got "@ + kind_name_spec(v)),
        None => Err(missing_arg(m, i)),
    }
}

pub open spec fn expect_int_spec(m: Seq<char>, args: Seq<ValueV>, i: nat) -> Result<int, Seq<char>> {
    match arg_at(args, i as int) {
        Some(ValueV::Int(n)) => Ok(n),
        Some(v) => Err("browser."@ + m + " arg "@ + position(i) + " must be int, got "@ + kind_name_spec(v)),
        None => Err(missing_arg(m, i)),
    }
}

pub open spec fn optional_int_spec(args: Seq<ValueV>, i: nat, default: int) -> Result<int, Seq<char>> {
    match arg_at(args, i as int) {
        None => Ok(default),
        Some(ValueV::Int(n)) => Ok(n),
        Some(v) => Err("timeout/amount must be int, got "@ + kind_name_spec(v)),
    }
}

pub open spec fn expect_id_spec(m: Seq<char>, args: Seq<ValueV>, i: nat) -> Result<ValueV, Seq<char>> {
    match arg_at(args, i as int) {
        Some(v) => Ok(v),
        None => Err("browser."@ + m + " missing id"@),
    }
}

pub open spec fn str_result(r: Result<String, String>) -> Result<Seq<char>, Seq<char>> {
    match r {
        Ok(s) => Ok(s@),
        Err(e) => Err(e@),
    }
}

pub open spec fn int_result(r: Result<i64, String>) -> Result<int, Seq<char>> {
    match r {
        Ok(n) => Ok(n as int),
        Err(e) => Err(e@),
    }
}

pub open spec fn value_result(r: Result<Value, String>) -> Result<ValueV, Seq<char>> {
    match r {
        Ok(v) => Ok(v@),
        Err(e) => Err(e@),
    }
}

pub open spec fn unit_result(r: Result<(), String>) -> Result<(), Seq<char>> {
    match r {
        Ok(_) => Ok(()),
        Err(e) => Err(e@),
    }
}

fn position_text(i: usize) -> (r: String)
    requires
        i < u64::MAX,
    ensures
        r@ == position(i as nat),
{
    u64_text(i as u64 + 1)
}

/// `Ok` when no arguments are given.
pub fn no_args(method: &str, args: &[Value]) -> (r: Result<(), String>)
    ensures
        unit_result(r) == no_args_spec(method@, values_view(args@)),
{
    proof {
        lemma_values_view(args@);
    }
    if args.len() == 0 {
        Ok(())
    } else {
        let mut e = String::from_str("browser.");
        e.append(method);
        e.append(" expects no arguments");
        Err(e)
    }
}

fn kind_error(method: &str, index: usize, want: &str, v: &Value) -> (r: String)
    requires
        index < u64::MAX,
    ensures
        r@ == "browser."@ + method@ + " arg "@ + position(index as nat) + " must be "@ + want@ + ", got "@ + crate::value::kind_name_spec(v@),
{
    let mut e = String::from_str("browser.");
    e.append(method);
    e.append(" arg ");
    let p = position_text(index);
    e.append(p.as_str());
    e.append(" must be ");
    e.append(want);
    e.append(", got ");
    let k = v.kind_name();
    e.append(k.as_str());
    e
}

fn missing_error(method: &str, index: usize) -> (r: String)
    requires
        index < u64::MAX,
    ensures
        r@ == missing_arg(method@, index as nat),
{
    let mut e = String::from_str("browser.");
    e.append(method);
    e.append(" missing arg ");
    let p = position_text(index);
    e.append(p.as_str());
    e
}

/// The string argument at `index`.
pub fn expect_str(method: &str, args: &[Value], index: usize) -> (r: Result<String, String>)
    requires
        index < u64::MAX,
    ensures
        str_result(r) == expect_str_spec(method@, values_view(args@), index as nat),
{
    proof {
        lemma_values_view(args@);
        reveal_strlit("str");
    }
    if index < args.len() {
        match &args[index] {
            Value::Str(s) => Ok(s.clone()),
            v => {
                let e = kind_error(method, index, "str", v);
                assert(e@ =~= "browser."@ + method@ + " arg "@ + position(index as nat) + " must be str, got "@ + kind_name_spec(v@)) by {
                    reveal_strlit(" must be str, got ");
                    reveal_strlit(" must be ");
                    reveal_strlit(", got ");
                }
                Err(e)
            },
        }
    } else {
        Err(missing_error(method, index))
    }
}

/// The integer argument at `index`.
pub fn expect_int(method: &str, args: &[Value], index: usize) -> (r: Result<i64, String>)
    requires
        index < u64::MAX,
    ensures
        int_result(r) == expect_int_spec(method@, values_view(args@), index as nat),
{
    proof {
        lemma_values_view(args@);
        reveal_strlit("int");
    }
    if index < args.len() {
        match &args[index] {
            Value::Int(n) => Ok(*n),
            v => {
                let e = kind_error(method, index, "int", v);
                assert(e@ =~= "browser."@ + method@ + " arg "@ + position(index as nat) + " must be int, got "@ + kind_name_spec(v@)) by {
                    reveal_strlit(" must be int, got ");
                    reveal_strlit(" must be ");
                    reveal_strlit(", got ");
                }
                Err(e)
            },
        }
    } else {
        Err(missing_error(method, index))
    }
}

/// The integer argument at `index`, or `default` where it is not given.
pub fn optional_int(args: &[Value], index: usize, default: i64) -> (r: Result<i64, String>)
    ensures
        int_result(r) == optional_int_spec(values_view(args@), index as nat, default as int),
{
    proof {
        lemma_values_view(args@);
    }
    if index < args.len() {
        match &args[index] {
            Value::Int(n) => Ok(*n),
            v => {
                let mut e = String::from_str("timeout/amount must be int, got ");
                let k = v.kind_name();
                e.append(k.as_str());
                Err(e)
            },
        }
    } else {
        Ok(default)
    }
}

/// A copy of the argument at `index`, whatever its type.
pub fn expect_id_value(method: &str, args: &[Value], index: usize) -> (r: Result<Value, String>)
    ensures
        value_result(r) == expect_id_spec(method@, values_view(args@), index as nat),
{
    proof {
        lemma_values_view(args@);
    }
    if index < args.len() {
        Ok(clone_value(&args[index]))
    } else {
        let mut e = String::from_str("browser.");
        e.append(method);
        e.append(" missing id");
        Err(e)
    }
}

/// The strings of a list value.
pub open spec fn string_list_spec(v: ValueV, label: Seq<char>) -> Result<Seq<Seq<char>>, Seq<char>> {
    match v {
        ValueV::List(xs) => if forall|i: int| 0 <= i < xs.len() ==> (#[trigger] xs[i]) is Str {
            Ok(xs.map(|i: int, x: ValueV| x->Str_0))
        } else {
            let k = choose|k: int| 0 <= k < xs.len() && !(xs[k] is Str) && forall|j: int| 0 <= j < k ==> (#[trigger] xs[j]) is Str;
            Err(label + " entries must be strings, got "@ + kind_name_spec(xs[k]))
        },
        _ => Err(label + " must be list, got "@ + kind_name_spec(v)),
    }
}

pub open spec fn strings_result(r: Result<Vec<String>, String>) -> Result<Seq<Seq<char>>, Seq<char>> {
    match r {
        Ok(v) => Ok(v@.map(|i: int, s: String| s@)),
        Err(e) => Err(e@),
    }
}

/// The strings of a list value; an error names `label` and the first entry
/// that is not a string.
pub fn string_list(v: &Value, label: &str) -> (r: Result<Vec<String>, String>)
    ensures
        strings_result(r) == string_list_spec(v@, label@),
{
    match v {
        Value::List(xs) => {
            proof {
                lemma_values_view(xs@);
            }
            let mut out: Vec<String> = Vec::new();
            for i in 0..xs.len()
                invariant
                    *v == Value::List(*xs),
                    values_view(xs@).len() == xs@.len(),
                    forall|j: int| 0 <= j < xs@.len() ==> #[trigger] values_view(xs@)[j] == value_view(xs@[j]),
                    out@.len() == i,
                    forall|j: int| 0 <= j < i ==> (#[trigger] values_view(xs@)[j]) is Str,
                    forall|j: int| 0 <= j < i ==> (#[trigger] out@[j])@ == values_view(xs@)[j]->Str_0,
            {
                match &xs[i] {
                    Value::Str(s) => {
                        out.push(s.clone());
                    },
                    other => {
                        let ghost xv = values_view(xs@);
                        assert(!(xv[i as int] is Str));
                        let ghost k = choose|k: int| 0 <= k < xv.len() && !(xv[k] is Str) && forall|j: int| 0 <= j < k ==> (#[trigger] xv[j]) is Str;
                        assert(k == i) by {
                            if k < i {
                                assert(xv[k] is Str);
                            } else if k > i {
                                assert(xv[i as int] is Str);
                            }
                        }
                        let mut e = String::from_str(label);
                        e.append(" entries must be strings, got ");
                        let kn = other.kind_name();
                        e.append(kn.as_str());
                        return Err(e);
                    },
                }
            }
            assert(out@.map(|i: int, s: String| s@) =~= values_view(xs@).map(|i: int, x: ValueV| x->Str_0));
            Ok(out)
        },
        other => {
            let mut e = String::from_str(label);
            e.append(" must be list, got ");
            let kn = other.kind_name();
            e.append(kn.as_str());
            Err(e)
        },
    }
}

} // verus!
