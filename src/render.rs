//! Canonical compact JSON text of a filter value.
use vstd::prelude::*;
use vstd::string::StringExecFns;
use vstd::string::StrSliceExecFns;

use crate::document::{
    entries_model, items_model, lemma_entries_model, lemma_items_model, JsonModel, Number, Value,
};

verus! {

/// The decimal digit `d` (for `0 <= d < 10`).
pub open spec fn digit_text(d: int) -> Seq<char> {
    "0123456789"@.subrange(d, d + 1)
}

/// Decimal text of a natural number, without leading zeros.
pub open spec fn nat_text(n: nat) -> Seq<char>
    decreases n,
{
    if n < 10 {
        digit_text(n as int)
    } else {
        nat_text(n / 10) + digit_text((n % 10) as int)
    }
}

/// Decimal text of an integer, with a leading `-` when negative.
pub open spec fn int_text(i: int) -> Seq<char> {
    if i < 0 {
        "-"@ + nat_text((-i) as nat)
    } else {
        nat_text(i as nat)
    }
}

/// Lower-case hexadecimal digit `d` (for `0 <= d < 16`).
pub open spec fn hex_digit(d: int) -> char {
    "0123456789abcdef"@[d]
}

/// How one character is written inside a JSON string literal.
pub open spec fn escape_char(c: char) -> Seq<char> {
    if c == '"' {
        seq!['\\', '"']
    } else if c == '\\' {
        seq!['\\', '\\']
    } else if c == '\x08' {
        seq!['\\', 'b']
    } else if c == '\t' {
        seq!['\\', 't']
    } else if c == '\n' {
        seq!['\\', 'n']
    } else if c == '\x0c' {
        seq!['\\', 'f']
    } else if c == '\r' {
        seq!['\\', 'r']
    } else if (c as int) < 0x20 {
        seq!['\\', 'u', '0', '0', hex_digit(c as int / 16), hex_digit(c as int % 16)]
    } else {
        seq![c]
    }
}

pub open spec fn escaped(s: Seq<char>) -> Seq<char>
    decreases s.len(),
{
    if s.len() == 0 {
        Seq::empty()
    } else {
        escaped(s.drop_last()) + escape_char(s.last())
    }
}

/// The JSON string literal of `s`: double quotes around its escaped characters.
pub open spec fn json_quoted(s: Seq<char>) -> Seq<char> {
    seq!['"'] + escaped(s) + seq!['"']
}

/// Compact JSON text of a value: no whitespace, entries in order.
pub open spec fn json_text(v: JsonModel) -> Seq<char>
    decreases v, 0int,
{
    match v {
        JsonModel::Null => "null"@,
        JsonModel::Bool(b) => if b {
            "true"@
        } else {
            "false"@
        },
        JsonModel::Int(i) => int_text(i),
        JsonModel::Real(t) => t,
        JsonModel::Str(s) => json_quoted(s),
        JsonModel::Array(items) => "["@ + items_text(items, items.len() as int) + "]"@,
        JsonModel::Object(entries) => "{"@ + members_text(entries, entries.len() as int) + "}"@,
    }
}

/// The first `n` items, each as JSON text, separated by commas.
pub open spec fn items_text(items: Seq<JsonModel>, n: int) -> Seq<char>
    decreases items, n,
{
    if n <= 0 || n > items.len() {
        Seq::empty()
    } else if n == 1 {
        json_text(items[0])
    } else {
        items_text(items, n - 1) + ","@ + json_text(items[n - 1])
    }
}

/// The first `n` entries as `"key":value`, separated by commas.
pub open spec fn members_text(entries: Seq<(Seq<char>, JsonModel)>, n: int) -> Seq<char>
    decreases entries, n,
{
    if n <= 0 || n > entries.len() {
        Seq::empty()
    } else if n == 1 {
        json_quoted(entries[0].0) + ":"@ + json_text(entries[0].1)
    } else {
        members_text(entries, n - 1) + ","@ + json_quoted(entries[n - 1].0) + ":"@ + json_text(
            entries[n - 1].1,
        )
    }
}

/// Relies on serde_json's `Display` for `serde_json::Value::String`: it writes the
/// string as a JSON string literal, escaping characters as `escape_char` states.
#[verifier::external_body]
fn json_string_literal(s: &str) -> (r: String)
    ensures
        r@ == json_quoted(s@),
{
    serde_json::Value::String(s.to_string()).to_string()
}

/// Appends the decimal text of `n`.
pub fn write_nat(n: u64, out: &mut String)
    ensures
        final(out)@ == old(out)@ + nat_text(n as nat),
    decreases n,
{
    if n >= 10 {
        write_nat(n / 10, out);
    }
    let d: u64 = n % 10;
    proof {
        reveal_strlit("0123456789");
    }
    let digit = "0123456789".substring_char(d as usize, (d + 1) as usize);
    out.append(digit);
    assert(out@ =~= old(out)@ + nat_text(n as nat));
}


/// Appends the decimal text of an integer number.
fn write_int(n: &Number, out: &mut String)
    requires
        !(n is Real),
    ensures
        final(out)@ == old(out)@ + json_text(n.model()),
{
    match n {
        Number::PosInt(u) => write_nat(*u, out),
        Number::NegInt(i) => {
            if *i < 0 {
                out.append("-");
                let m: u64 = (-(*i as i128)) as u64;
                write_nat(m, out);
                assert(out@ =~= old(out)@ + json_text(n.model()));
            } else {
                write_nat(*i as u64, out);
            }
        },
        Number::Real(_) => {},
    }
}

/// Appends the compact JSON text of `v`.
pub fn write_json(v: &Value, out: &mut String)
    ensures
        final(out)@ == old(out)@ + json_text(v@),
    decreases v,
{
    match v {
        Value::Null => out.append("null"),
        Value::Bool(b) => {
            if *b {
                out.append("true");
            } else {
                out.append("false");
            }
        },
        Value::Number(n) => {
            match n {
                Number::Real(t) => out.append(t.as_str()),
                _ => write_int(n, out),
            }
        },
        Value::String(s) => {
            let q = json_string_literal(s.as_str());
            out.append(q.as_str());
        },
        Value::Array(items) => {
            let ghost m = items_model(items@);
            proof {
                lemma_items_model(items@);
            }
            out.append("[");
            let mut k: usize = 0;
            while k < items.len()
                invariant
                    k <= items.len(),
                    *v == Value::Array(*items),
                    m == items_model(items@),
                    m.len() == items@.len(),
                    forall|i: int| 0 <= i < items.len() ==> #[trigger] m[i] == items@[i]@,
                    out@ == old(out)@ + "["@ + items_text(m, k as int),
                decreases items.len() - k,
            {
                let ghost before = out@;
                if k > 0 {
                    out.append(",");
                }
                proof {
                    assert(decreases_to!(*v => (*v)->Array_0));
                    assert(decreases_to!(*items => items[k as int]));
                    assert(decreases_to!(*v => items[k as int]));
                }
                write_json(&items[k], out);
                assert(out@ =~= old(out)@ + "["@ + items_text(m, k + 1));
                k = k + 1;
            }
            out.append("]");
            assert(out@ =~= old(out)@ + json_text(v@));
        },
        Value::Object(entries) => {
            let ghost m = entries_model(entries@);
            proof {
                lemma_entries_model(entries@);
            }
            out.append("{");
            let mut k: usize = 0;
            while k < entries.len()
                invariant
                    k <= entries.len(),
                    *v == Value::Object(*entries),
                    m == entries_model(entries@),
                    m.len() == entries@.len(),
                    forall|i: int|
                        0 <= i < entries.len() ==> #[trigger] m[i] == (
                        entries@[i].0@,
                        entries@[i].1@,
                    ),
                    out@ == old(out)@ + "{"@ + members_text(m, k as int),
                decreases entries.len() - k,
            {
                if k > 0 {
                    out.append(",");
                }
                let q = json_string_literal(entries[k].0.as_str());
                out.append(q.as_str());
                out.append(":");
                proof {
                    assert(decreases_to!(*v => (*v)->Object_0));
                    assert(decreases_to!(*entries => entries[k as int]));
                    assert(decreases_to!(*v => entries[k as int].1));
                }
                write_json(&entries[k].1, out);
                assert(out@ =~= old(out)@ + "{"@ + members_text(m, k + 1));
                k = k + 1;
            }
            out.append("}");
            assert(out@ =~= old(out)@ + json_text(v@));
        },
    }
}

} // verus!
