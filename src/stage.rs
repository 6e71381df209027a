//! Translation of one filter stage, and recursively its groups, into SQL text.
use vstd::prelude::*;
use vstd::string::StrSliceExecFns;
use vstd::string::StringExecFns;

use crate::document::{entries_model, items_model, lemma_entries_model, lemma_items_model, JsonModel, Value};
use crate::render::{json_text, write_json};

verus! {

/// The operator tags recognized inside an operator mapping.
#[derive(Clone, Copy, Debug, PartialEq, Eq)]
pub enum Operator {
    Gte,
    Gt,
    Lte,
    Lt,
    Eq,
    Ne,
    In,
    Nin,
    Regex,
    /// Pattern options: accepted and written as nothing.
    Options,
}

/// The operator that a tag names, if any.
pub open spec fn operator_of(tag: Seq<char>) -> Option<Operator> {
    if tag == "$gte"@ {
        Some(Operator::Gte)
    } else if tag == "$gt"@ {
        Some(Operator::Gt)
    } else if tag == "$lte"@ {
        Some(Operator::Lte)
    } else if tag == "$lt"@ {
        Some(Operator::Lt)
    } else if tag == "$eq"@ {
        Some(Operator::Eq)
    } else if tag == "$ne"@ {
        Some(Operator::Ne)
    } else if tag == "$in"@ {
        Some(Operator::In)
    } else if tag == "$nin"@ {
        Some(Operator::Nin)
    } else if tag == "$regex"@ {
        Some(Operator::Regex)
    } else if tag == "$options"@ {
        Some(Operator::Options)
    } else {
        None
    }
}

/// The keys whose value is a sequence of sub-stages.
pub open spec fn is_group_key(key: Seq<char>) -> bool {
    key == "$and"@ || key == "$or"@ || key == "$nor"@
}

/// What goes between the parenthesized sub-stages of a group.
pub open spec fn separator(key: Seq<char>) -> Seq<char> {
    if key == "$and"@ {
        " AND "@
    } else {
        " OR "@
    }
}

/// The model of a translation error.
pub enum ErrorModel {
    InvalidOperandValue(Seq<char>),
    InvalidRegexValue(JsonModel),
    UnsupportedOperator(Seq<char>),
    MissingOperator(Seq<char>),
    InvalidStage(JsonModel),
}

/// Why a stage could not be translated, with the offending key or value.
#[derive(Debug, PartialEq)]
pub enum ToSqlError {
    /// A grouping key whose value is not a sequence.
    InvalidOperandValue(String),
    /// A pattern operand that is not text.
    InvalidRegexValue(Value),
    /// An operator tag outside the recognized set.
    UnsupportedOperator(String),
    /// A field whose operator mapping is empty.
    MissingOperator(String),
    /// A stage that is not a mapping.
    InvalidStage(Value),
}

impl View for ToSqlError {
    type V = ErrorModel;

    open spec fn view(&self) -> ErrorModel {
        match self {
            ToSqlError::InvalidOperandValue(k) => ErrorModel::InvalidOperandValue(k@),
            ToSqlError::InvalidRegexValue(v) => ErrorModel::InvalidRegexValue(v@),
            ToSqlError::UnsupportedOperator(k) => ErrorModel::UnsupportedOperator(k@),
            ToSqlError::MissingOperator(k) => ErrorModel::MissingOperator(k@),
            ToSqlError::InvalidStage(v) => ErrorModel::InvalidStage(v@),
        }
    }
}

/// The model of a translation result.
pub open spec fn outcome(r: Result<String, ToSqlError>) -> Result<Seq<char>, ErrorModel> {
    match r {
        Ok(s) => Ok(s@),
        Err(e) => Err(e@),
    }
}

/// The first `n` items as JSON text, separated by `", "`.
pub open spec fn list_text(items: Seq<JsonModel>, n: int) -> Seq<char>
    decreases n,
{
    if n <= 0 {
        Seq::empty()
    } else if n == 1 {
        json_text(items[0])
    } else {
        list_text(items, n - 1) + ", "@ + json_text(items[n - 1])
    }
}

/// The members of a membership operand: the items of a sequence, else the operand alone.
pub open spec fn operand_list(operand: JsonModel) -> Seq<char> {
    match operand {
        JsonModel::Array(items) => list_text(items, items.len() as int),
        _ => json_text(operand),
    }
}

/// The predicate for `field` under the operator entry `{tag: operand}`.
pub open spec fn condition_text(field: Seq<char>, tag: Seq<char>, operand: JsonModel) -> Result<
    Seq<char>,
    ErrorModel,
> {
    match operator_of(tag) {
        Some(Operator::Gte) => Ok(field + " >= "@ + json_text(operand)),
        Some(Operator::Gt) => Ok(field + " > "@ + json_text(operand)),
        Some(Operator::Lte) => Ok(field + " <= "@ + json_text(operand)),
        Some(Operator::Lt) => Ok(field + " < "@ + json_text(operand)),
        Some(Operator::Eq) => Ok(field + " = "@ + json_text(operand)),
        Some(Operator::Ne) => Ok(field + " != "@ + json_text(operand)),
        Some(Operator::In) => Ok(field + " IN ("@ + operand_list(operand) + ")"@),
        Some(Operator::Nin) => Ok(field + " NOT IN ("@ + operand_list(operand) + ")"@),
        Some(Operator::Regex) => match operand {
            JsonModel::Str(p) => Ok(field + " ~ '"@ + p + "'"@),
            _ => Err(ErrorModel::InvalidRegexValue(operand)),
        },
        Some(Operator::Options) => Ok(Seq::empty()),
        None => Err(ErrorModel::UnsupportedOperator(tag)),
    }
}

/// What one entry of a stage contributes to the field text.
pub open spec fn entry_text(key: Seq<char>, value: JsonModel) -> Result<Seq<char>, ErrorModel> {
    if is_group_key(key) {
        match value {
            JsonModel::Array(_) => Ok(Seq::empty()),
            _ => Err(ErrorModel::InvalidOperandValue(key)),
        }
    } else {
        match value {
            JsonModel::Object(ops) => if ops.len() == 0 {
                Err(ErrorModel::MissingOperator(key))
            } else {
                condition_text(key, ops[0].0, ops[0].1)
            },
            _ => Ok(key + " = "@ + json_text(value)),
        }
    }
}

/// The field text of the first `n` entries, concatenated; the first error wins.
pub open spec fn fields_text(entries: Seq<(Seq<char>, JsonModel)>, n: int) -> Result<
    Seq<char>,
    ErrorModel,
>
    decreases n,
{
    if n <= 0 {
        Ok(Seq::empty())
    } else {
        match fields_text(entries, n - 1) {
            Err(e) => Err(e),
            Ok(t) => match entry_text(entries[n - 1].0, entries[n - 1].1) {
                Err(e) => Err(e),
                Ok(p) => Ok(t + p),
            },
        }
    }
}

/// Each part in parentheses, joined by `sep`.
pub open spec fn joined(parts: Seq<Seq<char>>, sep: Seq<char>) -> Seq<char>
    decreases parts.len(),
{
    if parts.len() == 0 {
        Seq::empty()
    } else if parts.len() == 1 {
        "("@ + parts[0] + ")"@
    } else {
        joined(parts.drop_last(), sep) + sep + "("@ + parts.last() + ")"@
    }
}

/// The SQL predicate of a stage, or the error that stops its translation.
pub open spec fn translate(stage: JsonModel) -> Result<Seq<char>, ErrorModel>
    decreases stage, 0int,
{
    match stage {
        JsonModel::Object(entries) => match fields_text(entries, entries.len() as int) {
            Err(e) => Err(e),
            Ok(t) => match group_text(entries, entries.len() as int) {
                Err(e) => Err(e),
                Ok(g) => Ok(t + g),
            },
        },
        _ => Err(ErrorModel::InvalidStage(stage)),
    }
}

/// The text of the last group among the first `n` entries: its translated
/// sub-stages joined, in parentheses; empty where there is none.
pub open spec fn group_text(entries: Seq<(Seq<char>, JsonModel)>, n: int) -> Result<
    Seq<char>,
    ErrorModel,
>
    decreases entries, n,
{
    if n <= 0 || n > entries.len() {
        Ok(Seq::empty())
    } else if is_group_key(entries[n - 1].0) {
        match entries[n - 1].1 {
            JsonModel::Array(subs) => if subs.len() == 0 {
                Ok(Seq::empty())
            } else {
                match translate_all(subs, subs.len() as int) {
                    Err(e) => Err(e),
                    Ok(parts) => Ok("("@ + joined(parts, separator(entries[n - 1].0)) + ")"@),
                }
            },
            _ => Ok(Seq::empty()),
        }
    } else {
        group_text(entries, n - 1)
    }
}

/// The translations of the first `n` sub-stages; the first error wins.
pub open spec fn translate_all(subs: Seq<JsonModel>, n: int) -> Result<Seq<Seq<char>>, ErrorModel>
    decreases subs, n,
{
    if n <= 0 || n > subs.len() {
        Ok(Seq::empty())
    } else {
        match translate_all(subs, n - 1) {
            Err(e) => Err(e),
            Ok(ps) => match translate(subs[n - 1]) {
                Err(e) => Err(e),
                Ok(p) => Ok(ps.push(p)),
            },
        }
    }
}

/// Whether `s` and `lit` hold the same characters.
fn text_is(s: &str, lit: &str) -> (r: bool)
    ensures
        r == (s@ == lit@),
{
    let n = s.unicode_len();
    if n != lit.unicode_len() {
        return false;
    }
    let mut i: usize = 0;
    while i < n
        invariant
            i <= n,
            n == s@.len(),
            n == lit@.len(),
            s@.subrange(0, i as int) == lit@.subrange(0, i as int),
        decreases n - i,
    {
        if s.get_char(i) != lit.get_char(i) {
            return false;
        }
        assert(s@.subrange(0, i + 1) =~= s@.subrange(0, i as int).push(s@[i as int]));
        assert(lit@.subrange(0, i + 1) =~= lit@.subrange(0, i as int).push(lit@[i as int]));
        i = i + 1;
    }
    assert(s@ =~= s@.subrange(0, n as int));
    assert(lit@ =~= lit@.subrange(0, n as int));
    true
}

impl Operator {
    /// The operator that `tag` names, if any.
    pub fn from_tag(tag: &str) -> (r: Option<Operator>)
        ensures
            r == operator_of(tag@),
    {
        if text_is(tag, "$gte") {
            Some(Operator::Gte)
        } else if text_is(tag, "$gt") {
            Some(Operator::Gt)
        } else if text_is(tag, "$lte") {
            Some(Operator::Lte)
        } else if text_is(tag, "$lt") {
            Some(Operator::Lt)
        } else if text_is(tag, "$eq") {
            Some(Operator::Eq)
        } else if text_is(tag, "$ne") {
            Some(Operator::Ne)
        } else if text_is(tag, "$in") {
            Some(Operator::In)
        } else if text_is(tag, "$nin") {
            Some(Operator::Nin)
        } else if text_is(tag, "$regex") {
            Some(Operator::Regex)
        } else if text_is(tag, "$options") {
            Some(Operator::Options)
        } else {
            None
        }
    }
}

/// Whether `key` is a grouping key.
pub fn group_key(key: &str) -> (r: bool)
    ensures
        r == is_group_key(key@),
{
    text_is(key, "$and") || text_is(key, "$or") || text_is(key, "$nor")
}

/// Appends the members of a membership operand.
fn write_list(operand: &Value, out: &mut String)
    ensures
        final(out)@ == old(out)@ + operand_list(operand@),
{
    match operand {
        Value::Array(items) => {
            let ghost m = items_model(items@);
            proof {
                lemma_items_model(items@);
            }
            let mut k: usize = 0;
            while k < items.len()
                invariant
                    k <= items.len(),
                    m == items_model(items@),
                    m.len() == items@.len(),
                    forall|i: int| 0 <= i < items.len() ==> #[trigger] m[i] == items@[i]@,
                    out@ == old(out)@ + list_text(m, k as int),
                decreases items.len() - k,
            {
                if k > 0 {
                    out.append(", ");
                }
                write_json(&items[k], out);
                assert(out@ =~= old(out)@ + list_text(m, k + 1));
                k = k + 1;
            }
        },
        _ => write_json(operand, out),
    }
}

/// Appends the predicate for `field` under the operator entry `{tag: operand}`.
fn write_condition(field: &String, tag: &String, operand: &Value, out: &mut String) -> (r: Result<
    (),
    ToSqlError,
>)
    ensures
        match condition_text(field@, tag@, operand@) {
            Ok(t) => r is Ok && final(out)@ == old(out)@ + t,
            Err(e) => r is Err && r->Err_0@ == e,
        },
{
    let op = Operator::from_tag(tag.as_str());
    match op {
        None => {
            return Err(ToSqlError::UnsupportedOperator(tag.clone()));
        },
        Some(Operator::Options) => {
            assert(out@ =~= old(out)@ + Seq::<char>::empty());
            return Ok(());
        },
        Some(Operator::Regex) => {
            match operand {
                Value::String(p) => {
                    out.append(field.as_str());
                    out.append(" ~ '");
                    out.append(p.as_str());
                    out.append("'");
                },
                _ => {
                    return Err(ToSqlError::InvalidRegexValue(operand.duplicate()));
                },
            }
        },
        Some(Operator::In) => {
            out.append(field.as_str());
            out.append(" IN (");
            write_list(operand, out);
            out.append(")");
        },
        Some(Operator::Nin) => {
            out.append(field.as_str());
            out.append(" NOT IN (");
            write_list(operand, out);
            out.append(")");
        },
        Some(o) => {
            out.append(field.as_str());
            match o {
                Operator::Gte => out.append(" >= "),
                Operator::Gt => out.append(" > "),
                Operator::Lte => out.append(" <= "),
                Operator::Lt => out.append(" < "),
                Operator::Eq => out.append(" = "),
                _ => out.append(" != "),
            }
            write_json(operand, out);
        },
    }
    assert(condition_text(field@, tag@, operand@) is Ok);
    assert(out@ =~= old(out)@ + condition_text(field@, tag@, operand@)->Ok_0);
    Ok(())
}

/// The index of the last grouping entry among the first `n` entries.
pub open spec fn last_group(entries: Seq<(Seq<char>, JsonModel)>, n: int) -> Option<int>
    decreases n,
{
    if n <= 0 {
        None
    } else if is_group_key(entries[n - 1].0) {
        Some(n - 1)
    } else {
        last_group(entries, n - 1)
    }
}

/// The model of an optional entry index.
pub open spec fn index_model(o: Option<usize>) -> Option<int> {
    match o {
        Some(j) => Some(j as int),
        None => None,
    }
}

/// The group text of a stage is that of its last grouping entry.
proof fn lemma_group_text(entries: Seq<(Seq<char>, JsonModel)>, n: int)
    requires
        0 <= n <= entries.len(),
    ensures
        match last_group(entries, n) {
            None => group_text(entries, n) == Ok::<Seq<char>, ErrorModel>(Seq::empty()),
            Some(j) => 0 <= j < n && is_group_key(entries[j].0) && group_text(entries, n)
                == group_text(entries, j + 1),
        },
    decreases n,
{
    if n > 0 {
        lemma_group_text(entries, n - 1);
    }
}

/// Once an entry fails, the field text of every longer prefix fails the same way.
proof fn lemma_fields_error_stays(entries: Seq<(Seq<char>, JsonModel)>, k: int, n: int)
    requires
        0 <= k <= n,
        fields_text(entries, k) is Err,
    ensures
        fields_text(entries, n) == fields_text(entries, k),
    decreases n - k,
{
    if n > k {
        lemma_fields_error_stays(entries, k, n - 1);
    }
}

/// Once a sub-stage fails, translating more sub-stages fails the same way.
proof fn lemma_translate_all_error_stays(subs: Seq<JsonModel>, k: int, n: int)
    requires
        0 <= k <= n <= subs.len(),
        translate_all(subs, k) is Err,
    ensures
        translate_all(subs, n) == translate_all(subs, k),
    decreases n - k,
{
    if n > k {
        lemma_translate_all_error_stays(subs, k, n - 1);
    }
}

/// Translates a filter stage into a SQL boolean predicate.
///
/// Field entries are rendered in order and concatenated; the last grouping
/// entry, if its sequence is non-empty, adds its sub-stages' predicates in
/// parentheses, joined by `AND` for `$and` and by `OR` otherwise.
pub fn match_stage(stage: &Value) -> (r: Result<String, ToSqlError>)
    ensures
        outcome(r) == translate(stage@),
    decreases stage,
{
    match stage {
        Value::Object(entries) => {
            let ghost m = entries_model(entries@);
            proof {
                lemma_entries_model(entries@);
            }
            let mut sql = String::new();
            let mut group: Option<usize> = None;
            let mut k: usize = 0;
            while k < entries.len()
                invariant
                    k <= entries.len(),
                    *stage == Value::Object(*entries),
                    m == entries_model(entries@),
                    m.len() == entries@.len(),
                    forall|i: int|
                        0 <= i < entries.len() ==> #[trigger] m[i] == (
                        entries@[i].0@,
                        entries@[i].1@,
                    ),
                    fields_text(m, k as int) == Ok::<Seq<char>, ErrorModel>(sql@),
                    index_model(group) == last_group(m, k as int),
                    group matches Some(j) ==> j < k && entries@[j as int].1 is Array,
                decreases entries.len() - k,
            {
                let key = &entries[k].0;
                let value = &entries[k].1;
                assert(m[k as int] == (key@, value@));
                if group_key(key.as_str()) {
                    match value {
                        Value::Array(_) => {
                            group = Some(k);
                        },
                        _ => {
                            proof {
                                lemma_fields_error_stays(m, k + 1, m.len() as int);
                            }
                            return Err(ToSqlError::InvalidOperandValue(key.clone()));
                        },
                    }
                    assert(sql@ =~= sql@ + Seq::<char>::empty());
                } else {
                    match value {
                        Value::Object(ops) => {
                            proof {
                                lemma_entries_model(ops@);
                            }
                            if ops.len() == 0 {
                                proof {
                                    lemma_fields_error_stays(m, k + 1, m.len() as int);
                                }
                                return Err(ToSqlError::MissingOperator(key.clone()));
                            }
                            let res = write_condition(key, &ops[0].0, &ops[0].1, &mut sql);
                            match res {
                                Err(e) => {
                                    proof {
                                        lemma_fields_error_stays(m, k + 1, m.len() as int);
                                    }
                                    return Err(e);
                                },
                                Ok(()) => {},
                            }
                        },
                        _ => {
                            sql.append(key.as_str());
                            sql.append(" = ");
                            write_json(value, &mut sql);
                            assert(sql@ =~= fields_text(m, k as int)->Ok_0 + (key@ + " = "@
                                + json_text(value@)));
                        },
                    }
                }
                k = k + 1;
            }
            proof {
                lemma_group_text(m, m.len() as int);
            }
            match group {
                None => {
                    assert(sql@ =~= sql@ + Seq::<char>::empty());
                    Ok(sql)
                },
                Some(j) => {
                    let key = &entries[j].0;
                    match &entries[j].1 {
                        Value::Array(subs) => {
                            let ghost sm = items_model(subs@);
                            proof {
                                lemma_items_model(subs@);
                            }
                            assert(m[j as int] == (key@, JsonModel::Array(sm)));
                            if subs.len() == 0 {
                                assert(sql@ =~= sql@ + Seq::<char>::empty());
                                return Ok(sql);
                            }
                            let sep = if text_is(key.as_str(), "$and") {
                                " AND "
                            } else {
                                " OR "
                            };
                            let ghost parts: Seq<Seq<char>> = Seq::empty();
                            let mut joined_text = String::new();
                            let mut i: usize = 0;
                            while i < subs.len()
                                invariant
                                    i <= subs.len(),
                                    *stage == Value::Object(*entries),
                                    j < entries.len(),
                                    entries@[j as int].1 == Value::Array(*subs),
                                    sm == items_model(subs@),
                                    sm.len() == subs@.len(),
                                    forall|t: int| 0 <= t < subs.len() ==> #[trigger] sm[t] == subs@[t]@,
                                    sep@ == separator(key@),
                                    stage@ == JsonModel::Object(m),
                                    is_group_key(key@),
                                    m.len() == entries@.len(),
                                    m[j as int] == (key@, JsonModel::Array(sm)),
                                    fields_text(m, m.len() as int) is Ok,
                                    group_text(m, m.len() as int) == group_text(m, j + 1),
                                    translate_all(sm, i as int) == Ok::<Seq<Seq<char>>, ErrorModel>(parts),
                                    parts.len() == i,
                                    joined_text@ == joined(parts, sep@),
                                decreases subs.len() - i,
                            {
                                proof {
                                    assert(decreases_to!(*stage => (*stage)->Object_0));
                                    assert(decreases_to!(*entries => entries[j as int]));
                                    assert(decreases_to!(entries[j as int].1 => (entries[j as int].1)->Array_0));
                                    assert(decreases_to!(*subs => subs[i as int]));
                                }
                                let sub = match_stage(&subs[i]);
                                match sub {
                                    Err(e) => {
                                        proof {
                                            assert(translate(sm[i as int]) == Err::<Seq<char>, ErrorModel>(e@));
                                            assert(translate_all(sm, i + 1) == Err::<Seq<Seq<char>>, ErrorModel>(e@));
                                            lemma_translate_all_error_stays(sm, i + 1, sm.len() as int);
                                            assert(group_text(m, j + 1) == Err::<Seq<char>, ErrorModel>(e@));
                                            assert(group_text(m, m.len() as int) == Err::<Seq<char>, ErrorModel>(e@));
                                        }
                                        return Err(e);
                                    },
                                    Ok(t) => {
                                        if i > 0 {
                                            joined_text.append(sep);
                                        }
                                        joined_text.append("(");
                                        joined_text.append(t.as_str());
                                        joined_text.append(")");
                                        proof {
                                            let next = parts.push(t@);
                                            assert(next.drop_last() =~= parts);
                                            assert(joined_text@ =~= joined(next, sep@));
                                            parts = next;
                                        }
                                    },
                                }
                                i = i + 1;
                            }
                            let ghost before = sql@;
                            sql.append("(");
                            sql.append(joined_text.as_str());
                            sql.append(")");
                            assert(sql@ =~= before + ("("@ + joined(parts, separator(key@)) + ")"@));
                            Ok(sql)
                        },
                        _ => Ok(sql),
                    }
                },
            }
        },
        _ => Err(ToSqlError::InvalidStage(stage.duplicate())),
    }
}

} // verus!
