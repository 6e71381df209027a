//! Laws of the translation, stated over its model.
use vstd::prelude::*;

use crate::document::JsonModel;
use crate::render::json_text;
use crate::stage::{
    entry_text, fields_text, group_text, is_group_key, joined, operator_of, translate,
    translate_all, ErrorModel, Operator,
};

verus! {

/// A stage with one field whose operator mapping has one entry: `{field: {tag: operand}}`.
pub open spec fn field_stage(field: Seq<char>, tag: Seq<char>, operand: JsonModel) -> JsonModel {
    JsonModel::Object(seq![(field, JsonModel::Object(seq![(tag, operand)]))])
}

/// A stage with one group of two sub-stages: `{key: [s1, s2]}`.
pub open spec fn group_stage(key: Seq<char>, s1: JsonModel, s2: JsonModel) -> JsonModel {
    JsonModel::Object(seq![(key, JsonModel::Array(seq![s1, s2]))])
}

/// The six comparison tags.
pub open spec fn is_comparison_tag(tag: Seq<char>) -> bool {
    tag == "$gte"@ || tag == "$gt"@ || tag == "$lte"@ || tag == "$lt"@ || tag == "$eq"@ || tag
        == "$ne"@
}

/// The SQL comparison written for a comparison tag.
pub open spec fn comparison_symbol(tag: Seq<char>) -> Seq<char> {
    if tag == "$gte"@ {
        ">="@
    } else if tag == "$gt"@ {
        ">"@
    } else if tag == "$lte"@ {
        "<="@
    } else if tag == "$lt"@ {
        "<"@
    } else if tag == "$eq"@ {
        "="@
    } else {
        "!="@
    }
}

/// The characters of each tag.
proof fn reveal_tags()
    ensures
        "$gte"@ == seq!['$', 'g', 't', 'e'],
        "$gt"@ == seq!['$', 'g', 't'],
        "$lte"@ == seq!['$', 'l', 't', 'e'],
        "$lt"@ == seq!['$', 'l', 't'],
        "$eq"@ == seq!['$', 'e', 'q'],
        "$ne"@ == seq!['$', 'n', 'e'],
        "$in"@ == seq!['$', 'i', 'n'],
        "$nin"@ == seq!['$', 'n', 'i', 'n'],
        "$regex"@ == seq!['$', 'r', 'e', 'g', 'e', 'x'],
        "$options"@ == seq!['$', 'o', 'p', 't', 'i', 'o', 'n', 's'],
        "$and"@ == seq!['$', 'a', 'n', 'd'],
        "$or"@ == seq!['$', 'o', 'r'],
        "$nor"@ == seq!['$', 'n', 'o', 'r'],
{
    reveal_strlit("$gte");
    reveal_strlit("$gt");
    reveal_strlit("$lte");
    reveal_strlit("$lt");
    reveal_strlit("$eq");
    reveal_strlit("$ne");
    reveal_strlit("$in");
    reveal_strlit("$nin");
    reveal_strlit("$regex");
    reveal_strlit("$options");
    reveal_strlit("$and");
    reveal_strlit("$or");
    reveal_strlit("$nor");
}

/// Translating one field stage is translating its single entry.
proof fn lemma_single_entry(key: Seq<char>, value: JsonModel)
    requires
        !is_group_key(key),
    ensures
        translate(JsonModel::Object(seq![(key, value)])) == entry_text(key, value),
{
    let entries = seq![(key, value)];
    reveal_with_fuel(fields_text, 2);
    reveal_with_fuel(group_text, 2);
    match entry_text(key, value) {
        Ok(t) => {
            assert(Seq::<char>::empty() + t =~= t);
            assert(t + Seq::<char>::empty() =~= t);
        },
        Err(_) => {},
    }
}

/// A comparison `{field: {op: value}}` translates to `field SYMBOL value`.
pub proof fn law_comparison(field: Seq<char>, tag: Seq<char>, operand: JsonModel)
    requires
        is_comparison_tag(tag),
        !is_group_key(field),
    ensures
        translate(field_stage(field, tag, operand)) == Ok::<Seq<char>, ErrorModel>(
            field + " "@ + comparison_symbol(tag) + " "@ + json_text(operand),
        ),
{
    reveal_tags();
    reveal_strlit(" >= ");
    reveal_strlit(" > ");
    reveal_strlit(" <= ");
    reveal_strlit(" < ");
    reveal_strlit(" = ");
    reveal_strlit(" != ");
    reveal_strlit(">=");
    reveal_strlit(">");
    reveal_strlit("<=");
    reveal_strlit("<");
    reveal_strlit("=");
    reveal_strlit("!=");
    reveal_strlit(" ");
    lemma_single_entry(field, JsonModel::Object(seq![(tag, operand)]));
    assert(translate(field_stage(field, tag, operand))->Ok_0 =~= field + " "@ + comparison_symbol(
        tag,
    ) + " "@ + json_text(operand));
}

/// Membership over two values: `{field: {"$in": [a, b]}}` translates to
/// `field IN (a, b)`, and `$nin` to `field NOT IN (a, b)`.
pub proof fn law_membership(field: Seq<char>, a: JsonModel, b: JsonModel)
    requires
        !is_group_key(field),
    ensures
        translate(field_stage(field, "$in"@, JsonModel::Array(seq![a, b]))) == Ok::<
            Seq<char>,
            ErrorModel,
        >(field + " IN ("@ + json_text(a) + ", "@ + json_text(b) + ")"@),
        translate(field_stage(field, "$nin"@, JsonModel::Array(seq![a, b]))) == Ok::<
            Seq<char>,
            ErrorModel,
        >(field + " NOT IN ("@ + json_text(a) + ", "@ + json_text(b) + ")"@),
{
    reveal_tags();
    let operand = JsonModel::Array(seq![a, b]);
    lemma_single_entry(field, JsonModel::Object(seq![("$in"@, operand)]));
    lemma_single_entry(field, JsonModel::Object(seq![("$nin"@, operand)]));
    reveal_with_fuel(crate::stage::list_text, 3);
    assert(operator_of("$in"@) == Some(Operator::In));
    assert(operator_of("$nin"@) == Some(Operator::Nin));
    let items = seq![a, b];
    assert(crate::stage::list_text(items, 2) == json_text(a) + ", "@ + json_text(b));
    assert(crate::stage::operand_list(operand) == json_text(a) + ", "@ + json_text(b));
    assert(field + " IN ("@ + crate::stage::operand_list(operand) + ")"@ =~= field + " IN ("@
        + json_text(a) + ", "@ + json_text(b) + ")"@);
    assert(field + " NOT IN ("@ + crate::stage::operand_list(operand) + ")"@ =~= field
        + " NOT IN ("@ + json_text(a) + ", "@ + json_text(b) + ")"@);
}

/// A pattern with options: `{field: {"$regex": pat, "$options": o}}` translates to
/// `field ~ 'pat'`; the options add nothing.
pub proof fn law_pattern(field: Seq<char>, pat: Seq<char>, options: JsonModel)
    requires
        !is_group_key(field),
    ensures
        translate(
            JsonModel::Object(
                seq![(field, JsonModel::Object(seq![("$regex"@, JsonModel::Str(pat)), ("$options"@, options)]))],
            ),
        ) == Ok::<Seq<char>, ErrorModel>(field + " ~ '"@ + pat + "'"@),
{
    reveal_tags();
    assert(operator_of("$regex"@) == Some(Operator::Regex));
    lemma_single_entry(
        field,
        JsonModel::Object(seq![("$regex"@, JsonModel::Str(pat)), ("$options"@, options)]),
    );
}

/// The outcome of a two-stage group joined by `sep`: the first error of the two
/// sub-stages, else `((t1)SEP(t2))`.
pub open spec fn pair_outcome(s1: JsonModel, s2: JsonModel, sep: Seq<char>) -> Result<
    Seq<char>,
    ErrorModel,
> {
    match translate(s1) {
        Err(e) => Err(e),
        Ok(t1) => match translate(s2) {
            Err(e) => Err(e),
            Ok(t2) => Ok("(("@ + t1 + ")"@ + sep + "("@ + t2 + "))"@),
        },
    }
}

/// A group of two sub-stages under any grouping key.
proof fn lemma_pair_group(key: Seq<char>, s1: JsonModel, s2: JsonModel)
    requires
        is_group_key(key),
    ensures
        translate(group_stage(key, s1, s2)) == pair_outcome(
            s1,
            s2,
            crate::stage::separator(key),
        ),
{
    reveal_strlit("((");
    reveal_strlit("))");
    reveal_strlit("(");
    reveal_strlit(")");
    let subs = seq![s1, s2];
    let entries = seq![(key, JsonModel::Array(subs))];
    reveal_with_fuel(fields_text, 2);
    reveal_with_fuel(translate_all, 3);
    reveal_with_fuel(joined, 3);
    assert(fields_text(entries, 1) == Ok::<Seq<char>, ErrorModel>(Seq::empty() + Seq::empty()));
    assert(Seq::<char>::empty() + Seq::<char>::empty() =~= Seq::<char>::empty());
    match translate(s1) {
        Err(e) => {},
        Ok(t1) => match translate(s2) {
            Err(e) => {},
            Ok(t2) => {
                let parts = seq![t1, t2];
                assert(translate_all(subs, 2) == Ok::<Seq<Seq<char>>, ErrorModel>(parts)) by {
                    assert(seq![t1] =~= Seq::<Seq<char>>::empty().push(t1));
                    assert(parts =~= seq![t1].push(t2));
                }
                assert(parts.drop_last() =~= seq![t1]);
                let sep = crate::stage::separator(key);
                assert(Seq::<char>::empty() + ("("@ + joined(parts, sep) + ")"@) =~= "(("@ + t1
                    + ")"@ + sep + "("@ + t2 + "))"@);
            },
        },
    }
}

/// Conjunction: `{"$and": [s1, s2]}` translates to `((t1) AND (t2))` where `t1`
/// and `t2` are the sub-stages' translations; an error of either is returned.
pub proof fn law_conjunction(s1: JsonModel, s2: JsonModel)
    ensures
        translate(group_stage("$and"@, s1, s2)) == pair_outcome(s1, s2, " AND "@),
{
    reveal_tags();
    lemma_pair_group("$and"@, s1, s2);
}

/// Disjunction: `{"$or": [s1, s2]}` translates to `((t1) OR (t2))`; an error of
/// either sub-stage is returned.
pub proof fn law_disjunction(s1: JsonModel, s2: JsonModel)
    ensures
        translate(group_stage("$or"@, s1, s2)) == pair_outcome(s1, s2, " OR "@),
{
    reveal_tags();
    assert(crate::stage::separator("$or"@) == " OR "@);
    lemma_pair_group("$or"@, s1, s2);
}

/// An operator mapping whose tag is not recognized is an `UnsupportedOperator`
/// error naming the tag, never a predicate.
pub proof fn law_unsupported_operator(field: Seq<char>, tag: Seq<char>, operand: JsonModel)
    requires
        operator_of(tag) is None,
        !is_group_key(field),
    ensures
        translate(field_stage(field, tag, operand)) == Err::<Seq<char>, ErrorModel>(
            ErrorModel::UnsupportedOperator(tag),
        ),
{
    lemma_single_entry(field, JsonModel::Object(seq![(tag, operand)]));
}

/// A stage that is not a mapping is an `InvalidStage` error carrying the stage.
pub proof fn law_invalid_stage(stage: JsonModel)
    requires
        !(stage is Object),
    ensures
        translate(stage) == Err::<Seq<char>, ErrorModel>(ErrorModel::InvalidStage(stage)),
{
}

} // verus!
