//! The extraction engine: walks the schema in declaration order, drives one
//! prompt per leaf field (re-prompting on invalid input), coerces each raw
//! answer into a typed payload, and collects the values — or aborts the whole
//! run on cancellation, producing nothing.

use vstd::prelude::*;

use crate::config::{FieldKind, FrontmatterField};
use crate::header::serialize_text;
use crate::numbers::spec_parse_i64;
use crate::numbers::parse_i64;
use crate::prompt::{AnswerModel, PromptAborted, Prompter};
use crate::value::{values_model, ExtractedValue, FieldPayload, PayloadModel, ValueModel};

verus! {

/// The models of a field's options, in declaration order.
pub open spec fn options_model(options: Seq<String>) -> Seq<Seq<char>> {
    options.map_values(|s: String| s@)
}

/// A two-part key: the group name, a dot, and the child field's name.
pub open spec fn qualified_key(group: Seq<char>, name: Seq<char>) -> Seq<char> {
    group + seq!['.'] + name
}

/// The key a leaf emits: its own name, qualified by the enclosing group's
/// name when it sits inside a group.
pub open spec fn leaf_key(group: Option<Seq<char>>, name: Seq<char>) -> Seq<char> {
    match group {
        Some(g) => qualified_key(g, name),
        None => name,
    }
}

/// The model of an optional group-name argument.
pub open spec fn group_model(group: Option<&String>) -> Option<Seq<char>> {
    match group {
        Some(g) => Some(g@),
        None => None,
    }
}

/// The question a field asks: its declared question text, or its name when
/// the declared text is empty.
pub open spec fn effective_question(question: Seq<char>, name: Seq<char>) -> Seq<char> {
    if question.len() == 0 {
        name
    } else {
        question
    }
}

/// The question text shown for `field`.
pub fn question_for<'a>(field: &'a FrontmatterField) -> (r: &'a str)
    ensures
        r@ == effective_question(field.question@, field.name@),
{
    if field.question.as_str().unicode_len() == 0 {
        field.name.as_str()
    } else {
        field.question.as_str()
    }
}

/// The options a multi-choice selection keeps: exactly those whose index was
/// picked, listed in option declaration order, one occurrence each.
pub open spec fn chosen_options(options: Seq<Seq<char>>, picks: Seq<usize>) -> Seq<Seq<char>>
    decreases options.len(),
{
    if options.len() == 0 {
        Seq::empty()
    } else {
        let rest = chosen_options(options.drop_last(), picks);
        if picks.contains((options.len() - 1) as usize) {
            rest.push(options.last())
        } else {
            rest
        }
    }
}

/// What one leaf field makes of the pending answers: the coerced payload and
/// the answers left over, or `None` when the run is cancelled first. An
/// invalid answer — empty text for a required field, an unparseable numeric
/// literal — consumes the answer and asks again; an answer whose shape does
/// not match the field's kind, an out-of-range choice index, or a `Group`
/// field (which carries no value of its own) aborts.
pub open spec fn leaf_result(field: FrontmatterField, answers: Seq<AnswerModel>) -> Option<
    (PayloadModel, Seq<AnswerModel>),
>
    decreases answers.len(),
{
    if answers.len() == 0 {
        None
    } else {
        let a = answers[0];
        let rest = answers.drop_first();
        match field.kind {
            FieldKind::Text => match a {
                AnswerModel::Text(s) => if field.required && s.len() == 0 {
                    leaf_result(field, rest)
                } else {
                    Some((PayloadModel::Text(s), rest))
                },
                _ => None,
            },
            FieldKind::Number => match a {
                AnswerModel::Text(s) => if s.len() == 0 {
                    if field.required {
                        leaf_result(field, rest)
                    } else {
                        Some((PayloadModel::Number(0), rest))
                    }
                } else {
                    match spec_parse_i64(s) {
                        Some(v) => Some((PayloadModel::Number(v as int), rest)),
                        None => leaf_result(field, rest),
                    }
                },
                _ => None,
            },
            FieldKind::Boolean => match a {
                AnswerModel::Flag(b) => Some((PayloadModel::Boolean(b), rest)),
                _ => None,
            },
            FieldKind::SingleChoice => match a {
                AnswerModel::Index(i) => if i < field.options@.len() {
                    Some((PayloadModel::SingleChoice(field.options@[i as int]@), rest))
                } else {
                    None
                },
                _ => None,
            },
            FieldKind::MultiChoice => match a {
                AnswerModel::Indices(picks) => Some(
                    (
                        PayloadModel::MultiChoice(chosen_options(options_model(field.options@), picks)),
                        rest,
                    ),
                ),
                _ => None,
            },
            FieldKind::Group => None,
        }
    }
}

/// What a run of leaf fields under one optional group prefix makes of the
/// pending answers: one value per field, in order, and the answers left over.
pub open spec fn leaves_result(
    group: Option<Seq<char>>,
    fields: Seq<FrontmatterField>,
    answers: Seq<AnswerModel>,
) -> Option<(Seq<ValueModel>, Seq<AnswerModel>)>
    decreases fields.len(),
{
    if fields.len() == 0 {
        Some((Seq::empty(), answers))
    } else {
        match leaf_result(fields[0], answers) {
            None => None,
            Some((p, rest)) => match leaves_result(group, fields.drop_first(), rest) {
                None => None,
                Some((vs, rest2)) => Some(
                    (seq![ValueModel { key: leaf_key(group, fields[0].name@), payload: p }] + vs, rest2),
                ),
            },
        }
    }
}

/// What the whole schema makes of the pending answers, in declaration order:
/// a `Group` field expands flat into its direct children, each keyed by the
/// group's name; every other field is one leaf keyed by its own name.
pub open spec fn fields_result(fields: Seq<FrontmatterField>, answers: Seq<AnswerModel>) -> Option<
    (Seq<ValueModel>, Seq<AnswerModel>),
>
    decreases fields.len(),
{
    if fields.len() == 0 {
        Some((Seq::empty(), answers))
    } else {
        let f = fields[0];
        let head = if f.kind == FieldKind::Group {
            leaves_result(Some(f.name@), f.properties@, answers)
        } else {
            match leaf_result(f, answers) {
                None => None,
                Some((p, rest)) => Some(
                    (seq![ValueModel { key: f.name@, payload: p }], rest),
                ),
            }
        };
        match head {
            None => None,
            Some((vs, rest)) => match fields_result(fields.drop_first(), rest) {
                None => None,
                Some((vs2, rest2)) => Some((vs + vs2, rest2)),
            },
        }
    }
}

/// The values the whole run yields, or `None` when it is cancelled: the
/// all-or-nothing outcome of one extraction over the pending answers.
pub open spec fn extract_result(fields: Seq<FrontmatterField>, answers: Seq<AnswerModel>) -> Option<
    Seq<ValueModel>,
> {
    match fields_result(fields, answers) {
        None => None,
        Some((vs, _)) => Some(vs),
    }
}

/// Whether `picks` holds the index `x`.
fn contains_index(picks: &Vec<usize>, x: usize) -> (r: bool)
    ensures
        r == picks@.contains(x),
{
    let mut j: usize = 0;
    while j < picks.len()
        invariant
            0 <= j <= picks@.len(),
            forall|k: int| 0 <= k < j ==> picks@[k] != x,
        decreases picks@.len() - j,
    {
        if picks[j] == x {
            assert(picks@.contains(x));
            return true;
        }
        j = j + 1;
    }
    assert(!picks@.contains(x));
    false
}

/// Keeps the options whose index was picked, in declaration order.
fn choose_options(options: &Vec<String>, picks: &Vec<usize>) -> (r: Vec<String>)
    ensures
        options_model(r@) == chosen_options(options_model(options@), picks@),
{
    let ghost m = options_model(options@);
    let mut r: Vec<String> = Vec::new();
    assert(options_model(r@) =~= chosen_options(m.take(0), picks@));
    let mut i: usize = 0;
    while i < options.len()
        invariant
            0 <= i <= options@.len(),
            m == options_model(options@),
            options_model(r@) == chosen_options(m.take(i as int), picks@),
        decreases options@.len() - i,
    {
        let ghost r_pre = r@;
        if contains_index(picks, i) {
            r.push(options[i].clone());
        }
        proof {
            assert(m.take(i + 1).drop_last() =~= m.take(i as int));
            assert(m.take(i + 1).last() == m[i as int]);
            assert((m.take(i + 1).len() - 1) as usize == i);
            if picks@.contains(i) {
                assert(options_model(r@) =~= options_model(r_pre).push(m[i as int]));
            }
            assert(options_model(r@) =~= chosen_options(m.take(i + 1), picks@));
        }
        i = i + 1;
    }
    proof {
        assert(m.take(options@.len() as int) =~= m);
    }
    r
}

/// Asks the prompter for this leaf field until it yields an acceptable
/// answer, and coerces it into the field's typed payload; empty text for a
/// required field and unparseable numeric literals are re-prompted, while a
/// cancellation (or an answer of the wrong shape) aborts.
#[verifier::loop_isolation(false)]
fn prompt_payload<P: Prompter>(field: &FrontmatterField, prompter: &mut P) -> (r: Result<
    FieldPayload,
    PromptAborted,
>)
    ensures
        match r {
            Ok(p) => leaf_result(*field, old(prompter).pending()) matches Some((pm, rest))
                && p@ == pm && final(prompter).pending() == rest,
            Err(_) => leaf_result(*field, old(prompter).pending()) is None,
        },
{
    let ghost answers0 = prompter.pending();
    let question = question_for(field);
    match field.kind {
        FieldKind::Text => {
            loop
                invariant
                    field.kind == FieldKind::Text,
                    leaf_result(*field, prompter.pending()) == leaf_result(*field, answers0),
                decreases prompter.pending().len(),
            {
                let ghost pend_pre = prompter.pending();
                match prompter.ask_text(question, field.placeholder.as_str()) {
                    Err(e) => {
                        return Err(e);
                    },
                    Ok(s) => {
                        if field.required && s.as_str().unicode_len() == 0 {
                            proof {
                                assert(leaf_result(*field, pend_pre) == leaf_result(
                                    *field,
                                    prompter.pending(),
                                ));
                            }
                        } else {
                            return Ok(FieldPayload::Text(s));
                        }
                    },
                }
            }
        },
        FieldKind::Number => {
            loop
                invariant
                    field.kind == FieldKind::Number,
                    leaf_result(*field, prompter.pending()) == leaf_result(*field, answers0),
                decreases prompter.pending().len(),
            {
                let ghost pend_pre = prompter.pending();
                match prompter.ask_text(question, field.placeholder.as_str()) {
                    Err(e) => {
                        return Err(e);
                    },
                    Ok(s) => {
                        if s.as_str().unicode_len() == 0 {
                            if field.required {
                                proof {
                                    assert(leaf_result(*field, pend_pre) == leaf_result(
                                        *field,
                                        prompter.pending(),
                                    ));
                                }
                            } else {
                                return Ok(FieldPayload::Number(0));
                            }
                        } else {
                            match parse_i64(s.as_str()) {
                                Some(v) => {
                                    return Ok(FieldPayload::Number(v));
                                },
                                None => {
                                    proof {
                                        assert(leaf_result(*field, pend_pre) == leaf_result(
                                            *field,
                                            prompter.pending(),
                                        ));
                                    }
                                },
                            }
                        }
                    },
                }
            }
        },
        FieldKind::Boolean => {
            match prompter.ask_confirm(question) {
                Err(e) => Err(e),
                Ok(b) => Ok(FieldPayload::Boolean(b)),
            }
        },
        FieldKind::SingleChoice => {
            match prompter.ask_select(question, &field.options) {
                Err(e) => Err(e),
                Ok(i) => {
                    if i < field.options.len() {
                        Ok(FieldPayload::SingleChoice(field.options[i].clone()))
                    } else {
                        Err(PromptAborted)
                    }
                },
            }
        },
        FieldKind::MultiChoice => {
            match prompter.ask_multi_select(question, &field.options) {
                Err(e) => Err(e),
                Ok(picks) => {
                    let chosen = choose_options(&field.options, &picks);
                    Ok(FieldPayload::MultiChoice(chosen))
                },
            }
        },
        FieldKind::Group => Err(PromptAborted),
    }
}

/// Extracts one leaf field into a value keyed for the optional group.
fn extract_leaf<P: Prompter>(
    group: Option<&String>,
    field: &FrontmatterField,
    prompter: &mut P,
) -> (r: Result<ExtractedValue, PromptAborted>)
    ensures
        match r {
            Ok(v) => leaf_result(*field, old(prompter).pending()) matches Some((pm, rest))
                && v@.payload == pm && v@.key == leaf_key(group_model(group), field.name@)
                && final(prompter).pending() == rest,
            Err(_) => leaf_result(*field, old(prompter).pending()) is None,
        },
{
    let key: String = match group {
        Some(g) => {
            proof {
                reveal_strlit(".");
            }
            let mut k = g.clone();
            k.append(".");
            k.append(field.name.as_str());
            assert(k@ =~= qualified_key(g@, field.name@));
            k
        },
        None => field.name.clone(),
    };
    match prompt_payload(field, prompter) {
        Err(e) => Err(e),
        Ok(p) => Ok(ExtractedValue { key, payload: p }),
    }
}

/// Extracts every field of `fields` as a leaf under `group`, appending the
/// values to `out` in order.
#[verifier::loop_isolation(false)]
fn extract_leaves<P: Prompter>(
    group: Option<&String>,
    fields: &Vec<FrontmatterField>,
    prompter: &mut P,
    out: &mut Vec<ExtractedValue>,
) -> (r: Result<(), PromptAborted>)
    ensures
        match r {
            Ok(_) => leaves_result(group_model(group), fields@, old(prompter).pending()) matches Some(
                (vs, rest),
            ) && values_model(final(out)@) == values_model(old(out)@) + vs
                && final(prompter).pending() == rest,
            Err(_) => leaves_result(group_model(group), fields@, old(prompter).pending()) is None,
        },
{
    let ghost g = group_model(group);
    let ghost answers0 = prompter.pending();
    let ghost out0 = out@;
    proof {
        assert(answers0 == old(prompter).pending());
        assert(fields@.skip(0) =~= fields@);
        assert(out@.skip(out0.len() as int) =~= Seq::<ExtractedValue>::empty());
        assert(values_model(out@.skip(out0.len() as int)) =~= Seq::<ValueModel>::empty());
        match leaves_result(g, fields@, answers0) {
            Some((vs, rest)) => {
                assert(values_model(out@.skip(out0.len() as int)) + vs =~= vs);
            },
            None => {},
        }
    }
    let mut k: usize = 0;
    while k < fields.len()
        invariant
            0 <= k <= fields@.len(),
            g == group_model(group),
            out@.len() >= out0.len(),
            out@.take(out0.len() as int) == out0,
            ({
                match leaves_result(g, fields@.skip(k as int), prompter.pending()) {
                    Some((vs, rest)) => leaves_result(g, fields@, answers0) == Some(
                        (values_model(out@.skip(out0.len() as int)) + vs, rest),
                    ),
                    None => leaves_result(g, fields@, answers0) is None,
                }
            }),
        decreases fields@.len() - k,
    {
        let ghost pend_pre = prompter.pending();
        let ghost out_pre = out@;
        match extract_leaf(group, &fields[k], prompter) {
            Err(e) => {
                proof {
                    assert(fields@.skip(k as int)[0] == fields@[k as int]);
                    assert(leaves_result(g, fields@.skip(k as int), pend_pre) is None);
                    assert(leaves_result(g, fields@, answers0) is None);
                }
                return Err(e);
            },
            Ok(v) => {
                out.push(v);
                proof {
                    let fk = fields@[k as int];
                    assert(fields@.skip(k as int)[0] == fk);
                    assert(fields@.skip(k as int).drop_first() =~= fields@.skip(k + 1));
                    let (pm, rest) = leaf_result(fk, pend_pre)->Some_0;
                    assert(v@ == ValueModel { key: leaf_key(g, fk.name@), payload: pm });
                    assert(out@ == out_pre.push(v));
                    assert(out@.take(out0.len() as int) =~= out0);
                    assert(values_model(out@.skip(out0.len() as int)) =~= values_model(
                        out_pre.skip(out0.len() as int),
                    ).push(v@));
                    match leaves_result(g, fields@.skip(k + 1), prompter.pending()) {
                        Some((vs2, rest2)) => {
                            assert(leaves_result(g, fields@.skip(k as int), pend_pre) == Some(
                                (seq![v@] + vs2, rest2),
                            ));
                            assert(values_model(out_pre.skip(out0.len() as int)) + (seq![v@] + vs2)
                                =~= values_model(out@.skip(out0.len() as int)) + vs2);
                        },
                        None => {
                            assert(leaves_result(g, fields@.skip(k as int), pend_pre) is None);
                        },
                    }
                }
            },
        }
        k = k + 1;
    }
    proof {
        assert(fields@.skip(fields@.len() as int) =~= Seq::<FrontmatterField>::empty());
        assert(leaves_result(g, fields@.skip(fields@.len() as int), prompter.pending()) == Some(
            (Seq::<ValueModel>::empty(), prompter.pending()),
        ));
        match leaves_result(g, fields@, answers0) {
            Some((vs, rest)) => {
                assert(values_model(out@.skip(out0.len() as int)) + Seq::<ValueModel>::empty()
                    =~= values_model(out@.skip(out0.len() as int)));
                assert(values_model(out@) =~= values_model(out0) + values_model(
                    out@.skip(out0.len() as int),
                ));
            },
            None => {},
        }
    }
    Ok(())
}

/// Walks the whole schema in declaration order and collects one typed value
/// per leaf prompt: a `Group` field expands flat into its direct children,
/// keyed `group.child`; every other field is one leaf keyed by its own name.
/// Cancelling any prompt aborts the whole run: no values are produced at all.
#[verifier::loop_isolation(false)]
pub fn extract<P: Prompter>(fields: &Vec<FrontmatterField>, prompter: &mut P) -> (r: Result<
    Vec<ExtractedValue>,
    PromptAborted,
>)
    ensures
        match r {
            Ok(vals) => extract_result(fields@, old(prompter).pending()) == Some(
                values_model(vals@),
            ),
            Err(_) => extract_result(fields@, old(prompter).pending()) is None,
        },
{
    let ghost answers0 = prompter.pending();
    let mut out: Vec<ExtractedValue> = Vec::new();
    proof {
        assert(answers0 == old(prompter).pending());
        assert(values_model(out@) =~= Seq::<ValueModel>::empty());
        assert(fields@.skip(0) =~= fields@);
        match fields_result(fields@, answers0) {
            Some((vs, rest)) => {
                assert(values_model(out@) + vs =~= vs);
            },
            None => {},
        }
    }
    let mut i: usize = 0;
    while i < fields.len()
        invariant
            0 <= i <= fields@.len(),
            ({
                match fields_result(fields@.skip(i as int), prompter.pending()) {
                    Some((vs, rest)) => fields_result(fields@, answers0) == Some(
                        (values_model(out@) + vs, rest),
                    ),
                    None => fields_result(fields@, answers0) is None,
                }
            }),
        decreases fields@.len() - i,
    {
        let ghost pend_pre = prompter.pending();
        let ghost out_pre = out@;
        let field = &fields[i];
        proof {
            assert(fields@.skip(i as int)[0] == fields@[i as int]);
            assert(fields@.skip(i as int).drop_first() =~= fields@.skip(i + 1));
        }
        let is_group = match field.kind {
            FieldKind::Group => true,
            _ => false,
        };
        if is_group {
            match extract_leaves(Some(&field.name), &field.properties, prompter, &mut out) {
                Err(e) => {
                    proof {
                        assert(fields_result(fields@.skip(i as int), pend_pre) is None);
                        assert(fields_result(fields@, answers0) is None);
                    }
                    return Err(e);
                },
                Ok(_) => {
                    proof {
                        let fk = fields@[i as int];
                        let (vs, rest) = leaves_result(
                            Some(fk.name@),
                            fk.properties@,
                            pend_pre,
                        )->Some_0;
                        assert(values_model(out@) =~= values_model(out_pre) + vs);
                        match fields_result(fields@.skip(i + 1), prompter.pending()) {
                            Some((vs2, rest2)) => {
                                assert(fields_result(fields@.skip(i as int), pend_pre) == Some(
                                    (vs + vs2, rest2),
                                ));
                                assert(values_model(out_pre) + (vs + vs2) =~= values_model(out@)
                                    + vs2);
                            },
                            None => {
                                assert(fields_result(fields@.skip(i as int), pend_pre) is None);
                            },
                        }
                    }
                },
            }
        } else {
            match extract_leaf(None, field, prompter) {
                Err(e) => {
                    proof {
                        assert(fields_result(fields@.skip(i as int), pend_pre) is None);
                        assert(fields_result(fields@, answers0) is None);
                    }
                    return Err(e);
                },
                Ok(v) => {
                    out.push(v);
                    proof {
                        let fk = fields@[i as int];
                        let (pm, rest) = leaf_result(fk, pend_pre)->Some_0;
                        assert(v@ == ValueModel { key: fk.name@, payload: pm });
                        assert(out@ == out_pre.push(v));
                        assert(values_model(out@) =~= values_model(out_pre).push(v@));
                        match fields_result(fields@.skip(i + 1), prompter.pending()) {
                            Some((vs2, rest2)) => {
                                assert(fields_result(fields@.skip(i as int), pend_pre) == Some(
                                    (seq![v@] + vs2, rest2),
                                ));
                                assert(values_model(out_pre) + (seq![v@] + vs2) =~= values_model(
                                    out@,
                                ) + vs2);
                            },
                            None => {
                                assert(fields_result(fields@.skip(i as int), pend_pre) is None);
                            },
                        }
                    }
                },
            }
        }
        i = i + 1;
    }
    proof {
        assert(fields@.skip(fields@.len() as int) =~= Seq::<FrontmatterField>::empty());
        match fields_result(fields@, answers0) {
            Some((vs, rest)) => {
                assert(values_model(out@) + Seq::<ValueModel>::empty() =~= values_model(out@));
            },
            None => {},
        }
    }
    Ok(out)
}

/// Which options a multi-choice payload keeps depends only on which indices
/// were picked, never on the order the operator picked them in: the payload
/// always lists the chosen options in declaration order.
pub proof fn lemma_multichoice_declaration_order(
    options: Seq<Seq<char>>,
    picks1: Seq<usize>,
    picks2: Seq<usize>,
)
    requires
        forall|x: usize| #[trigger] picks1.contains(x) <==> picks2.contains(x),
    ensures
        chosen_options(options, picks1) == chosen_options(options, picks2),
    decreases options.len(),
{
    if options.len() > 0 {
        lemma_multichoice_declaration_order(options.drop_last(), picks1, picks2);
        assert(picks1.contains((options.len() - 1) as usize) == picks2.contains(
            (options.len() - 1) as usize,
        ));
    }
}

/// Extracting a `Group` field yields exactly one value per direct child, in
/// child order, each under the flat two-part key `group.child` — never a
/// single nested value.
pub proof fn lemma_group_keys(
    gname: Seq<char>,
    children: Seq<FrontmatterField>,
    answers: Seq<AnswerModel>,
    vs: Seq<ValueModel>,
    rest: Seq<AnswerModel>,
)
    requires
        leaves_result(Some(gname), children, answers) == Some((vs, rest)),
    ensures
        vs.len() == children.len(),
        forall|i: int|
            0 <= i < vs.len() ==> (#[trigger] vs[i]).key == qualified_key(gname, children[i].name@),
    decreases children.len(),
{
    if children.len() == 0 {
        assert(vs =~= Seq::<ValueModel>::empty());
    } else {
        let (p, rest1) = leaf_result(children[0], answers)->Some_0;
        let (vs2, rest2) = leaves_result(Some(gname), children.drop_first(), rest1)->Some_0;
        lemma_group_keys(gname, children.drop_first(), rest1, vs2, rest2);
        assert(vs == seq![ValueModel { key: qualified_key(gname, children[0].name@), payload: p }]
            + vs2);
        assert forall|i: int| 0 <= i < vs.len() implies (#[trigger] vs[i]).key == qualified_key(
            gname,
            children[i].name@,
        ) by {
            if i > 0 {
                assert(vs[i] == vs2[i - 1]);
                assert(children.drop_first()[i - 1] == children[i]);
            }
        }
    }
}

/// One schema and one sequence of operator answers determine the run: two
/// extractions over equal pending answers yield equal values, and so
/// byte-identical serialized header text.
pub proof fn lemma_run_deterministic(
    fields: Seq<FrontmatterField>,
    answers: Seq<AnswerModel>,
    vs1: Seq<ValueModel>,
    vs2: Seq<ValueModel>,
)
    requires
        extract_result(fields, answers) == Some(vs1),
        extract_result(fields, answers) == Some(vs2),
    ensures
        vs1 == vs2,
        serialize_text(vs1) == serialize_text(vs2),
{
}

} // verus!
