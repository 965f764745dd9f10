//! The recursive-descent composer: one generic interpreter that walks a
//! well-formed schema and builds a [`Value`] by prompting through a
//! [`PromptService`]. Its contract pins down the whole interaction: the calls
//! a composition makes, in order, with their prompts, menu labels and
//! preselected index, and the value assembled from the outcomes.

use vstd::prelude::*;

verus! {

use crate::leaf::{LeafKind, LeafV, LeafValue, leaf_view};
use crate::schema::{
    field_view, FieldSchemaV, TypeSchema, TypeSchemaV, variant_view, VariantSchemaV, schema_view,
    schema_wf, lemma_fields_view_index, lemma_variants_view_index, fields_view, variants_view,
};
use crate::service::{Call, labels_view, Outcome, PromptError, PromptService};

/// A composed value: a leaf, a record of named field values in declaration
/// order, or a chosen variant with its payload.
#[derive(Debug)]
pub enum Value {
    Leaf(LeafValue),
    Record(Vec<FieldValue>),
    Variant { tag: String, index: usize, payload: Option<Box<Value>> },
}

/// A record field's composed value.
#[derive(Debug)]
pub struct FieldValue {
    pub name: String,
    pub value: Value,
}

/// Mathematical view of a composed value. A variant's payload is a sequence
/// of zero or one values.
pub ghost enum ValueV {
    Leaf(LeafV),
    Record(Seq<FieldValueV>),
    Variant { tag: Seq<char>, index: int, payload: Seq<ValueV> },
}

pub ghost struct FieldValueV {
    pub name: Seq<char>,
    pub value: ValueV,
}

pub open spec fn field_value_view(f: FieldValue) -> FieldValueV
    decreases f,
{
    FieldValueV { name: f.name@, value: value_view(f.value) }
}

pub open spec fn field_values_view(fs: Seq<FieldValue>) -> Seq<FieldValueV>
    decreases fs,
{
    if fs.len() == 0 {
        Seq::empty()
    } else {
        seq![field_value_view(fs[0])] + field_values_view(fs.skip(1))
    }
}

pub open spec fn value_view(v: Value) -> ValueV
    decreases v,
{
    match v {
        Value::Leaf(l) => ValueV::Leaf(leaf_view(l)),
        Value::Record(fs) => ValueV::Record(field_values_view(fs@)),
        Value::Variant { tag, index, payload } => ValueV::Variant {
            tag: tag@,
            index: index as int,
            payload: match payload {
                None => Seq::empty(),
                Some(b) => seq![value_view(*b)],
            },
        },
    }
}

proof fn lemma_field_values_view_push(fs: Seq<FieldValue>, f: FieldValue)
    ensures
        field_values_view(fs.push(f)) == field_values_view(fs).push(field_value_view(f)),
    decreases fs,
{
    let whole = fs.push(f);
    if fs.len() == 0 {
        let rest = whole.skip(1);
        assert(rest =~= Seq::<FieldValue>::empty());
        assert(field_values_view(rest) =~= Seq::<FieldValueV>::empty());
        assert(whole[0] == f);
        assert(field_values_view(whole) =~= field_values_view(fs).push(field_value_view(f)));
    } else {
        lemma_field_values_view_push(fs.skip(1), f);
        assert(whole.skip(1) =~= fs.skip(1).push(f));
        assert(field_values_view(whole) =~= field_values_view(fs).push(field_value_view(f)));
    }
}

/// The labels a sum schema's menu offers, in declaration order.
pub open spec fn labels_of(variants: Seq<VariantSchemaV>) -> Seq<Seq<char>> {
    variants.map_values(|v: VariantSchemaV| v.label)
}

/// What reading a prefix of a call log as one composition of a schema comes
/// to: the first `n` entries are a complete successful run producing a value;
/// or a complete failed run, whose second component is the failing call's own
/// error message, handed up unchanged; or no run of this schema at all
/// (`Bad`).
pub ghost enum Step {
    Done(nat, ValueV),
    Stop(nat, Seq<char>),
    Bad,
}

/// Outcome of reading a prefix of a call log as the field-by-field
/// composition of a record's fields, in declaration order.
pub ghost enum FStep {
    Done(nat, Seq<FieldValueV>),
    Stop(nat, Seq<char>),
    Bad,
}

/// Read the head of `delta` as one composition of schema `s` under `prompt`.
///
/// This is the library's statement of the whole interaction discipline:
/// a leaf is exactly one confirmation (boolean) or one typed input; a record
/// is its section header followed by each field's own run, in declaration
/// order, stopping at the first failure; a sum is exactly one selection over
/// the variants' labels with index 0 preselected, followed, when the chosen
/// variant carries a payload, by the payload's run under the variant's own
/// prompt. The value of a successful run is assembled from the outcomes.
pub open spec fn run(s: TypeSchemaV, prompt: Seq<char>, delta: Seq<Call>) -> Step
    decreases s,
{
    match s {
        TypeSchemaV::Leaf { kind } => {
            if delta.len() < 1 {
                Step::Bad
            } else if kind is Bool {
                match delta[0] {
                    Call::Confirm { prompt: p, outcome } => {
                        if p == prompt {
                            match outcome {
                                Outcome::Answered(b) => Step::Done(1, ValueV::Leaf(LeafV::Bool(b))),
                                Outcome::Failed(m) => Step::Stop(1, m),
                            }
                        } else {
                            Step::Bad
                        }
                    },
                    _ => Step::Bad,
                }
            } else {
                match delta[0] {
                    Call::Input { prompt: p, kind: k, outcome } => {
                        if p == prompt && k == kind {
                            match outcome {
                                Outcome::Answered(lv) => Step::Done(1, ValueV::Leaf(lv)),
                                Outcome::Failed(m) => Step::Stop(1, m),
                            }
                        } else {
                            Step::Bad
                        }
                    },
                    _ => Step::Bad,
                }
            }
        },
        TypeSchemaV::Record { fields } => {
            if delta.len() < 1 || delta[0] != (Call::Section { text: prompt }) {
                Step::Bad
            } else {
                match run_fields(fields, delta.skip(1)) {
                    FStep::Done(n, fvs) => Step::Done(n + 1, ValueV::Record(fvs)),
                    FStep::Stop(n, m) => Step::Stop(n + 1, m),
                    FStep::Bad => Step::Bad,
                }
            }
        },
        TypeSchemaV::Sum { variants } => {
            if delta.len() < 1 {
                Step::Bad
            } else {
                match delta[0] {
                    Call::Select { prompt: p, options, preselect, outcome } => {
                        if p == prompt && options == labels_of(variants) && preselect == 0 {
                            match outcome {
                                Outcome::Failed(m) => Step::Stop(1, m),
                                Outcome::Answered(i) => {
                                    if 0 <= i < variants.len() {
                                        let var = variants[i];
                                        match var.payload {
                                            Some(pay) => match run(
                                                pay.schema,
                                                pay.prompt,
                                                delta.skip(1),
                                            ) {
                                                Step::Done(n, v) => Step::Done(
                                                    n + 1,
                                                    ValueV::Variant {
                                                        tag: var.tag,
                                                        index: i,
                                                        payload: seq![v],
                                                    },
                                                ),
                                                Step::Stop(n, m) => Step::Stop(n + 1, m),
                                                Step::Bad => Step::Bad,
                                            },
                                            None => Step::Done(
                                                1,
                                                ValueV::Variant {
                                                    tag: var.tag,
                                                    index: i,
                                                    payload: Seq::empty(),
                                                },
                                            ),
                                        }
                                    } else {
                                        Step::Bad
                                    }
                                },
                            }
                        } else {
                            Step::Bad
                        }
                    },
                    _ => Step::Bad,
                }
            }
        },
    }
}

/// Read the head of `delta` as the composition of `fields`, each field in
/// turn under its own prompt, stopping at the first failure.
pub open spec fn run_fields(fields: Seq<FieldSchemaV>, delta: Seq<Call>) -> FStep
    decreases fields,
{
    if fields.len() == 0 {
        FStep::Done(0, Seq::empty())
    } else {
        let f = fields[0];
        match run(f.nested, f.prompt, delta) {
            Step::Bad => FStep::Bad,
            Step::Stop(n, m) => FStep::Stop(n, m),
            Step::Done(n, v) => match run_fields(fields.skip(1), delta.skip(n as int)) {
                FStep::Bad => FStep::Bad,
                FStep::Stop(m2, msg) => FStep::Stop(n + m2, msg),
                FStep::Done(m, rest) => FStep::Done(
                    n + m,
                    seq![FieldValueV { name: f.name, value: v }] + rest,
                ),
            },
        }
    }
}

/// A complete run reads at most `delta` and is unchanged by whatever follows
/// it in the log.
pub proof fn lemma_run_extend(s: TypeSchemaV, prompt: Seq<char>, delta: Seq<Call>, more: Seq<Call>)
    ensures
        run(s, prompt, delta) matches Step::Done(n, v) ==> n <= delta.len() && run(
            s,
            prompt,
            delta + more,
        ) == Step::Done(n, v),
        run(s, prompt, delta) matches Step::Stop(n, m) ==> n <= delta.len() && run(
            s,
            prompt,
            delta + more,
        ) == Step::Stop(n, m),
    decreases s,
{
    let whole = delta + more;
    if delta.len() >= 1 {
        assert(whole[0] == delta[0]);
        assert(whole.skip(1) =~= delta.skip(1) + more);
    }
    match s {
        TypeSchemaV::Leaf { .. } => {},
        TypeSchemaV::Record { fields } => {
            if delta.len() >= 1 && delta[0] == (Call::Section { text: prompt }) {
                lemma_run_fields_extend(fields, delta.skip(1), more);
            }
        },
        TypeSchemaV::Sum { variants } => {
            if delta.len() >= 1 {
                match delta[0] {
                    Call::Select { prompt: p, options, preselect, outcome } => {
                        if p == prompt && options == labels_of(variants) && preselect == 0 {
                            match outcome {
                                Outcome::Answered(i) => {
                                    if 0 <= i < variants.len() {
                                        match variants[i].payload {
                                            Some(pay) => {
                                                lemma_run_extend(
                                                    pay.schema,
                                                    pay.prompt,
                                                    delta.skip(1),
                                                    more,
                                                );
                                            },
                                            None => {},
                                        }
                                    }
                                },
                                Outcome::Failed(_) => {},
                            }
                        }
                    },
                    _ => {},
                }
            }
        },
    }
}

pub proof fn lemma_run_fields_extend(
    fields: Seq<FieldSchemaV>,
    delta: Seq<Call>,
    more: Seq<Call>,
)
    ensures
        run_fields(fields, delta) matches FStep::Done(n, fvs) ==> n <= delta.len() && run_fields(
            fields,
            delta + more,
        ) == FStep::Done(n, fvs),
        run_fields(fields, delta) matches FStep::Stop(n, m) ==> n <= delta.len() && run_fields(
            fields,
            delta + more,
        ) == FStep::Stop(n, m),
    decreases fields,
{
    if fields.len() > 0 {
        let f = fields[0];
        lemma_run_extend(f.nested, f.prompt, delta, more);
        match run(f.nested, f.prompt, delta) {
            Step::Done(n, v) => {
                lemma_run_fields_extend(fields.skip(1), delta.skip(n as int), more);
                assert((delta + more).skip(n as int) =~= delta.skip(n as int) + more);
            },
            _ => {},
        }
    }
}

/// Law: in a successful record run the fields are composed one after the
/// other, in declaration order: the composed record has exactly one value
/// per declared field, the j-th carrying the j-th field's name, and each
/// field's own run follows the previous field's run in the log.
pub proof fn lemma_record_fields_in_order(
    fields: Seq<FieldSchemaV>,
    delta: Seq<Call>,
    n: nat,
    fvs: Seq<FieldValueV>,
)
    requires
        run_fields(fields, delta) == FStep::Done(n, fvs),
    ensures
        fvs.len() == fields.len(),
        forall|j: int| 0 <= j < fields.len() ==> fvs[j].name == fields[j].name,
    decreases fields,
{
    if fields.len() > 0 {
        let f = fields[0];
        match run(f.nested, f.prompt, delta) {
            Step::Done(n0, v) => {
                match run_fields(fields.skip(1), delta.skip(n0 as int)) {
                    FStep::Done(m, rest) => {
                        lemma_record_fields_in_order(
                            fields.skip(1),
                            delta.skip(n0 as int),
                            m,
                            rest,
                        );
                    },
                    _ => {},
                }
            },
            _ => {},
        }
    }
}

/// Law: a failed record run stops at the first failing field: some prefix of
/// the fields composed completely, the next field's own run failed, and no
/// later field was touched — the failed field's run ends the log.
pub proof fn lemma_record_stops_at_first_failure(
    fields: Seq<FieldSchemaV>,
    delta: Seq<Call>,
    n: nat,
    msg: Seq<char>,
)
    requires
        run_fields(fields, delta) == FStep::Stop(n, msg),
    ensures
        exists|j: int, k: nat|
            #![trigger run(fields[j].nested, fields[j].prompt, delta.skip(k as int))]
            0 <= j < fields.len() && k <= n && (run_fields(fields.take(j), delta) matches
            FStep::Done(kk, fvs) && kk == k) && run(
                fields[j].nested,
                fields[j].prompt,
                delta.skip(k as int),
            ) == Step::Stop((n - k) as nat, msg),
    decreases fields,
{
    let f = fields[0];
    match run(f.nested, f.prompt, delta) {
        Step::Stop(n0, m0) => {
            assert(fields.take(0) =~= Seq::<FieldSchemaV>::empty());
            assert(delta.skip(0) =~= delta);
            assert(run_fields(fields.take(0), delta) == FStep::Done(
                0,
                Seq::<FieldValueV>::empty(),
            ));
        },
        Step::Done(n0, v0) => {
            let rest = fields.skip(1);
            let dtail = delta.skip(n0 as int);
            lemma_run_fields_extend(fields, delta, Seq::empty());
            match run_fields(rest, dtail) {
                FStep::Stop(m, mm) => {
                    lemma_record_stops_at_first_failure(rest, dtail, m, mm);
                    let (j2, k2): (int, nat) = choose|j2: int, k2: nat|
                        #![trigger run(rest[j2].nested, rest[j2].prompt, dtail.skip(k2 as int))]
                        0 <= j2 < rest.len() && k2 <= m && (run_fields(rest.take(j2), dtail)
                        matches FStep::Done(kk, fvs) && kk == k2) && run(
                            rest[j2].nested,
                            rest[j2].prompt,
                            dtail.skip(k2 as int),
                        ) == Step::Stop((m - k2) as nat, mm);
                    let fvs2 = match run_fields(rest.take(j2), dtail) {
                        FStep::Done(kk, fvs) => fvs,
                        _ => Seq::<FieldValueV>::empty(),
                    };
                    let j = j2 + 1;
                    let k = (n0 + k2) as nat;
                    let fv0 = FieldValueV { name: f.name, value: v0 };
                    lemma_run_extend(f.nested, f.prompt, delta, Seq::empty());
                    assert(fields.take(j)[0] == f);
                    assert(fields.take(j).skip(1) =~= rest.take(j2));
                    assert(run_fields(fields.take(j), delta) == FStep::Done(
                        k,
                        seq![fv0] + fvs2,
                    ));
                    assert(dtail.skip(k2 as int) =~= delta.skip(k as int));
                    assert(fields[j].nested == rest[j2].nested);
                    assert(run(fields[j].nested, fields[j].prompt, delta.skip(k as int))
                        == Step::Stop((n - k) as nat, msg));
                },
                _ => {},
            }
        },
        Step::Bad => {},
    }
}

/// Law: every run of a sum schema begins with exactly one selection prompt
/// whose options are the variants' labels in declaration order and whose
/// preselected index is 0; a successful run composes exactly the chosen
/// variant: the value carries the selected index, that variant's tag, and a
/// payload value exactly when the variant declares a payload.
pub proof fn lemma_sum_selects_chosen(
    variants: Seq<VariantSchemaV>,
    prompt: Seq<char>,
    delta: Seq<Call>,
    n: nat,
    v: ValueV,
)
    requires
        run(TypeSchemaV::Sum { variants }, prompt, delta) == Step::Done(n, v),
    ensures
        delta.len() >= 1,
        delta[0] matches Call::Select { prompt: p, options, preselect, outcome } && p == prompt
            && options == labels_of(variants) && preselect == 0 && (outcome matches
        Outcome::Answered(i) && 0 <= i < variants.len() && v == (ValueV::Variant {
            tag: variants[i].tag,
            index: i,
            payload: (match v {
                ValueV::Variant { payload, .. } => payload,
                _ => Seq::empty(),
            }),
        }) && (variants[i].payload is Some <==> (match v {
            ValueV::Variant { payload, .. } => payload,
            _ => Seq::empty(),
        }).len() == 1)),
{
}

/// Law: whenever a sum schema's run gets as far as interacting at all, its
/// first call is a selection whose question is the sum's own prompt, whose
/// options are the variants' labels in declaration order, and whose
/// preselected index is 0.
pub proof fn lemma_sum_always_preselects_first(
    variants: Seq<VariantSchemaV>,
    prompt: Seq<char>,
    delta: Seq<Call>,
)
    requires
        !(run(TypeSchemaV::Sum { variants }, prompt, delta) is Bad),
    ensures
        delta.len() >= 1,
        delta[0] matches Call::Select { prompt: p, options, preselect, .. } && p == prompt
            && options == labels_of(variants) && preselect == 0,
{
}

/// Compose a value of a well-formed schema by prompting through `p`.
///
/// The contract pins the whole interaction down: exactly the calls that
/// `run` prescribes for this schema are appended to the service's log, and
/// the result is the value those outcomes assemble (`Step::Done`), or the
/// failing call's own error (`Step::Stop`), handed up through every
/// enclosing composer unchanged, with nothing composed past the failure.
#[verifier::rlimit(60)]
#[verifier::loop_isolation(false)]
pub fn compose<P: PromptService>(schema: &TypeSchema, prompt: &str, p: &mut P) -> (r: Result<
    Value,
    PromptError,
>)
    requires
        schema_wf(schema_view(*schema)),
    ensures
        old(p).log().len() <= final(p).log().len(),
        final(p).log().take(old(p).log().len() as int) == old(p).log(),
        ({
            let delta = final(p).log().skip(old(p).log().len() as int);
            match r {
                Ok(v) => run(schema_view(*schema), prompt@, delta) == Step::Done(
                    delta.len(),
                    value_view(v),
                ),
                Err(e) => run(schema_view(*schema), prompt@, delta) == Step::Stop(
                    delta.len(),
                    e.message@,
                ),
            }
        }),
    decreases schema_view(*schema),
{
    match schema {
        TypeSchema::Leaf { kind } => match kind {
            LeafKind::Bool => {
                let res = p.confirm(prompt);
                proof {
                    let log0 = old(p).log();
                    assert(p.log().take(log0.len() as int) =~= log0);
                    assert(p.log().skip(log0.len() as int) =~= seq![p.log()[log0.len() as int]]);
                }
                match res {
                    Ok(b) => Ok(Value::Leaf(LeafValue::Bool(b))),
                    Err(e) => Err(e),
                }
            },
            _ => {
                let res = p.input(prompt, *kind);
                proof {
                    let log0 = old(p).log();
                    assert(p.log().take(log0.len() as int) =~= log0);
                    assert(p.log().skip(log0.len() as int) =~= seq![p.log()[log0.len() as int]]);
                }
                match res {
                    Ok(v) => Ok(Value::Leaf(v)),
                    Err(e) => Err(e),
                }
            },
        },
        TypeSchema::Record { fields } => {
            let ghost log0 = old(p).log();
            let ghost sv = schema_view(*schema);
            let ghost fvs = fields_view(fields@);
            p.section(prompt);
            let ghost log1 = p.log();
            let mut vals: Vec<FieldValue> = Vec::new();
            let mut i: usize = 0;
            proof {
                lemma_fields_view_index(fields@);
                assert(log1.take(log0.len() as int) =~= log0);
                assert(vals@ =~= Seq::<FieldValue>::empty());
                assert(field_values_view(vals@) =~= Seq::<FieldValueV>::empty());
                let dfs0 = log1.skip(log1.len() as int);
                assert(dfs0 =~= Seq::<Call>::empty());
                assert forall|rest: Seq<Call>| #![trigger run_fields(fvs.skip(0), rest)]
                    (match run_fields(fvs.skip(0), rest) {
                        FStep::Done(m, sub) => run_fields(fvs, dfs0 + rest) == FStep::Done(
                            dfs0.len() + m,
                            field_values_view(vals@) + sub,
                        ),
                        FStep::Stop(m, msg) => run_fields(fvs, dfs0 + rest) == FStep::Stop(
                            dfs0.len() + m,
                            msg,
                        ),
                        FStep::Bad => true,
                    }) by {
                    assert(fvs.skip(0) =~= fvs);
                    assert(dfs0 + rest =~= rest);
                    match run_fields(fvs.skip(0), rest) {
                        FStep::Done(m, sub) => {
                            assert(field_values_view(vals@) + sub =~= sub);
                        },
                        _ => {},
                    }
                }
            }
            while i < fields.len()
                invariant
                    i <= fields@.len(),
                    schema_wf(sv),
                    sv == schema_view(*schema),
                    sv == (TypeSchemaV::Record { fields: fvs }),
                    fvs == fields_view(fields@),
                    fvs.len() == fields@.len(),
                    forall|j: int| 0 <= j < fields@.len() ==> fvs[j] == field_view(fields@[j]),
                    log1 == log0.push((Call::Section { text: prompt@ })),
                    log1.len() == log0.len() + 1,
                    p.log().len() >= log1.len(),
                    p.log().take(log1.len() as int) == log1,
                    vals@.len() == i,
                    field_values_view(vals@).len() == i,
                    forall|rest: Seq<Call>|
                        #![trigger run_fields(fvs.skip(i as int), rest)]
                        (match run_fields(fvs.skip(i as int), rest) {
                            FStep::Done(m, sub) => run_fields(
                                fvs,
                                p.log().skip(log1.len() as int) + rest,
                            ) == FStep::Done(
                                p.log().skip(log1.len() as int).len() + m,
                                field_values_view(vals@) + sub,
                            ),
                            FStep::Stop(m, msg) => run_fields(
                                fvs,
                                p.log().skip(log1.len() as int) + rest,
                            ) == FStep::Stop(p.log().skip(log1.len() as int).len() + m, msg),
                            FStep::Bad => true,
                        }),
                decreases fields@.len() - i,
            {
                let f = &fields[i];
                proof {
                    assert(decreases_to!(sv => fvs));
                    assert(decreases_to!(fvs => fvs[i as int]));
                    assert(decreases_to!(fvs[i as int] => fvs[i as int].nested));
                    assert(fvs[i as int].nested == schema_view(fields@[i as int].nested));
                    assert(decreases_to!(schema_view(*schema) => schema_view(f.nested)));
                    assert(schema_wf(fvs[i as int].nested));
                }
                let ghost log_a = p.log();
                let ghost dfs = log_a.skip(log1.len() as int);
                let ghost fvv_old = field_values_view(vals@);
                let sub = compose(&f.nested, f.prompt.as_str(), p);
                let ghost log_b = p.log();
                let ghost dsub = log_b.skip(log_a.len() as int);
                proof {
                    assert(log_b.take(log1.len() as int) =~= log1);
                    assert(log_b.skip(log1.len() as int) =~= dfs + dsub);
                }
                match sub {
                    Err(e) => {
                        proof {
                            let probe = run_fields(fvs.skip(i as int), dsub);
                            assert(fvs.skip(i as int)[0] == fvs[i as int]);
                            assert(run(fvs[i as int].nested, fvs[i as int].prompt, dsub)
                                == Step::Stop(dsub.len(), e.message@));
                            assert(probe == FStep::Stop(dsub.len(), e.message@));
                            assert(run_fields(fvs, dfs + dsub) == FStep::Stop(
                                dfs.len() + dsub.len(),
                                e.message@,
                            ));
                            assert(log_a =~= log_a.take(log1.len() as int) + log_a.skip(
                                log1.len() as int,
                            ));
                            assert(log_b =~= log_b.take(log_a.len() as int) + log_b.skip(
                                log_a.len() as int,
                            ));
                            assert(log_b == (log1 + dfs) + dsub);
                            let delta = log_b.skip(log0.len() as int);
                            assert(delta =~= seq![(Call::Section { text: prompt@ })] + (dfs
                                + dsub));
                            assert(delta[0] == (Call::Section { text: prompt@ }));
                            assert(delta.skip(1) =~= dfs + dsub);
                            assert(run(sv, prompt@, delta) == Step::Stop(
                                delta.len(),
                                e.message@,
                            ));
                            assert(log_b.take(log0.len() as int) =~= log0);
                        }
                        return Err(e);
                    },
                    Ok(v_sub) => {
                        let built = FieldValue { name: f.name.clone(), value: v_sub };
                        proof {
                            lemma_field_values_view_push(vals@, built);
                            assert(field_value_view(built) == (FieldValueV {
                                name: fvs[i as int].name,
                                value: value_view(built.value),
                            }));
                        }
                        let ghost fvv_new = field_values_view(vals@.push(built));
                        proof {
                            let fhead = fvs[i as int];
                            assert(run(fhead.nested, fhead.prompt, dsub) == Step::Done(
                                dsub.len(),
                                value_view(built.value),
                            ));
                            assert forall|rest: Seq<Call>| #![trigger run_fields(
                                fvs.skip(i + 1),
                                rest,
                            )]
                                (match run_fields(fvs.skip(i + 1), rest) {
                                    FStep::Done(m, sub2) => run_fields(
                                        fvs,
                                        (dfs + dsub) + rest,
                                    ) == FStep::Done(
                                        (dfs + dsub).len() + m,
                                        fvv_new + sub2,
                                    ),
                                    FStep::Stop(m, msg) => run_fields(
                                        fvs,
                                        (dfs + dsub) + rest,
                                    ) == FStep::Stop((dfs + dsub).len() + m, msg),
                                    FStep::Bad => true,
                                }) by {
                                lemma_run_extend(fhead.nested, fhead.prompt, dsub, rest);
                                assert(run(fhead.nested, fhead.prompt, dsub + rest) == Step::Done(
                                    dsub.len(),
                                    value_view(built.value),
                                ));
                                assert(fvs.skip(i as int)[0] == fhead);
                                assert(fvs.skip(i as int).skip(1) =~= fvs.skip(i + 1));
                                assert((dsub + rest).skip(dsub.len() as int) =~= rest);
                                let inner = run_fields(fvs.skip(i + 1), rest);
                                let outer = run_fields(fvs.skip(i as int), dsub + rest);
                                match inner {
                                    FStep::Done(m, sub2) => {
                                        assert(outer == FStep::Done(
                                            dsub.len() + m,
                                            seq![
                                                (FieldValueV {
                                                    name: fhead.name,
                                                    value: value_view(built.value),
                                                }),
                                            ] + sub2,
                                        ));
                                        assert(fvv_old + (seq![
                                            (FieldValueV {
                                                name: fhead.name,
                                                value: value_view(built.value),
                                            }),
                                        ] + sub2) =~= fvv_new + sub2);
                                        assert(dfs + (dsub + rest) =~= (dfs + dsub) + rest);
                                        assert(run_fields(fvs, (dfs + dsub) + rest)
                                            == FStep::Done(
                                            (dfs + dsub).len() + m,
                                            fvv_new + sub2,
                                        ));
                                    },
                                    FStep::Stop(m, msg) => {
                                        assert(outer == FStep::Stop(dsub.len() + m, msg));
                                        assert(dfs + (dsub + rest) =~= (dfs + dsub) + rest);
                                        assert(run_fields(fvs, (dfs + dsub) + rest)
                                            == FStep::Stop((dfs + dsub).len() + m, msg));
                                    },
                                    FStep::Bad => {},
                                }
                            }
                        }
                        vals.push(built);
                        i = i + 1;
                    },
                }
            }
            proof {
                let log_end = p.log();
                let dfs = log_end.skip(log1.len() as int);
                let probe = run_fields(fvs.skip(i as int), Seq::<Call>::empty());
                assert(fvs.skip(i as int) =~= Seq::<FieldSchemaV>::empty());
                assert(probe == FStep::Done(0, Seq::<FieldValueV>::empty()));
                assert(dfs + Seq::<Call>::empty() =~= dfs);
                assert(field_values_view(vals@) + Seq::<FieldValueV>::empty() =~= field_values_view(
                    vals@,
                ));
                assert(run_fields(fvs, dfs) == FStep::Done(dfs.len(), field_values_view(vals@)));
                assert(log_end =~= log_end.take(log1.len() as int) + log_end.skip(
                    log1.len() as int,
                ));
                assert(log_end == log1 + dfs);
                let delta = log_end.skip(log0.len() as int);
                assert(delta =~= seq![(Call::Section { text: prompt@ })] + dfs);
                assert(delta[0] == (Call::Section { text: prompt@ }));
                assert(delta.skip(1) =~= dfs);
                assert(run(sv, prompt@, delta) == Step::Done(
                    delta.len(),
                    ValueV::Record(field_values_view(vals@)),
                ));
                assert(log_end.take(log0.len() as int) =~= log0);
            }
            Ok(Value::Record(vals))
        },
        TypeSchema::Sum { variants } => {
            let ghost log0 = old(p).log();
            let ghost sv = schema_view(*schema);
            let ghost vvs = variants_view(variants@);
            proof {
                lemma_variants_view_index(variants@);
            }
            let mut labels: Vec<String> = Vec::new();
            let mut i: usize = 0;
            while i < variants.len()
                invariant
                    i <= variants@.len(),
                    labels@.len() == i,
                    forall|j: int| 0 <= j < variants@.len() ==> vvs[j] == variant_view(
                        variants@[j],
                    ),
                    vvs.len() == variants@.len(),
                    forall|j: int| 0 <= j < i ==> labels@[j] == variants@[j].label,
                decreases variants@.len() - i,
            {
                labels.push(variants[i].label.clone());
                i = i + 1;
            }
            proof {
                assert(labels_view(labels@) =~= labels_of(vvs));
                assert(vvs.len() > 0);
            }
            let res = p.select(prompt, &labels, 0);
            let idx = match res {
                Err(e) => {
                    proof {
                        assert(p.log().take(log0.len() as int) =~= log0);
                        let delta = p.log().skip(log0.len() as int);
                        assert(delta =~= seq![p.log()[log0.len() as int]]);
                        assert(run(sv, prompt@, delta) == Step::Stop(1, e.message@));
                    }
                    return Err(e);
                },
                Ok(ix) => ix,
            };
            let ghost log1 = p.log();
            let ghost sel = (Call::Select {
                prompt: prompt@,
                options: labels_of(vvs),
                preselect: 0,
                outcome: Outcome::Answered(idx as int),
            });
            proof {
                assert(log1 == log0.push(sel));
                assert(log1.take(log0.len() as int) =~= log0);
            }
            let v = &variants[idx];
            match &v.payload {
                None => {
                    proof {
                        let delta = log1.skip(log0.len() as int);
                        assert(delta =~= seq![sel]);
                        assert(vvs[idx as int].payload is None);
                        assert(vvs[idx as int].tag == v.tag@);
                        assert(run(sv, prompt@, delta) == Step::Done(
                            1,
                            ValueV::Variant {
                                tag: v.tag@,
                                index: idx as int,
                                payload: Seq::<ValueV>::empty(),
                            },
                        ));
                    }
                    Ok(Value::Variant { tag: v.tag.clone(), index: idx, payload: None })
                },
                Some(pl) => {
                    proof {
                        assert(decreases_to!(sv => vvs));
                        assert(decreases_to!(vvs => vvs[idx as int]));
                        assert(decreases_to!(vvs[idx as int] => vvs[idx as int].payload));
                        let pv = vvs[idx as int].payload->0;
                        assert(decreases_to!(vvs[idx as int].payload => pv));
                        assert(decreases_to!(pv => pv.schema));
                        assert(pv.schema == schema_view(pl.schema));
                        assert(decreases_to!(schema_view(*schema) => schema_view(pl.schema)));
                        assert(schema_wf(schema_view(pl.schema)));
                    }
                    let sub = compose(&pl.schema, pl.prompt.as_str(), p);
                    let ghost log2 = p.log();
                    let ghost dsub = log2.skip(log1.len() as int);
                    proof {
                        assert(log2 =~= log2.take(log1.len() as int) + log2.skip(
                            log1.len() as int,
                        ));
                        assert(log2 == log1 + dsub);
                        assert(log2.take(log0.len() as int) =~= log0);
                        let delta = log2.skip(log0.len() as int);
                        assert(delta =~= seq![sel] + dsub);
                        assert(delta[0] == sel);
                        assert(delta.skip(1) =~= dsub);
                        assert(vvs[idx as int].payload->0.prompt == pl.prompt@);
                    }
                    match sub {
                        Err(e) => {
                            proof {
                                let delta = log2.skip(log0.len() as int);
                                assert(run(schema_view(pl.schema), pl.prompt@, dsub)
                                    == Step::Stop(dsub.len(), e.message@));
                                assert(run(sv, prompt@, delta) == Step::Stop(
                                    delta.len(),
                                    e.message@,
                                ));
                            }
                            Err(e)
                        },
                        Ok(vs) => {
                            let out = Value::Variant {
                                tag: v.tag.clone(),
                                index: idx,
                                payload: Some(Box::new(vs)),
                            };
                            proof {
                                let delta = log2.skip(log0.len() as int);
                                assert(run(schema_view(pl.schema), pl.prompt@, dsub)
                                    == Step::Done(dsub.len(), value_view(*out->payload->0)));
                                assert(run(sv, prompt@, delta) == Step::Done(
                                    delta.len(),
                                    ValueV::Variant {
                                        tag: v.tag@,
                                        index: idx as int,
                                        payload: seq![value_view(*out->payload->0)],
                                    },
                                ));
                                assert(value_view(out) == (ValueV::Variant {
                                    tag: v.tag@,
                                    index: idx as int,
                                    payload: seq![value_view(*out->payload->0)],
                                }));
                            }
                            Ok(out)
                        },
                    }
                },
            }
        },
    }
}

} // verus!
