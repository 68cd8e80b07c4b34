use vstd::prelude::*;
use crate::json::{
    JsonNumber, JsonValue, JsonV, NumV, Entries, obj_get_v, has_key, obj_insert_v, ev, jv, json_eq,
    json_equal, obj_get, obj_has, obj_insert, deep_clone, lemma_jv_seq, lemma_key_pos, jv_seq,
};
use crate::questions::{Question, QuestionKind, QuestionV, questions_v};

verus! {

// ---------------------------------------------------------------------------
// Example answers
// ---------------------------------------------------------------------------

/// The answer a question gets when it has no default.
pub open spec fn zero_value_v(q: QuestionV) -> JsonV {
    match q.kind {
        QuestionKind::Bool => JsonV::Bool(false),
        QuestionKind::Int => JsonV::Number(NumV::PosInt(0)),
        QuestionKind::Float => JsonV::Number(NumV::Float("0.0"@)),
        QuestionKind::Choice => if q.choices.len() > 0 {
            q.choices[0]
        } else {
            JsonV::Str(Seq::empty())
        },
        QuestionKind::String => JsonV::Str(Seq::empty()),
    }
}

/// The example answer of a question: its default, else its kind's zero.
pub open spec fn answer_value_v(q: QuestionV) -> JsonV {
    match q.default {
        Some(d) => d,
        None => zero_value_v(q),
    }
}

/// Whether a question is asked, given the answers so far: a boolean
/// `show_if` decides alone; `{ "id": i, "equals": e }` asks it when the
/// answer to `i` equals `e` (and not while `i` is unanswered); any other
/// form asks it.
pub open spec fn visible_v(q: QuestionV, answers: Entries) -> bool {
    match q.show_if {
        None => true,
        Some(JsonV::Bool(b)) => b,
        Some(JsonV::Object(m)) => match obj_get_v(m, "id"@) {
            Some(JsonV::Str(id)) => match obj_get_v(m, "equals"@) {
                Some(expected) => match obj_get_v(answers, id) {
                    Some(actual) => json_eq(actual, expected),
                    None => false,
                },
                None => true,
            },
            _ => true,
        },
        _ => true,
    }
}

/// The answers that the defaults give, in question order.
pub open spec fn seed_v(qs: Seq<QuestionV>) -> Entries
    decreases qs.len(),
{
    if qs.len() == 0 {
        Seq::empty()
    } else {
        let a = seed_v(qs.drop_last());
        match qs.last().default {
            Some(d) => obj_insert_v(a, qs.last().id, d),
            None => a,
        }
    }
}

/// One pass over the questions from `i` on: each visible, unanswered
/// question is answered in turn; the flag tells whether any was.
pub open spec fn round_v(qs: Seq<QuestionV>, a: Entries, i: nat, progressed: bool) -> (Entries, bool)
    decreases qs.len() - i,
{
    if i >= qs.len() {
        (a, progressed)
    } else {
        let q = qs[i as int];
        if visible_v(q, a) && !has_key(a, q.id) {
            round_v(qs, obj_insert_v(a, q.id, answer_value_v(q)), i + 1, true)
        } else {
            round_v(qs, a, i + 1, progressed)
        }
    }
}

/// Passes repeated until one answers nothing (at most `fuel` of them).
pub open spec fn settle_v(qs: Seq<QuestionV>, a: Entries, fuel: nat) -> Entries
    decreases fuel,
{
    if fuel == 0 {
        a
    } else {
        let (a2, p) = round_v(qs, a, 0, false);
        if p {
            settle_v(qs, a2, (fuel - 1) as nat)
        } else {
            a
        }
    }
}

/// The example answers: the defaults, then passes until nothing changes.
/// Each pass that answers something adds a new question id, so `qs.len() + 1`
/// passes always reach the end.
pub open spec fn example_entries_v(qs: Seq<QuestionV>) -> Entries {
    settle_v(qs, seed_v(qs), qs.len() + 1)
}

pub open spec fn example_v(qs: Seq<QuestionV>) -> JsonV {
    JsonV::Object(example_entries_v(qs))
}

pub open spec fn ids_v(qs: Seq<QuestionV>) -> Seq<Seq<char>> {
    qs.map_values(|q: QuestionV| q.id)
}

/// Answer keys: each once, each the id of a question.
pub open spec fn keys_ok(qs: Seq<QuestionV>, a: Entries) -> bool {
    &&& forall|x: int, y: int| 0 <= x < y < a.len() ==> (#[trigger] a[x]).0 != (#[trigger] a[y]).0
    &&& forall|x: int| 0 <= x < a.len() ==> ids_v(qs).contains((#[trigger] a[x]).0)
}

proof fn lemma_insert_keys_ok(qs: Seq<QuestionV>, a: Entries, k: Seq<char>, v: JsonV)
    requires
        keys_ok(qs, a),
        ids_v(qs).contains(k),
    ensures
        keys_ok(qs, obj_insert_v(a, k, v)),
        obj_insert_v(a, k, v).len() == if has_key(a, k) { a.len() } else { a.len() + 1 },
{
    lemma_key_pos(a, k);
    let b = obj_insert_v(a, k, v);
    if has_key(a, k) {
        let p = crate::json::key_pos(a, k);
        assert forall|x: int, y: int| 0 <= x < y < b.len() implies (#[trigger] b[x]).0 != (#[trigger] b[y]).0 by {
            assert(b[x].0 == a[x].0);
            assert(b[y].0 == a[y].0);
        }
        assert forall|x: int| 0 <= x < b.len() implies ids_v(qs).contains((#[trigger] b[x]).0) by {
            if x != p {
                assert(b[x] == a[x]);
            }
        }
    } else {
        assert forall|x: int, y: int| 0 <= x < y < b.len() implies (#[trigger] b[x]).0 != (#[trigger] b[y]).0 by {
            assert(b[x] == a[x]);
            if y < a.len() {
                assert(b[y] == a[y]);
            }
        }
        assert forall|x: int| 0 <= x < b.len() implies ids_v(qs).contains((#[trigger] b[x]).0) by {
            if x < a.len() {
                assert(b[x] == a[x]);
            }
        }
    }
}

/// What one pass does: it keeps the key invariant and never shrinks the
/// answers; it reports progress only by adding a key; and when it reports
/// none, the answers are unchanged and no question from `i` on was due.
proof fn lemma_round(qs: Seq<QuestionV>, a: Entries, i: nat, p: bool)
    requires
        keys_ok(qs, a),
    ensures
        keys_ok(qs, round_v(qs, a, i, p).0),
        round_v(qs, a, i, p).0.len() >= a.len(),
        round_v(qs, a, i, p).1 && !p ==> round_v(qs, a, i, p).0.len() > a.len(),
        p ==> round_v(qs, a, i, p).1,
        !round_v(qs, a, i, p).1 ==> round_v(qs, a, i, p).0 == a && forall|j: int|
            i <= j < qs.len() ==> !(visible_v(#[trigger] qs[j], a) && !has_key(a, qs[j].id)),
    decreases qs.len() - i,
{
    if i < qs.len() {
        let q = qs[i as int];
        if visible_v(q, a) && !has_key(a, q.id) {
            assert(ids_v(qs)[i as int] == q.id);
            lemma_insert_keys_ok(qs, a, q.id, answer_value_v(q));
            lemma_round(qs, obj_insert_v(a, q.id, answer_value_v(q)), i + 1, true);
        } else {
            lemma_round(qs, a, i + 1, p);
            if !round_v(qs, a, i, p).1 {
                assert forall|j: int| i <= j < qs.len() implies !(visible_v(#[trigger] qs[j], a) && !has_key(a, qs[j].id)) by {
                    if j > i {
                        assert(i + 1 <= j);
                    }
                }
            }
        }
    }
}

/// Distinct answer keys drawn from the question ids are no more than the
/// questions.
proof fn lemma_keys_bound(qs: Seq<QuestionV>, a: Entries)
    requires
        keys_ok(qs, a),
    ensures
        a.len() <= qs.len(),
{
    let ks = a.map_values(|e: (Seq<char>, JsonV)| e.0);
    let ids = ids_v(qs);
    assert(ks.no_duplicates()) by {
        assert forall|x: int, y: int| 0 <= x < ks.len() && 0 <= y < ks.len() && x != y implies ks[x] != ks[y] by {
            if x < y {
                assert(a[x].0 != a[y].0);
            } else {
                assert(a[y].0 != a[x].0);
            }
        }
    }
    ks.unique_seq_to_set();
    ids.lemma_cardinality_of_set();
    assert(ks.to_set().subset_of(ids.to_set())) by {
        assert forall|k: Seq<char>| ks.to_set().contains(k) implies ids.to_set().contains(k) by {
            let x = choose|x: int| 0 <= x < ks.len() && ks[x] == k;
            assert(ids.contains(a[x].0));
        }
    }
    vstd::set_lib::lemma_len_subset(ks.to_set(), ids.to_set());
}

proof fn lemma_seed_keys_ok(qs: Seq<QuestionV>)
    ensures
        keys_ok(qs, seed_v(qs)),
    decreases qs.len(),
{
    if qs.len() > 0 {
        let init = qs.drop_last();
        lemma_seed_keys_ok(init);
        let a = seed_v(init);
        assert forall|x: int| 0 <= x < a.len() implies ids_v(qs).contains((#[trigger] a[x]).0) by {
            let j = choose|j: int| 0 <= j < ids_v(init).len() && ids_v(init)[j] == a[x].0;
            assert(ids_v(qs)[j] == ids_v(init)[j]);
        }
        assert(ids_v(qs)[qs.len() - 1] == qs.last().id);
        match qs.last().default {
            Some(d) => lemma_insert_keys_ok(qs, a, qs.last().id, d),
            None => {},
        }
    }
}

/// Settling from answers with enough passes left ends in answers where no
/// visible question is unanswered.
proof fn lemma_settle(qs: Seq<QuestionV>, a: Entries, fuel: nat)
    requires
        keys_ok(qs, a),
        fuel + a.len() >= qs.len() + 1,
    ensures
        keys_ok(qs, settle_v(qs, a, fuel)),
        forall|j: int| 0 <= j < qs.len() && visible_v(#[trigger] qs[j], settle_v(qs, a, fuel))
            ==> has_key(settle_v(qs, a, fuel), qs[j].id),
    decreases fuel,
{
    lemma_keys_bound(qs, a);
    lemma_round(qs, a, 0, false);
    let (a2, p) = round_v(qs, a, 0, false);
    if p {
        lemma_settle(qs, a2, (fuel - 1) as nat);
    }
}

/// Every question that the example answers make visible is answered in
/// them, and each answer key is the id of a question, once.
pub proof fn law_example_answers_every_visible_question(qs: Seq<QuestionV>)
    ensures
        keys_ok(qs, example_entries_v(qs)),
        forall|j: int| 0 <= j < qs.len() && visible_v(#[trigger] qs[j], example_entries_v(qs))
            ==> has_key(example_entries_v(qs), qs[j].id),
{
    lemma_seed_keys_ok(qs);
    lemma_settle(qs, seed_v(qs), qs.len() + 1);
}

fn zero_value(q: &Question) -> (r: JsonValue)
    ensures
        r@ == zero_value_v(q@),
{
    match q.kind {
        QuestionKind::Bool => JsonValue::Bool(false),
        QuestionKind::Int => JsonValue::Number(JsonNumber::PosInt(0)),
        QuestionKind::Float => JsonValue::Number(JsonNumber::Float(String::from_str("0.0"))),
        QuestionKind::Choice => {
            proof {
                lemma_jv_seq(q.choices@);
            }
            if q.choices.len() > 0 {
                deep_clone(&q.choices[0])
            } else {
                JsonValue::String(String::new())
            }
        },
        QuestionKind::String => JsonValue::String(String::new()),
    }
}

fn answer_value(q: &Question) -> (r: JsonValue)
    ensures
        r@ == answer_value_v(q@),
{
    match &q.default {
        Some(d) => deep_clone(d),
        None => zero_value(q),
    }
}

fn question_visible(q: &Question, answers: &Vec<(String, JsonValue)>) -> (r: bool)
    ensures
        r == visible_v(q@, ev(answers@)),
{
    match &q.show_if {
        None => true,
        Some(JsonValue::Bool(b)) => *b,
        Some(JsonValue::Object(m)) => {
            let id = match obj_get(m, "id") {
                Some(JsonValue::String(s)) => s,
                _ => {
                    return true;
                },
            };
            match obj_get(m, "equals") {
                None => true,
                Some(expected) => match obj_get(answers, id.as_str()) {
                    None => false,
                    Some(actual) => json_equal(actual, expected),
                },
            }
        },
        Some(_) => true,
    }
}

/// Example answers for a list of questions: every default first, then, in
/// passes until one changes nothing, each question that has become visible
/// and is still unanswered gets its default or its kind's zero value.
pub fn example_for_questions(questions: &[Question]) -> (r: JsonValue)
    ensures
        r@ == example_v(questions_v(questions@)),
{
    let ghost qs = questions_v(questions@);
    let mut answers: Vec<(String, JsonValue)> = Vec::new();
    let mut i: usize = 0;
    while i < questions.len()
        invariant
            i <= questions.len(),
            qs == questions_v(questions@),
            ev(answers@) == seed_v(qs.take(i as int)),
        decreases questions.len() - i,
    {
        let q = &questions[i];
        assert(qs.take(i + 1).drop_last() =~= qs.take(i as int));
        assert(qs.take(i + 1).last() == q@);
        match &q.default {
            Some(d) => {
                let v = deep_clone(d);
                obj_insert(&mut answers, q.id.clone(), v);
            },
            None => {},
        }
        i = i + 1;
    }
    assert(qs.take(questions.len() as int) =~= qs);
    proof {
        lemma_seed_keys_ok(qs);
    }
    let ghost target = example_entries_v(qs);
    let ghost mut fuel: nat = qs.len() + 1;
    loop
        invariant
            qs == questions_v(questions@),
            keys_ok(qs, ev(answers@)),
            fuel + ev(answers@).len() >= qs.len() + 1,
            settle_v(qs, ev(answers@), fuel) == target,
        ensures
            ev(answers@) == target,
        decreases fuel,
    {
        let ghost start = ev(answers@);
        proof {
            lemma_keys_bound(qs, start);
            lemma_round(qs, start, 0, false);
        }
        let mut progressed = false;
        let mut j: usize = 0;
        while j < questions.len()
            invariant
                j <= questions.len(),
                qs == questions_v(questions@),
                round_v(qs, ev(answers@), j as nat, progressed) == round_v(qs, start, 0, false),
            decreases questions.len() - j,
        {
            let q = &questions[j];
            assert(qs[j as int] == q@);
            if question_visible(q, &answers) && !obj_has(&answers, q.id.as_str()) {
                let v = answer_value(q);
                obj_insert(&mut answers, q.id.clone(), v);
                progressed = true;
            }
            j = j + 1;
        }
        if !progressed {
            break;
        }
        proof {
            fuel = (fuel - 1) as nat;
        }
    }
    JsonValue::Object(answers)
}


// ---------------------------------------------------------------------------
// Answer schema
// ---------------------------------------------------------------------------

/// The JSON Schema type name of a value (`null` has none).
pub open spec fn type_name_v(v: JsonV) -> Option<Seq<char>> {
    match v {
        JsonV::Str(_) => Some("string"@),
        JsonV::Bool(_) => Some("boolean"@),
        JsonV::Number(NumV::Float(_)) => Some("number"@),
        JsonV::Number(_) => Some("integer"@),
        JsonV::Array(_) => Some("array"@),
        JsonV::Object(_) => Some("object"@),
        JsonV::Null => None,
    }
}

/// The type of a free-form question: its default's type, else `string`.
pub open spec fn default_type_v(q: QuestionV) -> Seq<char> {
    match q.default {
        Some(d) => match type_name_v(d) {
            Some(t) => t,
            None => "string"@,
        },
        None => "string"@,
    }
}

/// The schema of one answer: its type (or, for a choice with options, the
/// options as `enum`), then its default, then the prompt as description.
pub open spec fn question_schema_v(q: QuestionV) -> JsonV {
    let head: Entries = match q.kind {
        QuestionKind::String => seq![("type"@, JsonV::Str(default_type_v(q)))],
        QuestionKind::Bool => seq![("type"@, JsonV::Str("boolean"@))],
        QuestionKind::Int => seq![("type"@, JsonV::Str("integer"@))],
        QuestionKind::Float => seq![("type"@, JsonV::Str("number"@))],
        QuestionKind::Choice => if q.choices.len() == 0 {
            seq![("type"@, JsonV::Str(default_type_v(q)))]
        } else {
            seq![("enum"@, JsonV::Array(q.choices))]
        },
    };
    let with_default = match q.default {
        Some(d) => head.push(("default"@, d)),
        None => head,
    };
    JsonV::Object(
        if q.prompt.len() > 0 {
            with_default.push(("description"@, JsonV::Str(q.prompt)))
        } else {
            with_default
        },
    )
}

/// A required question that is always asked (no `show_if`, `true`, or a
/// form that is neither a boolean nor an object).
pub open spec fn required_always_v(q: QuestionV) -> bool {
    q.required && match q.show_if {
        None => true,
        Some(JsonV::Bool(b)) => b,
        Some(JsonV::Object(_)) => false,
        _ => true,
    }
}

/// For a required question asked when answer `i` equals `e`: the rule that
/// requires it under that condition.
pub open spec fn conditional_v(q: QuestionV) -> Option<JsonV> {
    if q.required {
        match q.show_if {
            Some(JsonV::Object(m)) => match (obj_get_v(m, "id"@), obj_get_v(m, "equals"@)) {
                (Some(JsonV::Str(id)), Some(expected)) => Some(
                    JsonV::Object(
                        seq![
                            ("if"@, JsonV::Object(seq![
                                ("properties"@, JsonV::Object(seq![(id, JsonV::Object(seq![("const"@, expected)]))])),
                                ("required"@, JsonV::Array(seq![JsonV::Str(id)])),
                            ])),
                            ("then"@, JsonV::Object(seq![("required"@, JsonV::Array(seq![JsonV::Str(q.id)]))])),
                        ],
                    ),
                ),
                _ => None,
            },
            _ => None,
        }
    } else {
        None
    }
}

/// `properties`: each question's schema under its id (a repeated id keeps
/// its first place and its last schema).
pub open spec fn properties_v(qs: Seq<QuestionV>) -> Entries
    decreases qs.len(),
{
    if qs.len() == 0 {
        Seq::empty()
    } else {
        obj_insert_v(properties_v(qs.drop_last()), qs.last().id, question_schema_v(qs.last()))
    }
}

/// `required`: the ids of the questions that are always required.
pub open spec fn required_v(qs: Seq<QuestionV>) -> Seq<JsonV>
    decreases qs.len(),
{
    if qs.len() == 0 {
        Seq::empty()
    } else if required_always_v(qs.last()) {
        required_v(qs.drop_last()).push(JsonV::Str(qs.last().id))
    } else {
        required_v(qs.drop_last())
    }
}

/// `allOf`: the rules of the conditionally required questions.
pub open spec fn conditions_v(qs: Seq<QuestionV>) -> Seq<JsonV>
    decreases qs.len(),
{
    if qs.len() == 0 {
        Seq::empty()
    } else {
        match conditional_v(qs.last()) {
            Some(c) => conditions_v(qs.drop_last()).push(c),
            None => conditions_v(qs.drop_last()),
        }
    }
}

/// The draft 2020-12 schema of the answers object: closed to other keys,
/// with `required` and `allOf` present only when not empty.
pub open spec fn schema_v(qs: Seq<QuestionV>) -> JsonV {
    let base: Entries = seq![
        ("$schema"@, JsonV::Str("https://json-schema.org/draft/2020-12/schema"@)),
        ("type"@, JsonV::Str("object"@)),
        ("additionalProperties"@, JsonV::Bool(false)),
        ("properties"@, JsonV::Object(properties_v(qs))),
    ];
    let with_required = if required_v(qs).len() > 0 {
        base.push(("required"@, JsonV::Array(required_v(qs))))
    } else {
        base
    };
    JsonV::Object(
        if conditions_v(qs).len() > 0 {
            with_required.push(("allOf"@, JsonV::Array(conditions_v(qs))))
        } else {
            with_required
        },
    )
}

proof fn lemma_ev_push(s: Seq<(String, JsonValue)>, x: (String, JsonValue))
    ensures
        ev(s.push(x)) == ev(s).push((x.0@, jv(x.1))),
{
    assert(s.push(x).drop_last() =~= s);
}

proof fn lemma_jv_seq_push(s: Seq<JsonValue>, x: JsonValue)
    ensures
        jv_seq(s.push(x)) == jv_seq(s).push(jv(x)),
{
    assert(s.push(x).drop_last() =~= s);
}

/// Appends an entry, tracking the model.
fn push_entry(e: &mut Vec<(String, JsonValue)>, k: &str, v: JsonValue)
    ensures
        ev(final(e)@) == ev(old(e)@).push((k@, jv(v))),
{
    let key = String::from_str(k);
    proof {
        lemma_ev_push(e@, (key, v));
    }
    e.push((key, v));
}

fn str_value(s: &str) -> (r: JsonValue)
    ensures
        r@ == JsonV::Str(s@),
{
    JsonValue::String(String::from_str(s))
}

fn json_type_name(v: &JsonValue) -> (r: Option<&'static str>)
    ensures
        match r {
            Some(t) => type_name_v(v@) == Some(t@),
            None => type_name_v(v@) is None,
        },
{
    match v {
        JsonValue::String(_) => Some("string"),
        JsonValue::Bool(_) => Some("boolean"),
        JsonValue::Number(JsonNumber::Float(_)) => Some("number"),
        JsonValue::Number(_) => Some("integer"),
        JsonValue::Array(_) => Some("array"),
        JsonValue::Object(_) => Some("object"),
        JsonValue::Null => None,
    }
}

fn default_type(q: &Question) -> (r: &'static str)
    ensures
        r@ == default_type_v(q@),
{
    match &q.default {
        Some(d) => match json_type_name(d) {
            Some(t) => t,
            None => "string",
        },
        None => "string",
    }
}

/// A copy of a list of values, equal to it in the model.
fn clone_values(v: &Vec<JsonValue>) -> (r: Vec<JsonValue>)
    ensures
        jv_seq(r@) == jv_seq(v@),
{
    let mut out: Vec<JsonValue> = Vec::new();
    let mut i: usize = 0;
    while i < v.len()
        invariant
            i <= v.len(),
            jv_seq(out@) == jv_seq(v@.take(i as int)),
        decreases v.len() - i,
    {
        let ghost before = out@;
        let c = deep_clone(&v[i]);
        out.push(c);
        proof {
            lemma_jv_seq_push(before, c);
            lemma_jv_seq_push(v@.take(i as int), v@[i as int]);
            assert(v@.take(i + 1) =~= v@.take(i as int).push(v@[i as int]));
        }
        i = i + 1;
    }
    assert(v@.take(v.len() as int) =~= v@);
    out
}

fn schema_for_question(q: &Question) -> (r: JsonValue)
    ensures
        r@ == question_schema_v(q@),
{
    let mut e: Vec<(String, JsonValue)> = Vec::new();
    match q.kind {
        QuestionKind::String => push_entry(&mut e, "type", str_value(default_type(q))),
        QuestionKind::Bool => push_entry(&mut e, "type", str_value("boolean")),
        QuestionKind::Int => push_entry(&mut e, "type", str_value("integer")),
        QuestionKind::Float => push_entry(&mut e, "type", str_value("number")),
        QuestionKind::Choice => {
            proof {
                lemma_jv_seq(q.choices@);
            }
            if q.choices.len() == 0 {
                push_entry(&mut e, "type", str_value(default_type(q)));
            } else {
                push_entry(&mut e, "enum", JsonValue::Array(clone_values(&q.choices)));
            }
        },
    }
    match &q.default {
        Some(d) => push_entry(&mut e, "default", deep_clone(d)),
        None => {},
    }
    if q.prompt.as_str().unicode_len() > 0 {
        push_entry(&mut e, "description", JsonValue::String(q.prompt.clone()));
    }
    assert(ev(e@) =~= match question_schema_v(q@) {
        JsonV::Object(x) => x,
        _ => Seq::empty(),
    });
    JsonValue::Object(e)
}

fn conditional_for(q: &Question) -> (r: Option<JsonValue>)
    ensures
        match r {
            Some(c) => conditional_v(q@) == Some(c@),
            None => conditional_v(q@) is None,
        },
{
    if !q.required {
        return None;
    }
    let m = match &q.show_if {
        Some(JsonValue::Object(m)) => m,
        _ => {
            return None;
        },
    };
    let id = match obj_get(m, "id") {
        Some(JsonValue::String(s)) => s,
        _ => {
            return None;
        },
    };
    let expected = match obj_get(m, "equals") {
        Some(x) => x,
        None => {
            return None;
        },
    };
    let mut konst: Vec<(String, JsonValue)> = Vec::new();
    push_entry(&mut konst, "const", deep_clone(expected));
    let mut props: Vec<(String, JsonValue)> = Vec::new();
    push_entry(&mut props, id.as_str(), JsonValue::Object(konst));
    let mut req: Vec<JsonValue> = Vec::new();
    let idv = JsonValue::String(id.clone());
    proof {
        lemma_jv_seq_push(req@, idv);
    }
    req.push(idv);
    let mut cond_if: Vec<(String, JsonValue)> = Vec::new();
    push_entry(&mut cond_if, "properties", JsonValue::Object(props));
    push_entry(&mut cond_if, "required", JsonValue::Array(req));
    let mut then_req: Vec<JsonValue> = Vec::new();
    let qidv = JsonValue::String(q.id.clone());
    proof {
        lemma_jv_seq_push(then_req@, qidv);
    }
    then_req.push(qidv);
    let mut cond_then: Vec<(String, JsonValue)> = Vec::new();
    push_entry(&mut cond_then, "required", JsonValue::Array(then_req));
    let mut rule: Vec<(String, JsonValue)> = Vec::new();
    push_entry(&mut rule, "if", JsonValue::Object(cond_if));
    push_entry(&mut rule, "then", JsonValue::Object(cond_then));
    proof {
        let ex = jv(*expected);
        assert(ev(konst@) =~= seq![("const"@, ex)]);
        assert(ev(props@) =~= seq![(id@, JsonV::Object(seq![("const"@, ex)]))]);
        assert(jv_seq(req@) =~= seq![JsonV::Str(id@)]);
        assert(jv_seq(then_req@) =~= seq![JsonV::Str(q.id@)]);
        assert(ev(cond_if@) =~= seq![
            ("properties"@, JsonV::Object(seq![(id@, JsonV::Object(seq![("const"@, ex)]))])),
            ("required"@, JsonV::Array(seq![JsonV::Str(id@)])),
        ]);
        assert(ev(cond_then@) =~= seq![("required"@, JsonV::Array(seq![JsonV::Str(q.id@)]))]);
        assert(ev(rule@) =~= seq![
            ("if"@, JsonV::Object(ev(cond_if@))),
            ("then"@, JsonV::Object(ev(cond_then@))),
        ]);
        assert(q@.show_if == Some(JsonV::Object(ev(m@))));
        assert(obj_get_v(ev(m@), "id"@) == Some(JsonV::Str(id@)));
        assert(obj_get_v(ev(m@), "equals"@) == Some(ex));
    }
    let r = JsonValue::Object(rule);
    Some(r)
}

/// The JSON Schema (draft 2020-12) of a question list's answers object:
/// each question's schema under `properties`, the always-required ids under
/// `required`, and one `if`/`then` rule under `allOf` per question that is
/// required only when an earlier answer has a given value.
pub fn schema_for_questions(questions: &[Question]) -> (r: JsonValue)
    ensures
        r@ == schema_v(questions_v(questions@)),
{
    let ghost qs = questions_v(questions@);
    let mut properties: Vec<(String, JsonValue)> = Vec::new();
    let mut required: Vec<JsonValue> = Vec::new();
    let mut conditionals: Vec<JsonValue> = Vec::new();
    let mut i: usize = 0;
    while i < questions.len()
        invariant
            i <= questions.len(),
            qs == questions_v(questions@),
            ev(properties@) == properties_v(qs.take(i as int)),
            jv_seq(required@) == required_v(qs.take(i as int)),
            jv_seq(conditionals@) == conditions_v(qs.take(i as int)),
        decreases questions.len() - i,
    {
        let q = &questions[i];
        assert(qs.take(i + 1).drop_last() =~= qs.take(i as int));
        assert(qs.take(i + 1).last() == q@);
        let s = schema_for_question(q);
        obj_insert(&mut properties, q.id.clone(), s);
        let always = q.required && match &q.show_if {
            None => true,
            Some(JsonValue::Bool(b)) => *b,
            Some(JsonValue::Object(_)) => false,
            Some(_) => true,
        };
        if always {
            let ghost before = required@;
            let v = JsonValue::String(q.id.clone());
            required.push(v);
            proof {
                lemma_jv_seq_push(before, v);
            }
        }
        match conditional_for(q) {
            Some(c) => {
                let ghost before = conditionals@;
                conditionals.push(c);
                proof {
                    lemma_jv_seq_push(before, c);
                }
            },
            None => {},
        }
        i = i + 1;
    }
    assert(qs.take(questions.len() as int) =~= qs);
    let mut schema: Vec<(String, JsonValue)> = Vec::new();
    push_entry(&mut schema, "$schema", str_value("https://json-schema.org/draft/2020-12/schema"));
    push_entry(&mut schema, "type", str_value("object"));
    push_entry(&mut schema, "additionalProperties", JsonValue::Bool(false));
    push_entry(&mut schema, "properties", JsonValue::Object(properties));
    proof {
        lemma_jv_seq(required@);
        lemma_jv_seq(conditionals@);
    }
    if required.len() > 0 {
        push_entry(&mut schema, "required", JsonValue::Array(required));
    }
    if conditionals.len() > 0 {
        push_entry(&mut schema, "allOf", JsonValue::Array(conditionals));
    }
    assert(ev(schema@) =~= match schema_v(qs) {
        JsonV::Object(x) => x,
        _ => Seq::empty(),
    });
    JsonValue::Object(schema)
}


proof fn lemma_has_key_insert(e: Entries, k: Seq<char>, v: JsonV, k2: Seq<char>)
    ensures
        has_key(obj_insert_v(e, k, v), k2) == (k2 == k || has_key(e, k2)),
{
    crate::json::lemma_insert_then_get(e, k, v, k2);
    lemma_key_pos(e, k2);
    lemma_key_pos(obj_insert_v(e, k, v), k2);
}

/// The property names are exactly the question ids.
proof fn lemma_properties_keys(qs: Seq<QuestionV>, k: Seq<char>)
    ensures
        has_key(properties_v(qs), k) == ids_v(qs).contains(k),
    decreases qs.len(),
{
    if qs.len() > 0 {
        let init = qs.drop_last();
        lemma_properties_keys(init, k);
        lemma_has_key_insert(properties_v(init), qs.last().id, question_schema_v(qs.last()), k);
        assert(ids_v(qs) =~= ids_v(init).push(qs.last().id));
        if ids_v(qs).contains(k) {
            let x = choose|x: int| 0 <= x < ids_v(qs).len() && ids_v(qs)[x] == k;
            if x < init.len() {
                assert(ids_v(init)[x] == k);
            }
        }
        if ids_v(init).contains(k) {
            let x = choose|x: int| 0 <= x < ids_v(init).len() && ids_v(init)[x] == k;
            assert(ids_v(qs)[x] == k);
        }
        if qs.last().id == k {
            assert(ids_v(qs)[qs.len() - 1] == k);
        }
    }
}

/// Each entry of `required` names an always-required question.
proof fn lemma_required_from(qs: Seq<QuestionV>, j: int)
    requires
        0 <= j < required_v(qs).len(),
    ensures
        exists|i: int| 0 <= i < qs.len() && required_always_v(#[trigger] qs[i])
            && required_v(qs)[j] == JsonV::Str(qs[i].id),
    decreases qs.len(),
{
    let init = qs.drop_last();
    if required_always_v(qs.last()) && j == required_v(init).len() {
        assert(required_always_v(qs[qs.len() - 1]));
    } else {
        lemma_required_from(init, j);
        let i = choose|i: int| 0 <= i < init.len() && required_always_v(#[trigger] init[i])
            && required_v(init)[j] == JsonV::Str(init[i].id);
        assert(qs[i] == init[i]);
    }
}

/// The example answers fit the answer schema's shape: every answer key is
/// a declared property, and every always-required question is answered.
pub proof fn law_example_keys_fit_schema(qs: Seq<QuestionV>)
    ensures
        forall|k: Seq<char>| has_key(example_entries_v(qs), k) ==> #[trigger] has_key(properties_v(qs), k),
        forall|j: int| 0 <= j < required_v(qs).len() ==> (#[trigger] required_v(qs)[j] matches JsonV::Str(id)
            && has_key(example_entries_v(qs), id)),
{
    let e = example_entries_v(qs);
    law_example_answers_every_visible_question(qs);
    assert forall|k: Seq<char>| has_key(e, k) implies #[trigger] has_key(properties_v(qs), k) by {
        lemma_key_pos(e, k);
        let p = crate::json::key_pos(e, k);
        assert(ids_v(qs).contains(e[p].0));
        lemma_properties_keys(qs, k);
    }
    assert forall|j: int| 0 <= j < required_v(qs).len() implies (#[trigger] required_v(qs)[j] matches JsonV::Str(id)
        && has_key(e, id)) by {
        lemma_required_from(qs, j);
        let i = choose|i: int| 0 <= i < qs.len() && required_always_v(#[trigger] qs[i])
            && required_v(qs)[j] == JsonV::Str(qs[i].id);
        assert(visible_v(qs[i], e));
    }
}

} // verus!
