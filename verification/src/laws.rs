use vstd::prelude::*;
use crate::codec::{
    all_string_entries, collapse, dec_expression, dec_instant, dec_instants, dec_labels,
    dec_range, dec_ranges, dec_sample, dec_samples, dec_string_sample, enc_expression,
    enc_instant, enc_range, enc_sample, enc_sample_value, enc_string_sample, has_key, has_label,
    key_count, key_index, key_value, labels_json, lemma_first_unknown1_absent,
    lemma_first_unknown2_absent, lemma_key_index_absent, lemma_key_index_found,
    result_type_token, all_series_objs, dec_active_target, dec_active_targets,
    dec_alert_manager, dec_alert_manager_list, dec_alert_managers, dec_data, dec_dropped_target,
    dec_dropped_targets, dec_result, dec_targets, enc_active_target, enc_alert_manager,
    enc_alert_managers, enc_data, enc_dropped_target, enc_result, enc_targets, series_of,
    set_label, strs_json, strs_of,
};
use crate::json::{is_float_lit, json_wf, JsonV};
use crate::types::{
    active_target_wf, alert_manager_wf, alert_managers_wf, data_wf, dropped_target_wf,
    expression_wf, instant_wf, labels_wf, query_error_wf, range_wf, result_wf, sample_wf,
    string_sample_wf, success_wf, targets_wf, ActiveTargetV, AlertManagerV, AlertManagersV,
    DataV, DroppedTargetV, ErrV, ExpressionV, InstantV, LabelsV, QueryErrorV, QueryResultV,
    QuerySuccessV, RangeV, SampleV, SampleValueV, StringSampleV, TargetsV,
};

verus! {

// ---------------------------------------------------------------------------
// Facts about wire keys and tokens
// ---------------------------------------------------------------------------
/// The sentinel tokens are pairwise distinct and none is a float literal.
proof fn lemma_sentinel_tokens()
    ensures
        "Inf"@ != "-Inf"@,
        "Inf"@ != "NaN"@,
        "-Inf"@ != "NaN"@,
        !is_float_lit("Inf"@),
        !is_float_lit("-Inf"@),
        !is_float_lit("NaN"@),
{
    reveal_strlit("Inf");
    reveal_strlit("-Inf");
    reveal_strlit("NaN");
    assert("Inf"@.len() == 3);
    assert("-Inf"@.len() == 4);
    assert("NaN"@.len() == 3);
    assert("Inf"@[0] == 'I');
    assert("NaN"@[0] == 'N');
    assert(is_float_lit("Inf"@) == false);
    assert(is_float_lit("-Inf"@) == false);
    assert(is_float_lit("NaN"@) == false);
}

/// The wire keys and tokens that any one decoder distinguishes are
/// pairwise distinct.
proof fn lemma_wire_keys()
    ensures
        "status"@ != "data"@,
        "status"@ != "warnings"@,
        "status"@ != "error"@,
        "status"@ != "errorType"@,
        "data"@ != "warnings"@,
        "data"@ != "error"@,
        "data"@ != "errorType"@,
        "warnings"@ != "error"@,
        "warnings"@ != "errorType"@,
        "error"@ != "errorType"@,
        "success"@ != "error"@,
        "resultType"@ != "result"@,
        "scalar"@ != "string"@,
        "scalar"@ != "vector"@,
        "scalar"@ != "matrix"@,
        "string"@ != "vector"@,
        "string"@ != "matrix"@,
        "vector"@ != "matrix"@,
        "metric"@ != "value"@,
        "metric"@ != "values"@,
        "discoveredLabels"@ != "labels"@,
        "discoveredLabels"@ != "scrapeUrl"@,
        "discoveredLabels"@ != "lastError"@,
        "discoveredLabels"@ != "lastScrape"@,
        "discoveredLabels"@ != "health"@,
        "labels"@ != "scrapeUrl"@,
        "labels"@ != "lastError"@,
        "labels"@ != "lastScrape"@,
        "labels"@ != "health"@,
        "scrapeUrl"@ != "lastError"@,
        "scrapeUrl"@ != "lastScrape"@,
        "scrapeUrl"@ != "health"@,
        "lastError"@ != "lastScrape"@,
        "lastError"@ != "health"@,
        "lastScrape"@ != "health"@,
        "up"@ != "down"@,
        "up"@ != "unknown"@,
        "down"@ != "unknown"@,
        "activeTargets"@ != "droppedTargets"@,
        "activeAlertmanagers"@ != "droppedAlertmanagers"@,
        "resultType"@ != "activeTargets"@,
        "resultType"@ != "droppedTargets"@,
        "resultType"@ != "activeAlertmanagers"@,
        "resultType"@ != "droppedAlertmanagers"@,
        "activeTargets"@ != "activeAlertmanagers"@,
        "activeTargets"@ != "droppedAlertmanagers"@,
        "droppedTargets"@ != "activeAlertmanagers"@,
        "droppedTargets"@ != "droppedAlertmanagers"@,
{
    reveal_strlit("status");
    reveal_strlit("data");
    reveal_strlit("warnings");
    reveal_strlit("error");
    reveal_strlit("errorType");
    reveal_strlit("success");
    reveal_strlit("resultType");
    reveal_strlit("result");
    reveal_strlit("scalar");
    reveal_strlit("string");
    reveal_strlit("vector");
    reveal_strlit("matrix");
    reveal_strlit("metric");
    reveal_strlit("value");
    reveal_strlit("values");
    reveal_strlit("discoveredLabels");
    reveal_strlit("labels");
    reveal_strlit("scrapeUrl");
    reveal_strlit("lastError");
    reveal_strlit("lastScrape");
    reveal_strlit("health");
    reveal_strlit("up");
    reveal_strlit("down");
    reveal_strlit("unknown");
    reveal_strlit("activeTargets");
    reveal_strlit("droppedTargets");
    reveal_strlit("activeAlertmanagers");
    reveal_strlit("droppedAlertmanagers");
    assert("status"@.len() == 6);
    assert("data"@.len() == 4);
    assert("warnings"@.len() == 8);
    assert("error"@.len() == 5);
    assert("errorType"@.len() == 9);
    assert("success"@.len() == 7);
    assert("resultType"@.len() == 10);
    assert("result"@.len() == 6);
    assert("scalar"@.len() == 6);
    assert("string"@.len() == 6);
    assert("vector"@.len() == 6);
    assert("matrix"@.len() == 6);
    assert("metric"@.len() == 6);
    assert("value"@.len() == 5);
    assert("values"@.len() == 6);
    assert("discoveredLabels"@.len() == 16);
    assert("labels"@.len() == 6);
    assert("scrapeUrl"@.len() == 9);
    assert("lastError"@.len() == 9);
    assert("lastScrape"@.len() == 10);
    assert("health"@.len() == 6);
    assert("up"@.len() == 2);
    assert("down"@.len() == 4);
    assert("unknown"@.len() == 7);
    assert("activeTargets"@.len() == 13);
    assert("droppedTargets"@.len() == 14);
    assert("activeAlertmanagers"@.len() == 19);
    assert("droppedAlertmanagers"@.len() == 20);
    assert("status"@[0] == 's');
    assert("data"@[0] == 'd');
    assert("warnings"@[0] == 'w');
    assert("error"@[0] == 'e');
    assert("errorType"@[0] == 'e');
    assert("success"@[0] == 's');
    assert("resultType"@[0] == 'r');
    assert("result"@[0] == 'r');
    assert("scalar"@[0] == 's');
    assert("string"@[0] == 's');
    assert("vector"@[0] == 'v');
    assert("matrix"@[0] == 'm');
    assert("metric"@[0] == 'm');
    assert("value"@[0] == 'v');
    assert("values"@[0] == 'v');
    assert("discoveredLabels"@[0] == 'd');
    assert("labels"@[0] == 'l');
    assert("scrapeUrl"@[0] == 's');
    assert("lastError"@[0] == 'l');
    assert("lastScrape"@[0] == 'l');
    assert("health"@[0] == 'h');
    assert("up"@[0] == 'u');
    assert("down"@[0] == 'd');
    assert("unknown"@[0] == 'u');
    assert("activeTargets"@[0] == 'a');
    assert("droppedTargets"@[0] == 'd');
    assert("activeAlertmanagers"@[0] == 'a');
    assert("droppedAlertmanagers"@[0] == 'd');
    assert("scalar"@[1] == 'c');
    assert("string"@[1] == 't');
}

// ---------------------------------------------------------------------------
// Facts about object-entry helpers
// ---------------------------------------------------------------------------
/// A key that sits at exactly one entry is counted once.
proof fn lemma_key_count_one(o: Seq<(Seq<char>, JsonV)>, k: Seq<char>, i: int)
    requires
        0 <= i < o.len(),
        o[i].0 == k,
        forall|j: int| 0 <= j < o.len() && j != i ==> (#[trigger] o[j]).0 != k,
    ensures
        key_count(o, k) == 1,
    decreases o.len(),
{
    if o.len() > 0 {
        let pre = o.subrange(0, o.len() - 1);
        if i == o.len() - 1 {
            lemma_key_count_zero(pre, k);
        } else {
            lemma_key_count_one(pre, k, i);
        }
    }
}

/// A key that sits at no entry is counted zero times.
proof fn lemma_key_count_zero(o: Seq<(Seq<char>, JsonV)>, k: Seq<char>)
    requires
        forall|j: int| 0 <= j < o.len() ==> (#[trigger] o[j]).0 != k,
    ensures
        key_count(o, k) == 0,
    decreases o.len(),
{
    if o.len() > 0 {
        lemma_key_count_zero(o.subrange(0, o.len() - 1), k);
    }
}

// ---------------------------------------------------------------------------
// Round trip of label maps
// ---------------------------------------------------------------------------
/// The encoded entries of a label map are all strings, carry the same
/// keys, and collapse back to the map when its names are unique.
proof fn lemma_labels_json_strings(m: LabelsV)
    ensures
        all_string_entries(labels_json(m)),
        forall|k: Seq<char>| #[trigger] has_key(labels_json(m), k) ==> has_label(m, k),
        forall|k: Seq<char>| #[trigger] has_label(m, k) ==> has_key(labels_json(m), k),
{
    assert forall|k: Seq<char>| #[trigger] has_key(labels_json(m), k) implies has_label(m, k) by {
        let i = key_index(labels_json(m), k);
        lemma_key_index_bounds(labels_json(m), k);
        assert(labels_json(m)[i].0 == m[i].0);
    }
    assert forall|k: Seq<char>| #[trigger] has_label(m, k) implies has_key(labels_json(m), k) by {
        let i = choose|i: int| 0 <= i < m.len() && (#[trigger] m[i]).0 == k;
        assert(labels_json(m)[i] == (m[i].0, JsonV::Str(m[i].1)));
        if key_index(labels_json(m), k) < 0 {
            lemma_key_index_bounds(labels_json(m), k);
        }
    }
}

/// Where the first entry with key `k` sits, and what holds when there is
/// none.
proof fn lemma_key_index_bounds(o: Seq<(Seq<char>, JsonV)>, k: Seq<char>)
    ensures
        -1 <= key_index(o, k) < o.len(),
        key_index(o, k) >= 0 ==> o[key_index(o, k)].0 == k,
        key_index(o, k) == -1 ==> forall|j: int| 0 <= j < o.len() ==> (#[trigger] o[j]).0 != k,
    decreases o.len(),
{
    if o.len() > 0 && o[0].0 != k {
        let o1 = o.subrange(1, o.len() as int);
        lemma_key_index_bounds(o1, k);
        if key_index(o1, k) >= 0 {
            assert(o[key_index(o, k)] == o1[key_index(o1, k)]);
        } else {
            assert forall|j: int| 0 <= j < o.len() implies (#[trigger] o[j]).0 != k by {
                if j > 0 {
                    assert(o1[j - 1] == o[j]);
                }
            }
        }
    }
}

/// Collapsing entries with pairwise-distinct names, none already bound,
/// appends them to the accumulator unchanged.
proof fn lemma_collapse_unique(m: LabelsV, acc: LabelsV)
    requires
        labels_wf(m),
        forall|i: int, j: int|
            0 <= i < acc.len() && 0 <= j < m.len() ==> (#[trigger] acc[i]).0 != (
            #[trigger] m[j]).0,
    ensures
        collapse(labels_json(m), acc) == acc + m,
    decreases m.len(),
{
    if m.len() == 0 {
        assert(acc + m =~= acc);
    } else {
        let k = m[0].0;
        let s = m[0].1;
        assert(!has_label(acc, k));
        let m1 = m.subrange(1, m.len() as int);
        assert(labels_json(m).subrange(1, labels_json(m).len() as int) =~= labels_json(m1));
        lemma_collapse_unique(m1, acc.push((k, s)));
        assert(acc.push((k, s)) + m1 =~= acc + m);
    }
}

/// A label map with unique names decodes back from its encoding.
proof fn lemma_labels_round_trip(m: LabelsV, field: Seq<char>)
    requires
        labels_wf(m),
    ensures
        dec_labels(JsonV::Obj(labels_json(m)), field) == Result::<LabelsV, ErrV>::Ok(m),
{
    lemma_labels_json_strings(m);
    lemma_collapse_unique(m, Seq::empty());
    assert(Seq::empty() + m =~= m);
}

// ---------------------------------------------------------------------------
// Round trip of samples
// ---------------------------------------------------------------------------
/// A well-formed sample decodes back from its encoding exactly: the
/// sentinel states through their three tokens, a numeric state through
/// its verbatim literal.
pub proof fn lemma_sample_round_trip(s: SampleV)
    requires
        sample_wf(s),
    ensures
        dec_sample(enc_sample(s)) == Result::<SampleV, ErrV>::Ok(s),
{
    lemma_sentinel_tokens();
    let a = seq![JsonV::Num(s.epoch), JsonV::Str(enc_sample_value(s.value))];
    assert(a.len() == 2);
    match s.value {
        SampleValueV::Inf => {},
        SampleValueV::NegInf => {},
        SampleValueV::NaN => {},
        SampleValueV::Num(t) => {
            assert(t != "Inf"@ && t != "-Inf"@ && t != "NaN"@);
        },
    }
    assert(dec_sample(enc_sample(s)) =~~= Result::<SampleV, ErrV>::Ok(s));
}

/// A well-formed string sample decodes back from its encoding.
pub proof fn lemma_string_sample_round_trip(s: StringSampleV)
    requires
        string_sample_wf(s),
    ensures
        dec_string_sample(enc_string_sample(s)) == Result::<StringSampleV, ErrV>::Ok(s),
{
    let a = seq![JsonV::Num(s.epoch), JsonV::Str(s.value)];
    assert(a.len() == 2);
    assert(dec_string_sample(enc_string_sample(s)) =~~= Result::<StringSampleV, ErrV>::Ok(s));
}

// ---------------------------------------------------------------------------
// Round trip of vector and matrix entries
// ---------------------------------------------------------------------------
/// A well-formed instant-vector entry decodes back from its encoding.
proof fn lemma_instant_round_trip(x: InstantV)
    requires
        instant_wf(x),
    ensures
        dec_instant(enc_instant(x)) == Result::<InstantV, ErrV>::Ok(x),
{
    lemma_wire_keys();
    let o = seq![
        ("metric"@, JsonV::Obj(labels_json(x.metric))),
        ("value"@, enc_sample(x.sample)),
    ];
    lemma_key_count_one(o, "metric"@, 0);
    lemma_key_count_one(o, "value"@, 1);
    lemma_key_index_found(o, "metric"@, 0);
    lemma_key_index_found(o, "value"@, 1);
    lemma_labels_round_trip(x.metric, "metric"@);
    lemma_sample_round_trip(x.sample);
    assert(dec_instant(enc_instant(x)) =~~= Result::<InstantV, ErrV>::Ok(x));
}

/// A list of well-formed samples decodes back element by element.
proof fn lemma_samples_list_round_trip(v: Seq<SampleV>)
    requires
        forall|i: int| 0 <= i < v.len() ==> sample_wf(#[trigger] v[i]),
    ensures
        dec_samples(Seq::new(v.len(), |i: int| enc_sample(v[i]))) == Result::<
            Seq<SampleV>,
            ErrV,
        >::Ok(v),
    decreases v.len(),
{
    let es = Seq::new(v.len(), |i: int| enc_sample(v[i]));
    if v.len() == 0 {
        assert(v =~= Seq::<SampleV>::empty());
    } else {
        lemma_sample_round_trip(v[0]);
        let v1 = v.subrange(1, v.len() as int);
        lemma_samples_list_round_trip(v1);
        assert(es.subrange(1, es.len() as int) =~= Seq::new(
            v1.len(),
            |i: int| enc_sample(v1[i]),
        ));
        assert(seq![v[0]] + v1 =~= v);
        assert(dec_samples(es) =~~= Result::<Seq<SampleV>, ErrV>::Ok(v));
    }
}

/// A well-formed range-matrix entry decodes back from its encoding.
proof fn lemma_range_round_trip(x: RangeV)
    requires
        range_wf(x),
    ensures
        dec_range(enc_range(x)) == Result::<RangeV, ErrV>::Ok(x),
{
    lemma_wire_keys();
    let o = seq![
        ("metric"@, JsonV::Obj(labels_json(x.metric))),
        (
            "values"@,
            JsonV::Arr(Seq::new(x.samples.len(), |i: int| enc_sample(x.samples[i]))),
        ),
    ];
    lemma_key_count_one(o, "metric"@, 0);
    lemma_key_count_one(o, "values"@, 1);
    lemma_key_index_found(o, "metric"@, 0);
    lemma_key_index_found(o, "values"@, 1);
    lemma_labels_round_trip(x.metric, "metric"@);
    lemma_samples_list_round_trip(x.samples);
    assert(dec_range(enc_range(x)) =~~= Result::<RangeV, ErrV>::Ok(x));
}

/// A list of well-formed instants decodes back element by element.
proof fn lemma_instants_list_round_trip(v: Seq<InstantV>)
    requires
        forall|i: int| 0 <= i < v.len() ==> instant_wf(#[trigger] v[i]),
    ensures
        dec_instants(Seq::new(v.len(), |i: int| enc_instant(v[i]))) == Result::<
            Seq<InstantV>,
            ErrV,
        >::Ok(v),
    decreases v.len(),
{
    let es = Seq::new(v.len(), |i: int| enc_instant(v[i]));
    if v.len() == 0 {
        assert(v =~= Seq::<InstantV>::empty());
    } else {
        lemma_instant_round_trip(v[0]);
        let v1 = v.subrange(1, v.len() as int);
        lemma_instants_list_round_trip(v1);
        assert(es.subrange(1, es.len() as int) =~= Seq::new(
            v1.len(),
            |i: int| enc_instant(v1[i]),
        ));
        assert(seq![v[0]] + v1 =~= v);
        assert(dec_instants(es) =~~= Result::<Seq<InstantV>, ErrV>::Ok(v));
    }
}

/// A list of well-formed ranges decodes back element by element.
proof fn lemma_ranges_list_round_trip(v: Seq<RangeV>)
    requires
        forall|i: int| 0 <= i < v.len() ==> range_wf(#[trigger] v[i]),
    ensures
        dec_ranges(Seq::new(v.len(), |i: int| enc_range(v[i]))) == Result::<
            Seq<RangeV>,
            ErrV,
        >::Ok(v),
    decreases v.len(),
{
    let es = Seq::new(v.len(), |i: int| enc_range(v[i]));
    if v.len() == 0 {
        assert(v =~= Seq::<RangeV>::empty());
    } else {
        lemma_range_round_trip(v[0]);
        let v1 = v.subrange(1, v.len() as int);
        lemma_ranges_list_round_trip(v1);
        assert(es.subrange(1, es.len() as int) =~= Seq::new(v1.len(), |i: int| enc_range(v1[i])));
        assert(seq![v[0]] + v1 =~= v);
        assert(dec_ranges(es) =~~= Result::<Seq<RangeV>, ErrV>::Ok(v));
    }
}

/// A well-formed expression result decodes back from its encoding.
proof fn lemma_expression_round_trip(e: ExpressionV)
    requires
        expression_wf(e),
    ensures
        dec_expression(enc_expression(e)->Obj_0) == Result::<ExpressionV, ErrV>::Ok(e),
{
    lemma_wire_keys();
    let o = enc_expression(e)->Obj_0;
    assert(o.len() == 2);
    assert(o[0].0 == "resultType"@);
    assert(o[1].0 == "result"@);
    lemma_first_unknown2_absent(o, "resultType"@, "result"@);
    lemma_key_count_one(o, "resultType"@, 0);
    lemma_key_count_one(o, "result"@, 1);
    lemma_key_index_found(o, "resultType"@, 0);
    lemma_key_index_found(o, "result"@, 1);
    match e {
        ExpressionV::Scalar(s) => {
            lemma_sample_round_trip(s);
        },
        ExpressionV::Str(s) => {
            lemma_string_sample_round_trip(s);
        },
        ExpressionV::Instant(v) => {
            lemma_instants_list_round_trip(v);
        },
        ExpressionV::Range(v) => {
            lemma_ranges_list_round_trip(v);
        },
    }
    assert(dec_expression(o) =~~= Result::<ExpressionV, ErrV>::Ok(e));
}

// ---------------------------------------------------------------------------
// Round trip of target and alert-manager status
// ---------------------------------------------------------------------------
/// A well-formed active target decodes back from its encoding.
proof fn lemma_active_target_round_trip(t: ActiveTargetV)
    requires
        active_target_wf(t),
    ensures
        dec_active_target(enc_active_target(t)) == Result::<ActiveTargetV, ErrV>::Ok(t),
{
    lemma_wire_keys();
    let o = enc_active_target(t)->Obj_0;
    assert(o.len() == 6);
    assert(o[0].0 == "discoveredLabels"@);
    assert(o[1].0 == "labels"@);
    assert(o[2].0 == "scrapeUrl"@);
    assert(o[3].0 == "lastError"@);
    assert(o[4].0 == "lastScrape"@);
    assert(o[5].0 == "health"@);
    lemma_key_count_one(o, "discoveredLabels"@, 0);
    lemma_key_count_one(o, "labels"@, 1);
    lemma_key_count_one(o, "scrapeUrl"@, 2);
    lemma_key_count_one(o, "lastError"@, 3);
    lemma_key_count_one(o, "lastScrape"@, 4);
    lemma_key_count_one(o, "health"@, 5);
    lemma_key_index_found(o, "discoveredLabels"@, 0);
    lemma_key_index_found(o, "labels"@, 1);
    lemma_key_index_found(o, "scrapeUrl"@, 2);
    lemma_key_index_found(o, "lastError"@, 3);
    lemma_key_index_found(o, "lastScrape"@, 4);
    lemma_key_index_found(o, "health"@, 5);
    lemma_labels_round_trip(t.discovered_labels, "discoveredLabels"@);
    lemma_labels_round_trip(t.labels, "labels"@);
    assert(dec_active_target(enc_active_target(t)) =~~= Result::<ActiveTargetV, ErrV>::Ok(t));
}

/// A list of well-formed active targets decodes back element by element.
proof fn lemma_active_targets_list_round_trip(v: Seq<ActiveTargetV>)
    requires
        forall|i: int| 0 <= i < v.len() ==> active_target_wf(#[trigger] v[i]),
    ensures
        dec_active_targets(Seq::new(v.len(), |i: int| enc_active_target(v[i]))) == Result::<
            Seq<ActiveTargetV>,
            ErrV,
        >::Ok(v),
    decreases v.len(),
{
    let es = Seq::new(v.len(), |i: int| enc_active_target(v[i]));
    if v.len() == 0 {
        assert(v =~= Seq::<ActiveTargetV>::empty());
    } else {
        lemma_active_target_round_trip(v[0]);
        let v1 = v.subrange(1, v.len() as int);
        lemma_active_targets_list_round_trip(v1);
        assert(es.subrange(1, es.len() as int) =~= Seq::new(
            v1.len(),
            |i: int| enc_active_target(v1[i]),
        ));
        assert(seq![v[0]] + v1 =~= v);
        assert(dec_active_targets(es) =~~= Result::<Seq<ActiveTargetV>, ErrV>::Ok(v));
    }
}

/// A well-formed dropped target decodes back from its encoding.
proof fn lemma_dropped_target_round_trip(t: DroppedTargetV)
    requires
        dropped_target_wf(t),
    ensures
        dec_dropped_target(enc_dropped_target(t)) == Result::<DroppedTargetV, ErrV>::Ok(t),
{
    let o = enc_dropped_target(t)->Obj_0;
    assert(o.len() == 1);
    assert(o[0].0 == "discoveredLabels"@);
    lemma_key_count_one(o, "discoveredLabels"@, 0);
    lemma_key_index_found(o, "discoveredLabels"@, 0);
    lemma_labels_round_trip(t.discovered_labels, "discoveredLabels"@);
    assert(dec_dropped_target(enc_dropped_target(t)) =~~= Result::<DroppedTargetV, ErrV>::Ok(t));
}

/// A list of well-formed dropped targets decodes back element by element.
proof fn lemma_dropped_targets_list_round_trip(v: Seq<DroppedTargetV>)
    requires
        forall|i: int| 0 <= i < v.len() ==> dropped_target_wf(#[trigger] v[i]),
    ensures
        dec_dropped_targets(Seq::new(v.len(), |i: int| enc_dropped_target(v[i]))) == Result::<
            Seq<DroppedTargetV>,
            ErrV,
        >::Ok(v),
    decreases v.len(),
{
    let es = Seq::new(v.len(), |i: int| enc_dropped_target(v[i]));
    if v.len() == 0 {
        assert(v =~= Seq::<DroppedTargetV>::empty());
    } else {
        lemma_dropped_target_round_trip(v[0]);
        let v1 = v.subrange(1, v.len() as int);
        lemma_dropped_targets_list_round_trip(v1);
        assert(es.subrange(1, es.len() as int) =~= Seq::new(
            v1.len(),
            |i: int| enc_dropped_target(v1[i]),
        ));
        assert(seq![v[0]] + v1 =~= v);
        assert(dec_dropped_targets(es) =~~= Result::<Seq<DroppedTargetV>, ErrV>::Ok(v));
    }
}

/// Well-formed target status decodes back from its encoding.
proof fn lemma_targets_round_trip(t: TargetsV)
    requires
        targets_wf(t),
    ensures
        dec_targets(enc_targets(t)->Obj_0) == Result::<TargetsV, ErrV>::Ok(t),
{
    lemma_wire_keys();
    let o = enc_targets(t)->Obj_0;
    assert(o.len() == 2);
    assert(o[0].0 == "activeTargets"@);
    assert(o[1].0 == "droppedTargets"@);
    lemma_first_unknown2_absent(o, "activeTargets"@, "droppedTargets"@);
    lemma_key_count_one(o, "activeTargets"@, 0);
    lemma_key_count_one(o, "droppedTargets"@, 1);
    lemma_key_index_found(o, "activeTargets"@, 0);
    lemma_key_index_found(o, "droppedTargets"@, 1);
    lemma_active_targets_list_round_trip(t.active);
    lemma_dropped_targets_list_round_trip(t.dropped);
    assert(dec_targets(o) =~~= Result::<TargetsV, ErrV>::Ok(t));
}

/// A well-formed alert manager decodes back from its encoding.
proof fn lemma_alert_manager_round_trip(m: AlertManagerV)
    requires
        alert_manager_wf(m),
    ensures
        dec_alert_manager(enc_alert_manager(m)) == Result::<AlertManagerV, ErrV>::Ok(m),
{
    let o = enc_alert_manager(m)->Obj_0;
    assert(o.len() == 1);
    assert(o[0].0 == "url"@);
    lemma_first_unknown1_absent(o, "url"@);
    lemma_key_count_one(o, "url"@, 0);
    lemma_key_index_found(o, "url"@, 0);
    assert(dec_alert_manager(enc_alert_manager(m)) =~~= Result::<AlertManagerV, ErrV>::Ok(m));
}

/// A list of well-formed alert managers decodes back element by element.
proof fn lemma_alert_manager_list_round_trip(v: Seq<AlertManagerV>)
    requires
        forall|i: int| 0 <= i < v.len() ==> alert_manager_wf(#[trigger] v[i]),
    ensures
        dec_alert_manager_list(Seq::new(v.len(), |i: int| enc_alert_manager(v[i]))) == Result::<
            Seq<AlertManagerV>,
            ErrV,
        >::Ok(v),
    decreases v.len(),
{
    let es = Seq::new(v.len(), |i: int| enc_alert_manager(v[i]));
    if v.len() == 0 {
        assert(v =~= Seq::<AlertManagerV>::empty());
    } else {
        lemma_alert_manager_round_trip(v[0]);
        let v1 = v.subrange(1, v.len() as int);
        lemma_alert_manager_list_round_trip(v1);
        assert(es.subrange(1, es.len() as int) =~= Seq::new(
            v1.len(),
            |i: int| enc_alert_manager(v1[i]),
        ));
        assert(seq![v[0]] + v1 =~= v);
        assert(dec_alert_manager_list(es) =~~= Result::<Seq<AlertManagerV>, ErrV>::Ok(v));
    }
}

/// Well-formed alert-manager status decodes back from its encoding.
proof fn lemma_alert_managers_round_trip(m: AlertManagersV)
    requires
        alert_managers_wf(m),
    ensures
        dec_alert_managers(enc_alert_managers(m)->Obj_0) == Result::<AlertManagersV, ErrV>::Ok(m),
{
    lemma_wire_keys();
    let o = enc_alert_managers(m)->Obj_0;
    assert(o.len() == 2);
    assert(o[0].0 == "activeAlertmanagers"@);
    assert(o[1].0 == "droppedAlertmanagers"@);
    lemma_first_unknown2_absent(o, "activeAlertmanagers"@, "droppedAlertmanagers"@);
    lemma_key_count_one(o, "activeAlertmanagers"@, 0);
    lemma_key_count_one(o, "droppedAlertmanagers"@, 1);
    lemma_key_index_found(o, "activeAlertmanagers"@, 0);
    lemma_key_index_found(o, "droppedAlertmanagers"@, 1);
    lemma_alert_manager_list_round_trip(m.active);
    lemma_alert_manager_list_round_trip(m.dropped);
    assert(dec_alert_managers(o) =~~= Result::<AlertManagersV, ErrV>::Ok(m));
}

// ---------------------------------------------------------------------------
// Round trip of the data payload
// ---------------------------------------------------------------------------
/// What the shape-discriminated encoding cannot carry back: an empty
/// series list reads back as an empty label list by the documented
/// precedence policy, and a series metric or a flag map whose names
/// collide with a shape-discriminating key would change shape.
pub open spec fn data_unambiguous(d: DataV) -> bool {
    match d {
        DataV::Series(v) => v.len() > 0 && forall|i: int|
            0 <= i < v.len() ==> !has_label(#[trigger] v[i], "resultType"@) && !has_label(
                v[i],
                "result"@,
            ),
        DataV::Flags(f) => {
            &&& !has_label(f, "resultType"@)
            &&& !has_label(f, "activeTargets"@)
            &&& !has_label(f, "droppedTargets"@)
            &&& !has_label(f, "activeAlertmanagers"@)
            &&& !has_label(f, "droppedAlertmanagers"@)
        },
        _ => true,
    }
}

/// No data payload encodes to the JSON null value.
proof fn lemma_enc_data_not_null(d: DataV)
    ensures
        !(enc_data(d) is Null),
{
    match d {
        DataV::Expression(_) => assert(!(enc_data(d) is Null)),
        DataV::Series(_) => assert(!(enc_data(d) is Null)),
        DataV::LabelsOrValues(_) => assert(!(enc_data(d) is Null)),
        DataV::Targets(_) => assert(!(enc_data(d) is Null)),
        DataV::AlertManagers(_) => assert(!(enc_data(d) is Null)),
        DataV::Flags(_) => assert(!(enc_data(d) is Null)),
    }
}

/// A well-formed, unambiguous data payload decodes back from its
/// encoding under the fixed shape-dispatch order.
proof fn lemma_data_round_trip(d: DataV)
    requires
        data_wf(d),
        data_unambiguous(d),
    ensures
        dec_data(enc_data(d)) == Result::<DataV, ErrV>::Ok(d),
{
    lemma_wire_keys();
    match d {
        DataV::Expression(e) => {
            let o = enc_expression(e)->Obj_0;
            lemma_key_index_found(o, "resultType"@, 0);
            lemma_expression_round_trip(e);
        },
        DataV::Targets(t) => {
            let o = enc_targets(t)->Obj_0;
            lemma_key_index_absent(o, "resultType"@);
            lemma_key_index_found(o, "activeTargets"@, 0);
            lemma_targets_round_trip(t);
        },
        DataV::AlertManagers(m) => {
            let o = enc_alert_managers(m)->Obj_0;
            lemma_key_index_absent(o, "resultType"@);
            lemma_key_index_absent(o, "activeTargets"@);
            lemma_key_index_absent(o, "droppedTargets"@);
            lemma_key_index_found(o, "activeAlertmanagers"@, 0);
            lemma_alert_managers_round_trip(m);
        },
        DataV::Flags(f) => {
            let o = labels_json(f);
            lemma_labels_json_strings(f);
            assert(!has_key(o, "resultType"@)) by {
                if has_key(o, "resultType"@) {
                }
            }
            assert(!has_key(o, "activeTargets"@)) by {
                if has_key(o, "activeTargets"@) {
                }
            }
            assert(!has_key(o, "droppedTargets"@)) by {
                if has_key(o, "droppedTargets"@) {
                }
            }
            assert(!has_key(o, "activeAlertmanagers"@)) by {
                if has_key(o, "activeAlertmanagers"@) {
                }
            }
            assert(!has_key(o, "droppedAlertmanagers"@)) by {
                if has_key(o, "droppedAlertmanagers"@) {
                }
            }
            lemma_collapse_unique(f, Seq::empty());
            assert(Seq::empty() + f =~= f);
            assert(dec_data(enc_data(d)) =~~= Result::<DataV, ErrV>::Ok(d));
        },
        DataV::LabelsOrValues(v) => {
            let es = strs_json(v);
            if v.len() == 0 {
                assert(v =~= Seq::<Seq<char>>::empty());
                assert(dec_data(enc_data(d)) =~~= Result::<DataV, ErrV>::Ok(d));
            } else {
                assert(es[0] is Str);
                assert(!all_series_objs(es));
                assert(strs_of(es) =~= v);
                assert(dec_data(enc_data(d)) =~~= Result::<DataV, ErrV>::Ok(d));
            }
        },
        DataV::Series(v) => {
            let es = Seq::new(v.len(), |i: int| JsonV::Obj(labels_json(v[i])));
            assert forall|i: int| 0 <= i < es.len() implies {
                &&& (#[trigger] es[i]) is Obj
                &&& all_string_entries(es[i]->Obj_0)
                &&& !has_key(es[i]->Obj_0, "resultType"@)
                &&& !has_key(es[i]->Obj_0, "result"@)
            } by {
                lemma_labels_json_strings(v[i]);
            }
            assert(all_series_objs(es));
            assert forall|i: int| 0 <= i < es.len() implies series_of(es)[i] == v[i] by {
                lemma_collapse_unique(v[i], Seq::empty());
                assert(Seq::empty() + v[i] =~= v[i]);
            }
            assert(series_of(es) =~= v);
            assert(dec_data(enc_data(d)) =~~= Result::<DataV, ErrV>::Ok(d));
        },
    }
}

// ---------------------------------------------------------------------------
// Round trip of the envelope
// ---------------------------------------------------------------------------
/// Whether a result's data payload, if any, encodes unambiguously.
pub open spec fn result_unambiguous(r: QueryResultV) -> bool {
    match r {
        QueryResultV::Success(s) => match s.data {
            Option::Some(d) => data_unambiguous(d),
            Option::None => true,
        },
        QueryResultV::Error(e) => match e.data {
            Option::Some(d) => data_unambiguous(d),
            Option::None => true,
        },
    }
}

/// Decoding is a function of the JSON value alone: the same `data` value
/// always yields the same payload, so shape dispatch is deterministic.
pub proof fn lemma_shape_dispatch_deterministic(j1: JsonV, j2: JsonV)
    requires
        j1 == j2,
    ensures
        dec_data(j1) == dec_data(j2),
{
}

/// Round trip of the envelope: every well-formed result whose payload
/// encodes unambiguously decodes back from its encoding, structurally
/// equal to the value encoded.
pub proof fn lemma_result_round_trip(r: QueryResultV)
    requires
        result_wf(r),
        result_unambiguous(r),
    ensures
        dec_result(enc_result(r)) == Result::<QueryResultV, ErrV>::Ok(r),
{
    lemma_wire_keys();
    match r {
        QueryResultV::Success(s) => {
            lemma_result_round_trip_success(s);
        },
        QueryResultV::Error(e) => {
            lemma_result_round_trip_error(e);
        },
    }
}

proof fn lemma_result_round_trip_success(s: QuerySuccessV)
    requires
        success_wf(s),
        match s.data {
            Option::Some(d) => data_unambiguous(d),
            Option::None => true,
        },
    ensures
        dec_result(enc_result(QueryResultV::Success(s))) == Result::<QueryResultV, ErrV>::Ok(
            QueryResultV::Success(s),
        ),
{
    lemma_wire_keys();
    let r = QueryResultV::Success(s);
    let o = enc_result(r)->Obj_0;
    let base = seq![("status"@, JsonV::Str("success"@))];
    let with_data = match s.data {
        Option::Some(d) => base.push(("data"@, enc_data(d))),
        Option::None => base,
    };
    let with_warnings = if s.warnings.len() > 0 {
        with_data.push(("warnings"@, JsonV::Arr(strs_json(s.warnings))))
    } else {
        with_data
    };
    assert(o == with_warnings);
    lemma_key_count_zero(o, "error"@);
    lemma_key_count_zero(o, "errorType"@);
    lemma_key_index_found(o, "status"@, 0);
    lemma_key_count_one(o, "status"@, 0);
    match s.data {
        Option::Some(d) => {
            lemma_key_count_one(o, "data"@, 1);
            lemma_key_index_found(o, "data"@, 1);
            lemma_enc_data_not_null(d);
            lemma_data_round_trip(d);
            if s.warnings.len() > 0 {
                lemma_key_count_one(o, "warnings"@, 2);
                lemma_key_index_found(o, "warnings"@, 2);
                assert(strs_of(strs_json(s.warnings)) =~= s.warnings);
            } else {
                lemma_key_count_zero(o, "warnings"@);
                lemma_key_index_absent(o, "warnings"@);
                assert(s.warnings =~= Seq::<Seq<char>>::empty());
            }
        },
        Option::None => {
            lemma_key_count_zero(o, "data"@);
            lemma_key_index_absent(o, "data"@);
            if s.warnings.len() > 0 {
                lemma_key_count_one(o, "warnings"@, 1);
                lemma_key_index_found(o, "warnings"@, 1);
                assert(strs_of(strs_json(s.warnings)) =~= s.warnings);
            } else {
                lemma_key_count_zero(o, "warnings"@);
                lemma_key_index_absent(o, "warnings"@);
                assert(s.warnings =~= Seq::<Seq<char>>::empty());
            }
        },
    }
    assert(dec_result(enc_result(r)) =~~= Result::<QueryResultV, ErrV>::Ok(r));
}

proof fn lemma_result_round_trip_error(e: QueryErrorV)
    requires
        query_error_wf(e),
        match e.data {
            Option::Some(d) => data_unambiguous(d),
            Option::None => true,
        },
    ensures
        dec_result(enc_result(QueryResultV::Error(e))) == Result::<QueryResultV, ErrV>::Ok(
            QueryResultV::Error(e),
        ),
{
    lemma_wire_keys();
    let r = QueryResultV::Error(e);
    let o = enc_result(r)->Obj_0;
    let base = seq![
        ("status"@, JsonV::Str("error"@)),
        ("errorType"@, JsonV::Str(e.error_type)),
        ("error"@, JsonV::Str(e.error_message)),
    ];
    let with_data = match e.data {
        Option::Some(d) => base.push(("data"@, enc_data(d))),
        Option::None => base,
    };
    let with_warnings = if e.warnings.len() > 0 {
        with_data.push(("warnings"@, JsonV::Arr(strs_json(e.warnings))))
    } else {
        with_data
    };
    assert(o == with_warnings);
    lemma_key_index_found(o, "status"@, 0);
    lemma_key_count_one(o, "status"@, 0);
    lemma_key_index_found(o, "errorType"@, 1);
    lemma_key_count_one(o, "errorType"@, 1);
    lemma_key_index_found(o, "error"@, 2);
    lemma_key_count_one(o, "error"@, 2);
    match e.data {
        Option::Some(d) => {
            lemma_key_count_one(o, "data"@, 3);
            lemma_key_index_found(o, "data"@, 3);
            lemma_enc_data_not_null(d);
            lemma_data_round_trip(d);
            if e.warnings.len() > 0 {
                lemma_key_count_one(o, "warnings"@, 4);
                lemma_key_index_found(o, "warnings"@, 4);
                assert(strs_of(strs_json(e.warnings)) =~= e.warnings);
            } else {
                lemma_key_count_zero(o, "warnings"@);
                lemma_key_index_absent(o, "warnings"@);
                assert(e.warnings =~= Seq::<Seq<char>>::empty());
            }
        },
        Option::None => {
            lemma_key_count_zero(o, "data"@);
            lemma_key_index_absent(o, "data"@);
            if e.warnings.len() > 0 {
                lemma_key_count_one(o, "warnings"@, 3);
                lemma_key_index_found(o, "warnings"@, 3);
                assert(strs_of(strs_json(e.warnings)) =~= e.warnings);
            } else {
                lemma_key_count_zero(o, "warnings"@);
                lemma_key_index_absent(o, "warnings"@);
                assert(e.warnings =~= Seq::<Seq<char>>::empty());
            }
        },
    }
    assert(dec_result(enc_result(r)) =~~= Result::<QueryResultV, ErrV>::Ok(r));
}

// ---------------------------------------------------------------------------
// Round trip through the printed text
// ---------------------------------------------------------------------------
proof fn lemma_labels_json_wf(m: LabelsV)
    ensures
        json_wf(JsonV::Obj(labels_json(m))),
{
    assert forall|i: int|
        0 <= i < labels_json(m).len() implies json_wf((#[trigger] labels_json(m)[i]).1) by {}
}

proof fn lemma_enc_sample_wf(s: SampleV)
    requires
        sample_wf(s),
    ensures
        json_wf(enc_sample(s)),
{
    let a = enc_sample(s)->Arr_0;
    assert forall|i: int| 0 <= i < a.len() implies json_wf(#[trigger] a[i]) by {}
}

proof fn lemma_enc_string_sample_wf(s: StringSampleV)
    requires
        string_sample_wf(s),
    ensures
        json_wf(enc_string_sample(s)),
{
    let a = enc_string_sample(s)->Arr_0;
    assert forall|i: int| 0 <= i < a.len() implies json_wf(#[trigger] a[i]) by {}
}

proof fn lemma_enc_instant_wf(x: InstantV)
    requires
        instant_wf(x),
    ensures
        json_wf(enc_instant(x)),
{
    lemma_labels_json_wf(x.metric);
    lemma_enc_sample_wf(x.sample);
    let o = enc_instant(x)->Obj_0;
    assert forall|i: int| 0 <= i < o.len() implies json_wf((#[trigger] o[i]).1) by {}
}

proof fn lemma_enc_range_wf(x: RangeV)
    requires
        range_wf(x),
    ensures
        json_wf(enc_range(x)),
{
    lemma_labels_json_wf(x.metric);
    let vs = Seq::new(x.samples.len(), |i: int| enc_sample(x.samples[i]));
    assert forall|i: int| 0 <= i < vs.len() implies json_wf(#[trigger] vs[i]) by {
        lemma_enc_sample_wf(x.samples[i]);
    }
    let o = enc_range(x)->Obj_0;
    assert forall|i: int| 0 <= i < o.len() implies json_wf((#[trigger] o[i]).1) by {}
}

proof fn lemma_enc_expression_wf(e: ExpressionV)
    requires
        expression_wf(e),
    ensures
        json_wf(enc_expression(e)),
{
    match e {
        ExpressionV::Scalar(s) => {
            lemma_enc_sample_wf(s);
        },
        ExpressionV::Str(s) => {
            lemma_enc_string_sample_wf(s);
        },
        ExpressionV::Instant(v) => {
            let vs = Seq::new(v.len(), |i: int| enc_instant(v[i]));
            assert forall|i: int| 0 <= i < vs.len() implies json_wf(#[trigger] vs[i]) by {
                lemma_enc_instant_wf(v[i]);
            }
        },
        ExpressionV::Range(v) => {
            let vs = Seq::new(v.len(), |i: int| enc_range(v[i]));
            assert forall|i: int| 0 <= i < vs.len() implies json_wf(#[trigger] vs[i]) by {
                lemma_enc_range_wf(v[i]);
            }
        },
    }
    let o = enc_expression(e)->Obj_0;
    assert forall|i: int| 0 <= i < o.len() implies json_wf((#[trigger] o[i]).1) by {}
}

proof fn lemma_enc_active_target_wf(t: ActiveTargetV)
    ensures
        json_wf(enc_active_target(t)),
{
    lemma_labels_json_wf(t.discovered_labels);
    lemma_labels_json_wf(t.labels);
    let o = enc_active_target(t)->Obj_0;
    assert forall|i: int| 0 <= i < o.len() implies json_wf((#[trigger] o[i]).1) by {}
}

proof fn lemma_enc_targets_wf(t: TargetsV)
    ensures
        json_wf(enc_targets(t)),
{
    let act = Seq::new(t.active.len(), |i: int| enc_active_target(t.active[i]));
    assert forall|i: int| 0 <= i < act.len() implies json_wf(#[trigger] act[i]) by {
        lemma_enc_active_target_wf(t.active[i]);
    }
    let dr = Seq::new(t.dropped.len(), |i: int| enc_dropped_target(t.dropped[i]));
    assert forall|i: int| 0 <= i < dr.len() implies json_wf(#[trigger] dr[i]) by {
        lemma_labels_json_wf(t.dropped[i].discovered_labels);
        let o = enc_dropped_target(t.dropped[i])->Obj_0;
        assert forall|k: int| 0 <= k < o.len() implies json_wf((#[trigger] o[k]).1) by {}
    }
    let o = enc_targets(t)->Obj_0;
    assert forall|i: int| 0 <= i < o.len() implies json_wf((#[trigger] o[i]).1) by {}
}

proof fn lemma_enc_alert_managers_wf(m: AlertManagersV)
    ensures
        json_wf(enc_alert_managers(m)),
{
    let act = Seq::new(m.active.len(), |i: int| enc_alert_manager(m.active[i]));
    assert forall|i: int| 0 <= i < act.len() implies json_wf(#[trigger] act[i]) by {
        let o = enc_alert_manager(m.active[i])->Obj_0;
        assert forall|k: int| 0 <= k < o.len() implies json_wf((#[trigger] o[k]).1) by {}
    }
    let dr = Seq::new(m.dropped.len(), |i: int| enc_alert_manager(m.dropped[i]));
    assert forall|i: int| 0 <= i < dr.len() implies json_wf(#[trigger] dr[i]) by {
        let o = enc_alert_manager(m.dropped[i])->Obj_0;
        assert forall|k: int| 0 <= k < o.len() implies json_wf((#[trigger] o[k]).1) by {}
    }
    let o = enc_alert_managers(m)->Obj_0;
    assert forall|i: int| 0 <= i < o.len() implies json_wf((#[trigger] o[i]).1) by {}
}

proof fn lemma_enc_data_wf(d: DataV)
    requires
        data_wf(d),
    ensures
        json_wf(enc_data(d)),
{
    match d {
        DataV::Expression(e) => {
            lemma_enc_expression_wf(e);
        },
        DataV::Series(v) => {
            let vs = Seq::new(v.len(), |i: int| JsonV::Obj(labels_json(v[i])));
            assert forall|i: int| 0 <= i < vs.len() implies json_wf(#[trigger] vs[i]) by {
                lemma_labels_json_wf(v[i]);
            }
        },
        DataV::LabelsOrValues(v) => {
            assert forall|i: int|
                0 <= i < strs_json(v).len() implies json_wf(#[trigger] strs_json(v)[i]) by {}
        },
        DataV::Targets(t) => {
            lemma_enc_targets_wf(t);
        },
        DataV::AlertManagers(m) => {
            lemma_enc_alert_managers_wf(m);
        },
        DataV::Flags(f) => {
            lemma_labels_json_wf(f);
        },
    }
}

proof fn lemma_enc_result_wf(r: QueryResultV)
    requires
        result_wf(r),
    ensures
        json_wf(enc_result(r)),
{
    match r {
        QueryResultV::Success(s) => {
            match s.data {
                Option::Some(d) => {
                    lemma_enc_data_wf(d);
                },
                Option::None => {},
            }
            assert forall|i: int|
                0 <= i < strs_json(s.warnings).len() implies json_wf(
                #[trigger] strs_json(s.warnings)[i]) by {}
            assert(json_wf(JsonV::Arr(strs_json(s.warnings))));
            let o = enc_result(r)->Obj_0;
            assert forall|i: int| 0 <= i < o.len() implies json_wf((#[trigger] o[i]).1) by {}
        },
        QueryResultV::Error(e) => {
            match e.data {
                Option::Some(d) => {
                    lemma_enc_data_wf(d);
                },
                Option::None => {},
            }
            assert forall|i: int|
                0 <= i < strs_json(e.warnings).len() implies json_wf(
                #[trigger] strs_json(e.warnings)[i]) by {}
            assert(json_wf(JsonV::Arr(strs_json(e.warnings))));
            let o = enc_result(r)->Obj_0;
            assert forall|i: int| 0 <= i < o.len() implies json_wf((#[trigger] o[i]).1) by {}
        },
    }
}

// ---------------------------------------------------------------------------
// Decoding establishes the documented invariants
// ---------------------------------------------------------------------------
proof fn lemma_collapse_wf(o: Seq<(Seq<char>, JsonV)>, acc: LabelsV)
    requires
        labels_wf(acc),
    ensures
        labels_wf(collapse(o, acc)),
    decreases o.len(),
{
    if o.len() > 0 {
        let k = o[0].0;
        let s = o[0].1->Str_0;
        let rest = o.subrange(1, o.len() as int);
        if has_label(acc, k) {
            assert(labels_wf(set_label(acc, k, s))) by {
                assert(forall|i: int|
                    0 <= i < acc.len() ==> (#[trigger] set_label(acc, k, s)[i]).0 == acc[i].0);
            }
            lemma_collapse_wf(rest, set_label(acc, k, s));
        } else {
            assert(labels_wf(acc.push((k, s))));
            lemma_collapse_wf(rest, acc.push((k, s)));
        }
    }
}

proof fn lemma_dec_labels_wf(j: JsonV, field: Seq<char>)
    ensures
        dec_labels(j, field) matches Result::Ok(m) ==> labels_wf(m),
{
    if dec_labels(j, field) is Ok {
        lemma_collapse_wf(j->Obj_0, Seq::empty());
    }
}

proof fn lemma_dec_instants_wf(a: Seq<JsonV>)
    ensures
        dec_instants(a) matches Result::Ok(v) ==> forall|i: int|
            0 <= i < v.len() ==> instant_wf(#[trigger] v[i]),
    decreases a.len(),
{
    if a.len() > 0 && dec_instants(a) is Ok {
        lemma_dec_labels_wf(key_value(a[0]->Obj_0, "metric"@), "metric"@);
        lemma_dec_instants_wf(a.subrange(1, a.len() as int));
    }
}

proof fn lemma_dec_samples_wf(a: Seq<JsonV>)
    ensures
        dec_samples(a) matches Result::Ok(v) ==> forall|i: int|
            0 <= i < v.len() ==> sample_wf(#[trigger] v[i]),
    decreases a.len(),
{
    if a.len() > 0 && dec_samples(a) is Ok {
        lemma_dec_samples_wf(a.subrange(1, a.len() as int));
    }
}

proof fn lemma_dec_ranges_wf(a: Seq<JsonV>)
    ensures
        dec_ranges(a) matches Result::Ok(v) ==> forall|i: int|
            0 <= i < v.len() ==> range_wf(#[trigger] v[i]),
    decreases a.len(),
{
    if a.len() > 0 && dec_ranges(a) is Ok {
        lemma_dec_labels_wf(key_value(a[0]->Obj_0, "metric"@), "metric"@);
        lemma_dec_samples_wf(key_value(a[0]->Obj_0, "values"@)->Arr_0);
        lemma_dec_ranges_wf(a.subrange(1, a.len() as int));
    }
}

proof fn lemma_dec_active_targets_wf(a: Seq<JsonV>)
    ensures
        dec_active_targets(a) matches Result::Ok(v) ==> forall|i: int|
            0 <= i < v.len() ==> active_target_wf(#[trigger] v[i]),
    decreases a.len(),
{
    if a.len() > 0 && dec_active_targets(a) is Ok {
        let o = a[0]->Obj_0;
        lemma_dec_labels_wf(key_value(o, "discoveredLabels"@), "discoveredLabels"@);
        lemma_dec_labels_wf(key_value(o, "labels"@), "labels"@);
        lemma_dec_active_targets_wf(a.subrange(1, a.len() as int));
    }
}

proof fn lemma_dec_dropped_targets_wf(a: Seq<JsonV>)
    ensures
        dec_dropped_targets(a) matches Result::Ok(v) ==> forall|i: int|
            0 <= i < v.len() ==> dropped_target_wf(#[trigger] v[i]),
    decreases a.len(),
{
    if a.len() > 0 && dec_dropped_targets(a) is Ok {
        lemma_dec_labels_wf(key_value(a[0]->Obj_0, "discoveredLabels"@), "discoveredLabels"@);
        lemma_dec_dropped_targets_wf(a.subrange(1, a.len() as int));
    }
}

proof fn lemma_dec_alert_manager_list_wf(a: Seq<JsonV>)
    ensures
        dec_alert_manager_list(a) matches Result::Ok(v) ==> forall|i: int|
            0 <= i < v.len() ==> alert_manager_wf(#[trigger] v[i]),
    decreases a.len(),
{
    if a.len() > 0 && dec_alert_manager_list(a) is Ok {
        lemma_dec_alert_manager_list_wf(a.subrange(1, a.len() as int));
    }
}

proof fn lemma_dec_series_wf(a: Seq<JsonV>)
    requires
        all_series_objs(a),
    ensures
        forall|i: int| 0 <= i < series_of(a).len() ==> labels_wf(#[trigger] series_of(a)[i]),
{
    assert forall|i: int|
        0 <= i < series_of(a).len() implies labels_wf(#[trigger] series_of(a)[i]) by {
        lemma_collapse_wf(a[i]->Obj_0, Seq::empty());
    }
}

proof fn lemma_dec_data_wf(j: JsonV)
    ensures
        dec_data(j) matches Result::Ok(d) ==> data_wf(d),
{
    if dec_data(j) is Ok {
        match j {
            JsonV::Obj(o) => {
                if has_key(o, "resultType"@) {
                    match key_value(o, "resultType"@) {
                        JsonV::Str(rt) => {
                            let r = key_value(o, "result"@);
                            if rt == "vector"@ {
                                lemma_dec_instants_wf(r->Arr_0);
                            } else if rt == "matrix"@ {
                                lemma_dec_ranges_wf(r->Arr_0);
                            }
                        },
                        _ => {},
                    }
                } else if has_key(o, "activeTargets"@) || has_key(o, "droppedTargets"@) {
                    if has_key(o, "activeTargets"@) {
                        match key_value(o, "activeTargets"@) {
                            JsonV::Arr(a) => {
                                lemma_dec_active_targets_wf(a);
                            },
                            _ => {},
                        }
                    }
                    if has_key(o, "droppedTargets"@) {
                        match key_value(o, "droppedTargets"@) {
                            JsonV::Arr(a) => {
                                lemma_dec_dropped_targets_wf(a);
                            },
                            _ => {},
                        }
                    }
                } else if has_key(o, "activeAlertmanagers"@) || has_key(
                    o,
                    "droppedAlertmanagers"@,
                ) {
                    if has_key(o, "activeAlertmanagers"@) {
                        match key_value(o, "activeAlertmanagers"@) {
                            JsonV::Arr(a) => {
                                lemma_dec_alert_manager_list_wf(a);
                            },
                            _ => {},
                        }
                    }
                    if has_key(o, "droppedAlertmanagers"@) {
                        match key_value(o, "droppedAlertmanagers"@) {
                            JsonV::Arr(a) => {
                                lemma_dec_alert_manager_list_wf(a);
                            },
                            _ => {},
                        }
                    }
                } else {
                    lemma_collapse_wf(o, Seq::empty());
                }
            },
            JsonV::Arr(a) => {
                if a.len() > 0 && all_series_objs(a) {
                    lemma_dec_series_wf(a);
                }
            },
            _ => {},
        }
    }
}

/// Decoding establishes the documented invariants: every value a
/// successful decode yields is well formed, so it may be encoded again
/// and the round-trip law applies to it.
pub proof fn lemma_decode_well_formed(j: JsonV)
    ensures
        dec_result(j) matches Result::Ok(r) ==> result_wf(r),
{
    if dec_result(j) is Ok {
        let o = j->Obj_0;
        if has_key(o, "data"@) && !(key_value(o, "data"@) is Null) {
            lemma_dec_data_wf(key_value(o, "data"@));
        }
    }
}

/// Round trip through the printed text: every well-formed result whose
/// payload encodes unambiguously decodes back from its encoded response
/// body, structurally equal to the value encoded.
pub proof fn lemma_text_round_trip(r: QueryResultV)
    requires
        result_wf(r),
        result_unambiguous(r),
    ensures
        crate::api::dec_text(crate::api::enc_text(r)) == Result::<QueryResultV, ErrV>::Ok(r),
{
    lemma_enc_result_wf(r);
    crate::wire_laws::lemma_parse_print(enc_result(r));
    lemma_result_round_trip(r);
}

} // verus!
