use vstd::prelude::*;
use crate::codec::{
    enc_active_target, enc_alert_manager, enc_alert_managers, enc_data, enc_dropped_target,
    enc_expression, enc_instant, enc_range, enc_result, enc_sample, enc_sample_value,
    enc_string_sample, enc_targets, health_token, labels_json, result_type_token, strs_json,
};
use crate::json::{json_view_elems, json_view_entries, Json, JsonV};
use crate::types::{
    seq_view, ActiveTarget, AlertManager, AlertManagers, Data, DroppedTarget, Expression, Instant,
    Labels, Metric, QueryResult, Range, Sample, SampleValue, StringSample, TargetHealth, Targets,
};

verus! {

broadcast use {crate::json::group_json_view, crate::types::group_seq_view};

/// The wire token of a sample value.
pub fn encode_sample_value(v: &SampleValue) -> (r: String)
    ensures
        r@ == enc_sample_value(v@),
{
    match v {
        SampleValue::Inf => String::from_str("Inf"),
        SampleValue::NegInf => String::from_str("-Inf"),
        SampleValue::NaN => String::from_str("NaN"),
        SampleValue::Num(t) => t.clone(),
    }
}

/// The `[time, value]` pair of a numeric sample.
pub fn encode_sample(s: &Sample) -> (j: Json)
    ensures
        j@ == enc_sample(s@),
{
    let mut a: Vec<Json> = Vec::new();
    a.push(Json::Num(s.epoch.clone()));
    a.push(Json::Str(encode_sample_value(&s.value)));
    proof {
        assert(json_view_elems(Seq::<Json>::empty()) =~= Seq::<JsonV>::empty());
        assert(json_view_elems(a@) =~= seq![
            JsonV::Num(s.epoch@),
            JsonV::Str(enc_sample_value(s.value@)),
        ]);
    }
    Json::Arr(a)
}

/// The `[time, value]` pair of a string sample.
pub fn encode_string_sample(s: &StringSample) -> (j: Json)
    ensures
        j@ == enc_string_sample(s@),
{
    let mut a: Vec<Json> = Vec::new();
    a.push(Json::Num(s.epoch.clone()));
    a.push(Json::Str(s.value.clone()));
    proof {
        assert(json_view_elems(Seq::<Json>::empty()) =~= Seq::<JsonV>::empty());
        assert(json_view_elems(a@) =~= seq![JsonV::Num(s.epoch@), JsonV::Str(s.value@)]);
    }
    Json::Arr(a)
}

/// A label map as an object, entries in stored order.
pub fn encode_labels(m: &Labels) -> (j: Json)
    ensures
        j@ == JsonV::Obj(labels_json(m.deep_view())),
{
    let mut e: Vec<(String, Json)> = Vec::new();
    proof {
        assert(json_view_entries(e@) =~= labels_json(m.deep_view()).subrange(0, 0));
    }
    let mut i: usize = 0;
    while i < m.len()
        invariant
            i <= m.len(),
            json_view_entries(e@) == labels_json(m.deep_view()).subrange(0, i as int),
        decreases m.len() - i,
    {
        e.push((m[i].0.clone(), Json::Str(m[i].1.clone())));
        proof {
            assert(labels_json(m.deep_view()).subrange(0, i + 1 as int) =~= labels_json(
                m.deep_view(),
            ).subrange(0, i as int).push(labels_json(m.deep_view())[i as int]));
        }
        i += 1;
    }
    proof {
        assert(labels_json(m.deep_view()).subrange(0, m.len() as int) =~= labels_json(
            m.deep_view(),
        ));
    }
    Json::Obj(e)
}

/// A list of strings as an array of JSON strings.
pub fn encode_strings(w: &Vec<String>) -> (a: Vec<Json>)
    ensures
        json_view_elems(a@) == strs_json(w.deep_view()),
{
    let mut a: Vec<Json> = Vec::new();
    proof {
        assert(json_view_elems(a@) =~= strs_json(w.deep_view()).subrange(0, 0));
    }
    let mut i: usize = 0;
    while i < w.len()
        invariant
            i <= w.len(),
            json_view_elems(a@) == strs_json(w.deep_view()).subrange(0, i as int),
        decreases w.len() - i,
    {
        a.push(Json::Str(w[i].clone()));
        proof {
            assert(strs_json(w.deep_view()).subrange(0, i + 1 as int) =~= strs_json(
                w.deep_view(),
            ).subrange(0, i as int).push(strs_json(w.deep_view())[i as int]));
        }
        i += 1;
    }
    proof {
        assert(strs_json(w.deep_view()).subrange(0, w.len() as int) =~= strs_json(w.deep_view()));
    }
    a
}

/// One instant-vector entry as its `{metric, value}` object.
pub fn encode_instant(x: &Instant) -> (j: Json)
    ensures
        j@ == enc_instant(x@),
{
    let mut e: Vec<(String, Json)> = Vec::new();
    e.push((String::from_str("metric"), encode_labels(&x.metric.labels)));
    e.push((String::from_str("value"), encode_sample(&x.sample)));
    proof {
        assert(json_view_entries(Seq::<(String, Json)>::empty()) =~= Seq::<
            (Seq<char>, JsonV),
        >::empty());
        assert(json_view_entries(e@) =~= seq![
            ("metric"@, JsonV::Obj(labels_json(x.metric@))),
            ("value"@, enc_sample(x.sample@)),
        ]);
    }
    Json::Obj(e)
}

/// The samples of one range entry, as an array.
pub fn encode_samples(v: &Vec<Sample>) -> (a: Vec<Json>)
    ensures
        json_view_elems(a@) == Seq::new(
            seq_view(v@).len(),
            |i: int| enc_sample(seq_view(v@)[i]),
        ),
{
    let ghost target = Seq::new(seq_view(v@).len(), |i: int| enc_sample(seq_view(v@)[i]));
    let mut a: Vec<Json> = Vec::new();
    proof {
        assert(json_view_elems(a@) =~= target.subrange(0, 0));
    }
    let mut i: usize = 0;
    while i < v.len()
        invariant
            i <= v.len(),
            target == Seq::new(seq_view(v@).len(), |i: int| enc_sample(seq_view(v@)[i])),
            seq_view(v@).len() == v.len(),
            json_view_elems(a@) == target.subrange(0, i as int),
        decreases v.len() - i,
    {
        a.push(encode_sample(&v[i]));
        proof {
            assert(seq_view(v@)[i as int] == v@[i as int]@);
            assert(target.subrange(0, i + 1 as int) =~= target.subrange(0, i as int).push(
                target[i as int],
            ));
        }
        i += 1;
    }
    proof {
        assert(target.subrange(0, v.len() as int) =~= target);
    }
    a
}

/// One range-matrix entry as its `{metric, values}` object.
pub fn encode_range(x: &Range) -> (j: Json)
    ensures
        j@ == enc_range(x@),
{
    let mut e: Vec<(String, Json)> = Vec::new();
    e.push((String::from_str("metric"), encode_labels(&x.metric.labels)));
    e.push((String::from_str("values"), Json::Arr(encode_samples(&x.samples))));
    proof {
        assert(json_view_entries(Seq::<(String, Json)>::empty()) =~= Seq::<
            (Seq<char>, JsonV),
        >::empty());
        assert(json_view_entries(e@) =~= seq![
            ("metric"@, JsonV::Obj(labels_json(x.metric@))),
            (
                "values"@,
                JsonV::Arr(
                    Seq::new(x@.samples.len(), |i: int| enc_sample(x@.samples[i])),
                ),
            ),
        ]);
    }
    Json::Obj(e)
}

/// An expression result as its tagged `{resultType, result}` object.
pub fn encode_expression(x: &Expression) -> (j: Json)
    ensures
        j@ == enc_expression(x@),
{
    let (tag, payload): (String, Json) = match x {
        Expression::Scalar(s) => (String::from_str("scalar"), encode_sample(s)),
        Expression::Str(s) => (String::from_str("string"), encode_string_sample(s)),
        Expression::Instant(v) => {
            let mut a: Vec<Json> = Vec::new();
            let ghost target = Seq::new(seq_view(v@).len(), |i: int| enc_instant(seq_view(v@)[i]));
            proof {
                assert(json_view_elems(a@) =~= target.subrange(0, 0));
            }
            let mut i: usize = 0;
            while i < v.len()
                invariant
                    i <= v.len(),
                    target == Seq::new(
                        seq_view(v@).len(),
                        |i: int| enc_instant(seq_view(v@)[i]),
                    ),
                    seq_view(v@).len() == v.len(),
                    json_view_elems(a@) == target.subrange(0, i as int),
                decreases v.len() - i,
            {
                a.push(encode_instant(&v[i]));
                proof {
                    assert(seq_view(v@)[i as int] == v@[i as int]@);
                    assert(target.subrange(0, i + 1 as int) =~= target.subrange(0, i as int).push(
                        target[i as int],
                    ));
                }
                i += 1;
            }
            proof {
                assert(target.subrange(0, v.len() as int) =~= target);
            }
            (String::from_str("vector"), Json::Arr(a))
        },
        Expression::Range(v) => {
            let mut a: Vec<Json> = Vec::new();
            let ghost target = Seq::new(seq_view(v@).len(), |i: int| enc_range(seq_view(v@)[i]));
            proof {
                assert(json_view_elems(a@) =~= target.subrange(0, 0));
            }
            let mut i: usize = 0;
            while i < v.len()
                invariant
                    i <= v.len(),
                    target == Seq::new(seq_view(v@).len(), |i: int| enc_range(seq_view(v@)[i])),
                    seq_view(v@).len() == v.len(),
                    json_view_elems(a@) == target.subrange(0, i as int),
                decreases v.len() - i,
            {
                a.push(encode_range(&v[i]));
                proof {
                    assert(seq_view(v@)[i as int] == v@[i as int]@);
                    assert(target.subrange(0, i + 1 as int) =~= target.subrange(0, i as int).push(
                        target[i as int],
                    ));
                }
                i += 1;
            }
            proof {
                assert(target.subrange(0, v.len() as int) =~= target);
            }
            (String::from_str("matrix"), Json::Arr(a))
        },
    };
    let ghost payload_v = payload@;
    let mut e: Vec<(String, Json)> = Vec::new();
    e.push((String::from_str("resultType"), Json::Str(tag)));
    e.push((String::from_str("result"), payload));
    proof {
        assert(json_view_entries(Seq::<(String, Json)>::empty()) =~= Seq::<
            (Seq<char>, JsonV),
        >::empty());
        assert(json_view_entries(e@) =~= seq![
            ("resultType"@, JsonV::Str(result_type_token(x@))),
            ("result"@, payload_v),
        ]);
    }
    Json::Obj(e)
}

/// One active target as its six-field object.
pub fn encode_active_target(t: &ActiveTarget) -> (j: Json)
    ensures
        j@ == enc_active_target(t@),
{
    let last_error = match &t.last_error {
        Option::Some(e) => e.clone(),
        Option::None => String::new(),
    };
    let health = match t.health {
        TargetHealth::Up => String::from_str("up"),
        TargetHealth::Down => String::from_str("down"),
        TargetHealth::Unknown => String::from_str("unknown"),
    };
    let mut e: Vec<(String, Json)> = Vec::new();
    e.push((String::from_str("discoveredLabels"), encode_labels(&t.discovered_labels)));
    e.push((String::from_str("labels"), encode_labels(&t.labels)));
    e.push((String::from_str("scrapeUrl"), Json::Str(t.scrape_url.clone())));
    e.push((String::from_str("lastError"), Json::Str(last_error)));
    e.push((String::from_str("lastScrape"), Json::Str(t.last_scrape.clone())));
    e.push((String::from_str("health"), Json::Str(health)));
    proof {
        assert(json_view_entries(Seq::<(String, Json)>::empty()) =~= Seq::<
            (Seq<char>, JsonV),
        >::empty());
        assert(enc_active_target(t@) is Obj);
        assert(json_view_entries(e@) =~~= enc_active_target(t@)->Obj_0);
    }
    Json::Obj(e)
}

/// One dropped target as its single-field object.
pub fn encode_dropped_target(t: &DroppedTarget) -> (j: Json)
    ensures
        j@ == enc_dropped_target(t@),
{
    let mut e: Vec<(String, Json)> = Vec::new();
    e.push((String::from_str("discoveredLabels"), encode_labels(&t.discovered_labels)));
    proof {
        assert(json_view_entries(Seq::<(String, Json)>::empty()) =~= Seq::<
            (Seq<char>, JsonV),
        >::empty());
        assert(json_view_entries(e@) =~= seq![
            ("discoveredLabels"@, JsonV::Obj(labels_json(t@.discovered_labels))),
        ]);
    }
    Json::Obj(e)
}

/// Target status as its two-field object.
pub fn encode_targets(t: &Targets) -> (j: Json)
    ensures
        j@ == enc_targets(t@),
{
    let mut act: Vec<Json> = Vec::new();
    let ghost atarget = Seq::new(
        seq_view(t.active@).len(),
        |i: int| enc_active_target(seq_view(t.active@)[i]),
    );
    proof {
        assert(json_view_elems(act@) =~= atarget.subrange(0, 0));
    }
    let mut i: usize = 0;
    while i < t.active.len()
        invariant
            i <= t.active.len(),
            atarget == Seq::new(
                seq_view(t.active@).len(),
                |i: int| enc_active_target(seq_view(t.active@)[i]),
            ),
            seq_view(t.active@).len() == t.active.len(),
            json_view_elems(act@) == atarget.subrange(0, i as int),
        decreases t.active.len() - i,
    {
        act.push(encode_active_target(&t.active[i]));
        proof {
            assert(seq_view(t.active@)[i as int] == t.active@[i as int]@);
            assert(atarget.subrange(0, i + 1 as int) =~= atarget.subrange(0, i as int).push(
                atarget[i as int],
            ));
        }
        i += 1;
    }
    let mut dr: Vec<Json> = Vec::new();
    let ghost dtarget = Seq::new(
        seq_view(t.dropped@).len(),
        |i: int| enc_dropped_target(seq_view(t.dropped@)[i]),
    );
    proof {
        assert(atarget.subrange(0, t.active.len() as int) =~= atarget);
        assert(json_view_elems(dr@) =~= dtarget.subrange(0, 0));
    }
    let mut k: usize = 0;
    while k < t.dropped.len()
        invariant
            k <= t.dropped.len(),
            dtarget == Seq::new(
                seq_view(t.dropped@).len(),
                |i: int| enc_dropped_target(seq_view(t.dropped@)[i]),
            ),
            seq_view(t.dropped@).len() == t.dropped.len(),
            json_view_elems(dr@) == dtarget.subrange(0, k as int),
        decreases t.dropped.len() - k,
    {
        dr.push(encode_dropped_target(&t.dropped[k]));
        proof {
            assert(seq_view(t.dropped@)[k as int] == t.dropped@[k as int]@);
            assert(dtarget.subrange(0, k + 1 as int) =~= dtarget.subrange(0, k as int).push(
                dtarget[k as int],
            ));
        }
        k += 1;
    }
    let mut e: Vec<(String, Json)> = Vec::new();
    e.push((String::from_str("activeTargets"), Json::Arr(act)));
    e.push((String::from_str("droppedTargets"), Json::Arr(dr)));
    proof {
        assert(dtarget.subrange(0, t.dropped.len() as int) =~= dtarget);
        assert(json_view_entries(Seq::<(String, Json)>::empty()) =~= Seq::<
            (Seq<char>, JsonV),
        >::empty());
        assert(json_view_entries(e@) =~= seq![
            ("activeTargets"@, JsonV::Arr(atarget)),
            ("droppedTargets"@, JsonV::Arr(dtarget)),
        ]);
    }
    Json::Obj(e)
}

/// One alert manager as its single-field object.
pub fn encode_alert_manager(m: &AlertManager) -> (j: Json)
    ensures
        j@ == enc_alert_manager(m@),
{
    let mut e: Vec<(String, Json)> = Vec::new();
    e.push((String::from_str("url"), Json::Str(m.url.clone())));
    proof {
        assert(json_view_entries(Seq::<(String, Json)>::empty()) =~= Seq::<
            (Seq<char>, JsonV),
        >::empty());
        assert(json_view_entries(e@) =~= seq![("url"@, JsonV::Str(m@.url))]);
    }
    Json::Obj(e)
}

/// A list of alert managers as an array.
fn encode_alert_manager_list(v: &Vec<AlertManager>) -> (a: Vec<Json>)
    ensures
        json_view_elems(a@) == Seq::new(
            seq_view(v@).len(),
            |i: int| enc_alert_manager(seq_view(v@)[i]),
        ),
{
    let ghost target = Seq::new(seq_view(v@).len(), |i: int| enc_alert_manager(seq_view(v@)[i]));
    let mut a: Vec<Json> = Vec::new();
    proof {
        assert(json_view_elems(a@) =~= target.subrange(0, 0));
    }
    let mut i: usize = 0;
    while i < v.len()
        invariant
            i <= v.len(),
            target == Seq::new(seq_view(v@).len(), |i: int| enc_alert_manager(seq_view(v@)[i])),
            seq_view(v@).len() == v.len(),
            json_view_elems(a@) == target.subrange(0, i as int),
        decreases v.len() - i,
    {
        a.push(encode_alert_manager(&v[i]));
        proof {
            assert(seq_view(v@)[i as int] == v@[i as int]@);
            assert(target.subrange(0, i + 1 as int) =~= target.subrange(0, i as int).push(
                target[i as int],
            ));
        }
        i += 1;
    }
    proof {
        assert(target.subrange(0, v.len() as int) =~= target);
    }
    a
}

/// Alert-manager status as its two-field object.
pub fn encode_alert_managers(m: &AlertManagers) -> (j: Json)
    ensures
        j@ == enc_alert_managers(m@),
{
    let act = encode_alert_manager_list(&m.active);
    let dr = encode_alert_manager_list(&m.dropped);
    let mut e: Vec<(String, Json)> = Vec::new();
    e.push((String::from_str("activeAlertmanagers"), Json::Arr(act)));
    e.push((String::from_str("droppedAlertmanagers"), Json::Arr(dr)));
    proof {
        assert(json_view_entries(Seq::<(String, Json)>::empty()) =~= Seq::<
            (Seq<char>, JsonV),
        >::empty());
        assert(json_view_entries(e@) =~= seq![
            (
                "activeAlertmanagers"@,
                JsonV::Arr(
                    Seq::new(m@.active.len(), |i: int| enc_alert_manager(m@.active[i])),
                ),
            ),
            (
                "droppedAlertmanagers"@,
                JsonV::Arr(
                    Seq::new(m@.dropped.len(), |i: int| enc_alert_manager(m@.dropped[i])),
                ),
            ),
        ]);
    }
    Json::Obj(e)
}

/// The `data` payload in its JSON shape.
pub fn encode_data(d: &Data) -> (j: Json)
    ensures
        j@ == enc_data(d@),
{
    match d {
        Data::Expression(e) => encode_expression(e),
        Data::Series(v) => {
            let ghost target = Seq::new(
                seq_view(v@).len(),
                |i: int| JsonV::Obj(labels_json(seq_view(v@)[i])),
            );
            let mut a: Vec<Json> = Vec::new();
            proof {
                assert(json_view_elems(a@) =~= target.subrange(0, 0));
            }
            let mut i: usize = 0;
            while i < v.len()
                invariant
                    i <= v.len(),
                    target == Seq::new(
                        seq_view(v@).len(),
                        |i: int| JsonV::Obj(labels_json(seq_view(v@)[i])),
                    ),
                    seq_view(v@).len() == v.len(),
                    json_view_elems(a@) == target.subrange(0, i as int),
                decreases v.len() - i,
            {
                a.push(encode_labels(&v[i].labels));
                proof {
                    assert(seq_view(v@)[i as int] == v@[i as int]@);
                    assert(target.subrange(0, i + 1 as int) =~= target.subrange(0, i as int).push(
                        target[i as int],
                    ));
                }
                i += 1;
            }
            proof {
                assert(target.subrange(0, v.len() as int) =~= target);
            }
            Json::Arr(a)
        },
        Data::LabelsOrValues(v) => Json::Arr(encode_strings(v)),
        Data::Targets(t) => encode_targets(t),
        Data::AlertManagers(m) => encode_alert_managers(m),
        Data::Flags(f) => encode_labels(f),
    }
}

/// The envelope of a query result as its JSON object: `status` first,
/// error fields on the error arm, then any data, then any warnings.
pub fn encode_result(r: &QueryResult) -> (j: Json)
    ensures
        j@ == enc_result(r@),
{
    let mut e: Vec<(String, Json)> = Vec::new();
    match r {
        QueryResult::Success(s) => {
            e.push((String::from_str("status"), Json::Str(String::from_str("success"))));
            proof {
                assert(json_view_entries(Seq::<(String, Json)>::empty()) =~= Seq::<
                    (Seq<char>, JsonV),
                >::empty());
                assert(json_view_entries(e@) =~= seq![("status"@, JsonV::Str("success"@))]);
            }
            match &s.data {
                Option::Some(d) => {
                    e.push((String::from_str("data"), encode_data(d)));
                },
                Option::None => {},
            }
            if s.warnings.len() > 0 {
                e.push((String::from_str("warnings"), Json::Arr(encode_strings(&s.warnings))));
            }
            proof {
                assert(enc_result(r@) is Obj);
                assert(json_view_entries(e@) =~~= enc_result(r@)->Obj_0);
            }
            Json::Obj(e)
        },
        QueryResult::Error(q) => {
            e.push((String::from_str("status"), Json::Str(String::from_str("error"))));
            e.push((String::from_str("errorType"), Json::Str(q.error_type.clone())));
            e.push((String::from_str("error"), Json::Str(q.error_message.clone())));
            proof {
                assert(json_view_entries(Seq::<(String, Json)>::empty()) =~= Seq::<
                    (Seq<char>, JsonV),
                >::empty());
                assert(json_view_entries(e@) =~= seq![
                    ("status"@, JsonV::Str("error"@)),
                    ("errorType"@, JsonV::Str(q@.error_type)),
                    ("error"@, JsonV::Str(q@.error_message)),
                ]);
            }
            match &q.data {
                Option::Some(d) => {
                    e.push((String::from_str("data"), encode_data(d)));
                },
                Option::None => {},
            }
            if q.warnings.len() > 0 {
                e.push((String::from_str("warnings"), Json::Arr(encode_strings(&q.warnings))));
            }
            proof {
                assert(enc_result(r@) is Obj);
                assert(json_view_entries(e@) =~~= enc_result(r@)->Obj_0);
            }
            Json::Obj(e)
        },
    }
}

} // verus!
