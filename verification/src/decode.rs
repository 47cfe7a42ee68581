use vstd::prelude::*;
use vstd::pervasive::VecAdditionalExecFns;
use crate::codec::{
    all_string_entries, all_strings, collapse, dec_active_target, dec_active_targets,
    dec_alert_manager, dec_alert_manager_list, dec_alert_managers, dec_dropped_target,
    dec_dropped_targets, dec_instant, dec_instants, dec_labels, dec_range, dec_ranges, dec_sample,
    dec_expression, dec_opt_data, dec_opt_warnings, dec_result, dec_sample_value, dec_samples, dec_string_sample, dec_targets, all_series_objs, series_of, first_unknown1, first_unknown2,
    has_key, has_label, dec_data, key_count, key_index, key_value, lemma_first_unknown1_absent,
    lemma_first_unknown1_found, lemma_first_unknown2_absent, lemma_first_unknown2_found,
    lemma_key_count_push, lemma_key_index_absent, lemma_key_index_found, set_label, strs_of,
};
use crate::json::{
    check_float_lit, check_json_num, json_view_elems, json_view_entries, Json, JsonV,
};
use crate::strutil::{chars_of, str_eq};
use crate::types::{
    labels_wf, seq_view, ActiveTarget, ActiveTargetV, AlertManager, AlertManagerV, AlertManagers,
    DecodeError, DroppedTarget, DroppedTargetV, ErrV, Instant, InstantV, Labels, LabelsV, Metric,
    Range, RangeV, Sample, SampleV, SampleValue, StringSample, TargetHealth, Targets, DataV, Data, Expression, QueryResult, QuerySuccess, QueryError,
};
use crate::valid::{check_rfc3339, check_url};

verus! {

broadcast use {crate::json::group_json_view, crate::types::group_seq_view};

/// The entries of an object, seen through the view.
pub open spec fn ov(o: Vec<(String, Json)>) -> Seq<(Seq<char>, JsonV)> {
    json_view_entries(o@)
}

/// Index of the first entry with the given key, if any.
fn find_key(o: &Vec<(String, Json)>, k: &str) -> (r: Option<usize>)
    ensures
        match r {
            Option::Some(i) => i < o.len() && key_index(ov(*o), k@) == i,
            Option::None => key_index(ov(*o), k@) == -1,
        },
{
    let mut i: usize = 0;
    while i < o.len()
        invariant
            i <= o.len(),
            forall|j: int| 0 <= j < i ==> (#[trigger] ov(*o)[j]).0 != k@,
        decreases o.len() - i,
    {
        if str_eq(o[i].0.as_str(), k) {
            proof {
                lemma_key_index_found(ov(*o), k@, i as int);
            }
            return Option::Some(i);
        }
        i += 1;
    }
    proof {
        lemma_key_index_absent(ov(*o), k@);
    }
    Option::None
}

/// How many entries carry the given key.
fn count_key(o: &Vec<(String, Json)>, k: &str) -> (c: usize)
    ensures
        c == key_count(ov(*o), k@),
{
    let mut i: usize = 0;
    let mut c: usize = 0;
    while i < o.len()
        invariant
            i <= o.len(),
            c <= i,
            c == key_count(ov(*o).subrange(0, i as int), k@),
        decreases o.len() - i,
    {
        proof {
            assert(ov(*o).subrange(0, i + 1 as int) =~= ov(*o).subrange(0, i as int).push(
                ov(*o)[i as int],
            ));
            lemma_key_count_push(ov(*o).subrange(0, i as int), ov(*o)[i as int], k@);
        }
        if str_eq(o[i].0.as_str(), k) {
            c += 1;
        }
        i += 1;
    }
    proof {
        assert(ov(*o).subrange(0, o.len() as int) =~= ov(*o));
    }
    c
}

/// Index of the first entry whose key is neither allowed one, if any.
fn scan_unknown2(o: &Vec<(String, Json)>, k1: &str, k2: &str) -> (r: Option<usize>)
    ensures
        match r {
            Option::Some(i) => i < o.len() && first_unknown2(ov(*o), k1@, k2@) == i,
            Option::None => first_unknown2(ov(*o), k1@, k2@) == -1,
        },
{
    let mut i: usize = 0;
    while i < o.len()
        invariant
            i <= o.len(),
            forall|j: int|
                0 <= j < i ==> (#[trigger] ov(*o)[j]).0 == k1@ || ov(*o)[j].0 == k2@,
        decreases o.len() - i,
    {
        if !str_eq(o[i].0.as_str(), k1) && !str_eq(o[i].0.as_str(), k2) {
            proof {
                lemma_first_unknown2_found(ov(*o), k1@, k2@, i as int);
            }
            return Option::Some(i);
        }
        i += 1;
    }
    proof {
        lemma_first_unknown2_absent(ov(*o), k1@, k2@);
    }
    Option::None
}

/// Index of the first entry whose key is not the allowed one, if any.
fn scan_unknown1(o: &Vec<(String, Json)>, k: &str) -> (r: Option<usize>)
    ensures
        match r {
            Option::Some(i) => i < o.len() && first_unknown1(ov(*o), k@) == i,
            Option::None => first_unknown1(ov(*o), k@) == -1,
        },
{
    let mut i: usize = 0;
    while i < o.len()
        invariant
            i <= o.len(),
            forall|j: int| 0 <= j < i ==> (#[trigger] ov(*o)[j]).0 == k@,
        decreases o.len() - i,
    {
        if !str_eq(o[i].0.as_str(), k) {
            proof {
                lemma_first_unknown1_found(ov(*o), k@, i as int);
            }
            return Option::Some(i);
        }
        i += 1;
    }
    proof {
        lemma_first_unknown1_absent(ov(*o), k@);
    }
    Option::None
}

/// The string under a JSON value, when it is one.
fn str_value<'a>(j: &'a Json) -> (r: Option<&'a String>)
    ensures
        match r {
            Option::Some(s) => j@ == JsonV::Str(s@),
            Option::None => !(j@ is Str),
        },
{
    match j {
        Json::Str(s) => Option::Some(s),
        Json::Null => Option::None,
        Json::Bool(_) => Option::None,
        Json::Num(_) => Option::None,
        Json::Arr(_) => Option::None,
        Json::Obj(_) => Option::None,
    }
}

/// The elements under a JSON value, when it is an array.
fn arr_value<'a>(j: &'a Json) -> (r: Option<&'a Vec<Json>>)
    ensures
        match r {
            Option::Some(a) => j@ == JsonV::Arr(json_view_elems(a@)),
            Option::None => !(j@ is Arr),
        },
{
    match j {
        Json::Arr(a) => Option::Some(a),
        Json::Null => Option::None,
        Json::Bool(_) => Option::None,
        Json::Num(_) => Option::None,
        Json::Str(_) => Option::None,
        Json::Obj(_) => Option::None,
    }
}

/// The entries under a JSON value, when it is an object.
fn obj_value<'a>(j: &'a Json) -> (r: Option<&'a Vec<(String, Json)>>)
    ensures
        match r {
            Option::Some(o) => j@ == JsonV::Obj(json_view_entries(o@)),
            Option::None => !(j@ is Obj),
        },
{
    match j {
        Json::Obj(o) => Option::Some(o),
        Json::Null => Option::None,
        Json::Bool(_) => Option::None,
        Json::Num(_) => Option::None,
        Json::Str(_) => Option::None,
        Json::Arr(_) => Option::None,
    }
}

/// Whether a JSON value is the null value.
fn is_null(j: &Json) -> (r: bool)
    ensures
        r == (j@ is Null),
{
    match j {
        Json::Null => true,
        Json::Bool(_) => false,
        Json::Num(_) => false,
        Json::Str(_) => false,
        Json::Arr(_) => false,
        Json::Obj(_) => false,
    }
}

/// Index of the first label with the given name, if any.
fn find_label(m: &Vec<(String, String)>, k: &str) -> (r: Option<usize>)
    ensures
        match r {
            Option::Some(i) => i < m.len() && m.deep_view()[i as int].0 == k@,
            Option::None => !has_label(m.deep_view(), k@),
        },
{
    let mut i: usize = 0;
    while i < m.len()
        invariant
            i <= m.len(),
            forall|j: int| 0 <= j < i ==> (#[trigger] m.deep_view()[j]).0 != k@,
        decreases m.len() - i,
    {
        if str_eq(m[i].0.as_str(), k) {
            return Option::Some(i);
        }
        i += 1;
    }
    Option::None
}

/// An open string-to-string map: later entries overwrite earlier ones at
/// the name's first position.
#[verifier::loop_isolation(false)]
pub fn decode_labels(j: &Json, field: &str) -> (r: Result<Labels, DecodeError>)
    ensures
        match r {
            Result::Ok(m) => dec_labels(j@, field@) == Result::<LabelsV, ErrV>::Ok(m.deep_view())
                && labels_wf(m.deep_view()),
            Result::Err(e) => dec_labels(j@, field@) == Result::<LabelsV, ErrV>::Err(e@),
        },
{
    match j {
        Json::Obj(o) => {
            proof {
                assert(j@ == JsonV::Obj(ov(*o)));
                assert(ov(*o).subrange(0, o.len() as int) =~= ov(*o));
            }
            let mut out: Vec<(String, String)> = Vec::new();
            proof {
                assert(out.deep_view() =~= Seq::<(Seq<char>, Seq<char>)>::empty());
            }
            let mut i: usize = 0;
            while i < o.len()
                invariant
                    i <= o.len(),
                    ov(*o).len() == o.len(),
                    forall|p: int| 0 <= p < i ==> (#[trigger] ov(*o)[p]).1 is Str,
                    labels_wf(out.deep_view()),
                    collapse(ov(*o).subrange(i as int, o.len() as int), out.deep_view())
                        == collapse(ov(*o), Seq::empty()),
                decreases o.len() - i,
            {
                let ghost rest = ov(*o).subrange(i as int, o.len() as int);
                proof {
                    assert(json_view_entries(o@)[i as int] == (
                        o@[i as int].0@,
                        crate::json::json_view(o@[i as int].1),
                    ));
                    assert(rest[0] == ov(*o)[i as int]);
                    assert(rest.subrange(1, rest.len() as int) =~= ov(*o).subrange(
                        i + 1 as int,
                        o.len() as int,
                    ));
                }
                match str_value(&o[i].1) {
                    Option::Some(s) => {
                        let ghost acc = out.deep_view();
                        let ghost k = ov(*o)[i as int].0;
                        match find_label(&out, o[i].0.as_str()) {
                            Option::Some(idx) => {
                                out.set(idx, (o[i].0.clone(), s.clone()));
                                proof {
                                    assert(has_label(acc, k));
                                    assert(out.deep_view() =~= set_label(acc, k, s@));
                                    assert(labels_wf(out.deep_view()));
                                }
                            },
                            Option::None => {
                                out.push((o[i].0.clone(), s.clone()));
                                proof {
                                    assert(out.deep_view() =~= acc.push((k, s@)));
                                    assert(labels_wf(out.deep_view()));
                                }
                            },
                        }
                    },
                    Option::None => {
                        proof {
                            assert(!all_string_entries(ov(*o)));
                        }
                        return Result::Err(DecodeError::SchemaViolation(field.to_owned()));
                    },
                }
                i += 1;
            }
            proof {
                assert(ov(*o).subrange(i as int, o.len() as int) =~= Seq::<
                    (Seq<char>, JsonV),
                >::empty());
                assert(all_string_entries(ov(*o)));
            }
            Result::Ok(out)
        },
        _ => Result::Err(DecodeError::SchemaViolation(field.to_owned())),
    }
}

/// The strings of an array, when every element is one.
fn try_strings(a: &Vec<Json>) -> (r: Option<Vec<String>>)
    ensures
        match r {
            Option::Some(v) => all_strings(json_view_elems(a@)) && v.deep_view() == strs_of(
                json_view_elems(a@),
            ),
            Option::None => !all_strings(json_view_elems(a@)),
        },
{
    let ghost av = json_view_elems(a@);
    let mut out: Vec<String> = Vec::new();
    proof {
        assert(out.deep_view() =~= strs_of(av).subrange(0, 0));
    }
    let mut i: usize = 0;
    while i < a.len()
        invariant
            i <= a.len(),
            av == json_view_elems(a@),
            av.len() == a.len(),
            forall|p: int| 0 <= p < i ==> (#[trigger] av[p]) is Str,
            out.deep_view() == strs_of(av).subrange(0, i as int),
        decreases a.len() - i,
    {
        proof {
            assert(json_view_elems(a@)[i as int] == crate::json::json_view(a@[i as int]));
        }
        match str_value(&a[i]) {
            Option::Some(s) => {
                let ghost pre = out.deep_view();
                out.push(s.clone());
                proof {
                    assert(out.deep_view() =~= pre.push(s@));
                    assert(strs_of(av).subrange(0, i + 1 as int) =~= strs_of(av).subrange(
                        0,
                        i as int,
                    ).push(strs_of(av)[i as int]));
                }
            },
            Option::None => {
                return Option::None;
            },
        }
        i += 1;
    }
    proof {
        assert(strs_of(av).subrange(0, a.len() as int) =~= strs_of(av));
    }
    Option::Some(out)
}

/// Decode of one sample value token.
fn decode_sample_value(s: &String) -> (r: Option<SampleValue>)
    ensures
        match r {
            Option::Some(v) => dec_sample_value(s@) == Option::Some(v@),
            Option::None => dec_sample_value(s@) is None,
        },
{
    if str_eq(s.as_str(), "Inf") {
        Option::Some(SampleValue::Inf)
    } else if str_eq(s.as_str(), "-Inf") {
        Option::Some(SampleValue::NegInf)
    } else if str_eq(s.as_str(), "NaN") {
        Option::Some(SampleValue::NaN)
    } else {
        let cs = chars_of(s.as_str());
        if check_float_lit(&cs) {
            Option::Some(SampleValue::Num(s.clone()))
        } else {
            Option::None
        }
    }
}

/// A numeric sample from its `[time, value]` pair.
pub fn decode_sample(j: &Json) -> (r: Result<Sample, DecodeError>)
    ensures
        crate::types::out_view(r) == dec_sample(j@),
{
    match j {
        Json::Arr(a) => {
            proof {
                assert(j@ == JsonV::Arr(json_view_elems(a@)));
                assert(json_view_elems(a@).len() == a@.len());
            }
            if a.len() != 2 {
                return Result::Err(
                    DecodeError::ArityMismatch(String::from_str("expected a [time, value] pair")),
                );
            }
            proof {
                assert(json_view_elems(a@)[0] == a@[0]@);
                assert(json_view_elems(a@)[1] == a@[1]@);
            }
            match (&a[0], &a[1]) {
                (Json::Num(t), Json::Str(s)) => {
                    let tc = chars_of(t.as_str());
                    if !check_json_num(&tc) {
                        return Result::Err(
                            DecodeError::InvalidSampleValue(String::from_str("sample time")),
                        );
                    }
                    match decode_sample_value(s) {
                        Option::Some(v) => Result::Ok(Sample { epoch: t.clone(), value: v }),
                        Option::None => Result::Err(DecodeError::InvalidSampleValue(s.clone())),
                    }
                },
                (Json::Num(_), _) => Result::Err(
                    DecodeError::InvalidSampleValue(String::from_str("sample value")),
                ),
                _ => Result::Err(DecodeError::InvalidSampleValue(String::from_str("sample time"))),
            }
        },
        _ => Result::Err(
            DecodeError::ArityMismatch(String::from_str("expected a [time, value] pair")),
        ),
    }
}

/// A string sample from its `[time, value]` pair.
pub fn decode_string_sample(j: &Json) -> (r: Result<StringSample, DecodeError>)
    ensures
        crate::types::out_view(r) == dec_string_sample(j@),
{
    match j {
        Json::Arr(a) => {
            proof {
                assert(j@ == JsonV::Arr(json_view_elems(a@)));
                assert(json_view_elems(a@).len() == a@.len());
            }
            if a.len() != 2 {
                return Result::Err(
                    DecodeError::ArityMismatch(String::from_str("expected a [time, value] pair")),
                );
            }
            proof {
                assert(json_view_elems(a@)[0] == a@[0]@);
                assert(json_view_elems(a@)[1] == a@[1]@);
            }
            match (&a[0], &a[1]) {
                (Json::Num(t), Json::Str(s)) => {
                    let tc = chars_of(t.as_str());
                    if !check_json_num(&tc) {
                        return Result::Err(
                            DecodeError::InvalidSampleValue(String::from_str("sample time")),
                        );
                    }
                    Result::Ok(StringSample { epoch: t.clone(), value: s.clone() })
                },
                (Json::Num(_), _) => Result::Err(
                    DecodeError::InvalidSampleValue(String::from_str("sample value")),
                ),
                _ => Result::Err(DecodeError::InvalidSampleValue(String::from_str("sample time"))),
            }
        },
        _ => Result::Err(
            DecodeError::ArityMismatch(String::from_str("expected a [time, value] pair")),
        ),
    }
}

/// One instant-vector entry.
pub fn decode_instant(j: &Json) -> (r: Result<Instant, DecodeError>)
    ensures
        crate::types::out_view(r) == dec_instant(j@),
{
    match j {
        Json::Obj(o) => {
            proof {
                assert(j@ == JsonV::Obj(ov(*o)));
            }
            if count_key(o, "metric") > 1 {
                return Result::Err(DecodeError::SchemaViolation(String::from_str("metric")));
            }
            if count_key(o, "value") > 1 {
                return Result::Err(DecodeError::SchemaViolation(String::from_str("value")));
            }
            let mi = match find_key(o, "metric") {
                Option::Some(i) => i,
                Option::None => {
                    return Result::Err(DecodeError::SchemaViolation(String::from_str("metric")));
                },
            };
            let vi = match find_key(o, "value") {
                Option::Some(i) => i,
                Option::None => {
                    return Result::Err(DecodeError::SchemaViolation(String::from_str("value")));
                },
            };
            proof {
                assert(json_view_entries(o@)[mi as int] == (
                    o@[mi as int].0@,
                    crate::json::json_view(o@[mi as int].1),
                ));
                assert(json_view_entries(o@)[vi as int] == (
                    o@[vi as int].0@,
                    crate::json::json_view(o@[vi as int].1),
                ));
                assert(key_value(ov(*o), "metric"@) == (o@[mi as int].1)@);
                assert(key_value(ov(*o), "value"@) == (o@[vi as int].1)@);
            }
            let m = match decode_labels(&o[mi].1, "metric") {
                Result::Ok(m) => m,
                Result::Err(e) => {
                    return Result::Err(e);
                },
            };
            let s = match decode_sample(&o[vi].1) {
                Result::Ok(s) => s,
                Result::Err(e) => {
                    return Result::Err(e);
                },
            };
            Result::Ok(Instant { metric: Metric { labels: m }, sample: s })
        },
        _ => Result::Err(DecodeError::SchemaViolation(String::from_str("value"))),
    }
}

/// The entries of an instant vector, in input order.
#[verifier::loop_isolation(false)]
pub fn decode_instants(a: &Vec<Json>) -> (r: Result<Vec<Instant>, DecodeError>)
    ensures
        match r {
            Result::Ok(v) => dec_instants(json_view_elems(a@)) == Result::<
                Seq<InstantV>,
                ErrV,
            >::Ok(seq_view(v@)),
            Result::Err(e) => dec_instants(json_view_elems(a@)) == Result::<
                Seq<InstantV>,
                ErrV,
            >::Err(e@),
        },
{
    let ghost av = json_view_elems(a@);
    let mut out: Vec<Instant> = Vec::new();
    proof {
        assert(av.subrange(0, av.len() as int) =~= av);
        assert(seq_view(out@) =~= Seq::<InstantV>::empty());
    }
    let mut i: usize = 0;
    while i < a.len()
        invariant
            i <= a.len(),
            match dec_instants(av.subrange(i as int, av.len() as int)) {
                Result::Ok(s) => dec_instants(av) == Result::<Seq<InstantV>, ErrV>::Ok(
                    seq_view(out@) + s,
                ),
                Result::Err(e) => dec_instants(av) == Result::<Seq<InstantV>, ErrV>::Err(e),
            },
        decreases a.len() - i,
    {
        let ghost rest = av.subrange(i as int, av.len() as int);
        proof {
            assert(json_view_elems(a@)[i as int] == crate::json::json_view(a@[i as int]));
            assert(rest[0] == av[i as int]);
            assert(rest.subrange(1, rest.len() as int) =~= av.subrange(
                i + 1 as int,
                av.len() as int,
            ));
        }
        match decode_instant(&a[i]) {
            Result::Ok(x) => {
                let ghost xv = x@;
                let ghost pre = seq_view(out@);
                out.push(x);
                proof {
                    assert(seq_view(out@) == pre.push(xv));
                    match dec_instants(av.subrange(i + 1 as int, av.len() as int)) {
                        Result::Ok(s) => {
                            assert(pre + (seq![xv] + s) =~= pre.push(xv) + s);
                        },
                        Result::Err(_) => {},
                    }
                }
            },
            Result::Err(e) => {
                return Result::Err(e);
            },
        }
        i += 1;
    }
    proof {
        assert(av.subrange(a.len() as int, av.len() as int) =~= Seq::<JsonV>::empty());
        assert(seq_view(out@) + Seq::<InstantV>::empty() =~= seq_view(out@));
    }
    Result::Ok(out)
}

/// The samples of one range entry, in input order.
#[verifier::loop_isolation(false)]
pub fn decode_samples(a: &Vec<Json>) -> (r: Result<Vec<Sample>, DecodeError>)
    ensures
        match r {
            Result::Ok(v) => dec_samples(json_view_elems(a@)) == Result::<
                Seq<SampleV>,
                ErrV,
            >::Ok(seq_view(v@)),
            Result::Err(e) => dec_samples(json_view_elems(a@)) == Result::<
                Seq<SampleV>,
                ErrV,
            >::Err(e@),
        },
{
    let ghost av = json_view_elems(a@);
    let mut out: Vec<Sample> = Vec::new();
    proof {
        assert(av.subrange(0, av.len() as int) =~= av);
        assert(seq_view(out@) =~= Seq::<SampleV>::empty());
    }
    let mut i: usize = 0;
    while i < a.len()
        invariant
            i <= a.len(),
            match dec_samples(av.subrange(i as int, av.len() as int)) {
                Result::Ok(s) => dec_samples(av) == Result::<Seq<SampleV>, ErrV>::Ok(
                    seq_view(out@) + s,
                ),
                Result::Err(e) => dec_samples(av) == Result::<Seq<SampleV>, ErrV>::Err(e),
            },
        decreases a.len() - i,
    {
        let ghost rest = av.subrange(i as int, av.len() as int);
        proof {
            assert(json_view_elems(a@)[i as int] == crate::json::json_view(a@[i as int]));
            assert(rest[0] == av[i as int]);
            assert(rest.subrange(1, rest.len() as int) =~= av.subrange(
                i + 1 as int,
                av.len() as int,
            ));
        }
        match decode_sample(&a[i]) {
            Result::Ok(x) => {
                let ghost xv = x@;
                let ghost pre = seq_view(out@);
                out.push(x);
                proof {
                    assert(seq_view(out@) == pre.push(xv));
                    match dec_samples(av.subrange(i + 1 as int, av.len() as int)) {
                        Result::Ok(s) => {
                            assert(pre + (seq![xv] + s) =~= pre.push(xv) + s);
                        },
                        Result::Err(_) => {},
                    }
                }
            },
            Result::Err(e) => {
                return Result::Err(e);
            },
        }
        i += 1;
    }
    proof {
        assert(av.subrange(a.len() as int, av.len() as int) =~= Seq::<JsonV>::empty());
        assert(seq_view(out@) + Seq::<SampleV>::empty() =~= seq_view(out@));
    }
    Result::Ok(out)
}

/// One range-matrix entry.
pub fn decode_range(j: &Json) -> (r: Result<Range, DecodeError>)
    ensures
        crate::types::out_view(r) == dec_range(j@),
{
    match j {
        Json::Obj(o) => {
            proof {
                assert(j@ == JsonV::Obj(ov(*o)));
            }
            if count_key(o, "metric") > 1 {
                return Result::Err(DecodeError::SchemaViolation(String::from_str("metric")));
            }
            if count_key(o, "values") > 1 {
                return Result::Err(DecodeError::SchemaViolation(String::from_str("values")));
            }
            let mi = match find_key(o, "metric") {
                Option::Some(i) => i,
                Option::None => {
                    return Result::Err(DecodeError::SchemaViolation(String::from_str("metric")));
                },
            };
            let vi = match find_key(o, "values") {
                Option::Some(i) => i,
                Option::None => {
                    return Result::Err(DecodeError::SchemaViolation(String::from_str("values")));
                },
            };
            proof {
                assert(json_view_entries(o@)[mi as int] == (
                    o@[mi as int].0@,
                    crate::json::json_view(o@[mi as int].1),
                ));
                assert(json_view_entries(o@)[vi as int] == (
                    o@[vi as int].0@,
                    crate::json::json_view(o@[vi as int].1),
                ));
                assert(key_value(ov(*o), "metric"@) == (o@[mi as int].1)@);
                assert(key_value(ov(*o), "values"@) == (o@[vi as int].1)@);
            }
            let m = match decode_labels(&o[mi].1, "metric") {
                Result::Ok(m) => m,
                Result::Err(e) => {
                    return Result::Err(e);
                },
            };
            let arr = match arr_value(&o[vi].1) {
                Option::Some(a) => a,
                Option::None => {
                    return Result::Err(DecodeError::SchemaViolation(String::from_str("values")));
                },
            };
            let s = match decode_samples(arr) {
                Result::Ok(s) => s,
                Result::Err(e) => {
                    return Result::Err(e);
                },
            };
            Result::Ok(Range { metric: Metric { labels: m }, samples: s })
        },
        _ => Result::Err(DecodeError::SchemaViolation(String::from_str("values"))),
    }
}

/// The entries of a range matrix, in input order.
#[verifier::loop_isolation(false)]
pub fn decode_ranges(a: &Vec<Json>) -> (r: Result<Vec<Range>, DecodeError>)
    ensures
        match r {
            Result::Ok(v) => dec_ranges(json_view_elems(a@)) == Result::<Seq<RangeV>, ErrV>::Ok(
                seq_view(v@),
            ),
            Result::Err(e) => dec_ranges(json_view_elems(a@)) == Result::<Seq<RangeV>, ErrV>::Err(
                e@,
            ),
        },
{
    let ghost av = json_view_elems(a@);
    let mut out: Vec<Range> = Vec::new();
    proof {
        assert(av.subrange(0, av.len() as int) =~= av);
        assert(seq_view(out@) =~= Seq::<RangeV>::empty());
    }
    let mut i: usize = 0;
    while i < a.len()
        invariant
            i <= a.len(),
            match dec_ranges(av.subrange(i as int, av.len() as int)) {
                Result::Ok(s) => dec_ranges(av) == Result::<Seq<RangeV>, ErrV>::Ok(
                    seq_view(out@) + s,
                ),
                Result::Err(e) => dec_ranges(av) == Result::<Seq<RangeV>, ErrV>::Err(e),
            },
        decreases a.len() - i,
    {
        let ghost rest = av.subrange(i as int, av.len() as int);
        proof {
            assert(json_view_elems(a@)[i as int] == crate::json::json_view(a@[i as int]));
            assert(rest[0] == av[i as int]);
            assert(rest.subrange(1, rest.len() as int) =~= av.subrange(
                i + 1 as int,
                av.len() as int,
            ));
        }
        match decode_range(&a[i]) {
            Result::Ok(x) => {
                let ghost xv = x@;
                let ghost pre = seq_view(out@);
                out.push(x);
                proof {
                    assert(seq_view(out@) == pre.push(xv));
                    match dec_ranges(av.subrange(i + 1 as int, av.len() as int)) {
                        Result::Ok(s) => {
                            assert(pre + (seq![xv] + s) =~= pre.push(xv) + s);
                        },
                        Result::Err(_) => {},
                    }
                }
            },
            Result::Err(e) => {
                return Result::Err(e);
            },
        }
        i += 1;
    }
    proof {
        assert(av.subrange(a.len() as int, av.len() as int) =~= Seq::<JsonV>::empty());
        assert(seq_view(out@) + Seq::<RangeV>::empty() =~= seq_view(out@));
    }
    Result::Ok(out)
}

/// One active target.
pub fn decode_active_target(j: &Json) -> (r: Result<ActiveTarget, DecodeError>)
    ensures
        crate::types::out_view(r) == dec_active_target(j@),
{
    match j {
        Json::Obj(o) => {
            proof {
                assert(j@ == JsonV::Obj(ov(*o)));
            }
            if count_key(o, "discoveredLabels") > 1 {
                return Result::Err(
                    DecodeError::SchemaViolation(String::from_str("discoveredLabels")),
                );
            }
            if count_key(o, "labels") > 1 {
                return Result::Err(DecodeError::SchemaViolation(String::from_str("labels")));
            }
            if count_key(o, "scrapeUrl") > 1 {
                return Result::Err(DecodeError::SchemaViolation(String::from_str("scrapeUrl")));
            }
            if count_key(o, "lastError") > 1 {
                return Result::Err(DecodeError::SchemaViolation(String::from_str("lastError")));
            }
            if count_key(o, "lastScrape") > 1 {
                return Result::Err(DecodeError::SchemaViolation(String::from_str("lastScrape")));
            }
            if count_key(o, "health") > 1 {
                return Result::Err(DecodeError::SchemaViolation(String::from_str("health")));
            }
            let di = match find_key(o, "discoveredLabels") {
                Option::Some(i) => i,
                Option::None => {
                    return Result::Err(
                        DecodeError::SchemaViolation(String::from_str("discoveredLabels")),
                    );
                },
            };
            let li = match find_key(o, "labels") {
                Option::Some(i) => i,
                Option::None => {
                    return Result::Err(DecodeError::SchemaViolation(String::from_str("labels")));
                },
            };
            let ui = match find_key(o, "scrapeUrl") {
                Option::Some(i) => i,
                Option::None => {
                    return Result::Err(
                        DecodeError::SchemaViolation(String::from_str("scrapeUrl")),
                    );
                },
            };
            let lei = match find_key(o, "lastError") {
                Option::Some(i) => i,
                Option::None => {
                    return Result::Err(
                        DecodeError::SchemaViolation(String::from_str("lastError")),
                    );
                },
            };
            let lsi = match find_key(o, "lastScrape") {
                Option::Some(i) => i,
                Option::None => {
                    return Result::Err(
                        DecodeError::SchemaViolation(String::from_str("lastScrape")),
                    );
                },
            };
            proof {
                assert(json_view_entries(o@)[di as int] == (
                    o@[di as int].0@,
                    crate::json::json_view(o@[di as int].1),
                ));
                assert(json_view_entries(o@)[li as int] == (
                    o@[li as int].0@,
                    crate::json::json_view(o@[li as int].1),
                ));
                assert(json_view_entries(o@)[ui as int] == (
                    o@[ui as int].0@,
                    crate::json::json_view(o@[ui as int].1),
                ));
                assert(json_view_entries(o@)[lei as int] == (
                    o@[lei as int].0@,
                    crate::json::json_view(o@[lei as int].1),
                ));
                assert(json_view_entries(o@)[lsi as int] == (
                    o@[lsi as int].0@,
                    crate::json::json_view(o@[lsi as int].1),
                ));
                assert(key_value(ov(*o), "discoveredLabels"@) == (o@[di as int].1)@);
                assert(key_value(ov(*o), "labels"@) == (o@[li as int].1)@);
                assert(key_value(ov(*o), "scrapeUrl"@) == (o@[ui as int].1)@);
                assert(key_value(ov(*o), "lastError"@) == (o@[lei as int].1)@);
                assert(key_value(ov(*o), "lastScrape"@) == (o@[lsi as int].1)@);
            }
            let dl = match decode_labels(&o[di].1, "discoveredLabels") {
                Result::Ok(m) => m,
                Result::Err(e) => {
                    return Result::Err(e);
                },
            };
            let l = match decode_labels(&o[li].1, "labels") {
                Result::Ok(m) => m,
                Result::Err(e) => {
                    return Result::Err(e);
                },
            };
            let u = match str_value(&o[ui].1) {
                Option::Some(s) => s,
                Option::None => {
                    return Result::Err(
                        DecodeError::SchemaViolation(String::from_str("scrapeUrl")),
                    );
                },
            };
            if !check_url(u.as_str()) {
                return Result::Err(DecodeError::InvalidFieldValue(String::from_str("scrapeUrl")));
            }
            let le = match str_value(&o[lei].1) {
                Option::Some(s) => s,
                Option::None => {
                    return Result::Err(
                        DecodeError::SchemaViolation(String::from_str("lastError")),
                    );
                },
            };
            let ls = match str_value(&o[lsi].1) {
                Option::Some(s) => s,
                Option::None => {
                    return Result::Err(
                        DecodeError::SchemaViolation(String::from_str("lastScrape")),
                    );
                },
            };
            if !check_rfc3339(ls.as_str()) {
                return Result::Err(
                    DecodeError::InvalidFieldValue(String::from_str("lastScrape")),
                );
            }
            let health = match find_key(o, "health") {
                Option::None => TargetHealth::Unknown,
                Option::Some(hi) => {
                    proof {
                        assert(json_view_entries(o@)[hi as int] == (
                            o@[hi as int].0@,
                            crate::json::json_view(o@[hi as int].1),
                        ));
                        assert(key_value(ov(*o), "health"@) == (o@[hi as int].1)@);
                    }
                    if is_null(&o[hi].1) {
                        TargetHealth::Unknown
                    } else {
                        match str_value(&o[hi].1) {
                            Option::Some(h) => {
                                if str_eq(h.as_str(), "up") {
                                    TargetHealth::Up
                                } else if str_eq(h.as_str(), "down") {
                                    TargetHealth::Down
                                } else {
                                    TargetHealth::Unknown
                                }
                            },
                            Option::None => {
                                return Result::Err(
                                    DecodeError::SchemaViolation(String::from_str("health")),
                                );
                            },
                        }
                    }
                },
            };
            let last_error = if le.as_str().is_empty() {
                Option::None
            } else {
                Option::Some(le.clone())
            };
            Result::Ok(
                ActiveTarget {
                    discovered_labels: dl,
                    labels: l,
                    scrape_url: u.clone(),
                    last_error,
                    last_scrape: ls.clone(),
                    health,
                },
            )
        },
        _ => Result::Err(DecodeError::SchemaViolation(String::from_str("activeTargets"))),
    }
}

/// The active targets, in input order.
#[verifier::loop_isolation(false)]
pub fn decode_active_targets(a: &Vec<Json>) -> (r: Result<Vec<ActiveTarget>, DecodeError>)
    ensures
        match r {
            Result::Ok(v) => dec_active_targets(json_view_elems(a@)) == Result::<
                Seq<ActiveTargetV>,
                ErrV,
            >::Ok(seq_view(v@)),
            Result::Err(e) => dec_active_targets(json_view_elems(a@)) == Result::<
                Seq<ActiveTargetV>,
                ErrV,
            >::Err(e@),
        },
{
    let ghost av = json_view_elems(a@);
    let mut out: Vec<ActiveTarget> = Vec::new();
    proof {
        assert(av.subrange(0, av.len() as int) =~= av);
        assert(seq_view(out@) =~= Seq::<ActiveTargetV>::empty());
    }
    let mut i: usize = 0;
    while i < a.len()
        invariant
            i <= a.len(),
            match dec_active_targets(av.subrange(i as int, av.len() as int)) {
                Result::Ok(s) => dec_active_targets(av) == Result::<Seq<ActiveTargetV>, ErrV>::Ok(
                    seq_view(out@) + s,
                ),
                Result::Err(e) => dec_active_targets(av) == Result::<
                    Seq<ActiveTargetV>,
                    ErrV,
                >::Err(e),
            },
        decreases a.len() - i,
    {
        let ghost rest = av.subrange(i as int, av.len() as int);
        proof {
            assert(json_view_elems(a@)[i as int] == crate::json::json_view(a@[i as int]));
            assert(rest[0] == av[i as int]);
            assert(rest.subrange(1, rest.len() as int) =~= av.subrange(
                i + 1 as int,
                av.len() as int,
            ));
        }
        match decode_active_target(&a[i]) {
            Result::Ok(x) => {
                let ghost xv = x@;
                let ghost pre = seq_view(out@);
                out.push(x);
                proof {
                    assert(seq_view(out@) == pre.push(xv));
                    match dec_active_targets(av.subrange(i + 1 as int, av.len() as int)) {
                        Result::Ok(s) => {
                            assert(pre + (seq![xv] + s) =~= pre.push(xv) + s);
                        },
                        Result::Err(_) => {},
                    }
                }
            },
            Result::Err(e) => {
                return Result::Err(e);
            },
        }
        i += 1;
    }
    proof {
        assert(av.subrange(a.len() as int, av.len() as int) =~= Seq::<JsonV>::empty());
        assert(seq_view(out@) + Seq::<ActiveTargetV>::empty() =~= seq_view(out@));
    }
    Result::Ok(out)
}

/// One dropped target.
pub fn decode_dropped_target(j: &Json) -> (r: Result<DroppedTarget, DecodeError>)
    ensures
        crate::types::out_view(r) == dec_dropped_target(j@),
{
    match j {
        Json::Obj(o) => {
            proof {
                assert(j@ == JsonV::Obj(ov(*o)));
            }
            if count_key(o, "discoveredLabels") > 1 {
                return Result::Err(
                    DecodeError::SchemaViolation(String::from_str("discoveredLabels")),
                );
            }
            let di = match find_key(o, "discoveredLabels") {
                Option::Some(i) => i,
                Option::None => {
                    return Result::Err(
                        DecodeError::SchemaViolation(String::from_str("discoveredLabels")),
                    );
                },
            };
            proof {
                assert(json_view_entries(o@)[di as int] == (
                    o@[di as int].0@,
                    crate::json::json_view(o@[di as int].1),
                ));
                assert(key_value(ov(*o), "discoveredLabels"@) == (o@[di as int].1)@);
            }
            match decode_labels(&o[di].1, "discoveredLabels") {
                Result::Ok(m) => Result::Ok(DroppedTarget { discovered_labels: m }),
                Result::Err(e) => Result::Err(e),
            }
        },
        _ => Result::Err(DecodeError::SchemaViolation(String::from_str("droppedTargets"))),
    }
}

/// The dropped targets, in input order.
#[verifier::loop_isolation(false)]
pub fn decode_dropped_targets(a: &Vec<Json>) -> (r: Result<Vec<DroppedTarget>, DecodeError>)
    ensures
        match r {
            Result::Ok(v) => dec_dropped_targets(json_view_elems(a@)) == Result::<
                Seq<DroppedTargetV>,
                ErrV,
            >::Ok(seq_view(v@)),
            Result::Err(e) => dec_dropped_targets(json_view_elems(a@)) == Result::<
                Seq<DroppedTargetV>,
                ErrV,
            >::Err(e@),
        },
{
    let ghost av = json_view_elems(a@);
    let mut out: Vec<DroppedTarget> = Vec::new();
    proof {
        assert(av.subrange(0, av.len() as int) =~= av);
        assert(seq_view(out@) =~= Seq::<DroppedTargetV>::empty());
    }
    let mut i: usize = 0;
    while i < a.len()
        invariant
            i <= a.len(),
            match dec_dropped_targets(av.subrange(i as int, av.len() as int)) {
                Result::Ok(s) => dec_dropped_targets(av) == Result::<
                    Seq<DroppedTargetV>,
                    ErrV,
                >::Ok(seq_view(out@) + s),
                Result::Err(e) => dec_dropped_targets(av) == Result::<
                    Seq<DroppedTargetV>,
                    ErrV,
                >::Err(e),
            },
        decreases a.len() - i,
    {
        let ghost rest = av.subrange(i as int, av.len() as int);
        proof {
            assert(json_view_elems(a@)[i as int] == crate::json::json_view(a@[i as int]));
            assert(rest[0] == av[i as int]);
            assert(rest.subrange(1, rest.len() as int) =~= av.subrange(
                i + 1 as int,
                av.len() as int,
            ));
        }
        match decode_dropped_target(&a[i]) {
            Result::Ok(x) => {
                let ghost xv = x@;
                let ghost pre = seq_view(out@);
                out.push(x);
                proof {
                    assert(seq_view(out@) == pre.push(xv));
                    match dec_dropped_targets(av.subrange(i + 1 as int, av.len() as int)) {
                        Result::Ok(s) => {
                            assert(pre + (seq![xv] + s) =~= pre.push(xv) + s);
                        },
                        Result::Err(_) => {},
                    }
                }
            },
            Result::Err(e) => {
                return Result::Err(e);
            },
        }
        i += 1;
    }
    proof {
        assert(av.subrange(a.len() as int, av.len() as int) =~= Seq::<JsonV>::empty());
        assert(seq_view(out@) + Seq::<DroppedTargetV>::empty() =~= seq_view(out@));
    }
    Result::Ok(out)
}

/// Target status from its closed object.
pub fn decode_targets(o: &Vec<(String, Json)>) -> (r: Result<Targets, DecodeError>)
    ensures
        crate::types::out_view(r) == dec_targets(ov(*o)),
{
    if let Option::Some(i) = scan_unknown2(o, "activeTargets", "droppedTargets") {
        proof {
            assert(json_view_entries(o@)[i as int] == (
                o@[i as int].0@,
                crate::json::json_view(o@[i as int].1),
            ));
        }
        return Result::Err(DecodeError::SchemaViolation(o[i].0.clone()));
    }
    if count_key(o, "activeTargets") > 1 {
        return Result::Err(DecodeError::SchemaViolation(String::from_str("activeTargets")));
    }
    if count_key(o, "droppedTargets") > 1 {
        return Result::Err(DecodeError::SchemaViolation(String::from_str("droppedTargets")));
    }
    let active = match find_key(o, "activeTargets") {
        Option::None => Vec::new(),
        Option::Some(ai) => {
            proof {
                assert(json_view_entries(o@)[ai as int] == (
                    o@[ai as int].0@,
                    crate::json::json_view(o@[ai as int].1),
                ));
                assert(key_value(ov(*o), "activeTargets"@) == (o@[ai as int].1)@);
            }
            match arr_value(&o[ai].1) {
                Option::None => {
                    return Result::Err(
                        DecodeError::SchemaViolation(String::from_str("activeTargets")),
                    );
                },
                Option::Some(arr) => match decode_active_targets(arr) {
                    Result::Ok(v) => v,
                    Result::Err(e) => {
                        return Result::Err(e);
                    },
                },
            }
        },
    };
    let dropped = match find_key(o, "droppedTargets") {
        Option::None => Vec::new(),
        Option::Some(di) => {
            proof {
                assert(json_view_entries(o@)[di as int] == (
                    o@[di as int].0@,
                    crate::json::json_view(o@[di as int].1),
                ));
                assert(key_value(ov(*o), "droppedTargets"@) == (o@[di as int].1)@);
            }
            match arr_value(&o[di].1) {
                Option::None => {
                    return Result::Err(
                        DecodeError::SchemaViolation(String::from_str("droppedTargets")),
                    );
                },
                Option::Some(arr) => match decode_dropped_targets(arr) {
                    Result::Ok(v) => v,
                    Result::Err(e) => {
                        return Result::Err(e);
                    },
                },
            }
        },
    };
    proof {
        assert(seq_view(Seq::<ActiveTarget>::empty()) =~= Seq::<ActiveTargetV>::empty());
        assert(seq_view(Seq::<DroppedTarget>::empty()) =~= Seq::<DroppedTargetV>::empty());
    }
    Result::Ok(Targets { active, dropped })
}

/// One alert manager from its closed single-field object.
pub fn decode_alert_manager(j: &Json) -> (r: Result<AlertManager, DecodeError>)
    ensures
        crate::types::out_view(r) == dec_alert_manager(j@),
{
    match j {
        Json::Obj(o) => {
            proof {
                assert(j@ == JsonV::Obj(ov(*o)));
            }
            if let Option::Some(i) = scan_unknown1(o, "url") {
                proof {
                    assert(json_view_entries(o@)[i as int] == (
                        o@[i as int].0@,
                        crate::json::json_view(o@[i as int].1),
                    ));
                }
                return Result::Err(DecodeError::SchemaViolation(o[i].0.clone()));
            }
            if count_key(o, "url") > 1 {
                return Result::Err(DecodeError::SchemaViolation(String::from_str("url")));
            }
            let ui = match find_key(o, "url") {
                Option::Some(i) => i,
                Option::None => {
                    return Result::Err(DecodeError::SchemaViolation(String::from_str("url")));
                },
            };
            proof {
                assert(json_view_entries(o@)[ui as int] == (
                    o@[ui as int].0@,
                    crate::json::json_view(o@[ui as int].1),
                ));
                assert(key_value(ov(*o), "url"@) == (o@[ui as int].1)@);
            }
            match str_value(&o[ui].1) {
                Option::Some(u) => {
                    if check_url(u.as_str()) {
                        Result::Ok(AlertManager { url: u.clone() })
                    } else {
                        Result::Err(DecodeError::InvalidFieldValue(String::from_str("url")))
                    }
                },
                Option::None => Result::Err(DecodeError::SchemaViolation(String::from_str("url"))),
            }
        },
        _ => Result::Err(DecodeError::SchemaViolation(String::from_str("url"))),
    }
}

/// A list of alert managers, in input order.
#[verifier::loop_isolation(false)]
pub fn decode_alert_manager_list(a: &Vec<Json>) -> (r: Result<Vec<AlertManager>, DecodeError>)
    ensures
        match r {
            Result::Ok(v) => dec_alert_manager_list(json_view_elems(a@)) == Result::<
                Seq<AlertManagerV>,
                ErrV,
            >::Ok(seq_view(v@)),
            Result::Err(e) => dec_alert_manager_list(json_view_elems(a@)) == Result::<
                Seq<AlertManagerV>,
                ErrV,
            >::Err(e@),
        },
{
    let ghost av = json_view_elems(a@);
    let mut out: Vec<AlertManager> = Vec::new();
    proof {
        assert(av.subrange(0, av.len() as int) =~= av);
        assert(seq_view(out@) =~= Seq::<AlertManagerV>::empty());
    }
    let mut i: usize = 0;
    while i < a.len()
        invariant
            i <= a.len(),
            match dec_alert_manager_list(av.subrange(i as int, av.len() as int)) {
                Result::Ok(s) => dec_alert_manager_list(av) == Result::<
                    Seq<AlertManagerV>,
                    ErrV,
                >::Ok(seq_view(out@) + s),
                Result::Err(e) => dec_alert_manager_list(av) == Result::<
                    Seq<AlertManagerV>,
                    ErrV,
                >::Err(e),
            },
        decreases a.len() - i,
    {
        let ghost rest = av.subrange(i as int, av.len() as int);
        proof {
            assert(json_view_elems(a@)[i as int] == crate::json::json_view(a@[i as int]));
            assert(rest[0] == av[i as int]);
            assert(rest.subrange(1, rest.len() as int) =~= av.subrange(
                i + 1 as int,
                av.len() as int,
            ));
        }
        match decode_alert_manager(&a[i]) {
            Result::Ok(x) => {
                let ghost xv = x@;
                let ghost pre = seq_view(out@);
                out.push(x);
                proof {
                    assert(seq_view(out@) == pre.push(xv));
                    match dec_alert_manager_list(av.subrange(i + 1 as int, av.len() as int)) {
                        Result::Ok(s) => {
                            assert(pre + (seq![xv] + s) =~= pre.push(xv) + s);
                        },
                        Result::Err(_) => {},
                    }
                }
            },
            Result::Err(e) => {
                return Result::Err(e);
            },
        }
        i += 1;
    }
    proof {
        assert(av.subrange(a.len() as int, av.len() as int) =~= Seq::<JsonV>::empty());
        assert(seq_view(out@) + Seq::<AlertManagerV>::empty() =~= seq_view(out@));
    }
    Result::Ok(out)
}

/// Alert-manager status from its closed object.
pub fn decode_alert_managers(o: &Vec<(String, Json)>) -> (r: Result<AlertManagers, DecodeError>)
    ensures
        crate::types::out_view(r) == dec_alert_managers(ov(*o)),
{
    if let Option::Some(i) = scan_unknown2(o, "activeAlertmanagers", "droppedAlertmanagers") {
        proof {
            assert(json_view_entries(o@)[i as int] == (
                o@[i as int].0@,
                crate::json::json_view(o@[i as int].1),
            ));
        }
        return Result::Err(DecodeError::SchemaViolation(o[i].0.clone()));
    }
    if count_key(o, "activeAlertmanagers") > 1 {
        return Result::Err(
            DecodeError::SchemaViolation(String::from_str("activeAlertmanagers")),
        );
    }
    if count_key(o, "droppedAlertmanagers") > 1 {
        return Result::Err(
            DecodeError::SchemaViolation(String::from_str("droppedAlertmanagers")),
        );
    }
    let active = match find_key(o, "activeAlertmanagers") {
        Option::None => Vec::new(),
        Option::Some(ai) => {
            proof {
                assert(json_view_entries(o@)[ai as int] == (
                    o@[ai as int].0@,
                    crate::json::json_view(o@[ai as int].1),
                ));
                assert(key_value(ov(*o), "activeAlertmanagers"@) == (o@[ai as int].1)@);
            }
            match arr_value(&o[ai].1) {
                Option::None => {
                    return Result::Err(
                        DecodeError::SchemaViolation(String::from_str("activeAlertmanagers")),
                    );
                },
                Option::Some(arr) => match decode_alert_manager_list(arr) {
                    Result::Ok(v) => v,
                    Result::Err(e) => {
                        return Result::Err(e);
                    },
                },
            }
        },
    };
    let dropped = match find_key(o, "droppedAlertmanagers") {
        Option::None => Vec::new(),
        Option::Some(di) => {
            proof {
                assert(json_view_entries(o@)[di as int] == (
                    o@[di as int].0@,
                    crate::json::json_view(o@[di as int].1),
                ));
                assert(key_value(ov(*o), "droppedAlertmanagers"@) == (o@[di as int].1)@);
            }
            match arr_value(&o[di].1) {
                Option::None => {
                    return Result::Err(
                        DecodeError::SchemaViolation(String::from_str("droppedAlertmanagers")),
                    );
                },
                Option::Some(arr) => match decode_alert_manager_list(arr) {
                    Result::Ok(v) => v,
                    Result::Err(e) => {
                        return Result::Err(e);
                    },
                },
            }
        },
    };
    proof {
        assert(seq_view(Seq::<AlertManager>::empty()) =~= Seq::<AlertManagerV>::empty());
    }
    Result::Ok(AlertManagers { active, dropped })
}

/// An expression result, from an object already known to carry
/// `resultType`.
fn decode_expression(o: &Vec<(String, Json)>) -> (r: Result<Expression, DecodeError>)
    requires
        has_key(ov(*o), "resultType"@),
    ensures
        crate::types::out_view(r) == dec_expression(ov(*o)),
{
    if let Option::Some(i) = scan_unknown2(o, "resultType", "result") {
        proof {
            assert(json_view_entries(o@)[i as int] == (
                o@[i as int].0@,
                crate::json::json_view(o@[i as int].1),
            ));
        }
        return Result::Err(DecodeError::SchemaViolation(o[i].0.clone()));
    }
    if count_key(o, "resultType") > 1 {
        return Result::Err(DecodeError::SchemaViolation(String::from_str("resultType")));
    }
    if count_key(o, "result") > 1 {
        return Result::Err(DecodeError::SchemaViolation(String::from_str("result")));
    }
    let rti = match find_key(o, "resultType") {
        Option::Some(i) => i,
        Option::None => {
            proof {
                assert(false);
            }
            vstd::pervasive::unreached()
        },
    };
    proof {
        assert(json_view_entries(o@)[rti as int] == (
            o@[rti as int].0@,
            crate::json::json_view(o@[rti as int].1),
        ));
        assert(key_value(ov(*o), "resultType"@) == (o@[rti as int].1)@);
    }
    let rt = match str_value(&o[rti].1) {
        Option::Some(s) => s,
        Option::None => {
            return Result::Err(DecodeError::SchemaViolation(String::from_str("resultType")));
        },
    };
    let ri = match find_key(o, "result") {
        Option::Some(i) => i,
        Option::None => {
            return Result::Err(DecodeError::SchemaViolation(String::from_str("result")));
        },
    };
    proof {
        assert(json_view_entries(o@)[ri as int] == (
            o@[ri as int].0@,
            crate::json::json_view(o@[ri as int].1),
        ));
        assert(key_value(ov(*o), "result"@) == (o@[ri as int].1)@);
    }
    if str_eq(rt.as_str(), "scalar") {
        match decode_sample(&o[ri].1) {
            Result::Ok(s) => Result::Ok(Expression::Scalar(s)),
            Result::Err(e) => Result::Err(e),
        }
    } else if str_eq(rt.as_str(), "string") {
        match decode_string_sample(&o[ri].1) {
            Result::Ok(s) => Result::Ok(Expression::Str(s)),
            Result::Err(e) => Result::Err(e),
        }
    } else if str_eq(rt.as_str(), "vector") {
        match arr_value(&o[ri].1) {
            Option::Some(a) => match decode_instants(a) {
                Result::Ok(v) => Result::Ok(Expression::Instant(v)),
                Result::Err(e) => Result::Err(e),
            },
            Option::None => Result::Err(DecodeError::SchemaViolation(String::from_str("result"))),
        }
    } else if str_eq(rt.as_str(), "matrix") {
        match arr_value(&o[ri].1) {
            Option::Some(a) => match decode_ranges(a) {
                Result::Ok(v) => Result::Ok(Expression::Range(v)),
                Result::Err(e) => Result::Err(e),
            },
            Option::None => Result::Err(DecodeError::SchemaViolation(String::from_str("result"))),
        }
    } else {
        Result::Err(DecodeError::UnrecognizedResultType(rt.clone()))
    }
}

/// The metrics of a series list, when the array has that shape.
#[verifier::loop_isolation(false)]
fn try_series(a: &Vec<Json>) -> (r: Option<Vec<Metric>>)
    ensures
        match r {
            Option::Some(v) => all_series_objs(json_view_elems(a@)) && seq_view(v@) == series_of(
                json_view_elems(a@),
            ),
            Option::None => !all_series_objs(json_view_elems(a@)),
        },
{
    let ghost av = json_view_elems(a@);
    let mut out: Vec<Metric> = Vec::new();
    proof {
        assert(seq_view(out@) =~= series_of(av).subrange(0, 0));
    }
    let mut i: usize = 0;
    while i < a.len()
        invariant
            i <= a.len(),
            forall|p: int| 0 <= p < i ==> {
                &&& (#[trigger] av[p]) is Obj
                &&& all_string_entries(av[p]->Obj_0)
                &&& !has_key(av[p]->Obj_0, "resultType"@)
                &&& !has_key(av[p]->Obj_0, "result"@)
            },
            seq_view(out@) == series_of(av).subrange(0, i as int),
        decreases a.len() - i,
    {
        proof {
            assert(json_view_elems(a@)[i as int] == crate::json::json_view(a@[i as int]));
        }
        let eo = match obj_value(&a[i]) {
            Option::Some(eo) => eo,
            Option::None => {
                return Option::None;
            },
        };
        if find_key(eo, "resultType").is_some() {
            return Option::None;
        }
        if find_key(eo, "result").is_some() {
            return Option::None;
        }
        let m = match decode_labels(&a[i], "series") {
            Result::Ok(m) => m,
            Result::Err(_) => {
                return Option::None;
            },
        };
        let ghost pre = seq_view(out@);
        out.push(Metric { labels: m });
        proof {
            assert(series_of(av).subrange(0, i + 1 as int) =~= series_of(av).subrange(
                0,
                i as int,
            ).push(series_of(av)[i as int]));
        }
        i += 1;
    }
    proof {
        assert(series_of(av).subrange(0, a.len() as int) =~= series_of(av));
    }
    Option::Some(out)
}

/// Shape dispatch for the `data` value, committing to the first shape
/// that matches, in the fixed precedence order.
pub fn decode_data(j: &Json) -> (r: Result<Data, DecodeError>)
    ensures
        crate::types::out_view(r) == dec_data(j@),
{
    match j {
        Json::Obj(o) => {
            proof {
                assert(j@ == JsonV::Obj(ov(*o)));
            }
            if find_key(o, "resultType").is_some() {
                match decode_expression(o) {
                    Result::Ok(e) => Result::Ok(Data::Expression(e)),
                    Result::Err(e) => Result::Err(e),
                }
            } else if find_key(o, "activeTargets").is_some() || find_key(
                o,
                "droppedTargets",
            ).is_some() {
                match decode_targets(o) {
                    Result::Ok(t) => Result::Ok(Data::Targets(t)),
                    Result::Err(e) => Result::Err(e),
                }
            } else if find_key(o, "activeAlertmanagers").is_some() || find_key(
                o,
                "droppedAlertmanagers",
            ).is_some() {
                match decode_alert_managers(o) {
                    Result::Ok(m) => Result::Ok(Data::AlertManagers(m)),
                    Result::Err(e) => Result::Err(e),
                }
            } else {
                match decode_labels(j, "flags") {
                    Result::Ok(f) => Result::Ok(Data::Flags(f)),
                    Result::Err(_) => Result::Err(
                        DecodeError::UnrecognizedDataShape(
                            String::from_str("an object holding more than flag strings"),
                        ),
                    ),
                }
            }
        },
        Json::Arr(a) => {
            proof {
                assert(j@ == JsonV::Arr(json_view_elems(a@)));
            }
            if a.len() == 0 {
                let empty: Vec<String> = Vec::new();
                proof {
                    assert(empty.deep_view() =~= Seq::<Seq<char>>::empty());
                }
                return Result::Ok(Data::LabelsOrValues(empty));
            }
            match try_series(a) {
                Option::Some(v) => Result::Ok(Data::Series(v)),
                Option::None => match try_strings(a) {
                    Option::Some(v) => Result::Ok(Data::LabelsOrValues(v)),
                    Option::None => Result::Err(
                        DecodeError::UnrecognizedDataShape(
                            String::from_str("an array that is neither series nor strings"),
                        ),
                    ),
                },
            }
        },
        Json::Null => Result::Err(
            DecodeError::UnrecognizedDataShape(String::from_str("null")),
        ),
        Json::Bool(_) => Result::Err(
            DecodeError::UnrecognizedDataShape(String::from_str("a boolean")),
        ),
        Json::Num(_) => Result::Err(
            DecodeError::UnrecognizedDataShape(String::from_str("a number")),
        ),
        Json::Str(_) => Result::Err(
            DecodeError::UnrecognizedDataShape(String::from_str("a string")),
        ),
    }
}

/// The optional `data` slot of the envelope.
fn decode_opt_data(o: &Vec<(String, Json)>) -> (r: Result<Option<Data>, DecodeError>)
    ensures
        match r {
            Result::Ok(Option::None) => dec_opt_data(ov(*o)) == Result::<
                Option<DataV>,
                ErrV,
            >::Ok(Option::None),
            Result::Ok(Option::Some(d)) => dec_opt_data(ov(*o)) == Result::<
                Option<DataV>,
                ErrV,
            >::Ok(Option::Some(d@)),
            Result::Err(e) => dec_opt_data(ov(*o)) == Result::<Option<DataV>, ErrV>::Err(e@),
        },
{
    match find_key(o, "data") {
        Option::None => Result::Ok(Option::None),
        Option::Some(di) => {
            proof {
                assert(json_view_entries(o@)[di as int] == (
                    o@[di as int].0@,
                    crate::json::json_view(o@[di as int].1),
                ));
                assert(key_value(ov(*o), "data"@) == (o@[di as int].1)@);
            }
            if is_null(&o[di].1) {
                Result::Ok(Option::None)
            } else {
                match decode_data(&o[di].1) {
                    Result::Ok(d) => Result::Ok(Option::Some(d)),
                    Result::Err(e) => Result::Err(e),
                }
            }
        },
    }
}

/// The optional `warnings` slot of the envelope.
fn decode_opt_warnings(o: &Vec<(String, Json)>) -> (r: Result<Vec<String>, DecodeError>)
    ensures
        match r {
            Result::Ok(w) => dec_opt_warnings(ov(*o)) == Result::<Seq<Seq<char>>, ErrV>::Ok(
                w.deep_view(),
            ),
            Result::Err(e) => dec_opt_warnings(ov(*o)) == Result::<Seq<Seq<char>>, ErrV>::Err(e@),
        },
{
    match find_key(o, "warnings") {
        Option::None => {
            let empty: Vec<String> = Vec::new();
            proof {
                assert(empty.deep_view() =~= Seq::<Seq<char>>::empty());
            }
            Result::Ok(empty)
        },
        Option::Some(wi) => {
            proof {
                assert(json_view_entries(o@)[wi as int] == (
                    o@[wi as int].0@,
                    crate::json::json_view(o@[wi as int].1),
                ));
                assert(key_value(ov(*o), "warnings"@) == (o@[wi as int].1)@);
            }
            match arr_value(&o[wi].1) {
                Option::None => Result::Err(
                    DecodeError::MalformedEnvelope(String::from_str("warnings must be an array")),
                ),
                Option::Some(arr) => match try_strings(arr) {
                    Option::Some(v) => Result::Ok(v),
                    Option::None => Result::Err(
                        DecodeError::MalformedEnvelope(
                            String::from_str("warnings must be strings"),
                        ),
                    ),
                },
            }
        },
    }
}

/// The top-level envelope, from a JSON value.
pub fn decode_result(j: &Json) -> (r: Result<QueryResult, DecodeError>)
    ensures
        crate::types::out_view(r) == dec_result(j@),
{
    let o = match obj_value(j) {
        Option::Some(o) => o,
        Option::None => {
            return Result::Err(
                DecodeError::MalformedEnvelope(String::from_str("the top level must be an object")),
            );
        },
    };
    if count_key(o, "status") > 1 || count_key(o, "data") > 1 || count_key(o, "warnings") > 1
        || count_key(o, "error") > 1 || count_key(o, "errorType") > 1 {
        return Result::Err(
            DecodeError::MalformedEnvelope(String::from_str("a repeated envelope field")),
        );
    }
    let si = match find_key(o, "status") {
        Option::Some(i) => i,
        Option::None => {
            return Result::Err(DecodeError::MalformedEnvelope(String::from_str("no status")));
        },
    };
    proof {
        assert(json_view_entries(o@)[si as int] == (
            o@[si as int].0@,
            crate::json::json_view(o@[si as int].1),
        ));
        assert(key_value(ov(*o), "status"@) == (o@[si as int].1)@);
    }
    let st = match str_value(&o[si].1) {
        Option::Some(s) => s,
        Option::None => {
            return Result::Err(
                DecodeError::MalformedEnvelope(String::from_str("status must be a string")),
            );
        },
    };
    if str_eq(st.as_str(), "success") {
        let data = match decode_opt_data(o) {
            Result::Ok(d) => d,
            Result::Err(e) => {
                return Result::Err(e);
            },
        };
        let warnings = match decode_opt_warnings(o) {
            Result::Ok(w) => w,
            Result::Err(e) => {
                return Result::Err(e);
            },
        };
        Result::Ok(QueryResult::Success(QuerySuccess { data, warnings }))
    } else if str_eq(st.as_str(), "error") {
        let eti = match find_key(o, "errorType") {
            Option::Some(i) => i,
            Option::None => {
                return Result::Err(
                    DecodeError::MalformedEnvelope(String::from_str("no errorType")),
                );
            },
        };
        proof {
            assert(json_view_entries(o@)[eti as int] == (
                o@[eti as int].0@,
                crate::json::json_view(o@[eti as int].1),
            ));
            assert(key_value(ov(*o), "errorType"@) == (o@[eti as int].1)@);
        }
        let et = match str_value(&o[eti].1) {
            Option::Some(s) => s,
            Option::None => {
                return Result::Err(
                    DecodeError::MalformedEnvelope(String::from_str("errorType must be a string")),
                );
            },
        };
        let ei = match find_key(o, "error") {
            Option::Some(i) => i,
            Option::None => {
                return Result::Err(DecodeError::MalformedEnvelope(String::from_str("no error")));
            },
        };
        proof {
            assert(json_view_entries(o@)[ei as int] == (
                o@[ei as int].0@,
                crate::json::json_view(o@[ei as int].1),
            ));
            assert(key_value(ov(*o), "error"@) == (o@[ei as int].1)@);
        }
        let em = match str_value(&o[ei].1) {
            Option::Some(s) => s,
            Option::None => {
                return Result::Err(
                    DecodeError::MalformedEnvelope(String::from_str("error must be a string")),
                );
            },
        };
        let data = match decode_opt_data(o) {
            Result::Ok(d) => d,
            Result::Err(e) => {
                return Result::Err(e);
            },
        };
        let warnings = match decode_opt_warnings(o) {
            Result::Ok(w) => w,
            Result::Err(e) => {
                return Result::Err(e);
            },
        };
        Result::Ok(
            QueryResult::Error(
                QueryError {
                    error_type: et.clone(),
                    error_message: em.clone(),
                    data,
                    warnings,
                },
            ),
        )
    } else {
        Result::Err(DecodeError::MalformedEnvelope(String::from_str("an unknown status")))
    }
}

} // verus!
