use vstd::prelude::*;
use crate::json::JsonV;
use crate::json::{is_float_lit, is_json_num};
use crate::types::{
    ActiveTargetV, AlertManagerV, AlertManagersV, DataV, DroppedTargetV, ErrV, ExpressionV,
    InstantV, LabelsV, QueryErrorV, QueryResultV, QuerySuccessV, RangeV, SampleV, SampleValueV,
    StringSampleV, TargetHealth, TargetsV,
};
use crate::valid::{rfc3339_ok, url_ok};

verus! {

// ---------------------------------------------------------------------------
// Object-entry helpers
// ---------------------------------------------------------------------------
/// Index of the first entry with key `k`, or -1 when there is none.
pub open spec fn key_index(o: Seq<(Seq<char>, JsonV)>, k: Seq<char>) -> int
    decreases o.len(),
{
    if o.len() == 0 {
        -1
    } else if o[0].0 == k {
        0
    } else {
        let r = key_index(o.subrange(1, o.len() as int), k);
        if r < 0 {
            -1
        } else {
            r + 1
        }
    }
}

/// How many entries carry key `k`.
pub open spec fn key_count(o: Seq<(Seq<char>, JsonV)>, k: Seq<char>) -> nat
    decreases o.len(),
{
    if o.len() == 0 {
        0
    } else {
        key_count(o.subrange(0, o.len() - 1), k) + if o[o.len() - 1].0 == k {
            1nat
        } else {
            0nat
        }
    }
}

pub open spec fn has_key(o: Seq<(Seq<char>, JsonV)>, k: Seq<char>) -> bool {
    key_index(o, k) >= 0
}

/// The value bound to the first entry with key `k`.
pub open spec fn key_value(o: Seq<(Seq<char>, JsonV)>, k: Seq<char>) -> JsonV {
    o[key_index(o, k)].1
}

/// Index of the first entry whose key is not `k`, or -1.
pub open spec fn first_unknown1(o: Seq<(Seq<char>, JsonV)>, k: Seq<char>) -> int
    decreases o.len(),
{
    if o.len() == 0 {
        -1
    } else if o[0].0 != k {
        0
    } else {
        let r = first_unknown1(o.subrange(1, o.len() as int), k);
        if r < 0 {
            -1
        } else {
            r + 1
        }
    }
}

/// Index of the first entry whose key is neither `k1` nor `k2`, or -1.
pub open spec fn first_unknown2(o: Seq<(Seq<char>, JsonV)>, k1: Seq<char>, k2: Seq<char>) -> int
    decreases o.len(),
{
    if o.len() == 0 {
        -1
    } else if o[0].0 != k1 && o[0].0 != k2 {
        0
    } else {
        let r = first_unknown2(o.subrange(1, o.len() as int), k1, k2);
        if r < 0 {
            -1
        } else {
            r + 1
        }
    }
}

pub proof fn lemma_key_index_found(v: Seq<(Seq<char>, JsonV)>, k: Seq<char>, i: int)
    requires
        0 <= i < v.len(),
        v[i].0 == k,
        forall|j: int| 0 <= j < i ==> (#[trigger] v[j]).0 != k,
    ensures
        key_index(v, k) == i,
    decreases i,
{
    if i > 0 {
        lemma_key_index_found(v.subrange(1, v.len() as int), k, i - 1);
    }
}

pub proof fn lemma_key_index_absent(v: Seq<(Seq<char>, JsonV)>, k: Seq<char>)
    requires
        forall|j: int| 0 <= j < v.len() ==> (#[trigger] v[j]).0 != k,
    ensures
        key_index(v, k) == -1,
    decreases v.len(),
{
    if v.len() > 0 {
        lemma_key_index_absent(v.subrange(1, v.len() as int), k);
    }
}

pub proof fn lemma_key_count_push(v: Seq<(Seq<char>, JsonV)>, e: (Seq<char>, JsonV), k: Seq<char>)
    ensures
        key_count(v.push(e), k) == key_count(v, k) + if e.0 == k {
            1nat
        } else {
            0nat
        },
{
    assert(v.push(e).subrange(0, v.push(e).len() - 1) =~= v);
}

pub proof fn lemma_first_unknown2_found(
    v: Seq<(Seq<char>, JsonV)>,
    k1: Seq<char>,
    k2: Seq<char>,
    i: int,
)
    requires
        0 <= i < v.len(),
        v[i].0 != k1 && v[i].0 != k2,
        forall|j: int| 0 <= j < i ==> (#[trigger] v[j]).0 == k1 || v[j].0 == k2,
    ensures
        first_unknown2(v, k1, k2) == i,
    decreases i,
{
    if i > 0 {
        lemma_first_unknown2_found(v.subrange(1, v.len() as int), k1, k2, i - 1);
    }
}

pub proof fn lemma_first_unknown2_absent(v: Seq<(Seq<char>, JsonV)>, k1: Seq<char>, k2: Seq<char>)
    requires
        forall|j: int| 0 <= j < v.len() ==> (#[trigger] v[j]).0 == k1 || v[j].0 == k2,
    ensures
        first_unknown2(v, k1, k2) == -1,
    decreases v.len(),
{
    if v.len() > 0 {
        lemma_first_unknown2_absent(v.subrange(1, v.len() as int), k1, k2);
    }
}

pub proof fn lemma_first_unknown1_found(v: Seq<(Seq<char>, JsonV)>, k: Seq<char>, i: int)
    requires
        0 <= i < v.len(),
        v[i].0 != k,
        forall|j: int| 0 <= j < i ==> (#[trigger] v[j]).0 == k,
    ensures
        first_unknown1(v, k) == i,
    decreases i,
{
    if i > 0 {
        lemma_first_unknown1_found(v.subrange(1, v.len() as int), k, i - 1);
    }
}

pub proof fn lemma_first_unknown1_absent(v: Seq<(Seq<char>, JsonV)>, k: Seq<char>)
    requires
        forall|j: int| 0 <= j < v.len() ==> (#[trigger] v[j]).0 == k,
    ensures
        first_unknown1(v, k) == -1,
    decreases v.len(),
{
    if v.len() > 0 {
        lemma_first_unknown1_absent(v.subrange(1, v.len() as int), k);
    }
}

/// All values of the object are strings.
pub open spec fn all_string_entries(o: Seq<(Seq<char>, JsonV)>) -> bool {
    forall|i: int| 0 <= i < o.len() ==> (#[trigger] o[i]).1 is Str
}

/// All elements of the array are strings.
pub open spec fn all_strings(a: Seq<JsonV>) -> bool {
    forall|i: int| 0 <= i < a.len() ==> (#[trigger] a[i]) is Str
}

/// The string contents of an array of strings.
pub open spec fn strs_of(a: Seq<JsonV>) -> Seq<Seq<char>> {
    Seq::new(a.len(), |i: int| a[i]->Str_0)
}

/// Whether `m` binds the name `k`.
pub open spec fn has_label(m: LabelsV, k: Seq<char>) -> bool {
    exists|i: int| 0 <= i < m.len() && (#[trigger] m[i]).0 == k
}

/// `m` with the value of the existing name `k` replaced by `s`.
pub open spec fn set_label(m: LabelsV, k: Seq<char>, s: Seq<char>) -> LabelsV {
    Seq::new(m.len(), |i: int| if m[i].0 == k {
        (k, s)
    } else {
        m[i]
    })
}

/// An open map read left to right: a repeated name overwrites the value at
/// the name's first position.
pub open spec fn collapse(o: Seq<(Seq<char>, JsonV)>, acc: LabelsV) -> LabelsV
    decreases o.len(),
{
    if o.len() == 0 {
        acc
    } else {
        let k = o[0].0;
        let s = o[0].1->Str_0;
        let rest = o.subrange(1, o.len() as int);
        if has_label(acc, k) {
            collapse(rest, set_label(acc, k, s))
        } else {
            collapse(rest, acc.push((k, s)))
        }
    }
}

// ---------------------------------------------------------------------------
// Sample codec
// ---------------------------------------------------------------------------
/// How a sample value token decodes: the three sentinels exactly, else a
/// base-10 float literal kept as written, else nothing.
pub open spec fn dec_sample_value(s: Seq<char>) -> Option<SampleValueV> {
    if s == "Inf"@ {
        Option::Some(SampleValueV::Inf)
    } else if s == "-Inf"@ {
        Option::Some(SampleValueV::NegInf)
    } else if s == "NaN"@ {
        Option::Some(SampleValueV::NaN)
    } else if is_float_lit(s) {
        Option::Some(SampleValueV::Num(s))
    } else {
        Option::None
    }
}

/// The token a sample value encodes to.
pub open spec fn enc_sample_value(v: SampleValueV) -> Seq<char> {
    match v {
        SampleValueV::Inf => "Inf"@,
        SampleValueV::NegInf => "-Inf"@,
        SampleValueV::NaN => "NaN"@,
        SampleValueV::Num(t) => t,
    }
}

/// A numeric sample from a `[time, value]` pair.
pub open spec fn dec_sample(j: JsonV) -> Result<SampleV, ErrV> {
    match j {
        JsonV::Arr(a) => {
            if a.len() != 2 {
                Result::Err(ErrV::ArityMismatch)
            } else {
                match (a[0], a[1]) {
                    (JsonV::Num(t), JsonV::Str(s)) => {
                        if !is_json_num(t) {
                            Result::Err(ErrV::InvalidSampleValue("sample time"@))
                        } else {
                            match dec_sample_value(s) {
                                Option::Some(v) => Result::Ok(SampleV { epoch: t, value: v }),
                                Option::None => Result::Err(ErrV::InvalidSampleValue(s)),
                            }
                        }
                    },
                    (JsonV::Num(_), _) => Result::Err(ErrV::InvalidSampleValue("sample value"@)),
                    _ => Result::Err(ErrV::InvalidSampleValue("sample time"@)),
                }
            }
        },
        _ => Result::Err(ErrV::ArityMismatch),
    }
}

pub open spec fn enc_sample(s: SampleV) -> JsonV {
    JsonV::Arr(seq![JsonV::Num(s.epoch), JsonV::Str(enc_sample_value(s.value))])
}

/// A string sample from a `[time, value]` pair; the value is verbatim.
pub open spec fn dec_string_sample(j: JsonV) -> Result<StringSampleV, ErrV> {
    match j {
        JsonV::Arr(a) => {
            if a.len() != 2 {
                Result::Err(ErrV::ArityMismatch)
            } else {
                match (a[0], a[1]) {
                    (JsonV::Num(t), JsonV::Str(s)) => {
                        if !is_json_num(t) {
                            Result::Err(ErrV::InvalidSampleValue("sample time"@))
                        } else {
                            Result::Ok(StringSampleV { epoch: t, value: s })
                        }
                    },
                    (JsonV::Num(_), _) => Result::Err(ErrV::InvalidSampleValue("sample value"@)),
                    _ => Result::Err(ErrV::InvalidSampleValue("sample time"@)),
                }
            }
        },
        _ => Result::Err(ErrV::ArityMismatch),
    }
}

pub open spec fn enc_string_sample(s: StringSampleV) -> JsonV {
    JsonV::Arr(seq![JsonV::Num(s.epoch), JsonV::Str(s.value)])
}

// ---------------------------------------------------------------------------
// Label maps
// ---------------------------------------------------------------------------
/// An open string-to-string map, for metrics and label sets. `field` names
/// the enclosing field in the error.
pub open spec fn dec_labels(j: JsonV, field: Seq<char>) -> Result<LabelsV, ErrV> {
    match j {
        JsonV::Obj(o) => {
            if all_string_entries(o) {
                Result::Ok(collapse(o, Seq::empty()))
            } else {
                Result::Err(ErrV::SchemaViolation(field))
            }
        },
        _ => Result::Err(ErrV::SchemaViolation(field)),
    }
}

/// The entries a label map encodes to.
pub open spec fn labels_json(m: LabelsV) -> Seq<(Seq<char>, JsonV)> {
    Seq::new(m.len(), |i: int| (m[i].0, JsonV::Str(m[i].1)))
}

pub open spec fn strs_json(w: Seq<Seq<char>>) -> Seq<JsonV> {
    Seq::new(w.len(), |i: int| JsonV::Str(w[i]))
}

// ---------------------------------------------------------------------------
// Vector and matrix entries
// ---------------------------------------------------------------------------
/// One instant-vector entry: `{metric, value}`; unknown keys are ignored.
pub open spec fn dec_instant(j: JsonV) -> Result<InstantV, ErrV> {
    match j {
        JsonV::Obj(o) => {
            if key_count(o, "metric"@) > 1 {
                Result::Err(ErrV::SchemaViolation("metric"@))
            } else if key_count(o, "value"@) > 1 {
                Result::Err(ErrV::SchemaViolation("value"@))
            } else if !has_key(o, "metric"@) {
                Result::Err(ErrV::SchemaViolation("metric"@))
            } else if !has_key(o, "value"@) {
                Result::Err(ErrV::SchemaViolation("value"@))
            } else {
                match dec_labels(key_value(o, "metric"@), "metric"@) {
                    Result::Err(e) => Result::Err(e),
                    Result::Ok(m) => match dec_sample(key_value(o, "value"@)) {
                        Result::Err(e) => Result::Err(e),
                        Result::Ok(s) => Result::Ok(InstantV { metric: m, sample: s }),
                    },
                }
            }
        },
        _ => Result::Err(ErrV::SchemaViolation("value"@)),
    }
}

pub open spec fn dec_instants(a: Seq<JsonV>) -> Result<Seq<InstantV>, ErrV>
    decreases a.len(),
{
    if a.len() == 0 {
        Result::Ok(Seq::empty())
    } else {
        match dec_instant(a[0]) {
            Result::Err(e) => Result::Err(e),
            Result::Ok(x) => match dec_instants(a.subrange(1, a.len() as int)) {
                Result::Err(e) => Result::Err(e),
                Result::Ok(rest) => Result::Ok(seq![x].add(rest)),
            },
        }
    }
}

pub open spec fn enc_instant(i: InstantV) -> JsonV {
    JsonV::Obj(
        seq![
            ("metric"@, JsonV::Obj(labels_json(i.metric))),
            ("value"@, enc_sample(i.sample)),
        ],
    )
}

pub open spec fn dec_samples(a: Seq<JsonV>) -> Result<Seq<SampleV>, ErrV>
    decreases a.len(),
{
    if a.len() == 0 {
        Result::Ok(Seq::empty())
    } else {
        match dec_sample(a[0]) {
            Result::Err(e) => Result::Err(e),
            Result::Ok(x) => match dec_samples(a.subrange(1, a.len() as int)) {
                Result::Err(e) => Result::Err(e),
                Result::Ok(rest) => Result::Ok(seq![x].add(rest)),
            },
        }
    }
}

/// One range-matrix entry: `{metric, values}`; unknown keys are ignored.
pub open spec fn dec_range(j: JsonV) -> Result<RangeV, ErrV> {
    match j {
        JsonV::Obj(o) => {
            if key_count(o, "metric"@) > 1 {
                Result::Err(ErrV::SchemaViolation("metric"@))
            } else if key_count(o, "values"@) > 1 {
                Result::Err(ErrV::SchemaViolation("values"@))
            } else if !has_key(o, "metric"@) {
                Result::Err(ErrV::SchemaViolation("metric"@))
            } else if !has_key(o, "values"@) {
                Result::Err(ErrV::SchemaViolation("values"@))
            } else {
                match dec_labels(key_value(o, "metric"@), "metric"@) {
                    Result::Err(e) => Result::Err(e),
                    Result::Ok(m) => match key_value(o, "values"@) {
                        JsonV::Arr(a) => match dec_samples(a) {
                            Result::Err(e) => Result::Err(e),
                            Result::Ok(s) => Result::Ok(RangeV { metric: m, samples: s }),
                        },
                        _ => Result::Err(ErrV::SchemaViolation("values"@)),
                    },
                }
            }
        },
        _ => Result::Err(ErrV::SchemaViolation("values"@)),
    }
}

pub open spec fn dec_ranges(a: Seq<JsonV>) -> Result<Seq<RangeV>, ErrV>
    decreases a.len(),
{
    if a.len() == 0 {
        Result::Ok(Seq::empty())
    } else {
        match dec_range(a[0]) {
            Result::Err(e) => Result::Err(e),
            Result::Ok(x) => match dec_ranges(a.subrange(1, a.len() as int)) {
                Result::Err(e) => Result::Err(e),
                Result::Ok(rest) => Result::Ok(seq![x].add(rest)),
            },
        }
    }
}

pub open spec fn enc_range(r: RangeV) -> JsonV {
    JsonV::Obj(
        seq![
            ("metric"@, JsonV::Obj(labels_json(r.metric))),
            ("values"@, JsonV::Arr(Seq::new(r.samples.len(), |i: int| enc_sample(r.samples[i])))),
        ],
    )
}

// ---------------------------------------------------------------------------
// Expression results
// ---------------------------------------------------------------------------
/// An expression result: an object already known to carry `resultType`.
/// The object is closed over `resultType` and `result`.
pub open spec fn dec_expression(o: Seq<(Seq<char>, JsonV)>) -> Result<ExpressionV, ErrV> {
    if first_unknown2(o, "resultType"@, "result"@) >= 0 {
        Result::Err(ErrV::SchemaViolation(o[first_unknown2(o, "resultType"@, "result"@)].0))
    } else if key_count(o, "resultType"@) > 1 {
        Result::Err(ErrV::SchemaViolation("resultType"@))
    } else if key_count(o, "result"@) > 1 {
        Result::Err(ErrV::SchemaViolation("result"@))
    } else if !(key_value(o, "resultType"@) is Str) {
        Result::Err(ErrV::SchemaViolation("resultType"@))
    } else if !has_key(o, "result"@) {
        Result::Err(ErrV::SchemaViolation("result"@))
    } else {
        let rt = key_value(o, "resultType"@)->Str_0;
        let r = key_value(o, "result"@);
        if rt == "scalar"@ {
            match dec_sample(r) {
                Result::Err(e) => Result::Err(e),
                Result::Ok(s) => Result::Ok(ExpressionV::Scalar(s)),
            }
        } else if rt == "string"@ {
            match dec_string_sample(r) {
                Result::Err(e) => Result::Err(e),
                Result::Ok(s) => Result::Ok(ExpressionV::Str(s)),
            }
        } else if rt == "vector"@ {
            match r {
                JsonV::Arr(a) => match dec_instants(a) {
                    Result::Err(e) => Result::Err(e),
                    Result::Ok(v) => Result::Ok(ExpressionV::Instant(v)),
                },
                _ => Result::Err(ErrV::SchemaViolation("result"@)),
            }
        } else if rt == "matrix"@ {
            match r {
                JsonV::Arr(a) => match dec_ranges(a) {
                    Result::Err(e) => Result::Err(e),
                    Result::Ok(v) => Result::Ok(ExpressionV::Range(v)),
                },
                _ => Result::Err(ErrV::SchemaViolation("result"@)),
            }
        } else {
            Result::Err(ErrV::UnrecognizedResultType(rt))
        }
    }
}

pub open spec fn result_type_token(e: ExpressionV) -> Seq<char> {
    match e {
        ExpressionV::Scalar(_) => "scalar"@,
        ExpressionV::Str(_) => "string"@,
        ExpressionV::Instant(_) => "vector"@,
        ExpressionV::Range(_) => "matrix"@,
    }
}

pub open spec fn enc_expression(e: ExpressionV) -> JsonV {
    let payload = match e {
        ExpressionV::Scalar(s) => enc_sample(s),
        ExpressionV::Str(s) => enc_string_sample(s),
        ExpressionV::Instant(v) => JsonV::Arr(Seq::new(v.len(), |i: int| enc_instant(v[i]))),
        ExpressionV::Range(v) => JsonV::Arr(Seq::new(v.len(), |i: int| enc_range(v[i]))),
    };
    JsonV::Obj(
        seq![("resultType"@, JsonV::Str(result_type_token(e))), ("result"@, payload)],
    )
}

// ---------------------------------------------------------------------------
// Targets
// ---------------------------------------------------------------------------
/// One active target; the object is open, with six known fields.
pub open spec fn dec_active_target(j: JsonV) -> Result<ActiveTargetV, ErrV> {
    match j {
        JsonV::Obj(o) => {
            if key_count(o, "discoveredLabels"@) > 1 {
                Result::Err(ErrV::SchemaViolation("discoveredLabels"@))
            } else if key_count(o, "labels"@) > 1 {
                Result::Err(ErrV::SchemaViolation("labels"@))
            } else if key_count(o, "scrapeUrl"@) > 1 {
                Result::Err(ErrV::SchemaViolation("scrapeUrl"@))
            } else if key_count(o, "lastError"@) > 1 {
                Result::Err(ErrV::SchemaViolation("lastError"@))
            } else if key_count(o, "lastScrape"@) > 1 {
                Result::Err(ErrV::SchemaViolation("lastScrape"@))
            } else if key_count(o, "health"@) > 1 {
                Result::Err(ErrV::SchemaViolation("health"@))
            } else if !has_key(o, "discoveredLabels"@) {
                Result::Err(ErrV::SchemaViolation("discoveredLabels"@))
            } else if !has_key(o, "labels"@) {
                Result::Err(ErrV::SchemaViolation("labels"@))
            } else if !has_key(o, "scrapeUrl"@) {
                Result::Err(ErrV::SchemaViolation("scrapeUrl"@))
            } else if !has_key(o, "lastError"@) {
                Result::Err(ErrV::SchemaViolation("lastError"@))
            } else if !has_key(o, "lastScrape"@) {
                Result::Err(ErrV::SchemaViolation("lastScrape"@))
            } else {
                match dec_labels(key_value(o, "discoveredLabels"@), "discoveredLabels"@) {
                    Result::Err(e) => Result::Err(e),
                    Result::Ok(dl) => match dec_labels(key_value(o, "labels"@), "labels"@) {
                        Result::Err(e) => Result::Err(e),
                        Result::Ok(l) => match key_value(o, "scrapeUrl"@) {
                            JsonV::Str(u) => {
                                if !url_ok(u) {
                                    Result::Err(ErrV::InvalidFieldValue("scrapeUrl"@))
                                } else {
                                    match key_value(o, "lastError"@) {
                                        JsonV::Str(le) => match key_value(o, "lastScrape"@) {
                                            JsonV::Str(ls) => {
                                                if !rfc3339_ok(ls) {
                                                    Result::Err(
                                                        ErrV::InvalidFieldValue("lastScrape"@),
                                                    )
                                                } else {
                                                    match dec_health(o) {
                                                        Result::Err(e) => Result::Err(e),
                                                        Result::Ok(h) => Result::Ok(
                                                            ActiveTargetV {
                                                                discovered_labels: dl,
                                                                labels: l,
                                                                scrape_url: u,
                                                                last_error: if le.len() == 0 {
                                                                    Option::None
                                                                } else {
                                                                    Option::Some(le)
                                                                },
                                                                last_scrape: ls,
                                                                health: h,
                                                            },
                                                        ),
                                                    }
                                                }
                                            },
                                            _ => Result::Err(ErrV::SchemaViolation("lastScrape"@)),
                                        },
                                        _ => Result::Err(ErrV::SchemaViolation("lastError"@)),
                                    }
                                }
                            },
                            _ => Result::Err(ErrV::SchemaViolation("scrapeUrl"@)),
                        },
                    },
                }
            }
        },
        _ => Result::Err(ErrV::SchemaViolation("activeTargets"@)),
    }
}

/// The health field: absent or null or an unknown token all mean unknown.
pub open spec fn dec_health(o: Seq<(Seq<char>, JsonV)>) -> Result<TargetHealth, ErrV> {
    if !has_key(o, "health"@) {
        Result::Ok(TargetHealth::Unknown)
    } else {
        match key_value(o, "health"@) {
            JsonV::Null => Result::Ok(TargetHealth::Unknown),
            JsonV::Str(s) => Result::Ok(
                if s == "up"@ {
                    TargetHealth::Up
                } else if s == "down"@ {
                    TargetHealth::Down
                } else {
                    TargetHealth::Unknown
                },
            ),
            _ => Result::Err(ErrV::SchemaViolation("health"@)),
        }
    }
}

pub open spec fn health_token(h: TargetHealth) -> Seq<char> {
    match h {
        TargetHealth::Up => "up"@,
        TargetHealth::Down => "down"@,
        TargetHealth::Unknown => "unknown"@,
    }
}

pub open spec fn enc_active_target(t: ActiveTargetV) -> JsonV {
    JsonV::Obj(
        seq![
            ("discoveredLabels"@, JsonV::Obj(labels_json(t.discovered_labels))),
            ("labels"@, JsonV::Obj(labels_json(t.labels))),
            ("scrapeUrl"@, JsonV::Str(t.scrape_url)),
            (
                "lastError"@,
                JsonV::Str(
                    match t.last_error {
                        Option::Some(e) => e,
                        Option::None => Seq::empty(),
                    },
                ),
            ),
            ("lastScrape"@, JsonV::Str(t.last_scrape)),
            ("health"@, JsonV::Str(health_token(t.health))),
        ],
    )
}

pub open spec fn dec_active_targets(a: Seq<JsonV>) -> Result<Seq<ActiveTargetV>, ErrV>
    decreases a.len(),
{
    if a.len() == 0 {
        Result::Ok(Seq::empty())
    } else {
        match dec_active_target(a[0]) {
            Result::Err(e) => Result::Err(e),
            Result::Ok(x) => match dec_active_targets(a.subrange(1, a.len() as int)) {
                Result::Err(e) => Result::Err(e),
                Result::Ok(rest) => Result::Ok(seq![x].add(rest)),
            },
        }
    }
}

/// One dropped target: an open object with its discovered labels.
pub open spec fn dec_dropped_target(j: JsonV) -> Result<DroppedTargetV, ErrV> {
    match j {
        JsonV::Obj(o) => {
            if key_count(o, "discoveredLabels"@) > 1 {
                Result::Err(ErrV::SchemaViolation("discoveredLabels"@))
            } else if !has_key(o, "discoveredLabels"@) {
                Result::Err(ErrV::SchemaViolation("discoveredLabels"@))
            } else {
                match dec_labels(key_value(o, "discoveredLabels"@), "discoveredLabels"@) {
                    Result::Err(e) => Result::Err(e),
                    Result::Ok(dl) => Result::Ok(DroppedTargetV { discovered_labels: dl }),
                }
            }
        },
        _ => Result::Err(ErrV::SchemaViolation("droppedTargets"@)),
    }
}

pub open spec fn enc_dropped_target(t: DroppedTargetV) -> JsonV {
    JsonV::Obj(seq![("discoveredLabels"@, JsonV::Obj(labels_json(t.discovered_labels)))])
}

pub open spec fn dec_dropped_targets(a: Seq<JsonV>) -> Result<Seq<DroppedTargetV>, ErrV>
    decreases a.len(),
{
    if a.len() == 0 {
        Result::Ok(Seq::empty())
    } else {
        match dec_dropped_target(a[0]) {
            Result::Err(e) => Result::Err(e),
            Result::Ok(x) => match dec_dropped_targets(a.subrange(1, a.len() as int)) {
                Result::Err(e) => Result::Err(e),
                Result::Ok(rest) => Result::Ok(seq![x].add(rest)),
            },
        }
    }
}

/// Target status: a closed object over `activeTargets` and
/// `droppedTargets`, each defaulting to the empty sequence.
pub open spec fn dec_targets(o: Seq<(Seq<char>, JsonV)>) -> Result<TargetsV, ErrV> {
    if first_unknown2(o, "activeTargets"@, "droppedTargets"@) >= 0 {
        Result::Err(
            ErrV::SchemaViolation(o[first_unknown2(o, "activeTargets"@, "droppedTargets"@)].0),
        )
    } else if key_count(o, "activeTargets"@) > 1 {
        Result::Err(ErrV::SchemaViolation("activeTargets"@))
    } else if key_count(o, "droppedTargets"@) > 1 {
        Result::Err(ErrV::SchemaViolation("droppedTargets"@))
    } else {
        let act = if has_key(o, "activeTargets"@) {
            match key_value(o, "activeTargets"@) {
                JsonV::Arr(a) => dec_active_targets(a),
                _ => Result::Err(ErrV::SchemaViolation("activeTargets"@)),
            }
        } else {
            Result::Ok(Seq::empty())
        };
        match act {
            Result::Err(e) => Result::Err(e),
            Result::Ok(active) => {
                let dr = if has_key(o, "droppedTargets"@) {
                    match key_value(o, "droppedTargets"@) {
                        JsonV::Arr(a) => dec_dropped_targets(a),
                        _ => Result::Err(ErrV::SchemaViolation("droppedTargets"@)),
                    }
                } else {
                    Result::Ok(Seq::empty())
                };
                match dr {
                    Result::Err(e) => Result::Err(e),
                    Result::Ok(dropped) => Result::Ok(TargetsV { active, dropped }),
                }
            },
        }
    }
}

pub open spec fn enc_targets(t: TargetsV) -> JsonV {
    JsonV::Obj(
        seq![
            (
                "activeTargets"@,
                JsonV::Arr(Seq::new(t.active.len(), |i: int| enc_active_target(t.active[i]))),
            ),
            (
                "droppedTargets"@,
                JsonV::Arr(Seq::new(t.dropped.len(), |i: int| enc_dropped_target(t.dropped[i]))),
            ),
        ],
    )
}

// ---------------------------------------------------------------------------
// Alert managers
// ---------------------------------------------------------------------------
/// One alert manager: a closed single-field object; a repeated or missing
/// `url`, or one that does not parse as a URL, is a failure.
pub open spec fn dec_alert_manager(j: JsonV) -> Result<AlertManagerV, ErrV> {
    match j {
        JsonV::Obj(o) => {
            if first_unknown1(o, "url"@) >= 0 {
                Result::Err(ErrV::SchemaViolation(o[first_unknown1(o, "url"@)].0))
            } else if key_count(o, "url"@) > 1 {
                Result::Err(ErrV::SchemaViolation("url"@))
            } else if !has_key(o, "url"@) {
                Result::Err(ErrV::SchemaViolation("url"@))
            } else {
                match key_value(o, "url"@) {
                    JsonV::Str(u) => {
                        if url_ok(u) {
                            Result::Ok(AlertManagerV { url: u })
                        } else {
                            Result::Err(ErrV::InvalidFieldValue("url"@))
                        }
                    },
                    _ => Result::Err(ErrV::SchemaViolation("url"@)),
                }
            }
        },
        _ => Result::Err(ErrV::SchemaViolation("url"@)),
    }
}

pub open spec fn enc_alert_manager(m: AlertManagerV) -> JsonV {
    JsonV::Obj(seq![("url"@, JsonV::Str(m.url))])
}

pub open spec fn dec_alert_manager_list(a: Seq<JsonV>) -> Result<Seq<AlertManagerV>, ErrV>
    decreases a.len(),
{
    if a.len() == 0 {
        Result::Ok(Seq::empty())
    } else {
        match dec_alert_manager(a[0]) {
            Result::Err(e) => Result::Err(e),
            Result::Ok(x) => match dec_alert_manager_list(a.subrange(1, a.len() as int)) {
                Result::Err(e) => Result::Err(e),
                Result::Ok(rest) => Result::Ok(seq![x].add(rest)),
            },
        }
    }
}

/// Alert-manager status: a closed object over `activeAlertmanagers` and
/// `droppedAlertmanagers`, each defaulting to the empty sequence.
pub open spec fn dec_alert_managers(o: Seq<(Seq<char>, JsonV)>) -> Result<AlertManagersV, ErrV> {
    if first_unknown2(o, "activeAlertmanagers"@, "droppedAlertmanagers"@) >= 0 {
        Result::Err(
            ErrV::SchemaViolation(
                o[first_unknown2(o, "activeAlertmanagers"@, "droppedAlertmanagers"@)].0,
            ),
        )
    } else if key_count(o, "activeAlertmanagers"@) > 1 {
        Result::Err(ErrV::SchemaViolation("activeAlertmanagers"@))
    } else if key_count(o, "droppedAlertmanagers"@) > 1 {
        Result::Err(ErrV::SchemaViolation("droppedAlertmanagers"@))
    } else {
        let act = if has_key(o, "activeAlertmanagers"@) {
            match key_value(o, "activeAlertmanagers"@) {
                JsonV::Arr(a) => dec_alert_manager_list(a),
                _ => Result::Err(ErrV::SchemaViolation("activeAlertmanagers"@)),
            }
        } else {
            Result::Ok(Seq::empty())
        };
        match act {
            Result::Err(e) => Result::Err(e),
            Result::Ok(active) => {
                let dr = if has_key(o, "droppedAlertmanagers"@) {
                    match key_value(o, "droppedAlertmanagers"@) {
                        JsonV::Arr(a) => dec_alert_manager_list(a),
                        _ => Result::Err(ErrV::SchemaViolation("droppedAlertmanagers"@)),
                    }
                } else {
                    Result::Ok(Seq::empty())
                };
                match dr {
                    Result::Err(e) => Result::Err(e),
                    Result::Ok(dropped) => Result::Ok(AlertManagersV { active, dropped }),
                }
            },
        }
    }
}

pub open spec fn enc_alert_managers(m: AlertManagersV) -> JsonV {
    JsonV::Obj(
        seq![
            (
                "activeAlertmanagers"@,
                JsonV::Arr(Seq::new(m.active.len(), |i: int| enc_alert_manager(m.active[i]))),
            ),
            (
                "droppedAlertmanagers"@,
                JsonV::Arr(Seq::new(m.dropped.len(), |i: int| enc_alert_manager(m.dropped[i]))),
            ),
        ],
    )
}

// ---------------------------------------------------------------------------
// Series
// ---------------------------------------------------------------------------
/// Whether every element is a flat string-to-string object without
/// `resultType` or `result` keys: the shape of a series list.
pub open spec fn all_series_objs(a: Seq<JsonV>) -> bool {
    forall|i: int| 0 <= i < a.len() ==> {
        &&& (#[trigger] a[i]) is Obj
        &&& all_string_entries(a[i]->Obj_0)
        &&& !has_key(a[i]->Obj_0, "resultType"@)
        &&& !has_key(a[i]->Obj_0, "result"@)
    }
}

pub open spec fn series_of(a: Seq<JsonV>) -> Seq<LabelsV> {
    Seq::new(a.len(), |i: int| collapse(a[i]->Obj_0, Seq::empty()))
}

// ---------------------------------------------------------------------------
// The data payload, discriminated by shape
// ---------------------------------------------------------------------------
/// Shape dispatch for the `data` value, in fixed precedence order: an
/// object with `resultType` is an expression result; then target status,
/// then alert-manager status, then the flag-map fallback. A non-empty
/// array of label objects is a series list; an array of strings is a label
/// or value list; the empty array reads as the latter by policy. Anything
/// else is an unrecognized shape.
pub open spec fn dec_data(j: JsonV) -> Result<DataV, ErrV> {
    match j {
        JsonV::Obj(o) => {
            if has_key(o, "resultType"@) {
                match dec_expression(o) {
                    Result::Err(e) => Result::Err(e),
                    Result::Ok(e) => Result::Ok(DataV::Expression(e)),
                }
            } else if has_key(o, "activeTargets"@) || has_key(o, "droppedTargets"@) {
                match dec_targets(o) {
                    Result::Err(e) => Result::Err(e),
                    Result::Ok(t) => Result::Ok(DataV::Targets(t)),
                }
            } else if has_key(o, "activeAlertmanagers"@) || has_key(o, "droppedAlertmanagers"@) {
                match dec_alert_managers(o) {
                    Result::Err(e) => Result::Err(e),
                    Result::Ok(m) => Result::Ok(DataV::AlertManagers(m)),
                }
            } else if all_string_entries(o) {
                Result::Ok(DataV::Flags(collapse(o, Seq::empty())))
            } else {
                Result::Err(ErrV::UnrecognizedDataShape)
            }
        },
        JsonV::Arr(a) => {
            if a.len() == 0 {
                Result::Ok(DataV::LabelsOrValues(Seq::empty()))
            } else if all_series_objs(a) {
                Result::Ok(DataV::Series(series_of(a)))
            } else if all_strings(a) {
                Result::Ok(DataV::LabelsOrValues(strs_of(a)))
            } else {
                Result::Err(ErrV::UnrecognizedDataShape)
            }
        },
        _ => Result::Err(ErrV::UnrecognizedDataShape),
    }
}

pub open spec fn enc_data(d: DataV) -> JsonV {
    match d {
        DataV::Expression(e) => enc_expression(e),
        DataV::Series(v) => JsonV::Arr(
            Seq::new(v.len(), |i: int| JsonV::Obj(labels_json(v[i]))),
        ),
        DataV::LabelsOrValues(v) => JsonV::Arr(strs_json(v)),
        DataV::Targets(t) => enc_targets(t),
        DataV::AlertManagers(m) => enc_alert_managers(m),
        DataV::Flags(f) => JsonV::Obj(labels_json(f)),
    }
}

// ---------------------------------------------------------------------------
// The envelope
// ---------------------------------------------------------------------------
/// The optional `data` slot of the envelope: absent and null both mean no
/// data.
pub open spec fn dec_opt_data(o: Seq<(Seq<char>, JsonV)>) -> Result<Option<DataV>, ErrV> {
    if !has_key(o, "data"@) {
        Result::Ok(Option::None)
    } else {
        match key_value(o, "data"@) {
            JsonV::Null => Result::Ok(Option::None),
            v => match dec_data(v) {
                Result::Err(e) => Result::Err(e),
                Result::Ok(d) => Result::Ok(Option::Some(d)),
            },
        }
    }
}

/// The optional `warnings` slot: absent means none; otherwise it must be
/// an array of strings, kept in order.
pub open spec fn dec_opt_warnings(o: Seq<(Seq<char>, JsonV)>) -> Result<Seq<Seq<char>>, ErrV> {
    if !has_key(o, "warnings"@) {
        Result::Ok(Seq::empty())
    } else {
        match key_value(o, "warnings"@) {
            JsonV::Arr(a) => {
                if all_strings(a) {
                    Result::Ok(strs_of(a))
                } else {
                    Result::Err(ErrV::MalformedEnvelope)
                }
            },
            _ => Result::Err(ErrV::MalformedEnvelope),
        }
    }
}

/// The top-level envelope: an object whose `status` field selects the
/// success or the error arm; any other status, a repeated envelope field,
/// or missing error fields on the error arm are failures.
pub open spec fn dec_result(j: JsonV) -> Result<QueryResultV, ErrV> {
    match j {
        JsonV::Obj(o) => {
            if key_count(o, "status"@) > 1 || key_count(o, "data"@) > 1 || key_count(
                o,
                "warnings"@,
            ) > 1 || key_count(o, "error"@) > 1 || key_count(o, "errorType"@) > 1 {
                Result::Err(ErrV::MalformedEnvelope)
            } else if !has_key(o, "status"@) {
                Result::Err(ErrV::MalformedEnvelope)
            } else {
                match key_value(o, "status"@) {
                    JsonV::Str(st) => {
                        if st == "success"@ {
                            match dec_opt_data(o) {
                                Result::Err(e) => Result::Err(e),
                                Result::Ok(d) => match dec_opt_warnings(o) {
                                    Result::Err(e) => Result::Err(e),
                                    Result::Ok(w) => Result::Ok(
                                        QueryResultV::Success(
                                            QuerySuccessV { data: d, warnings: w },
                                        ),
                                    ),
                                },
                            }
                        } else if st == "error"@ {
                            if !has_key(o, "errorType"@) || !(key_value(o, "errorType"@) is Str) {
                                Result::Err(ErrV::MalformedEnvelope)
                            } else if !has_key(o, "error"@) || !(key_value(o, "error"@) is Str) {
                                Result::Err(ErrV::MalformedEnvelope)
                            } else {
                                match dec_opt_data(o) {
                                    Result::Err(e) => Result::Err(e),
                                    Result::Ok(d) => match dec_opt_warnings(o) {
                                        Result::Err(e) => Result::Err(e),
                                        Result::Ok(w) => Result::Ok(
                                            QueryResultV::Error(
                                                QueryErrorV {
                                                    error_type: key_value(o, "errorType"@)->Str_0,
                                                    error_message: key_value(o, "error"@)->Str_0,
                                                    data: d,
                                                    warnings: w,
                                                },
                                            ),
                                        ),
                                    },
                                }
                            }
                        } else {
                            Result::Err(ErrV::MalformedEnvelope)
                        }
                    },
                    _ => Result::Err(ErrV::MalformedEnvelope),
                }
            }
        },
        _ => Result::Err(ErrV::MalformedEnvelope),
    }
}

pub open spec fn enc_result(r: QueryResultV) -> JsonV {
    match r {
        QueryResultV::Success(s) => {
            let base = seq![("status"@, JsonV::Str("success"@))];
            let with_data = match s.data {
                Option::Some(d) => base.push(("data"@, enc_data(d))),
                Option::None => base,
            };
            let with_warnings = if s.warnings.len() > 0 {
                with_data.push(("warnings"@, JsonV::Arr(strs_json(s.warnings))))
            } else {
                with_data
            };
            JsonV::Obj(with_warnings)
        },
        QueryResultV::Error(e) => {
            let base = seq![
                ("status"@, JsonV::Str("error"@)),
                ("errorType"@, JsonV::Str(e.error_type)),
                ("error"@, JsonV::Str(e.error_message)),
            ];
            let with_data = match e.data {
                Option::Some(d) => base.push(("data"@, enc_data(d))),
                Option::None => base,
            };
            let with_warnings = if e.warnings.len() > 0 {
                with_data.push(("warnings"@, JsonV::Arr(strs_json(e.warnings))))
            } else {
                with_data
            };
            JsonV::Obj(with_warnings)
        },
    }
}

} // verus!
