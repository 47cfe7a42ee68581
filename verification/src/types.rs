use vstd::prelude::*;
use crate::json::{is_float_lit, is_json_num};
use crate::valid::{rfc3339_ok, url_ok};

verus! {

/// The views of a sequence of values, element by element.
pub open spec fn seq_view<T: View>(v: Seq<T>) -> Seq<T::V>
    decreases v.len(),
{
    if v.len() == 0 {
        Seq::empty()
    } else {
        seq_view(v.subrange(0, v.len() - 1)).push(v[v.len() - 1]@)
    }
}

pub broadcast proof fn lemma_seq_view_len<T: View>(v: Seq<T>)
    ensures
        (#[trigger] seq_view(v)).len() == v.len(),
    decreases v.len(),
{
    if v.len() > 0 {
        lemma_seq_view_len(v.subrange(0, v.len() - 1));
    }
}

pub broadcast proof fn lemma_seq_view_index<T: View>(v: Seq<T>, i: int)
    requires
        0 <= i < v.len(),
    ensures
        #[trigger] seq_view(v)[i] == v[i]@,
    decreases v.len(),
{
    lemma_seq_view_len(v);
    if i < v.len() - 1 {
        lemma_seq_view_len(v.subrange(0, v.len() - 1));
        lemma_seq_view_index(v.subrange(0, v.len() - 1), i);
    }
}

pub broadcast proof fn lemma_seq_view_push<T: View>(v: Seq<T>, e: T)
    ensures
        #[trigger] seq_view(v.push(e)) == seq_view(v).push(e@),
{
    assert(v.push(e).subrange(0, v.push(e).len() - 1) =~= v);
}

pub broadcast group group_seq_view {
    lemma_seq_view_len,
    lemma_seq_view_index,
    lemma_seq_view_push,
}

/// A set of labels: names mapped to values, with unique names.
pub type Labels = Vec<(String, String)>;

/// The mathematical shape of a label set.
pub type LabelsV = Seq<(Seq<char>, Seq<char>)>;

/// Unique label names.
pub open spec fn labels_wf(m: LabelsV) -> bool {
    forall|i: int, j: int| 0 <= i < j < m.len() ==> (#[trigger] m[i]).0 != (#[trigger] m[j]).0
}

/// A metric: a mapping from label name to label value. The `__name__`
/// label, when present, holds the metric name by convention.
#[derive(Debug, PartialEq, Eq)]
pub struct Metric {
    pub labels: Labels,
}

impl View for Metric {
    type V = LabelsV;

    open spec fn view(&self) -> LabelsV {
        self.labels.deep_view()
    }
}

/// The value of a numeric sample: one of the three sentinel states, or a
/// finite-notation number carried as its base-10 literal token.
#[derive(Debug, PartialEq, Eq)]
pub enum SampleValue {
    Inf,
    NegInf,
    NaN,
    Num(String),
}

#[verifier::ext_equal]
pub enum SampleValueV {
    Inf,
    NegInf,
    NaN,
    Num(Seq<char>),
}

impl View for SampleValue {
    type V = SampleValueV;

    open spec fn view(&self) -> SampleValueV {
        match self {
            SampleValue::Inf => SampleValueV::Inf,
            SampleValue::NegInf => SampleValueV::NegInf,
            SampleValue::NaN => SampleValueV::NaN,
            SampleValue::Num(t) => SampleValueV::Num(t@),
        }
    }
}

pub open spec fn sample_value_wf(v: SampleValueV) -> bool {
    match v {
        SampleValueV::Num(t) => is_float_lit(t),
        _ => true,
    }
}

/// A numeric sample: a timestamp in seconds since the Unix epoch, carried
/// as its number token with sub-second precision preserved, and a value.
#[derive(Debug, PartialEq, Eq)]
pub struct Sample {
    pub epoch: String,
    pub value: SampleValue,
}

#[verifier::ext_equal]
pub struct SampleV {
    pub epoch: Seq<char>,
    pub value: SampleValueV,
}

impl View for Sample {
    type V = SampleV;

    open spec fn view(&self) -> SampleV {
        SampleV { epoch: self.epoch@, value: self.value@ }
    }
}

pub open spec fn sample_wf(s: SampleV) -> bool {
    is_json_num(s.epoch) && sample_value_wf(s.value)
}

/// A string sample: a timestamp and a verbatim string value.
#[derive(Debug, PartialEq, Eq)]
pub struct StringSample {
    pub epoch: String,
    pub value: String,
}

#[verifier::ext_equal]
pub struct StringSampleV {
    pub epoch: Seq<char>,
    pub value: Seq<char>,
}

impl View for StringSample {
    type V = StringSampleV;

    open spec fn view(&self) -> StringSampleV {
        StringSampleV { epoch: self.epoch@, value: self.value@ }
    }
}

pub open spec fn string_sample_wf(s: StringSampleV) -> bool {
    is_json_num(s.epoch)
}

/// One series of an instant vector: a metric with a single sample.
#[derive(Debug, PartialEq, Eq)]
pub struct Instant {
    pub metric: Metric,
    pub sample: Sample,
}

#[verifier::ext_equal]
pub struct InstantV {
    pub metric: LabelsV,
    pub sample: SampleV,
}

impl View for Instant {
    type V = InstantV;

    open spec fn view(&self) -> InstantV {
        InstantV { metric: self.metric@, sample: self.sample@ }
    }
}

pub open spec fn instant_wf(i: InstantV) -> bool {
    labels_wf(i.metric) && sample_wf(i.sample)
}

/// One series of a range matrix: a metric with its samples over a range.
#[derive(Debug, PartialEq, Eq)]
pub struct Range {
    pub metric: Metric,
    pub samples: Vec<Sample>,
}

#[verifier::ext_equal]
pub struct RangeV {
    pub metric: LabelsV,
    pub samples: Seq<SampleV>,
}

impl View for Range {
    type V = RangeV;

    open spec fn view(&self) -> RangeV {
        RangeV { metric: self.metric@, samples: seq_view(self.samples@) }
    }
}

pub open spec fn range_wf(r: RangeV) -> bool {
    labels_wf(r.metric) && forall|i: int|
        0 <= i < r.samples.len() ==> sample_wf(#[trigger] r.samples[i])
}

/// The payload of an expression query, shaped by its `resultType`.
#[derive(Debug, PartialEq, Eq)]
pub enum Expression {
    Scalar(Sample),
    Str(StringSample),
    Instant(Vec<Instant>),
    Range(Vec<Range>),
}

#[verifier::ext_equal]
pub enum ExpressionV {
    Scalar(SampleV),
    Str(StringSampleV),
    Instant(Seq<InstantV>),
    Range(Seq<RangeV>),
}

impl View for Expression {
    type V = ExpressionV;

    open spec fn view(&self) -> ExpressionV {
        match self {
            Expression::Scalar(s) => ExpressionV::Scalar(s@),
            Expression::Str(s) => ExpressionV::Str(s@),
            Expression::Instant(v) => ExpressionV::Instant(seq_view(v@)),
            Expression::Range(v) => ExpressionV::Range(seq_view(v@)),
        }
    }
}

pub open spec fn expression_wf(e: ExpressionV) -> bool {
    match e {
        ExpressionV::Scalar(s) => sample_wf(s),
        ExpressionV::Str(s) => string_sample_wf(s),
        ExpressionV::Instant(v) => forall|i: int|
            0 <= i < v.len() ==> instant_wf(#[trigger] v[i]),
        ExpressionV::Range(v) => forall|i: int| 0 <= i < v.len() ==> range_wf(#[trigger] v[i]),
    }
}

/// The health of a scrape target.
#[derive(Debug, Clone, Copy, PartialEq, Eq)]
pub enum TargetHealth {
    Up,
    Down,
    Unknown,
}

impl View for TargetHealth {
    type V = TargetHealth;

    open spec fn view(&self) -> TargetHealth {
        *self
    }
}

/// A target Prometheus is scraping.
#[derive(Debug, PartialEq, Eq)]
pub struct ActiveTarget {
    pub discovered_labels: Labels,
    pub labels: Labels,
    pub scrape_url: String,
    pub last_error: Option<String>,
    pub last_scrape: String,
    pub health: TargetHealth,
}

#[verifier::ext_equal]
pub struct ActiveTargetV {
    pub discovered_labels: LabelsV,
    pub labels: LabelsV,
    pub scrape_url: Seq<char>,
    pub last_error: Option<Seq<char>>,
    pub last_scrape: Seq<char>,
    pub health: TargetHealth,
}

impl View for ActiveTarget {
    type V = ActiveTargetV;

    open spec fn view(&self) -> ActiveTargetV {
        ActiveTargetV {
            discovered_labels: self.discovered_labels.deep_view(),
            labels: self.labels.deep_view(),
            scrape_url: self.scrape_url@,
            last_error: match self.last_error {
                Option::Some(ref e) => Option::Some(e@),
                Option::None => Option::None,
            },
            last_scrape: self.last_scrape@,
            health: self.health,
        }
    }
}

pub open spec fn active_target_wf(t: ActiveTargetV) -> bool {
    &&& labels_wf(t.discovered_labels)
    &&& labels_wf(t.labels)
    &&& url_ok(t.scrape_url)
    &&& rfc3339_ok(t.last_scrape)
    &&& match t.last_error {
        Option::Some(e) => e.len() > 0,
        Option::None => true,
    }
}

/// A target dropped by relabelling; only its discovered labels remain.
#[derive(Debug, PartialEq, Eq)]
pub struct DroppedTarget {
    pub discovered_labels: Labels,
}

#[verifier::ext_equal]
pub struct DroppedTargetV {
    pub discovered_labels: LabelsV,
}

impl View for DroppedTarget {
    type V = DroppedTargetV;

    open spec fn view(&self) -> DroppedTargetV {
        DroppedTargetV { discovered_labels: self.discovered_labels.deep_view() }
    }
}

pub open spec fn dropped_target_wf(t: DroppedTargetV) -> bool {
    labels_wf(t.discovered_labels)
}

/// Target status: active and dropped targets, each possibly empty.
#[derive(Debug, PartialEq, Eq)]
pub struct Targets {
    pub active: Vec<ActiveTarget>,
    pub dropped: Vec<DroppedTarget>,
}

#[verifier::ext_equal]
pub struct TargetsV {
    pub active: Seq<ActiveTargetV>,
    pub dropped: Seq<DroppedTargetV>,
}

impl View for Targets {
    type V = TargetsV;

    open spec fn view(&self) -> TargetsV {
        TargetsV { active: seq_view(self.active@), dropped: seq_view(self.dropped@) }
    }
}

pub open spec fn targets_wf(t: TargetsV) -> bool {
    &&& forall|i: int| 0 <= i < t.active.len() ==> active_target_wf(#[trigger] t.active[i])
    &&& forall|i: int| 0 <= i < t.dropped.len() ==> dropped_target_wf(#[trigger] t.dropped[i])
}

/// One alert manager, known by its URL.
#[derive(Debug, PartialEq, Eq)]
pub struct AlertManager {
    pub url: String,
}

#[verifier::ext_equal]
pub struct AlertManagerV {
    pub url: Seq<char>,
}

impl View for AlertManager {
    type V = AlertManagerV;

    open spec fn view(&self) -> AlertManagerV {
        AlertManagerV { url: self.url@ }
    }
}

pub open spec fn alert_manager_wf(m: AlertManagerV) -> bool {
    url_ok(m.url)
}

/// Alert-manager status: active and dropped alert managers.
#[derive(Debug, PartialEq, Eq)]
pub struct AlertManagers {
    pub active: Vec<AlertManager>,
    pub dropped: Vec<AlertManager>,
}

#[verifier::ext_equal]
pub struct AlertManagersV {
    pub active: Seq<AlertManagerV>,
    pub dropped: Seq<AlertManagerV>,
}

impl View for AlertManagers {
    type V = AlertManagersV;

    open spec fn view(&self) -> AlertManagersV {
        AlertManagersV { active: seq_view(self.active@), dropped: seq_view(self.dropped@) }
    }
}

pub open spec fn alert_managers_wf(m: AlertManagersV) -> bool {
    &&& forall|i: int| 0 <= i < m.active.len() ==> alert_manager_wf(#[trigger] m.active[i])
    &&& forall|i: int| 0 <= i < m.dropped.len() ==> alert_manager_wf(#[trigger] m.dropped[i])
}

/// The payload bound to `data`, discriminated by its JSON shape.
#[derive(Debug, PartialEq, Eq)]
pub enum Data {
    Expression(Expression),
    Series(Vec<Metric>),
    LabelsOrValues(Vec<String>),
    Targets(Targets),
    AlertManagers(AlertManagers),
    Flags(Vec<(String, String)>),
}

#[verifier::ext_equal]
pub enum DataV {
    Expression(ExpressionV),
    Series(Seq<LabelsV>),
    LabelsOrValues(Seq<Seq<char>>),
    Targets(TargetsV),
    AlertManagers(AlertManagersV),
    Flags(LabelsV),
}

impl View for Data {
    type V = DataV;

    open spec fn view(&self) -> DataV {
        match self {
            Data::Expression(e) => DataV::Expression(e@),
            Data::Series(v) => DataV::Series(seq_view(v@)),
            Data::LabelsOrValues(v) => DataV::LabelsOrValues(v.deep_view()),
            Data::Targets(t) => DataV::Targets(t@),
            Data::AlertManagers(m) => DataV::AlertManagers(m@),
            Data::Flags(f) => DataV::Flags(f.deep_view()),
        }
    }
}

pub open spec fn data_wf(d: DataV) -> bool {
    match d {
        DataV::Expression(e) => expression_wf(e),
        DataV::Series(v) => forall|i: int| 0 <= i < v.len() ==> labels_wf(#[trigger] v[i]),
        DataV::LabelsOrValues(_) => true,
        DataV::Targets(t) => targets_wf(t),
        DataV::AlertManagers(m) => alert_managers_wf(m),
        DataV::Flags(f) => labels_wf(f),
    }
}

/// The success arm of the envelope.
#[derive(Debug, PartialEq, Eq)]
pub struct QuerySuccess {
    pub data: Option<Data>,
    pub warnings: Vec<String>,
}

#[verifier::ext_equal]
pub struct QuerySuccessV {
    pub data: Option<DataV>,
    pub warnings: Seq<Seq<char>>,
}

impl View for QuerySuccess {
    type V = QuerySuccessV;

    open spec fn view(&self) -> QuerySuccessV {
        QuerySuccessV {
            data: match self.data {
                Option::Some(ref d) => Option::Some(d@),
                Option::None => Option::None,
            },
            warnings: self.warnings.deep_view(),
        }
    }
}

pub open spec fn success_wf(s: QuerySuccessV) -> bool {
    match s.data {
        Option::Some(d) => data_wf(d),
        Option::None => true,
    }
}

/// The error arm of the envelope, with its type and message, and any
/// partial data and warnings the server attached.
#[derive(Debug, PartialEq, Eq)]
pub struct QueryError {
    pub error_type: String,
    pub error_message: String,
    pub data: Option<Data>,
    pub warnings: Vec<String>,
}

#[verifier::ext_equal]
pub struct QueryErrorV {
    pub error_type: Seq<char>,
    pub error_message: Seq<char>,
    pub data: Option<DataV>,
    pub warnings: Seq<Seq<char>>,
}

impl View for QueryError {
    type V = QueryErrorV;

    open spec fn view(&self) -> QueryErrorV {
        QueryErrorV {
            error_type: self.error_type@,
            error_message: self.error_message@,
            data: match self.data {
                Option::Some(ref d) => Option::Some(d@),
                Option::None => Option::None,
            },
            warnings: self.warnings.deep_view(),
        }
    }
}

pub open spec fn query_error_wf(e: QueryErrorV) -> bool {
    match e.data {
        Option::Some(d) => data_wf(d),
        Option::None => true,
    }
}

/// The top-level envelope of every response, tagged by `status`.
#[derive(Debug, PartialEq, Eq)]
pub enum QueryResult {
    Success(QuerySuccess),
    Error(QueryError),
}

#[verifier::ext_equal]
pub enum QueryResultV {
    Success(QuerySuccessV),
    Error(QueryErrorV),
}

impl View for QueryResult {
    type V = QueryResultV;

    open spec fn view(&self) -> QueryResultV {
        match self {
            QueryResult::Success(s) => QueryResultV::Success(s@),
            QueryResult::Error(e) => QueryResultV::Error(e@),
        }
    }
}

pub open spec fn result_wf(r: QueryResultV) -> bool {
    match r {
        QueryResultV::Success(s) => success_wf(s),
        QueryResultV::Error(e) => query_error_wf(e),
    }
}

/// A decode failure. Every variant carries the offending token, field
/// name, or a description of the unmatched structure.
#[derive(Debug, PartialEq, Eq)]
pub enum DecodeError {
    /// The input is not valid JSON text.
    MalformedJson(String),
    /// The top level is not an object, or its envelope fields are missing,
    /// repeated, or ill-typed.
    MalformedEnvelope(String),
    /// The `data` value matches none of the known shapes.
    UnrecognizedDataShape(String),
    /// The `resultType` token is not a known one.
    UnrecognizedResultType(String),
    /// An element of a sample pair is neither a sentinel token nor a
    /// base-10 float literal.
    InvalidSampleValue(String),
    /// A tuple-encoded field does not have exactly the expected length.
    ArityMismatch(String),
    /// A closed-schema object has an unknown, repeated, or missing field.
    SchemaViolation(String),
    /// A field value fails validation against its expected form.
    InvalidFieldValue(String),
}

#[verifier::ext_equal]
pub enum ErrV {
    MalformedJson,
    MalformedEnvelope,
    UnrecognizedDataShape,
    UnrecognizedResultType(Seq<char>),
    InvalidSampleValue(Seq<char>),
    ArityMismatch,
    SchemaViolation(Seq<char>),
    InvalidFieldValue(Seq<char>),
}

impl View for DecodeError {
    type V = ErrV;

    open spec fn view(&self) -> ErrV {
        match self {
            DecodeError::MalformedJson(_) => ErrV::MalformedJson,
            DecodeError::MalformedEnvelope(_) => ErrV::MalformedEnvelope,
            DecodeError::UnrecognizedDataShape(_) => ErrV::UnrecognizedDataShape,
            DecodeError::UnrecognizedResultType(t) => ErrV::UnrecognizedResultType(t@),
            DecodeError::InvalidSampleValue(t) => ErrV::InvalidSampleValue(t@),
            DecodeError::ArityMismatch(_) => ErrV::ArityMismatch,
            DecodeError::SchemaViolation(k) => ErrV::SchemaViolation(k@),
            DecodeError::InvalidFieldValue(k) => ErrV::InvalidFieldValue(k@),
        }
    }
}

/// The view of a decode outcome: the value's view on success, the error's
/// view on failure.
pub open spec fn out_view<T: View>(r: Result<T, DecodeError>) -> Result<T::V, ErrV> {
    match r {
        Result::Ok(x) => Result::Ok(x@),
        Result::Err(e) => Result::Err(e@),
    }
}

} // verus!
