use prometheus_query::json::Json;
use prometheus_query::types::{
    ActiveTarget, AlertManager, AlertManagers, Data, DecodeError, DroppedTarget, Expression,
    Instant, Metric, QueryError, QueryResult, QuerySuccess, Range, Sample, SampleValue,
    StringSample, TargetHealth, Targets,
};

fn labels(pairs: &[(&str, &str)]) -> Vec<(String, String)> {
    pairs.iter().map(|(k, v)| (k.to_string(), v.to_string())).collect()
}

fn metric(pairs: &[(&str, &str)]) -> Metric {
    Metric { labels: labels(pairs) }
}

fn num_sample(epoch: &str, value: &str) -> Sample {
    Sample { epoch: epoch.to_string(), value: SampleValue::Num(value.to_string()) }
}

fn strings(v: &[&str]) -> Vec<String> {
    v.iter().map(|s| s.to_string()).collect()
}

#[test]
fn should_deserialize_json_error() {
    let j = r#"
    {
        "status": "error",
        "error": "Major",
        "errorType": "Seriously Bad"
    }
    "#;

    let res = QueryResult::decode(j).unwrap();
    assert_eq!(
        res,
        QueryResult::Error(QueryError {
            error_type: "Seriously Bad".to_string(),
            error_message: "Major".to_string(),
            data: None,
            warnings: Vec::new(),
        })
    );
}

#[test]
fn should_deserialize_json_error_with_instant_and_warnings() {
    let j = r#"
    {
        "status": "error",
        "error": "This is a strange error",
        "errorType": "Weird",
        "warnings": [
            "You timed out, foo"
        ],
        "data" : {
            "resultType" : "vector",

            "result" : [
                {
                    "metric" : {
                        "__name__" : "up",
                        "job" : "prometheus",
                        "instance" : "localhost:9090"
                    },
                    "value": [ 1435781451.781, "1" ]
                },
                {
                    "metric" : {
                        "__name__" : "up",
                        "job" : "node",
                        "instance" : "localhost:9100"
                    },
                    "value" : [ 1435781451.781, "0" ]
                }
            ]
        }
    }
    "#;

    let metric_1 = metric(&[("__name__", "up"), ("job", "prometheus"), ("instance", "localhost:9090")]);
    let metric_2 = metric(&[("__name__", "up"), ("job", "node"), ("instance", "localhost:9100")]);

    let res = QueryResult::decode(j).unwrap();
    assert_eq!(
        QueryResult::Error(QueryError {
            error_type: "Weird".to_string(),
            error_message: "This is a strange error".to_string(),
            data: Some(Data::Expression(Expression::Instant(vec![
                Instant { metric: metric_1, sample: num_sample("1435781451.781", "1") },
                Instant { metric: metric_2, sample: num_sample("1435781451.781", "0") },
            ]))),
            warnings: vec!["You timed out, foo".to_string()],
        }),
        res
    );
}

#[test]
fn should_deserialize_json_prom_scalar() {
    let j = r#"
    {
        "status": "success",
        "data": {
            "resultType": "scalar",
            "result": [1435781451.781, "1"]
        }
    }
    "#;

    let res = QueryResult::decode(j).unwrap();
    assert_eq!(
        QueryResult::Success(QuerySuccess {
            data: Some(Data::Expression(Expression::Scalar(num_sample("1435781451.781", "1")))),
            warnings: Vec::new(),
        }),
        res
    );
}

#[test]
fn should_deserialize_json_prom_scalar_with_warnings() {
    let j = r#"
    {
        "warnings": ["You timed out, foo"],
        "status": "success",
        "data": {
            "resultType": "scalar",
            "result": [1435781451.781, "1"]
        }
    }
    "#;

    let res = QueryResult::decode(j).unwrap();
    assert_eq!(
        QueryResult::Success(QuerySuccess {
            data: Some(Data::Expression(Expression::Scalar(num_sample("1435781451.781", "1")))),
            warnings: vec!["You timed out, foo".to_string()],
        }),
        res
    );
}

#[test]
fn should_deserialize_json_prom_string() {
    let j = r#"
    {
        "status": "success",
        "data": {
            "resultType": "string",
            "result": [1435781451.781, "foo"]
        }
    }
    "#;

    let res = QueryResult::decode(j).unwrap();
    assert_eq!(
        QueryResult::Success(QuerySuccess {
            data: Some(Data::Expression(Expression::Str(StringSample {
                epoch: "1435781451.781".to_string(),
                value: "foo".to_string(),
            }))),
            warnings: Vec::new(),
        }),
        res
    );
}

#[test]
fn should_deserialize_json_prom_vector() {
    let j = r#"
    {
        "status" : "success",
        "data" : {
            "resultType" : "vector",
            "result" : [
                {
                    "metric" : {
                        "__name__" : "up",
                        "job" : "prometheus",
                        "instance" : "localhost:9090"
                    },
                    "value": [ 1435781451.781, "1" ]
                },
                {
                    "metric" : {
                        "__name__" : "up",
                        "job" : "node",
                        "instance" : "localhost:9100"
                    },
                    "value" : [ 1435781451.781, "0" ]
                }
            ]
        }
    }
    "#;

    let metric_1 = metric(&[("__name__", "up"), ("job", "prometheus"), ("instance", "localhost:9090")]);
    let metric_2 = metric(&[("__name__", "up"), ("job", "node"), ("instance", "localhost:9100")]);

    let res = QueryResult::decode(j).unwrap();
    assert_eq!(
        QueryResult::Success(QuerySuccess {
            data: Some(Data::Expression(Expression::Instant(vec![
                Instant { metric: metric_1, sample: num_sample("1435781451.781", "1") },
                Instant { metric: metric_2, sample: num_sample("1435781451.781", "0") },
            ]))),
            warnings: Vec::new(),
        }),
        res
    );
}

#[test]
fn should_deserialize_json_prom_matrix() {
    let j = r#"
    {
        "status" : "success",
        "data" : {
            "resultType" : "matrix",
            "result" : [
                {
                    "metric" : {
                        "__name__" : "up",
                        "job" : "prometheus",
                        "instance" : "localhost:9090"
                    },
                    "values" : [
                       [ 1435781430.781, "1" ],
                       [ 1435781445.781, "1" ],
                       [ 1435781460.781, "1" ]
                    ]
                },
                {
                    "metric" : {
                        "__name__" : "up",
                        "job" : "node",
                        "instance" : "localhost:9091"
                    },
                    "values" : [
                       [ 1435781430.781, "0" ],
                       [ 1435781445.781, "0" ],
                       [ 1435781460.781, "1" ]
                    ]
                }
            ]
        }
    }
    "#;

    let metric_1 = metric(&[("__name__", "up"), ("job", "prometheus"), ("instance", "localhost:9090")]);
    let metric_2 = metric(&[("__name__", "up"), ("job", "node"), ("instance", "localhost:9091")]);

    let res = QueryResult::decode(j).unwrap();
    assert_eq!(
        QueryResult::Success(QuerySuccess {
            data: Some(Data::Expression(Expression::Range(vec![
                Range {
                    metric: metric_1,
                    samples: vec![
                        num_sample("1435781430.781", "1"),
                        num_sample("1435781445.781", "1"),
                        num_sample("1435781460.781", "1"),
                    ],
                },
                Range {
                    metric: metric_2,
                    samples: vec![
                        num_sample("1435781430.781", "0"),
                        num_sample("1435781445.781", "0"),
                        num_sample("1435781460.781", "1"),
                    ],
                },
            ]))),
            warnings: Vec::new(),
        }),
        res
    );
}

#[test]
fn messages_should_deserialize_json_error() {
    let j = r#"
    {
        "status": "error",
        "error": "Major",
        "errorType": "Seriously Bad"
    }
    "#;

    let res = QueryResult::decode(j).unwrap();
    assert_eq!(
        res,
        QueryResult::Error(QueryError {
            error_message: "Major".to_string(),
            error_type: "Seriously Bad".to_string(),
            data: None,
            warnings: Vec::new(),
        })
    );
}

#[test]
fn messages_should_deserialize_json_error_with_instant_and_warnings() {
    let j = r#"
    {
        "status": "error",
        "error": "This is a strange error",
        "errorType": "Weird",
        "warnings": [
            "You timed out, foo"
        ],
        "data" : {
            "resultType" : "vector",

            "result" : [
                {
                    "metric" : {
                        "__name__" : "up",
                        "job" : "prometheus",
                        "instance" : "localhost:9090"
                    },
                    "value": [ 1435781451.781, "1" ]
                },
                {
                    "metric" : {
                        "__name__" : "up",
                        "job" : "node",
                        "instance" : "localhost:9100"
                    },
                    "value" : [ 1435781451.781, "0" ]
                }
            ]
        }
    }
    "#;

    let metric_1 = metric(&[("__name__", "up"), ("job", "prometheus"), ("instance", "localhost:9090")]);
    let metric_2 = metric(&[("__name__", "up"), ("job", "node"), ("instance", "localhost:9100")]);

    let res = QueryResult::decode(j).unwrap();
    assert_eq!(
        res,
        QueryResult::Error(QueryError {
            error_type: "Weird".to_string(),
            error_message: "This is a strange error".to_string(),
            data: Some(Data::Expression(Expression::Instant(vec![
                Instant { metric: metric_1, sample: num_sample("1435781451.781", "1") },
                Instant { metric: metric_2, sample: num_sample("1435781451.781", "0") },
            ]))),
            warnings: vec!["You timed out, foo".to_string()],
        })
    );
}

#[test]
fn messages_should_deserialize_json_prom_scalar() {
    let j = r#"
    {
        "status": "success",
        "data": {
            "resultType": "scalar",
            "result": [1435781451.781, "1"]
        }
    }
    "#;

    let res = QueryResult::decode(j).unwrap();
    assert_eq!(
        res,
        QueryResult::Success(QuerySuccess {
            data: Some(Data::Expression(Expression::Scalar(num_sample("1435781451.781", "1")))),
            warnings: Vec::new(),
        })
    );
}

#[test]
fn messages_should_deserialize_json_prom_scalar_with_warnings() {
    let j = r#"
    {
        "warnings": ["You timed out, foo"],
        "status": "success",
        "data": {
            "resultType": "scalar",
            "result": [1435781451.781, "1"]
        }
    }
    "#;

    let res = QueryResult::decode(j).unwrap();
    assert_eq!(
        res,
        QueryResult::Success(QuerySuccess {
            data: Some(Data::Expression(Expression::Scalar(num_sample("1435781451.781", "1")))),
            warnings: vec!["You timed out, foo".to_string()],
        })
    );
}

#[test]
fn messages_should_deserialize_json_prom_string() {
    let j = r#"
    {
        "status": "success",
        "data": {
            "resultType": "string",
            "result": [1435781451.781, "foo"]
        }
    }
    "#;

    let res = QueryResult::decode(j).unwrap();
    assert_eq!(
        res,
        QueryResult::Success(QuerySuccess {
            data: Some(Data::Expression(Expression::Str(StringSample {
                epoch: "1435781451.781".to_string(),
                value: "foo".to_string(),
            }))),
            warnings: Vec::new(),
        })
    );
}

#[test]
fn messages_should_deserialize_json_prom_vector() {
    let j = r#"
    {
        "status" : "success",
        "data" : {
            "resultType" : "vector",
            "result" : [
                {
                    "metric" : {
                        "__name__" : "up",
                        "job" : "prometheus",
                        "instance" : "localhost:9090"
                    },
                    "value": [ 1435781451.781, "1" ]
                },
                {
                    "metric" : {
                        "__name__" : "up",
                        "job" : "node",
                        "instance" : "localhost:9100"
                    },
                    "value" : [ 1435781451.781, "0" ]
                }
            ]
        }
    }
    "#;

    let metric_1 = metric(&[("__name__", "up"), ("job", "prometheus"), ("instance", "localhost:9090")]);
    let metric_2 = metric(&[("__name__", "up"), ("job", "node"), ("instance", "localhost:9100")]);

    let res = QueryResult::decode(j).unwrap();
    assert_eq!(
        res,
        QueryResult::Success(QuerySuccess {
            data: Some(Data::Expression(Expression::Instant(vec![
                Instant { metric: metric_1, sample: num_sample("1435781451.781", "1") },
                Instant { metric: metric_2, sample: num_sample("1435781451.781", "0") },
            ]))),
            warnings: Vec::new(),
        })
    );
}

#[test]
fn messages_should_deserialize_json_prom_matrix() {
    let j = r#"
    {
        "status" : "success",
        "data" : {
            "resultType" : "matrix",
            "result" : [
                {
                    "metric" : {
                        "__name__" : "up",
                        "job" : "prometheus",
                        "instance" : "localhost:9090"
                    },
                    "values" : [
                       [ 1435781430.781, "1" ],
                       [ 1435781445.781, "1" ],
                       [ 1435781460.781, "1" ]
                    ]
                },
                {
                    "metric" : {
                        "__name__" : "up",
                        "job" : "node",
                        "instance" : "localhost:9091"
                    },
                    "values" : [
                       [ 1435781430.781, "0" ],
                       [ 1435781445.781, "0" ],
                       [ 1435781460.781, "1" ]
                    ]
                }
            ]
        }
    }
    "#;

    let metric_1 = metric(&[("__name__", "up"), ("job", "prometheus"), ("instance", "localhost:9090")]);
    let metric_2 = metric(&[("__name__", "up"), ("job", "node"), ("instance", "localhost:9091")]);

    let res = QueryResult::decode(j).unwrap();
    assert_eq!(
        res,
        QueryResult::Success(QuerySuccess {
            data: Some(Data::Expression(Expression::Range(vec![
                Range {
                    metric: metric_1,
                    samples: vec![
                        num_sample("1435781430.781", "1"),
                        num_sample("1435781445.781", "1"),
                        num_sample("1435781460.781", "1"),
                    ],
                },
                Range {
                    metric: metric_2,
                    samples: vec![
                        num_sample("1435781430.781", "0"),
                        num_sample("1435781445.781", "0"),
                        num_sample("1435781460.781", "1"),
                    ],
                },
            ]))),
            warnings: Vec::new(),
        })
    );
}

#[test]
fn should_deserialize_json_prom_labels() {
    let j = r#"
    {
        "status" : "success",
        "data" :[
            "__name__",
            "call",
            "code",
            "config",
            "dialer_name",
            "endpoint",
            "event",
            "goversion",
            "handler",
            "instance",
            "interval",
            "job",
            "le",
            "listener_name",
            "name",
            "quantile",
            "reason",
            "role",
            "scrape_job",
            "slice",
            "version"
        ]
    }
    "#;

    let res = QueryResult::decode(j).unwrap();
    assert_eq!(
        QueryResult::Success(QuerySuccess {
            data: Some(Data::LabelsOrValues(strings(&[
                "__name__",
                "call",
                "code",
                "config",
                "dialer_name",
                "endpoint",
                "event",
                "goversion",
                "handler",
                "instance",
                "interval",
                "job",
                "le",
                "listener_name",
                "name",
                "quantile",
                "reason",
                "role",
                "scrape_job",
                "slice",
                "version",
            ]))),
            warnings: Vec::new(),
        }),
        res
    );
}

#[test]
fn should_deserialize_json_prom_label_values() {
    let j = r#"
    {
        "status" : "success",
        "data" :[
            "node",
            "prometheus"
        ]
    }
    "#;

    let res = QueryResult::decode(j).unwrap();
    assert_eq!(
        QueryResult::Success(QuerySuccess {
            data: Some(Data::LabelsOrValues(strings(&["node", "prometheus"]))),
            warnings: Vec::new(),
        }),
        res
    );
}

#[test]
fn should_deserialize_json_prom_targets() {
    let j = r#"
    {
        "status": "success",
        "data": {
            "activeTargets": [
                {
                    "discoveredLabels": {
                        "__address__": "127.0.0.1:9090",
                        "__metrics_path__": "/metrics",
                        "__scheme__": "http",
                        "job": "prometheus"
                    },
                    "labels": {
                        "instance": "127.0.0.1:9090",
                        "job": "prometheus"
                    },
                    "scrapeUrl": "http://127.0.0.1:9090/metrics",
                    "lastError": "",
                    "lastScrape": "2017-01-17T15:07:44.723715405+01:00",
                    "health": "up"
                }
            ],
            "droppedTargets": [
                {
                    "discoveredLabels": {
                        "__address__": "127.0.0.1:9100",
                        "__metrics_path__": "/metrics",
                        "__scheme__": "http",
                        "job": "node"
                    }
                }
            ]
        }
    }
    "#;

    let res = QueryResult::decode(j).unwrap();
    assert_eq!(
        res,
        QueryResult::Success(QuerySuccess {
            data: Some(Data::Targets(Targets {
                active: vec![ActiveTarget {
                    discovered_labels: labels(&[
                        ("__address__", "127.0.0.1:9090"),
                        ("__metrics_path__", "/metrics"),
                        ("__scheme__", "http"),
                        ("job", "prometheus"),
                    ]),
                    labels: labels(&[("instance", "127.0.0.1:9090"), ("job", "prometheus")]),
                    scrape_url: "http://127.0.0.1:9090/metrics".to_string(),
                    last_error: None,
                    last_scrape: "2017-01-17T15:07:44.723715405+01:00".to_string(),
                    health: TargetHealth::Up,
                }],
                dropped: vec![DroppedTarget {
                    discovered_labels: labels(&[
                        ("__address__", "127.0.0.1:9100"),
                        ("__metrics_path__", "/metrics"),
                        ("__scheme__", "http"),
                        ("job", "node"),
                    ]),
                }],
            })),
            warnings: Vec::new(),
        })
    );
}

#[test]
fn should_deserialize_json_prom_alert_managers() {
    let j = r#"
    {
        "status": "success",
        "data": {
            "activeAlertmanagers": [
                {
                    "url": "http://127.0.0.1:9090/api/v1/alerts"
                }
            ],
            "droppedAlertmanagers": [
                {
                    "url": "http://127.0.0.1:9093/api/v1/alerts"
                }
            ]
        }
    }
    "#;

    let res = QueryResult::decode(j).unwrap();
    assert_eq!(
        QueryResult::Success(QuerySuccess {
            data: Some(Data::AlertManagers(AlertManagers {
                active: vec![AlertManager {
                    url: "http://127.0.0.1:9090/api/v1/alerts".to_string(),
                }],
                dropped: vec![AlertManager {
                    url: "http://127.0.0.1:9093/api/v1/alerts".to_string(),
                }],
            })),
            warnings: Vec::new(),
        }),
        res
    );
}

#[test]
fn should_deserialize_json_prom_flags() {
    let j = r#"
    {
        "status": "success",
        "data": {
            "alertmanager.notification-queue-capacity": "10000",
            "alertmanager.timeout": "10s",
            "log.level": "info",
            "query.lookback-delta": "5m",
            "query.max-concurrency": "20"
        }
    }
    "#;

    let res = QueryResult::decode(j).unwrap();
    assert_eq!(
        QueryResult::Success(QuerySuccess {
            data: Some(Data::Flags(labels(&[
                ("alertmanager.notification-queue-capacity", "10000"),
                ("alertmanager.timeout", "10s"),
                ("log.level", "info"),
                ("query.lookback-delta", "5m"),
                ("query.max-concurrency", "20"),
            ]))),
            warnings: Vec::new(),
        }),
        res
    );
}

#[test]
fn sentinel_tokens_decode_to_their_states() {
    for (token, expected) in [
        ("Inf", SampleValue::Inf),
        ("-Inf", SampleValue::NegInf),
        ("NaN", SampleValue::NaN),
    ] {
        let j = format!(
            r#"{{"status":"success","data":{{"resultType":"scalar","result":[1435781451.781,"{}"]}}}}"#,
            token
        );
        let res = QueryResult::decode(&j).unwrap();
        assert_eq!(
            res,
            QueryResult::Success(QuerySuccess {
                data: Some(Data::Expression(Expression::Scalar(Sample {
                    epoch: "1435781451.781".to_string(),
                    value: expected,
                }))),
                warnings: Vec::new(),
            })
        );
    }
}

#[test]
fn invalid_sample_token_is_rejected() {
    let j = r#"{"status":"success","data":{"resultType":"scalar","result":[1435781451.781,"not_a_number_but_not_the_token"]}}"#;
    match QueryResult::decode(j) {
        Err(DecodeError::InvalidSampleValue(t)) => {
            assert_eq!(t, "not_a_number_but_not_the_token");
        }
        other => panic!("expected an invalid sample value, got {:?}", other),
    }
}

#[test]
fn sample_round_trip_including_sentinels() {
    let values = [
        SampleValue::Inf,
        SampleValue::NegInf,
        SampleValue::NaN,
        SampleValue::Num("1".to_string()),
        SampleValue::Num("-2.5e3".to_string()),
    ];
    for value in values {
        let s = Sample { epoch: "1435781451.781".to_string(), value };
        let encoded = prometheus_query::encode::encode_sample(&s);
        let decoded = prometheus_query::decode::decode_sample(&encoded).unwrap();
        assert_eq!(decoded, s);
    }
}

#[test]
fn result_round_trip_is_structural_identity() {
    let bodies = [
        r#"{"status":"error","error":"Major","errorType":"Seriously Bad"}"#.to_string(),
        r#"{"status":"success","data":{"resultType":"scalar","result":[1435781451.781,"1"]}}"#
            .to_string(),
        r#"{"status":"success","data":{"activeAlertmanagers":[{"url":"http://127.0.0.1:9090/api/v1/alerts"}],"droppedAlertmanagers":[]}}"#
            .to_string(),
        r#"{"status":"success","data":["node","prometheus"],"warnings":["w"]}"#.to_string(),
        r#"{"status":"success","data":{"log.level":"info"}}"#.to_string(),
    ];
    for body in bodies {
        let first = QueryResult::decode(&body).unwrap();
        let encoded = first.encode();
        let second = QueryResult::decode(&encoded).unwrap();
        assert_eq!(first, second);
    }
}

#[test]
fn shape_dispatch_is_deterministic() {
    let j = r#"{"status":"success","data":{"a":"1","b":"2"}}"#;
    let first = QueryResult::decode(j).unwrap();
    let second = QueryResult::decode(j).unwrap();
    assert_eq!(first, second);
    assert!(matches!(
        first,
        QueryResult::Success(QuerySuccess { data: Some(Data::Flags(_)), .. })
    ));
}

#[test]
fn empty_array_reads_as_labels_or_values() {
    let j = r#"{"status":"success","data":[]}"#;
    let res = QueryResult::decode(j).unwrap();
    assert_eq!(
        res,
        QueryResult::Success(QuerySuccess {
            data: Some(Data::LabelsOrValues(Vec::new())),
            warnings: Vec::new(),
        })
    );
}

#[test]
fn series_shape_wins_over_strings_for_objects() {
    let j = r#"{"status":"success","data":[{"__name__":"up","job":"prometheus"}]}"#;
    let res = QueryResult::decode(j).unwrap();
    assert_eq!(
        res,
        QueryResult::Success(QuerySuccess {
            data: Some(Data::Series(vec![metric(&[
                ("__name__", "up"),
                ("job", "prometheus"),
            ])])),
            warnings: Vec::new(),
        })
    );
}

#[test]
fn omitted_dropped_targets_default_to_empty() {
    let j = r#"
    {
        "status": "success",
        "data": {
            "activeTargets": [
                {
                    "discoveredLabels": {"job": "prometheus"},
                    "labels": {"job": "prometheus"},
                    "scrapeUrl": "http://127.0.0.1:9090/metrics",
                    "lastError": "",
                    "lastScrape": "2017-01-17T15:07:44.723715405+01:00",
                    "health": "up"
                }
            ]
        }
    }
    "#;
    match QueryResult::decode(j).unwrap() {
        QueryResult::Success(QuerySuccess { data: Some(Data::Targets(t)), .. }) => {
            assert_eq!(t.active.len(), 1);
            assert_eq!(t.active[0].health, TargetHealth::Up);
            assert_eq!(t.active[0].last_error, None);
            assert!(t.dropped.is_empty());
        }
        other => panic!("expected targets, got {:?}", other),
    }
}

#[test]
fn unknown_key_in_targets_is_a_schema_violation() {
    let j = r#"{"status":"success","data":{"activeTargets":[],"surpriseKey":[]}}"#;
    match QueryResult::decode(j) {
        Err(DecodeError::SchemaViolation(k)) => assert_eq!(k, "surpriseKey"),
        other => panic!("expected a schema violation, got {:?}", other),
    }
}

#[test]
fn duplicate_alert_manager_url_is_rejected() {
    let j = r#"{"status":"success","data":{"activeAlertmanagers":[{"url":"http://a/x","url":"http://b/y"}],"droppedAlertmanagers":[]}}"#;
    assert!(matches!(
        QueryResult::decode(j),
        Err(DecodeError::SchemaViolation(_))
    ));
}

#[test]
fn missing_alert_manager_url_is_rejected() {
    let j = r#"{"status":"success","data":{"activeAlertmanagers":[{}],"droppedAlertmanagers":[]}}"#;
    assert!(matches!(
        QueryResult::decode(j),
        Err(DecodeError::SchemaViolation(_))
    ));
}

#[test]
fn invalid_scrape_url_is_rejected() {
    let j = r#"
    {
        "status": "success",
        "data": {
            "activeTargets": [
                {
                    "discoveredLabels": {"job": "prometheus"},
                    "labels": {"job": "prometheus"},
                    "scrapeUrl": "not a url at all",
                    "lastError": "",
                    "lastScrape": "2017-01-17T15:07:44.723715405+01:00",
                    "health": "up"
                }
            ]
        }
    }
    "#;
    match QueryResult::decode(j) {
        Err(DecodeError::InvalidFieldValue(f)) => assert_eq!(f, "scrapeUrl"),
        other => panic!("expected an invalid field value, got {:?}", other),
    }
}

#[test]
fn invalid_last_scrape_timestamp_is_rejected() {
    let j = r#"
    {
        "status": "success",
        "data": {
            "activeTargets": [
                {
                    "discoveredLabels": {"job": "prometheus"},
                    "labels": {"job": "prometheus"},
                    "scrapeUrl": "http://127.0.0.1:9090/metrics",
                    "lastError": "",
                    "lastScrape": "yesterday at noon",
                    "health": "up"
                }
            ]
        }
    }
    "#;
    match QueryResult::decode(j) {
        Err(DecodeError::InvalidFieldValue(f)) => assert_eq!(f, "lastScrape"),
        other => panic!("expected an invalid field value, got {:?}", other),
    }
}

#[test]
fn malformed_json_is_reported() {
    assert!(matches!(
        QueryResult::decode("{"),
        Err(DecodeError::MalformedJson(_))
    ));
    assert!(matches!(
        QueryResult::decode(r#"{"status":"success"} trailing"#),
        Err(DecodeError::MalformedJson(_))
    ));
}

#[test]
fn malformed_envelope_is_reported() {
    assert!(matches!(
        QueryResult::decode(r#"{"data":[]}"#),
        Err(DecodeError::MalformedEnvelope(_))
    ));
    assert!(matches!(
        QueryResult::decode(r#"{"status":"partial"}"#),
        Err(DecodeError::MalformedEnvelope(_))
    ));
    assert!(matches!(
        QueryResult::decode(r#"{"status":"error","errorType":"x"}"#),
        Err(DecodeError::MalformedEnvelope(_))
    ));
    assert!(matches!(
        QueryResult::decode(r#"[1,2]"#),
        Err(DecodeError::MalformedEnvelope(_))
    ));
}

#[test]
fn unrecognized_result_type_names_the_token() {
    let j = r#"{"status":"success","data":{"resultType":"histogram","result":[]}}"#;
    match QueryResult::decode(j) {
        Err(DecodeError::UnrecognizedResultType(t)) => assert_eq!(t, "histogram"),
        other => panic!("expected an unrecognized result type, got {:?}", other),
    }
}

#[test]
fn unrecognized_data_shape_is_reported() {
    assert!(matches!(
        QueryResult::decode(r#"{"status":"success","data":7}"#),
        Err(DecodeError::UnrecognizedDataShape(_))
    ));
    assert!(matches!(
        QueryResult::decode(r#"{"status":"success","data":{"n":7}}"#),
        Err(DecodeError::UnrecognizedDataShape(_))
    ));
}

#[test]
fn sample_arity_mismatch_is_reported() {
    assert!(matches!(
        QueryResult::decode(
            r#"{"status":"success","data":{"resultType":"scalar","result":[1435781451.781]}}"#
        ),
        Err(DecodeError::ArityMismatch(_))
    ));
    assert!(matches!(
        QueryResult::decode(
            r#"{"status":"success","data":{"resultType":"scalar","result":[1,"2","3"]}}"#
        ),
        Err(DecodeError::ArityMismatch(_))
    ));
}

#[test]
fn null_data_reads_as_absent() {
    let j = r#"{"status":"success","data":null}"#;
    let res = QueryResult::decode(j).unwrap();
    assert_eq!(
        res,
        QueryResult::Success(QuerySuccess { data: None, warnings: Vec::new() })
    );
}

#[test]
fn encode_produces_the_exact_envelope_text() {
    let r = QueryResult::Error(QueryError {
        error_type: "Seriously Bad".to_string(),
        error_message: "Major".to_string(),
        data: None,
        warnings: Vec::new(),
    });
    assert_eq!(
        r.encode(),
        r#"{"status":"error","errorType":"Seriously Bad","error":"Major"}"#
    );

    let s = QueryResult::Success(QuerySuccess {
        data: Some(Data::Expression(Expression::Scalar(num_sample("1435781451.781", "1")))),
        warnings: Vec::new(),
    });
    assert_eq!(
        s.encode(),
        r#"{"status":"success","data":{"resultType":"scalar","result":[1435781451.781,"1"]}}"#
    );
}

#[test]
fn string_escapes_decode_and_round_trip() {
    let j = "{\"status\":\"success\",\"data\":[\"\\u0041\\n\\\"x\\\\\",\"\\uD83D\\uDE00\"]}";
    let res = QueryResult::decode(j).unwrap();
    assert_eq!(
        res,
        QueryResult::Success(QuerySuccess {
            data: Some(Data::LabelsOrValues(vec![
                "A\n\"x\\".to_string(),
                "\u{1F600}".to_string(),
            ])),
            warnings: Vec::new(),
        })
    );
    let encoded = match &res {
        QueryResult::Success(_) => res.encode(),
        _ => unreachable!(),
    };
    let again = QueryResult::decode(&encoded).unwrap();
    assert_eq!(res, again);
}

#[test]
fn epoch_must_be_a_json_number_token() {
    let bad = Json::Arr(vec![
        Json::Num("01".to_string()),
        Json::Str("1".to_string()),
    ]);
    assert!(matches!(
        prometheus_query::decode::decode_sample(&bad),
        Err(DecodeError::InvalidSampleValue(_))
    ));

    let good = Json::Arr(vec![
        Json::Num("1e3".to_string()),
        Json::Str("0.5".to_string()),
    ]);
    let s = prometheus_query::decode::decode_sample(&good).unwrap();
    assert_eq!(s, num_sample("1e3", "0.5"));
}

#[test]
fn health_tokens_map_to_states() {
    for (token, expected) in [
        ("\"up\"", TargetHealth::Up),
        ("\"down\"", TargetHealth::Down),
        ("\"sideways\"", TargetHealth::Unknown),
        ("null", TargetHealth::Unknown),
    ] {
        let j = format!(
            r#"{{"status":"success","data":{{"activeTargets":[{{"discoveredLabels":{{}},"labels":{{}},"scrapeUrl":"http://127.0.0.1:9090/metrics","lastError":"boom","lastScrape":"2017-01-17T15:07:44.723715405+01:00","health":{}}}]}}}}"#,
            token
        );
        match QueryResult::decode(&j).unwrap() {
            QueryResult::Success(QuerySuccess { data: Some(Data::Targets(t)), .. }) => {
                assert_eq!(t.active[0].health, expected);
                assert_eq!(t.active[0].last_error, Some("boom".to_string()));
            }
            other => panic!("expected targets, got {:?}", other),
        }
    }
}

fn value_as_f64(v: &SampleValue) -> f64 {
    match v {
        SampleValue::Inf => f64::INFINITY,
        SampleValue::NegInf => f64::NEG_INFINITY,
        SampleValue::NaN => f64::NAN,
        SampleValue::Num(t) => t.parse().unwrap(),
    }
}

#[test]
fn sample_values_carry_their_ieee_readings() {
    let j = r#"{"status":"success","data":{"resultType":"matrix","result":[{"metric":{},"values":[[1,"Inf"],[2,"-Inf"],[3,"NaN"],[4,"1"],[5,"-2.5e3"],[6,"0.781"]]}]}}"#;
    match QueryResult::decode(j).unwrap() {
        QueryResult::Success(QuerySuccess {
            data: Some(Data::Expression(Expression::Range(rs))),
            ..
        }) => {
            let vs: Vec<f64> = rs[0].samples.iter().map(|s| value_as_f64(&s.value)).collect();
            assert!(vs[0].is_infinite() && vs[0] > 0.0);
            assert!(vs[1].is_infinite() && vs[1] < 0.0);
            assert!(vs[2].is_nan());
            assert_eq!(vs[3], 1.0);
            assert_eq!(vs[4], -2500.0);
            assert_eq!(vs[5], 0.781);
        }
        other => panic!("expected a matrix, got {:?}", other),
    }
}
