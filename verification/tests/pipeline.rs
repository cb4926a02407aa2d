use metrics_report::batch::{process_batch, LogLine, RunInput, RunListing};
use metrics_report::decimal::Decimal;
use metrics_report::ident::{extract_dataset_number, NameError};
use metrics_report::metrics::{parse_metrics_bytes, MetricsError};
use metrics_report::report::render_report;
use metrics_report::scan::{build_scan_result, filter_run_names, RunStatus};
use metrics_report::walk::{walk_results, DatasetDir, ModelDir, WalkEvent};

fn dec_value(d: &Decimal) -> f64 {
    let sign = if d.neg { -1.0 } else { 1.0 };
    sign * (d.mantissa as f64) * 10f64.powi(d.exp)
}

fn metrics_header() -> String {
    "test/MeanIoU,test/BinaryF1Score,test/BinaryAccuracy,test/BinarySpecificity,test/BinaryRecall,test/Dice,test/BinaryPrecision,Parameters,FLOPs".to_string()
}

fn metrics_row(seed: f64) -> String {
    format!(
        "{},{},{},{},{},{},{},{},{}",
        seed,
        seed + 0.01,
        seed + 0.02,
        seed + 0.03,
        seed + 0.04,
        seed + 0.05,
        seed + 0.06,
        31042754.0,
        45600000000.0
    )
}

fn metrics_file(rows: &[String]) -> Vec<u8> {
    let mut text = metrics_header();
    for r in rows {
        text.push('\n');
        text.push_str(r);
    }
    text.into_bytes()
}

#[test]
fn plain_numeric_name_yields_its_digits() {
    assert_eq!(extract_dataset_number("leaf-12"), Ok(12));
    assert_eq!(extract_dataset_number("kvasir-3"), Ok(3));
    assert_eq!(extract_dataset_number("a-0"), Ok(0));
}

#[test]
fn suffixed_name_ignores_the_suffix() {
    assert_eq!(extract_dataset_number("leaf-12_v2"), Ok(12));
    assert_eq!(extract_dataset_number("ds-7_retrain_final"), Ok(7));
}

#[test]
fn name_without_separator_is_invalid() {
    assert_eq!(
        extract_dataset_number("nodash"),
        Err(NameError::InvalidNameFormat)
    );
    assert_eq!(extract_dataset_number(""), Err(NameError::InvalidNameFormat));
}

#[test]
fn unparsable_number_segment_fails() {
    assert_eq!(
        extract_dataset_number("leaf-x2"),
        Err(NameError::NumberParseError)
    );
    assert_eq!(
        extract_dataset_number("leaf-99999999999"),
        Err(NameError::NumberParseError)
    );
    assert_eq!(extract_dataset_number("a-"), Err(NameError::NumberParseError));
}

#[test]
fn run_folders_are_filtered_and_sorted_numerically() {
    let dirs = vec![
        "run2".to_string(),
        "run10".to_string(),
        "run1".to_string(),
        "notes".to_string(),
        "run3x".to_string(),
    ];
    let names = filter_run_names(dirs);
    assert_eq!(names, vec!["run2".to_string(), "run10".to_string(), "run1".to_string()]);
    let flags = vec![true, false, true];
    let scan = build_scan_result(names, flags);
    assert_eq!(scan.total, 3);
    let got: Vec<&str> = scan.folders.iter().map(|f| f.name.as_str()).collect();
    assert_eq!(got, vec!["run1", "run2", "run10"]);
    assert!(scan.folders[0].has_results);
    assert!(matches!(scan.folders[0].status, RunStatus::Complete));
    assert!(!scan.folders[2].has_results);
    assert!(matches!(scan.folders[2].status, RunStatus::Incomplete));
}

#[test]
fn last_row_is_the_one_parsed() {
    let rows = vec![metrics_row(0.11), metrics_row(0.22), metrics_row(0.33)];
    let bytes = metrics_file(&rows);
    let rec = parse_metrics_bytes(&bytes, &"m".to_string(), &"d-1".to_string()).unwrap();
    assert!((dec_value(&rec.miou) - 33.0).abs() < 1e-9);
    assert!((dec_value(&rec.f1_score) - 34.0).abs() < 1e-9);
    assert!((dec_value(&rec.dsc) - 38.0).abs() < 1e-9);
    assert!((dec_value(&rec.parameters_m) - 31.042754).abs() < 1e-9);
    assert!((dec_value(&rec.flops_g) - 45.6).abs() < 1e-9);
}

#[test]
fn scientific_notation_and_signs_parse() {
    let row = "8.123e-1,0.2,0.3,0.4,0.5,0.6,0.7,1.5e7,2E9".to_string();
    let bytes = metrics_file(&[row]);
    let rec = parse_metrics_bytes(&bytes, &"m".to_string(), &"d-1".to_string()).unwrap();
    assert!((dec_value(&rec.miou) - 81.23).abs() < 1e-9);
    assert!((dec_value(&rec.parameters_m) - 15.0).abs() < 1e-9);
    assert!((dec_value(&rec.flops_g) - 2.0).abs() < 1e-9);
}

#[test]
fn empty_file_and_missing_column_errors() {
    let bytes = metrics_file(&[]);
    let r = parse_metrics_bytes(&bytes, &"m".to_string(), &"d-1".to_string());
    assert!(matches!(r, Err(MetricsError::EmptyFile)));

    let text = "test/MeanIoU,Parameters\n0.5,1000000".to_string();
    let r2 = parse_metrics_bytes(&text.into_bytes(), &"m".to_string(), &"d-1".to_string());
    assert!(matches!(r2, Err(MetricsError::ColumnNotFound(1))));
}

#[test]
fn unparsable_cell_is_an_error() {
    let row = "oops,0.2,0.3,0.4,0.5,0.6,0.7,1,2".to_string();
    let bytes = metrics_file(&[row]);
    let r = parse_metrics_bytes(&bytes, &"m".to_string(), &"d-1".to_string());
    assert!(matches!(r, Err(MetricsError::ValueParse(0))));
}

#[test]
fn duplicate_header_reads_the_rightmost() {
    let text = format!("{},test/MeanIoU\n{},0.9", metrics_header(), metrics_row(0.5));
    let rec = parse_metrics_bytes(&text.into_bytes(), &"m".to_string(), &"d-1".to_string()).unwrap();
    assert!((dec_value(&rec.miou) - 90.0).abs() < 1e-9);
}

#[test]
fn walk_sorts_datasets_and_skips_failures() {
    let models = vec![ModelDir {
        name: "modelA".to_string(),
        datasets: vec![
            DatasetDir {
                name: "ds-10".to_string(),
                metrics: Some(metrics_file(&[metrics_row(0.10)])),
            },
            DatasetDir {
                name: "ds-2".to_string(),
                metrics: Some(metrics_file(&[metrics_row(0.20)])),
            },
            DatasetDir { name: "ds-5".to_string(), metrics: None },
            DatasetDir {
                name: "ds-1_v2".to_string(),
                metrics: Some("test/MeanIoU\n0.5".to_string().into_bytes()),
            },
        ],
    }];
    let (records, events) = walk_results(models);
    // ds-1_v2 fails on a missing column, ds-5 has no file; ds-2 and ds-10
    // survive, in ascending identifier order.
    let got: Vec<&str> = records.iter().map(|r| r.dataset.as_str()).collect();
    assert_eq!(got, vec!["ds-2", "ds-10"]);
    assert_eq!(events.len(), 2);
    assert!(matches!(
        &events[0],
        WalkEvent::ParseFailed { dataset, .. } if dataset == "ds-1_v2"
    ));
    assert!(matches!(
        &events[1],
        WalkEvent::MissingMetrics { dataset, .. } if dataset == "ds-5"
    ));
}

#[test]
fn sibling_dataset_survives_a_missing_column() {
    let models = vec![ModelDir {
        name: "modelA".to_string(),
        datasets: vec![
            DatasetDir {
                name: "ds-1".to_string(),
                metrics: Some("test/MeanIoU\n0.5".to_string().into_bytes()),
            },
            DatasetDir {
                name: "ds-2".to_string(),
                metrics: Some(metrics_file(&[metrics_row(0.40)])),
            },
        ],
    }];
    let (records, events) = walk_results(models);
    assert_eq!(records.len(), 1);
    assert_eq!(records[0].dataset, "ds-2");
    assert_eq!(events.len(), 1);
    assert!(matches!(
        &events[0],
        WalkEvent::ParseFailed { dataset, error, .. }
            if dataset == "ds-1" && *error == MetricsError::ColumnNotFound(1)
    ));
}

#[test]
fn batch_scenario_yields_scaled_percentage() {
    // run1/results/modelA/ds-1/result/metrics.csv with test/MeanIoU=0.8123
    let row = "0.8123,0.2,0.3,0.4,0.5,0.6,0.7,31042754,45600000000".to_string();
    let runs = vec![RunInput {
        name: "run1".to_string(),
        listing: RunListing::Tree {
            models: vec![ModelDir {
                name: "modelA".to_string(),
                datasets: vec![DatasetDir {
                    name: "ds-1".to_string(),
                    metrics: Some(metrics_file(&[row])),
                }],
            }],
        },
    }];
    let outcome = process_batch("/base".to_string(), vec!["run1".to_string()], runs);
    assert_eq!(outcome.records.len(), 1);
    assert_eq!(outcome.processed, 1);
    assert!(outcome.write_needed);
    let rec = &outcome.records[0];
    assert_eq!(rec.model, "modelA");
    assert_eq!(rec.dataset, "ds-1");
    assert!((dec_value(&rec.miou) - 81.23).abs() < 0.01);
}

#[test]
fn empty_model_directory_means_nothing_processed() {
    let runs = vec![RunInput {
        name: "run1".to_string(),
        listing: RunListing::Tree {
            models: vec![ModelDir { name: "modelA".to_string(), datasets: vec![] }],
        },
    }];
    let outcome = process_batch("/base".to_string(), vec!["run1".to_string()], runs);
    assert!(outcome.records.is_empty());
    assert!(!outcome.write_needed);
    assert!(matches!(outcome.log.last(), Some(LogLine::NothingProcessed)));
}

#[test]
fn skipped_runs_are_logged_and_do_not_stop_the_batch() {
    let row = metrics_row(0.5);
    let runs = vec![
        RunInput { name: "run1".to_string(), listing: RunListing::MissingResults },
        RunInput { name: "run2".to_string(), listing: RunListing::OutputDirFailed },
        RunInput {
            name: "run3".to_string(),
            listing: RunListing::ListFailed { message: "unreadable".to_string() },
        },
        RunInput {
            name: "run4".to_string(),
            listing: RunListing::Tree {
                models: vec![ModelDir {
                    name: "m".to_string(),
                    datasets: vec![DatasetDir {
                        name: "d-1".to_string(),
                        metrics: Some(metrics_file(&[row])),
                    }],
                }],
            },
        },
    ];
    let outcome = process_batch("/base".to_string(), vec![], runs);
    assert_eq!(outcome.processed, 1);
    assert_eq!(outcome.records.len(), 1);
    assert!(outcome.write_needed);
    assert!(outcome
        .log
        .iter()
        .any(|l| matches!(l, LogLine::SkippedNoResults { name } if name == "run1")));
    assert!(outcome
        .log
        .iter()
        .any(|l| matches!(l, LogLine::OutputDirError { name } if name == "run2")));
    assert!(outcome
        .log
        .iter()
        .any(|l| matches!(l, LogLine::WalkFailed { name, .. } if name == "run3")));
    assert!(outcome
        .log
        .iter()
        .any(|l| matches!(l, LogLine::RunDone { name } if name == "run4")));
}

#[test]
fn report_round_trips_through_csv() {
    let rows = vec![metrics_row(0.11), metrics_row(0.87654321)];
    let bytes_a = metrics_file(&[rows[0].clone()]);
    let bytes_b = metrics_file(&[rows[1].clone()]);
    let rec_a = parse_metrics_bytes(&bytes_a, &"mA".to_string(), &"d-1".to_string()).unwrap();
    let rec_b = parse_metrics_bytes(&bytes_b, &"mB".to_string(), &"d-2".to_string()).unwrap();
    let originals = [
        (
            "mA",
            "d-1",
            [
                dec_value(&rec_a.miou),
                dec_value(&rec_a.f1_score),
                dec_value(&rec_a.accuracy),
                dec_value(&rec_a.specificity),
                dec_value(&rec_a.sensitivity),
                dec_value(&rec_a.dsc),
                dec_value(&rec_a.precision),
                dec_value(&rec_a.parameters_m),
                dec_value(&rec_a.flops_g),
            ],
        ),
        (
            "mB",
            "d-2",
            [
                dec_value(&rec_b.miou),
                dec_value(&rec_b.f1_score),
                dec_value(&rec_b.accuracy),
                dec_value(&rec_b.specificity),
                dec_value(&rec_b.sensitivity),
                dec_value(&rec_b.dsc),
                dec_value(&rec_b.precision),
                dec_value(&rec_b.parameters_m),
                dec_value(&rec_b.flops_g),
            ],
        ),
    ];
    let records = vec![rec_a, rec_b];
    let bytes = render_report(&records).unwrap();
    let mut rdr = csv::Reader::from_reader(bytes.as_slice());
    let headers: Vec<String> = rdr.headers().unwrap().iter().map(|s| s.to_string()).collect();
    assert_eq!(
        headers,
        vec![
            "model",
            "dataset",
            "Miou",
            "F1_score",
            "Accuracy",
            "Specificity",
            "Sensitivity",
            "DSC",
            "Precision",
            "Parameters(M)",
            "FLOPS(G)"
        ]
    );
    let read: Vec<Vec<String>> = rdr
        .records()
        .map(|r| r.unwrap().iter().map(|s| s.to_string()).collect())
        .collect();
    assert_eq!(read.len(), 2);
    for (row, (model, dataset, values)) in read.iter().zip(originals.iter()) {
        assert_eq!(&row[0], model);
        assert_eq!(&row[1], dataset);
        for (cell, expected) in row[2..].iter().zip(values.iter()) {
            let got: f64 = cell.parse().unwrap();
            assert!((got - expected).abs() < 1e-9, "{} vs {}", got, expected);
        }
    }
}

#[test]
fn negative_and_zero_values_format_plainly() {
    let row = "-0.5,0,0.25,1,0.5,0.5,0.5,0,1e9".to_string();
    let bytes = metrics_file(&[row]);
    let rec = parse_metrics_bytes(&bytes, &"m".to_string(), &"d-1".to_string()).unwrap();
    assert!((dec_value(&rec.miou) + 50.0).abs() < 1e-9);
    assert!(dec_value(&rec.f1_score) == 0.0);
    let records = vec![rec];
    let bytes = render_report(&records).unwrap();
    let text = String::from_utf8(bytes).unwrap();
    let line = text.lines().nth(1).unwrap();
    let cells: Vec<&str> = line.split(',').collect();
    assert_eq!(cells[2].parse::<f64>().unwrap(), -50.0);
    assert_eq!(cells[3].parse::<f64>().unwrap(), 0.0);
    assert_eq!(cells[10].parse::<f64>().unwrap(), 1.0);
}

#[test]
fn negative_identifier_after_double_dash() {
    // the segment after the first `-` may itself begin with a sign
    assert_eq!(extract_dataset_number("a--5"), Ok(-5));
    assert_eq!(extract_dataset_number("a-+7"), Ok(7));
}

#[test]
fn oversized_run_number_sorts_as_zero() {
    let names = vec!["run5".to_string(), "run99999999999999".to_string()];
    let flags = vec![false, false];
    let scan = build_scan_result(names, flags);
    let got: Vec<&str> = scan.folders.iter().map(|f| f.name.as_str()).collect();
    assert_eq!(got, vec!["run99999999999999", "run5"]);
}

#[test]
fn dataset_with_unparsable_identifier_sorts_first() {
    let models = vec![ModelDir {
        name: "m".to_string(),
        datasets: vec![
            DatasetDir {
                name: "ds-3".to_string(),
                metrics: Some(metrics_file(&[metrics_row(0.1)])),
            },
            DatasetDir {
                name: "plain".to_string(),
                metrics: Some(metrics_file(&[metrics_row(0.2)])),
            },
        ],
    }];
    let (records, events) = walk_results(models);
    assert!(events.is_empty());
    let got: Vec<&str> = records.iter().map(|r| r.dataset.as_str()).collect();
    assert_eq!(got, vec!["plain", "ds-3"]);
}
