use esnode_core::replay::{block_selected, sample_selected, parse_metric_filters, export_line_head, labels_hash, matches_metric, metrics_match_index, overlaps, timestamp_in_range};
use esnode_core::tsdb::{BufferState, Sample};

fn sample(metric: &str, labels: &[(&str, &str)], ts: i64, value: f64) -> Sample {
    Sample {
        metric: metric.to_string(),
        labels: labels.iter().map(|(k, v)| (k.to_string(), v.to_string())).collect(),
        ts_ms: ts,
        value_bits: value.to_bits(),
    }
}

#[test]
fn replay_filter_selects_prefix_and_renders_sorted_labels() {
    let gpu = sample("gpu_power", &[("uuid", "U"), ("index", "0")], 100, 120.0);
    let cpu = sample("cpu_load", &[], 150, 2.0);
    let filters = vec![String::from("gpu_*")];
    let mut out = Vec::new();
    for s in [&gpu, &cpu] {
        if timestamp_in_range(s.ts_ms, Some(0), Some(200)) && matches_metric(&s.metric, &filters) {
            out.push(format!("{} {:.6}", export_line_head(s), f64::from_bits(s.value_bits)));
        }
    }
    assert_eq!(out.len(), 1);
    assert!(out[0].starts_with("gpu_power{index=\"0\",uuid=\"U\"} 100 120.000000"));
}

#[test]
fn line_without_labels_has_no_braces() {
    let s = sample("cpu_load", &[], -5, 2.0);
    assert_eq!(export_line_head(&s), "cpu_load -5");
}

#[test]
fn exact_and_wildcard_filters() {
    let f = vec![String::from("cpu_load")];
    assert!(matches_metric("cpu_load", &f));
    assert!(!matches_metric("cpu_load_5m", &f));
    let w = vec![String::from("cpu**")];
    assert!(matches_metric("cpu_load_5m", &w));
    assert!(!matches_metric("gpu", &w));
    assert!(matches_metric("anything", &vec![String::from("*")]));
    assert!(!matches_metric("x", &Vec::new()));
}

#[test]
fn range_checks_are_inclusive() {
    assert!(timestamp_in_range(100, Some(100), Some(100)));
    assert!(!timestamp_in_range(99, Some(100), None));
    assert!(timestamp_in_range(99, None, None));
    assert!(overlaps(0, 7_200_000, Some(7_200_000), Some(0)));
    assert!(!overlaps(0, 7_200_000, Some(7_200_001), None));
    assert!(!overlaps(7_200_000, 14_400_000, None, Some(7_199_999)));
}

#[test]
fn index_check_skips_blocks_without_requested_names() {
    let mut state = BufferState::new();
    state.place(&String::from("cpu_load"), 10, 0);
    let meta = state.snapshot().expect("open block");
    assert!(metrics_match_index(&vec![String::from("cpu_*")], meta));
    assert!(metrics_match_index(&vec![String::from("cpu_load")], meta));
    assert!(!metrics_match_index(&vec![String::from("gpu_*")], meta));
}

#[test]
fn written_sample_is_found_by_its_own_query() {
    let mut state = BufferState::new();
    let name = String::from("gpu_power");
    state.place(&name, 4_321, 0);
    let meta = state.snapshot().expect("open block");
    let filters = vec![name.clone()];
    assert!(overlaps(meta.start_ms, meta.end_ms, Some(4_321), Some(4_321)));
    assert!(metrics_match_index(&filters, meta));
    assert!(timestamp_in_range(4_321, Some(4_321), Some(4_321)));
    assert!(matches_metric(&name, &filters));
}

#[test]
fn label_hash_ignores_listing_order() {
    let a = sample("m", &[("a", "1"), ("b", "2")], 0, 0.0);
    let b = sample("m", &[("b", "2"), ("a", "1")], 0, 0.0);
    let c = sample("m", &[("a", "1"), ("b", "3")], 0, 0.0);
    assert_eq!(labels_hash(&a.labels), labels_hash(&b.labels));
    assert_ne!(labels_hash(&a.labels), labels_hash(&c.labels));
    assert_eq!(export_line_head(&a), export_line_head(&b));
}

#[test]
fn metric_filter_parameter_is_split_and_trimmed() {
    assert_eq!(parse_metric_filters(" gpu_* , ,cpu_load,"), vec![String::from("gpu_*"), String::from("cpu_load")]);
    assert!(parse_metric_filters("").is_empty());
}

#[test]
fn replay_selection_of_blocks_and_samples() {
    let mut state = BufferState::new();
    state.place(&String::from("cpu_load"), 10, 0);
    let meta = state.snapshot().expect("open block");
    let gpu = vec![String::from("gpu_*")];
    assert!(!block_selected(0, 7_200_000, Some(meta), None, None, Some(&gpu)));
    assert!(block_selected(0, 7_200_000, None, None, None, Some(&gpu)));
    assert!(!block_selected(0, 7_200_000, Some(meta), Some(8_000_000), None, None));
    assert!(sample_selected("gpu_power", 100, Some(0), Some(200), Some(&gpu)));
    assert!(!sample_selected("cpu_load", 150, Some(0), Some(200), Some(&gpu)));
    assert!(!sample_selected("gpu_power", 300, Some(0), Some(200), None));
}
