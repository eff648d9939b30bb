//! Tests of the query-pipeline compiler.

use fanout::query::{
    compile, field_reference, normalize_params, FieldCond, GroupKey, SortOrder, Stage,
    DEFAULT_LIMIT, FALLBACK_LIMIT,
};

fn params(entries: &[(&str, &str)]) -> Vec<(String, String)> {
    entries.iter().map(|(k, v)| (k.to_string(), v.to_string())).collect()
}

const NOW: u64 = 1_700_000_000;

fn limit_value(stages: &[Stage]) -> Option<i64> {
    stages.iter().find_map(|s| match s {
        Stage::Limit(n) => Some(*n),
        _ => None,
    })
}

fn skip_value(stages: &[Stage]) -> Option<i64> {
    stages.iter().find_map(|s| match s {
        Stage::Skip(n) => Some(*n),
        _ => None,
    })
}

#[test]
fn limit_in_range_is_taken() {
    for v in ["1", "10", "999", "1000"] {
        let p = params(&[("$limit", v)]);
        let stages = compile(&p, NOW);
        assert_eq!(limit_value(&stages), Some(v.parse::<i64>().unwrap()));
    }
}

#[test]
fn limit_out_of_range_falls_back() {
    for v in ["0", "1001", "-5", "99999999999999999999"] {
        let p = params(&[("$limit", v)]);
        let stages = compile(&p, NOW);
        let expected = if v.parse::<i64>().is_ok() {
            FALLBACK_LIMIT
        } else {
            DEFAULT_LIMIT
        };
        assert_eq!(limit_value(&stages), Some(expected), "value {v}");
    }
}

#[test]
fn limit_unparsable_or_absent_keeps_default() {
    let p = params(&[("$limit", "abc")]);
    assert_eq!(limit_value(&compile(&p, NOW)), Some(100));
    let p = params(&[("status", "ok")]);
    assert_eq!(limit_value(&compile(&p, NOW)), Some(100));
}

#[test]
fn skip_in_range_is_taken() {
    for v in ["1", "500", "1000"] {
        let p = params(&[("$skip", v)]);
        let stages = compile(&p, NOW);
        assert_eq!(stages.len(), 5);
        assert_eq!(skip_value(&stages), Some(v.parse::<i64>().unwrap()));
    }
}

#[test]
fn skip_out_of_range_is_zero() {
    for v in ["0", "1001", "-3"] {
        let p = params(&[("$skip", v)]);
        assert_eq!(skip_value(&compile(&p, NOW)), Some(0), "value {v}");
    }
}

#[test]
fn skip_unparsable_or_absent_adds_no_stage() {
    let p = params(&[("$skip", "zz")]);
    let stages = compile(&p, NOW);
    assert_eq!(stages.len(), 4);
    assert_eq!(skip_value(&stages), None);
    let stages = compile(&params(&[]), NOW);
    assert_eq!(stages.len(), 4);
    assert_eq!(skip_value(&stages), None);
}

fn time_bounds(stages: &[Stage]) -> (i64, Option<i64>) {
    match &stages[0] {
        Stage::Match(m) => {
            let t = m.time.as_ref().expect("time filter present");
            (t.lower, t.upper)
        }
        _ => panic!("first stage must be a match"),
    }
}

#[test]
fn default_lower_bound_is_one_hour_before_now() {
    let stages = compile(&params(&[]), NOW);
    let (lower, upper) = time_bounds(&stages);
    assert_eq!(lower, NOW as i64 - 3600);
    assert_eq!(upper, None);
}

#[test]
fn explicit_gt_sets_exact_lower_bound() {
    let p = params(&[("$gt", "1700000000")]);
    let (lower, _) = time_bounds(&compile(&p, NOW + 999));
    assert_eq!(lower, 1_700_000_000);
}

#[test]
fn unparsable_gt_keeps_default_and_lt_sets_upper() {
    let p = params(&[("$gt", "soon"), ("$lt", "1800000000")]);
    let (lower, upper) = time_bounds(&compile(&p, NOW));
    assert_eq!(lower, NOW as i64 - 3600);
    assert_eq!(upper, Some(1_800_000_000));
}

fn cond_for<'a>(stages: &'a [Stage], key: &str) -> Option<&'a FieldCond> {
    match &stages[0] {
        Stage::Match(m) => m.conds.iter().find(|(k, _)| k == key).map(|(_, c)| c),
        _ => panic!("first stage must be a match"),
    }
}

#[test]
fn empty_value_requires_field_absent() {
    let p = params(&[("status", "")]);
    let stages = compile(&p, NOW);
    assert!(matches!(cond_for(&stages, "status"), Some(FieldCond::Absent)));
}

#[test]
fn exists_value_requires_field_present() {
    let p = params(&[("status", "$exists")]);
    let stages = compile(&p, NOW);
    assert!(matches!(cond_for(&stages, "status"), Some(FieldCond::Present)));
}

#[test]
fn plain_value_requires_equality() {
    let p = params(&[("status", "ok")]);
    let stages = compile(&p, NOW);
    match cond_for(&stages, "status") {
        Some(FieldCond::Equals(v)) => assert_eq!(v, "ok"),
        other => panic!("expected equality condition, got {:?}", other.is_some()),
    }
}

#[test]
fn dollar_keys_with_plain_values_are_ignored() {
    let p = params(&[("$other", "x"), ("$other2", "")]);
    let stages = compile(&p, NOW);
    match &stages[0] {
        Stage::Match(m) => assert!(m.conds.is_empty()),
        _ => panic!("first stage must be a match"),
    }
}

#[test]
fn group_by_field_counts_and_sorts_by_count() {
    let p = params(&[("$group", "type")]);
    let stages = compile(&p, NOW);
    assert_eq!(stages.len(), 4);
    match &stages[1] {
        Stage::Group(g) => {
            assert!(matches!(&g.key, Some(GroupKey::Field(f)) if f == "type"));
            assert!(g.counted);
            assert!(g.distinct.is_empty());
        }
        _ => panic!("second stage must be a group"),
    }
    match &stages[2] {
        Stage::Sort(SortOrder::Desc(f)) => assert_eq!(f, "count"),
        _ => panic!("third stage must sort by count, descending"),
    }
}

#[test]
fn group_by_date_format_buckets() {
    let p = params(&[("$group", "%Y-%m-%d")]);
    let stages = compile(&p, NOW);
    match &stages[1] {
        Stage::Group(g) => {
            assert!(matches!(&g.key, Some(GroupKey::DateBucket(f)) if f == "%Y-%m-%d"));
        }
        _ => panic!("second stage must be a group"),
    }
}

#[test]
fn add_to_set_collects_distinct_values_under_group() {
    let p = params(&[("tag", "$addToSet"), ("$group", "type")]);
    let stages = compile(&p, NOW);
    match &stages[1] {
        Stage::Group(g) => {
            assert_eq!(g.distinct.len(), 1);
            assert_eq!(g.distinct[0].0, "tag");
            assert_eq!(g.distinct[0].1, "$tag");
        }
        _ => panic!("second stage must be a group"),
    }
}

#[test]
fn add_to_set_without_group_key_stays_projected() {
    let p = params(&[("tag", "$addToSet")]);
    let stages = compile(&p, NOW);
    assert!(matches!(&stages[1], Stage::Project(_)));
}

#[test]
fn count_produces_exactly_one_count_stage() {
    let p = params(&[
        ("$count", "n"),
        ("$group", "type"),
        ("$limit", "5"),
        ("$skip", "2"),
        ("x", "$project"),
        ("$sort", "y"),
    ]);
    let stages = compile(&p, NOW);
    assert_eq!(stages.len(), 2);
    assert!(matches!(&stages[0], Stage::Match(_)));
    match &stages[1] {
        Stage::Count(f) => assert_eq!(f, "n"),
        _ => panic!("second stage must be the count"),
    }
}

#[test]
fn project_replaces_default_projection() {
    let p = params(&[("x", "$project"), ("y", "$project")]);
    let stages = compile(&p, NOW);
    match &stages[1] {
        Stage::Project(pr) => {
            assert_eq!(pr.fields, vec!["x".to_string(), "y".to_string()]);
        }
        _ => panic!("second stage must be a project"),
    }
}

#[test]
fn default_projection_is_empty_field_list() {
    let stages = compile(&params(&[]), NOW);
    match &stages[1] {
        Stage::Project(pr) => assert!(pr.fields.is_empty()),
        _ => panic!("second stage must be a project"),
    }
}

#[test]
fn sort_prefix_sigil_means_ascending() {
    let p = params(&[("$sort", "$age")]);
    let stages = compile(&p, NOW);
    match &stages[2] {
        Stage::Sort(SortOrder::Asc(f)) => assert_eq!(f, "age"),
        _ => panic!("third stage must sort ascending by age"),
    }
    let p = params(&[("$sort", "age")]);
    let stages = compile(&p, NOW);
    match &stages[2] {
        Stage::Sort(SortOrder::Desc(f)) => assert_eq!(f, "age"),
        _ => panic!("third stage must sort descending by age"),
    }
}

#[test]
fn default_sort_is_created_at_descending() {
    let stages = compile(&params(&[]), NOW);
    match &stages[2] {
        Stage::Sort(SortOrder::Desc(f)) => assert_eq!(f, "createdAt"),
        _ => panic!("third stage must sort by createdAt, descending"),
    }
}

#[test]
fn count_key_with_reserved_value_is_a_condition_instead() {
    let p = params(&[("$count", "$exists")]);
    let stages = compile(&p, NOW);
    assert_eq!(stages.len(), 4);
    assert!(matches!(cond_for(&stages, "$count"), Some(FieldCond::Present)));
}

#[test]
fn explicit_sort_overrides_group_sort_in_any_order() {
    for entries in [
        [("$group", "type"), ("$sort", "x")],
        [("$sort", "x"), ("$group", "type")],
    ] {
        let p = params(&entries);
        let stages = compile(&p, NOW);
        assert!(matches!(&stages[1], Stage::Group(_)));
        match &stages[2] {
            Stage::Sort(SortOrder::Desc(f)) => assert_eq!(f, "x"),
            _ => panic!("the explicit sort must win, whatever the parameter order"),
        }
    }
}

#[test]
fn colliding_add_to_set_keys_yield_one_canonical_accumulator() {
    for entries in [
        [("$group", "g"), ("x", "$addToSet"), ("$x", "$addToSet")],
        [("$group", "g"), ("$x", "$addToSet"), ("x", "$addToSet")],
    ] {
        let p = params(&entries);
        let stages = compile(&p, NOW);
        match &stages[1] {
            Stage::Group(g) => {
                assert_eq!(g.distinct.len(), 1);
                assert_eq!(g.distinct[0].0, "x");
                assert_eq!(g.distinct[0].1, "$x");
            }
            _ => panic!("second stage must be a group"),
        }
    }
}

#[test]
fn normalize_params_keeps_the_last_value_per_key() {
    let p = params(&[("a", "1"), ("b", "2"), ("a", "3")]);
    let r = normalize_params(&p);
    assert_eq!(r, params(&[("a", "3"), ("b", "2")]));
    assert_eq!(normalize_params(&params(&[])), params(&[]));
}

#[test]
fn field_reference_adds_the_sigil_once() {
    assert_eq!(field_reference("type"), "$type");
    assert_eq!(field_reference("$type"), "$type");
    assert_eq!(field_reference(""), "$");
}

#[test]
fn repeated_project_field_is_listed_once() {
    let p = params(&[("x", "$project"), ("$x", "$project")]);
    let stages = compile(&p, NOW);
    match &stages[1] {
        Stage::Project(pr) => assert_eq!(pr.fields, vec!["x".to_string()]),
        _ => panic!("second stage must be a project"),
    }
}

#[test]
fn created_at_condition_replaces_time_filter() {
    let p = params(&[("createdAt", "$exists")]);
    let stages = compile(&p, NOW);
    match &stages[0] {
        Stage::Match(m) => {
            assert!(m.time.is_none());
            assert!(matches!(cond_for(&stages, "createdAt"), Some(FieldCond::Present)));
        }
        _ => panic!("first stage must be a match"),
    }
}
