use pubsys::diff::key_difference;
use pubsys::params::NameMap;
use pubsys::params::ParameterMap;
use pubsys::params::RegionMap;
use pubsys::params::SsmKey;
use pubsys::promote::combine_parameters;
use pubsys::promote::plan_promotion;
use pubsys::promote::PromoteError;

fn key(region: &str, name: &str) -> SsmKey {
    SsmKey::new(region.to_string(), name.to_string())
}

#[test]
fn combined_parameters() {
    let mut us_west_2 = ParameterMap::new();
    us_west_2.insert(
        key("us-west-2", "test1-parameter-name"),
        "test1-parameter-value".to_string(),
    );
    us_west_2.insert(
        key("us-west-2", "test2-parameter-name"),
        "test2-parameter-value".to_string(),
    );
    let mut us_east_1 = ParameterMap::new();
    us_east_1.insert(
        key("us-east-1", "test3-parameter-name"),
        "test3-parameter-value".to_string(),
    );
    let mut existing_parameters = RegionMap::new();
    existing_parameters.insert("us-west-2".to_string(), us_west_2);
    existing_parameters.insert("us-east-1".to_string(), us_east_1);

    let mut set_parameters = ParameterMap::new();
    set_parameters.insert(
        key("us-west-2", "test1-parameter-name-promoted"),
        "test1-parameter-value".to_string(),
    );
    set_parameters.insert(
        key("us-west-2", "test2-parameter-name-promoted"),
        "test2-parameter-value".to_string(),
    );
    set_parameters.insert(
        key("us-east-1", "test3-parameter-name-promoted"),
        "test3-parameter-value".to_string(),
    );

    let mut source_target_map = NameMap::new();
    source_target_map.insert(
        "test1-parameter-name".to_string(),
        "test1-parameter-name-promoted".to_string(),
    );
    source_target_map.insert(
        "test2-parameter-name".to_string(),
        "test2-parameter-name-promoted".to_string(),
    );
    source_target_map.insert(
        "test3-parameter-name".to_string(),
        "test3-parameter-name-promoted".to_string(),
    );

    let map = combine_parameters(&existing_parameters, &set_parameters, &source_target_map)
        .expect("combining should succeed");

    let mut expected_west = ParameterMap::new();
    expected_west.insert(
        key("us-west-2", "test1-parameter-name"),
        "test1-parameter-value".to_string(),
    );
    expected_west.insert(
        key("us-west-2", "test2-parameter-name"),
        "test2-parameter-value".to_string(),
    );
    expected_west.insert(
        key("us-west-2", "test1-parameter-name-promoted"),
        "test1-parameter-value".to_string(),
    );
    expected_west.insert(
        key("us-west-2", "test2-parameter-name-promoted"),
        "test2-parameter-value".to_string(),
    );
    let mut expected_east = ParameterMap::new();
    expected_east.insert(
        key("us-east-1", "test3-parameter-name"),
        "test3-parameter-value".to_string(),
    );
    expected_east.insert(
        key("us-east-1", "test3-parameter-name-promoted"),
        "test3-parameter-value".to_string(),
    );
    let mut expected_map = RegionMap::new();
    expected_map.insert("us-west-2".to_string(), expected_west);
    expected_map.insert("us-east-1".to_string(), expected_east);

    assert!(map.map_eq(&expected_map));
}

#[test]
fn combine_fails_without_association() {
    let mut persisted = ParameterMap::new();
    persisted.insert(key("us-west-2", "orphan-name"), "v".to_string());
    let mut existing = RegionMap::new();
    existing.insert("us-west-2".to_string(), persisted);
    let set_parameters = ParameterMap::new();
    let source_target_map = NameMap::new();

    let err = combine_parameters(&existing, &set_parameters, &source_target_map).unwrap_err();
    assert_eq!(
        err,
        PromoteError::MissingAssociation { name: "orphan-name".to_string() }
    );
}

#[test]
fn combine_fails_without_write_value() {
    let mut persisted = ParameterMap::new();
    persisted.insert(key("us-west-2", "some-name"), "v".to_string());
    let mut existing = RegionMap::new();
    existing.insert("us-west-2".to_string(), persisted);
    let set_parameters = ParameterMap::new();
    let mut source_target_map = NameMap::new();
    source_target_map.insert("some-name".to_string(), "some-name-promoted".to_string());

    let err = combine_parameters(&existing, &set_parameters, &source_target_map).unwrap_err();
    assert_eq!(
        err,
        PromoteError::MissingWriteValue {
            region: "us-west-2".to_string(),
            name: "some-name-promoted".to_string(),
        }
    );
}

#[test]
fn merged_region_rediffed_against_itself_is_empty() {
    let mut persisted = ParameterMap::new();
    persisted.insert(key("regionA", "keyX"), "v1".to_string());
    let mut existing = RegionMap::new();
    existing.insert("regionA".to_string(), persisted);
    let mut set_parameters = ParameterMap::new();
    set_parameters.insert(key("regionA", "keyX-promoted"), "v1".to_string());
    let mut source_target_map = NameMap::new();
    source_target_map.insert("keyX".to_string(), "keyX-promoted".to_string());

    let merged = combine_parameters(&existing, &set_parameters, &source_target_map)
        .expect("merging should succeed");
    assert_eq!(merged.len(), 1);
    let merged_region = merged.get(&"regionA".to_string()).expect("regionA merged");

    // The merged region holds exactly the original and the promoted entry.
    assert_eq!(merged_region.len(), 2);
    assert_eq!(
        merged_region.get(&key("regionA", "keyX")),
        Some(&"v1".to_string())
    );
    assert_eq!(
        merged_region.get(&key("regionA", "keyX-promoted")),
        Some(&"v1".to_string())
    );

    // Re-diffing the merged output against itself finds nothing to write.
    let rediff = key_difference(merged_region, merged_region);
    assert!(rediff.is_empty());
}

#[test]
fn empty_source_aborts_promotion() {
    let source = ParameterMap::new();
    let target = ParameterMap::new();
    let source_target_map = NameMap::new();

    let err = plan_promotion(&"1.20.0".to_string(), &source, &target, &source_target_map)
        .unwrap_err();
    assert_eq!(err, PromoteError::EmptySource { version: "1.20.0".to_string() });
}

#[test]
fn promotion_plan_writes_only_differences() {
    let mut source = ParameterMap::new();
    source.insert(key("us-west-2", "image-id-1.0"), "ami-1111".to_string());
    source.insert(key("us-west-2", "image-name-1.0"), "image-one".to_string());
    let mut target = ParameterMap::new();
    // Already equal for the first slot, stale for the second.
    target.insert(key("us-west-2", "image-id-2.0"), "ami-1111".to_string());
    target.insert(key("us-west-2", "image-name-2.0"), "stale".to_string());
    let mut source_target_map = NameMap::new();
    source_target_map.insert("image-id-1.0".to_string(), "image-id-2.0".to_string());
    source_target_map.insert("image-name-1.0".to_string(), "image-name-2.0".to_string());

    let plan = plan_promotion(&"1.0".to_string(), &source, &target, &source_target_map)
        .expect("planning should succeed");
    assert_eq!(plan.writes.len(), 1);
    assert_eq!(
        plan.writes.get(&key("us-west-2", "image-name-2.0")),
        Some(&"image-one".to_string())
    );
}

#[test]
fn rekeying_fails_without_association() {
    let mut source = ParameterMap::new();
    source.insert(key("us-west-2", "unmapped"), "v".to_string());
    let target = ParameterMap::new();
    let source_target_map = NameMap::new();

    let err = plan_promotion(&"1.0".to_string(), &source, &target, &source_target_map)
        .unwrap_err();
    assert_eq!(err, PromoteError::MissingAssociation { name: "unmapped".to_string() });
}

#[test]
fn diff_of_map_with_itself_is_empty() {
    let mut map = ParameterMap::new();
    map.insert(key("us-west-2", "a"), "1".to_string());
    map.insert(key("us-east-1", "b"), "2".to_string());
    let diff = key_difference(&map, &map);
    assert!(diff.is_empty());
}

#[test]
fn diff_reports_missing_and_changed_keys_only() {
    let mut want = ParameterMap::new();
    want.insert(key("us-west-2", "same"), "v".to_string());
    want.insert(key("us-west-2", "changed"), "new".to_string());
    want.insert(key("us-west-2", "missing"), "fresh".to_string());
    let mut have = ParameterMap::new();
    have.insert(key("us-west-2", "same"), "v".to_string());
    have.insert(key("us-west-2", "changed"), "old".to_string());
    have.insert(key("us-west-2", "extra"), "ignored".to_string());

    let diff = key_difference(&want, &have);
    assert_eq!(diff.len(), 2);
    assert_eq!(diff.get(&key("us-west-2", "changed")), Some(&"new".to_string()));
    assert_eq!(diff.get(&key("us-west-2", "missing")), Some(&"fresh".to_string()));
    assert_eq!(diff.get(&key("us-west-2", "same")), None);
    assert_eq!(diff.get(&key("us-west-2", "extra")), None);
}
