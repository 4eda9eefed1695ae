use pubsys::image::ImageDef;
use pubsys::image::ImageMap;
use pubsys::image::LaunchPermissionDef;
use pubsys::validate::validate_images_in_region;
use pubsys::validate::AmiValidationResult;
use pubsys::validate::AmiValidationResultStatus;

fn image(id: &str, name: &str) -> ImageDef {
    ImageDef {
        id: id.to_string(),
        name: name.to_string(),
        public: true,
        launch_permissions: None,
        ena_support: true,
        sriov_net_support: "simple".to_string(),
    }
}

fn assert_result_set(results: &[AmiValidationResult], expected: &[AmiValidationResult]) {
    assert_eq!(results.len(), expected.len());
    for e in expected {
        assert!(
            results.iter().any(|r| r == e),
            "missing expected result for {}",
            e.id
        );
    }
}

// These tests assert that the images can be validated correctly.

// Tests validation of images where the expected value is equal to the actual value
#[test]
fn validate_images_all_correct() {
    let expected_parameters: Vec<ImageDef> = vec![
        image("test1-image-id", "test1-image"),
        image("test2-image-id", "test2-image"),
        image("test3-image-id", "test3-image"),
    ];
    let mut actual_parameters = ImageMap::new();
    actual_parameters.insert("test1-image-id".to_string(), image("test1-image-id", "test1-image"));
    actual_parameters.insert("test2-image-id".to_string(), image("test2-image-id", "test2-image"));
    actual_parameters.insert("test3-image-id".to_string(), image("test3-image-id", "test3-image"));
    let expected_results = vec![
        AmiValidationResult::new(
            "test3-image-id".to_string(),
            image("test3-image-id", "test3-image"),
            Some(image("test3-image-id", "test3-image")),
            "us-west-2".to_string(),
        ),
        AmiValidationResult::new(
            "test2-image-id".to_string(),
            image("test2-image-id", "test2-image"),
            Some(image("test2-image-id", "test2-image")),
            "us-west-2".to_string(),
        ),
        AmiValidationResult::new(
            "test1-image-id".to_string(),
            image("test1-image-id", "test1-image"),
            Some(image("test1-image-id", "test1-image")),
            "us-west-2".to_string(),
        ),
    ];
    let results = validate_images_in_region(
        expected_parameters,
        &actual_parameters,
        &"us-west-2".to_string(),
    );

    for result in &results {
        assert_eq!(result.status, AmiValidationResultStatus::Correct);
    }
    assert_result_set(&results, &expected_results);
}

// Tests validation of images where the expected value is different from the actual value
#[test]
fn validate_images_all_incorrect() {
    let expected_parameters: Vec<ImageDef> = vec![
        image("test1-image-id", "test1-image"),
        image("test2-image-id", "test2-image"),
        image("test3-image-id", "test3-image"),
    ];
    let actual1 = ImageDef { ena_support: false, ..image("test1-image-id", "test1-image") };
    let actual2 = ImageDef {
        public: false,
        launch_permissions: Some(vec![LaunchPermissionDef {
            group: Some("all".to_string()),
            user_id: None,
            organization_arn: None,
            organizational_unit_arn: None,
        }]),
        ..image("test2-image-id", "test2-image")
    };
    let actual3 =
        ImageDef { sriov_net_support: "not simple".to_string(), ..image("test3-image-id", "test3-image") };
    let mut actual_parameters = ImageMap::new();
    actual_parameters.insert("test1-image-id".to_string(), actual1.clone());
    actual_parameters.insert("test2-image-id".to_string(), actual2.clone());
    actual_parameters.insert("test3-image-id".to_string(), actual3.clone());
    let expected_results = vec![
        AmiValidationResult::new(
            "test3-image-id".to_string(),
            image("test3-image-id", "test3-image"),
            Some(actual3),
            "us-west-2".to_string(),
        ),
        AmiValidationResult::new(
            "test2-image-id".to_string(),
            image("test2-image-id", "test2-image"),
            Some(actual2),
            "us-west-2".to_string(),
        ),
        AmiValidationResult::new(
            "test1-image-id".to_string(),
            image("test1-image-id", "test1-image"),
            Some(actual1),
            "us-west-2".to_string(),
        ),
    ];
    let results = validate_images_in_region(
        expected_parameters,
        &actual_parameters,
        &"us-west-2".to_string(),
    );
    for result in &results {
        assert_eq!(result.status, AmiValidationResultStatus::Incorrect);
    }
    assert_result_set(&results, &expected_results);
}

// Tests validation of images where the actual value is missing
#[test]
fn validate_images_all_missing() {
    let expected_parameters: Vec<ImageDef> = vec![
        image("test1-image-id", "test1-image"),
        image("test2-image-id", "test2-image"),
        image("test3-image-id", "test3-image"),
    ];
    let actual_parameters = ImageMap::new();
    let expected_results = vec![
        AmiValidationResult::new(
            "test3-image-id".to_string(),
            image("test3-image-id", "test3-image"),
            None,
            "us-west-2".to_string(),
        ),
        AmiValidationResult::new(
            "test2-image-id".to_string(),
            image("test2-image-id", "test2-image"),
            None,
            "us-west-2".to_string(),
        ),
        AmiValidationResult::new(
            "test1-image-id".to_string(),
            image("test1-image-id", "test1-image"),
            None,
            "us-west-2".to_string(),
        ),
    ];
    let results = validate_images_in_region(
        expected_parameters,
        &actual_parameters,
        &"us-west-2".to_string(),
    );
    for result in &results {
        assert_eq!(result.status, AmiValidationResultStatus::Missing);
    }
    assert_result_set(&results, &expected_results);
}

// Tests validation of parameters where each status (Correct, Incorrect, Missing) happens once
#[test]
fn validate_images_mixed() {
    let expected_parameters: Vec<ImageDef> = vec![
        image("test1-image-id", "test1-image"),
        image("test2-image-id", "test2-image"),
        image("test3-image-id", "test3-image"),
    ];
    let actual2 = ImageDef {
        public: false,
        launch_permissions: Some(vec![LaunchPermissionDef {
            group: Some("all".to_string()),
            user_id: None,
            organization_arn: None,
            organizational_unit_arn: None,
        }]),
        ..image("test2-image-id", "test2-image")
    };
    let mut actual_parameters = ImageMap::new();
    actual_parameters.insert("test1-image-id".to_string(), image("test1-image-id", "test1-image"));
    actual_parameters.insert("test2-image-id".to_string(), actual2.clone());
    let expected_results = vec![
        AmiValidationResult::new(
            "test1-image-id".to_string(),
            image("test1-image-id", "test1-image"),
            Some(image("test1-image-id", "test1-image")),
            "us-west-2".to_string(),
        ),
        AmiValidationResult::new(
            "test2-image-id".to_string(),
            image("test2-image-id", "test2-image"),
            Some(actual2),
            "us-west-2".to_string(),
        ),
        AmiValidationResult::new(
            "test3-image-id".to_string(),
            image("test3-image-id", "test3-image"),
            None,
            "us-west-2".to_string(),
        ),
    ];
    let results = validate_images_in_region(
        expected_parameters,
        &actual_parameters,
        &"us-west-2".to_string(),
    );

    assert_result_set(&results, &expected_results);
}

// One field changed on the actual side turns the verdict from Correct to
// Incorrect; a missing actual record is Missing.
#[test]
fn classification_by_single_field() {
    let expected = image("ami-1", "one");
    let same = AmiValidationResult::new(
        "ami-1".to_string(),
        expected.clone(),
        Some(image("ami-1", "one")),
        "us-west-2".to_string(),
    );
    assert_eq!(same.status, AmiValidationResultStatus::Correct);

    let ena_flipped = ImageDef { ena_support: false, ..image("ami-1", "one") };
    let differs = AmiValidationResult::new(
        "ami-1".to_string(),
        expected.clone(),
        Some(ena_flipped),
        "us-west-2".to_string(),
    );
    assert_eq!(differs.status, AmiValidationResultStatus::Incorrect);

    let absent = AmiValidationResult::new(
        "ami-1".to_string(),
        expected,
        None,
        "us-west-2".to_string(),
    );
    assert_eq!(absent.status, AmiValidationResultStatus::Missing);
}

// A live-public actual record's stray permission list is ignored: launch
// permissions count as absent on both sides of the comparison when the
// record is public.
#[test]
fn public_actual_permission_list_is_ignored() {
    let expected = image("test1-image-id", "test1-image");
    let actual_with_list = ImageDef {
        launch_permissions: Some(vec![]),
        ..image("test1-image-id", "test1-image")
    };
    let direct = AmiValidationResult::new(
        "test1-image-id".to_string(),
        expected,
        Some(actual_with_list.clone()),
        "us-west-2".to_string(),
    );
    assert_eq!(direct.status, AmiValidationResultStatus::Correct);
    // The stored actual record stays as retrieved.
    assert_eq!(direct.actual_image_def, Some(actual_with_list.clone()));

    let mut actual_parameters = ImageMap::new();
    actual_parameters.insert("test1-image-id".to_string(), actual_with_list);
    let results = validate_images_in_region(
        vec![image("test1-image-id", "test1-image")],
        &actual_parameters,
        &"us-west-2".to_string(),
    );
    assert_eq!(results.len(), 1);
    assert_eq!(results[0].status, AmiValidationResultStatus::Correct);
}

// A non-public actual record's permission list still counts: only public
// records are canonicalized.
#[test]
fn non_public_permission_list_still_compared() {
    let expected = ImageDef { public: false, ..image("test1-image-id", "test1-image") };
    let actual = ImageDef {
        public: false,
        launch_permissions: Some(vec![LaunchPermissionDef {
            group: Some("all".to_string()),
            user_id: None,
            organization_arn: None,
            organizational_unit_arn: None,
        }]),
        ..image("test1-image-id", "test1-image")
    };
    let result = AmiValidationResult::new(
        "test1-image-id".to_string(),
        expected,
        Some(actual),
        "us-west-2".to_string(),
    );
    assert_eq!(result.status, AmiValidationResultStatus::Incorrect);
}

// A public expected record is compared with its launch permissions dropped.
#[test]
fn public_expected_record_is_canonicalized() {
    let with_perms = ImageDef {
        launch_permissions: Some(vec![LaunchPermissionDef {
            group: Some("all".to_string()),
            user_id: None,
            organization_arn: None,
            organizational_unit_arn: None,
        }]),
        ..image("test1-image-id", "test1-image")
    };
    let mut actual_parameters = ImageMap::new();
    actual_parameters.insert("test1-image-id".to_string(), image("test1-image-id", "test1-image"));
    let results = validate_images_in_region(
        vec![with_perms],
        &actual_parameters,
        &"us-west-2".to_string(),
    );
    assert_eq!(results.len(), 1);
    assert_eq!(results[0].expected_image_def.launch_permissions, None);
    assert_eq!(results[0].status, AmiValidationResultStatus::Correct);
}

// Duplicate expected records produce one result, keyed by the full record.
#[test]
fn duplicate_expected_records_collapse() {
    let expected_parameters =
        vec![image("test1-image-id", "test1-image"), image("test1-image-id", "test1-image")];
    let actual_parameters = ImageMap::new();
    let results = validate_images_in_region(
        expected_parameters,
        &actual_parameters,
        &"us-west-2".to_string(),
    );
    assert_eq!(results.len(), 1);
    assert_eq!(results[0].status, AmiValidationResultStatus::Missing);
}
