use pubsys::image::default_ena_support;
use pubsys::image::default_sriov_net_support;
use pubsys::image::launch_permission_fetch_needed;
use pubsys::image::attach_launch_permissions;
use pubsys::image::build_expected_image_public;
use pubsys::image::DescribeError;
use pubsys::image::ImageDef;
use pubsys::image::LaunchPermissionDef;
use pubsys::image::PublicityMap;
use pubsys::template::render_parameter_name;
use pubsys::template::render_parameter_names;
use pubsys::template::BuildContext;
use pubsys::template::TemplateError;
use pubsys::validate::get_results_for_status;
use pubsys::validate::AmiValidationResult;
use pubsys::validate::AmiValidationResultStatus;

fn context() -> BuildContext {
    BuildContext::new(
        "aws-k8s-1.24".to_string(),
        "x86_64".to_string(),
        "1.20.0".to_string(),
    )
}

#[test]
fn render_substitutes_every_field() {
    let name = render_parameter_name(
        "{variant}/{arch}/{image_version}/image_id",
        "/bottlerocket/",
        &context(),
    )
    .expect("rendering should succeed");
    assert_eq!(name, "/bottlerocket/aws-k8s-1.24/x86_64/1.20.0/image_id");
}

#[test]
fn render_unknown_field_is_rejected() {
    let err = render_parameter_name("{flavour}/image_id", "", &context()).unwrap_err();
    assert_eq!(err, TemplateError::UnknownField { field: "flavour".to_string() });
}

#[test]
fn render_unclosed_placeholder_is_rejected() {
    let err = render_parameter_name("{variant/image_id", "", &context()).unwrap_err();
    assert_eq!(err, TemplateError::UnclosedPlaceholder);
}

#[test]
fn render_empty_name_is_rejected() {
    let err = render_parameter_name("", "", &context()).unwrap_err();
    assert_eq!(err, TemplateError::EmptyName);
}

#[test]
fn rendering_twice_is_byte_identical() {
    let templates = vec![
        "{variant}/{arch}/{image_version}/image_id".to_string(),
        "{variant}/{arch}/{image_version}/image_name".to_string(),
    ];
    let first = render_parameter_names(&templates, "/bottlerocket/", &context())
        .expect("rendering should succeed");
    let second = render_parameter_names(&templates, "/bottlerocket/", &context())
        .expect("rendering should succeed");
    assert!(first.map_eq(&second));
    assert_eq!(
        first.get(&"{variant}/{arch}/{image_version}/image_id".to_string()),
        Some(&"/bottlerocket/aws-k8s-1.24/x86_64/1.20.0/image_id".to_string())
    );
}

#[test]
fn rendering_fails_on_first_bad_template() {
    let templates = vec![
        "{variant}/image_id".to_string(),
        "{bogus}/image_name".to_string(),
    ];
    let err = render_parameter_names(&templates, "/p/", &context()).unwrap_err();
    assert_eq!(err, TemplateError::UnknownField { field: "bogus".to_string() });
}

#[test]
fn defaults_for_absent_image_fields() {
    assert!(default_ena_support());
    assert_eq!(default_sriov_net_support(), "simple");
}

#[test]
fn described_image_takes_backend_defaults() {
    let image = ImageDef::from_described("ami-1".to_string(), None, None, None, None);
    assert_eq!(image.id, "ami-1");
    assert_eq!(image.name, "");
    assert!(!image.public);
    assert_eq!(image.launch_permissions, None);
    assert!(!image.ena_support);
    assert_eq!(image.sriov_net_support, "");

    let full = ImageDef::from_described(
        "ami-2".to_string(),
        Some("two".to_string()),
        Some(true),
        Some(true),
        Some("simple".to_string()),
    );
    assert_eq!(full.name, "two");
    assert!(full.public);
    assert!(full.ena_support);
    assert_eq!(full.sriov_net_support, "simple");
    assert_eq!(full.launch_permissions, None);
}

#[test]
fn launch_permissions_fetched_only_for_non_public_images() {
    let mut expected_public = PublicityMap::new();
    expected_public.insert("ami-public".to_string(), true);
    expected_public.insert("ami-private".to_string(), false);

    assert_eq!(
        launch_permission_fetch_needed(&"ami-public".to_string(), &expected_public),
        Ok(false)
    );
    assert_eq!(
        launch_permission_fetch_needed(&"ami-private".to_string(), &expected_public),
        Ok(true)
    );
    assert_eq!(
        launch_permission_fetch_needed(&"ami-unknown".to_string(), &expected_public),
        Err(DescribeError::MissingExpectedPublic { missing: "ami-unknown".to_string() })
    );
}

#[test]
fn attaching_permissions_keeps_other_fields() {
    let image = ImageDef {
        id: "ami-1".to_string(),
        name: "one".to_string(),
        public: false,
        launch_permissions: None,
        ena_support: true,
        sriov_net_support: "simple".to_string(),
    };
    let perms = vec![LaunchPermissionDef {
        group: None,
        user_id: Some("123456789012".to_string()),
        organization_arn: None,
        organizational_unit_arn: None,
    }];
    let attached = attach_launch_permissions(image, perms.clone());
    assert_eq!(attached.id, "ami-1");
    assert_eq!(attached.name, "one");
    assert_eq!(attached.launch_permissions, Some(perms));
}

#[test]
fn expected_publicity_is_collected_across_regions() {
    let public = ImageDef {
        id: "ami-public".to_string(),
        name: "p".to_string(),
        public: true,
        launch_permissions: None,
        ena_support: true,
        sriov_net_support: "simple".to_string(),
    };
    let private = ImageDef {
        id: "ami-private".to_string(),
        name: "q".to_string(),
        public: false,
        launch_permissions: None,
        ena_support: true,
        sriov_net_support: "simple".to_string(),
    };
    let expected = vec![
        ("us-west-2".to_string(), vec![public]),
        ("us-east-1".to_string(), vec![private]),
    ];
    let map = build_expected_image_public(&expected);
    assert_eq!(map.len(), 2);
    assert_eq!(map.get(&"ami-public".to_string()), Some(&true));
    assert_eq!(map.get(&"ami-private".to_string()), Some(&false));
}

#[test]
fn results_filter_keeps_only_selected_statuses() {
    let expected = ImageDef {
        id: "ami-1".to_string(),
        name: "one".to_string(),
        public: true,
        launch_permissions: None,
        ena_support: true,
        sriov_net_support: "simple".to_string(),
    };
    let correct = AmiValidationResult::new(
        "ami-1".to_string(),
        expected.clone(),
        Some(expected.clone()),
        "us-west-2".to_string(),
    );
    let missing = AmiValidationResult::new(
        "ami-1".to_string(),
        expected,
        None,
        "us-east-1".to_string(),
    );
    let results = vec![correct.clone(), missing.clone()];

    let only_missing = get_results_for_status(&results, &vec![AmiValidationResultStatus::Missing]);
    assert_eq!(only_missing, vec![missing.clone()]);

    let all = get_results_for_status(
        &results,
        &vec![
            AmiValidationResultStatus::Correct,
            AmiValidationResultStatus::Incorrect,
            AmiValidationResultStatus::Missing,
        ],
    );
    assert_eq!(all, vec![correct, missing]);

    let none = get_results_for_status(&results, &vec![AmiValidationResultStatus::Incorrect]);
    assert!(none.is_empty());
}
