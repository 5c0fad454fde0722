use aws_ssm_parameter_cache::GetParameterStringBuilder;
use aws_ssm_parameter_cache::ParameterCache;

/// Stands for the handle of a remote source; the cache never looks inside.
struct MockClient;

#[test]
fn get_parameter_builder_defaults() {
    let mock_ssm_client = MockClient;
    let mut parameter_cache = ParameterCache::new(mock_ssm_client);

    let builder = GetParameterStringBuilder::new(&mut parameter_cache, "service/parameter");

    assert_eq!(builder.parameter_name, "service/parameter");
    assert!(!builder.force_refresh);
}

#[test]
fn get_parameter_builder_force_refresh() {
    let mock_ssm_client = MockClient;
    let mut parameter_cache = ParameterCache::new(mock_ssm_client);

    let builder = GetParameterStringBuilder::new(&mut parameter_cache, "service/parameter")
        .force_refresh();

    assert_eq!(builder.parameter_name, "service/parameter");
    assert!(builder.force_refresh);
}
