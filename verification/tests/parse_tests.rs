use gst_plugin_s3::s3url::{parse_s3_url, GstS3Url, Region, UriError};

#[test]
fn cannot_be_base() {
    assert!(parse_s3_url("data:something").is_err());
}

#[test]
fn invalid_scheme() {
    assert!(parse_s3_url("file:///dev/zero").is_err());
}

#[test]
fn bad_region() {
    assert!(parse_s3_url("s3://atlantis-1/i-hope-we/dont-find-this").is_err());
}

#[test]
fn no_bucket() {
    assert!(parse_s3_url("s3://ap-south-1").is_err());
    assert!(parse_s3_url("s3://ap-south-1/").is_err());
}

#[test]
fn no_object() {
    assert!(parse_s3_url("s3://ap-south-1/my-bucket").is_err());
    assert!(parse_s3_url("s3://ap-south-1/my-bucket/").is_err());
}

#[test]
fn valid_simple() {
    assert!(parse_s3_url("s3://ap-south-1/my-bucket/my-object").is_ok());
}

#[test]
fn extraneous_query() {
    assert!(parse_s3_url("s3://ap-south-1/my-bucket/my-object?foo=bar").is_err());
}

#[test]
fn valid_version() {
    assert!(parse_s3_url("s3://ap-south-1/my-bucket/my-object?version=one").is_ok());
}

#[test]
fn trailing_slash() {
    // Slashes are valid at the end of the object key
    assert!(parse_s3_url("s3://ap-south-1/my-bucket/my-object/").is_ok());
}

#[test]
fn simple_uri_fields() {
    let url = parse_s3_url("s3://ap-south-1/my-bucket/my-object").unwrap();
    assert_eq!(url.region, Region::ApSouth1);
    assert_eq!(url.bucket, "my-bucket");
    assert_eq!(url.object, "my-object");
    assert_eq!(url.version, None);
}

#[test]
fn version_uri_fields() {
    let url = parse_s3_url("s3://ap-south-1/my-bucket/my-object?version=one").unwrap();
    assert_eq!(url.region, Region::ApSouth1);
    assert_eq!(url.bucket, "my-bucket");
    assert_eq!(url.object, "my-object");
    assert_eq!(url.version, Some("one".to_string()));
}

#[test]
fn extraneous_query_is_bad_uri() {
    assert_eq!(
        parse_s3_url("s3://ap-south-1/my-bucket/my-object?foo=bar").unwrap_err(),
        UriError::BadUri
    );
}

#[test]
fn unknown_region_is_bad_uri() {
    assert_eq!(
        parse_s3_url("s3://atlantis-1/my-bucket/my-object").unwrap_err(),
        UriError::BadUri
    );
}

#[test]
fn wrong_scheme_is_unsupported_protocol() {
    assert_eq!(
        parse_s3_url("file:///dev/zero").unwrap_err(),
        UriError::UnsupportedProtocol
    );
    assert_eq!(
        parse_s3_url("data:something").unwrap_err(),
        UriError::UnsupportedProtocol
    );
}

#[test]
fn no_scheme_is_bad_uri() {
    assert_eq!(parse_s3_url("no scheme at all").unwrap_err(), UriError::BadUri);
    assert_eq!(parse_s3_url("s3:opaque-form").unwrap_err(), UriError::BadUri);
}

#[test]
fn trailing_slash_preserved_in_key() {
    let url = parse_s3_url("s3://ap-south-1/my-bucket/my-object/").unwrap();
    assert_eq!(url.object, "my-object/");
}

#[test]
fn multi_segment_key_joined() {
    let url = parse_s3_url("s3://eu-west-2/logs/2017/04/17/part-0").unwrap();
    assert_eq!(url.region, Region::EuWest2);
    assert_eq!(url.bucket, "logs");
    assert_eq!(url.object, "2017/04/17/part-0");
}

#[test]
fn scheme_and_region_case_insensitive() {
    let url = parse_s3_url("S3://AP-SOUTH-1/my-bucket/my-object").unwrap();
    assert_eq!(url.region, Region::ApSouth1);
    assert_eq!(url.bucket, "my-bucket");
}

#[test]
fn compact_region_alias_accepted() {
    let url = parse_s3_url("s3://apsouth1/my-bucket/my-object").unwrap();
    assert_eq!(url.region, Region::ApSouth1);
}

#[test]
fn empty_bucket_segment_rejected() {
    assert_eq!(
        parse_s3_url("s3://ap-south-1//my-object").unwrap_err(),
        UriError::BadUri
    );
}

#[test]
fn query_without_value_gives_empty_version() {
    let url = parse_s3_url("s3://ap-south-1/my-bucket/my-object?version=").unwrap();
    assert_eq!(url.version, Some(String::new()));
    let url = parse_s3_url("s3://ap-south-1/my-bucket/my-object?version").unwrap();
    assert_eq!(url.version, Some(String::new()));
}

#[test]
fn bare_query_separator_means_no_version() {
    let url = parse_s3_url("s3://ap-south-1/my-bucket/my-object?").unwrap();
    assert_eq!(url.version, None);
}

#[test]
fn version_value_may_hold_equals_sign() {
    let url = parse_s3_url("s3://ap-south-1/my-bucket/my-object?version=a=b").unwrap();
    assert_eq!(url.version, Some("a=b".to_string()));
}

#[test]
fn repeated_version_parameter_rejected() {
    assert_eq!(
        parse_s3_url("s3://ap-south-1/my-bucket/my-object?version=a&version=b").unwrap_err(),
        UriError::BadUri
    );
}

#[test]
fn two_parameters_rejected() {
    assert_eq!(
        parse_s3_url("s3://ap-south-1/my-bucket/my-object?version=a&foo=bar").unwrap_err(),
        UriError::BadUri
    );
}

#[test]
fn empty_leading_key_segment_kept_in_join() {
    // the key is every segment after the bucket rejoined with '/': an empty
    // first key segment still leaves a non-empty joined key
    let url = parse_s3_url("s3://ap-south-1/my-bucket//x").unwrap();
    assert_eq!(url.object, "/x");
}

#[test]
fn fragment_is_ignored() {
    let url = parse_s3_url("s3://ap-south-1/my-bucket/my-object#section").unwrap();
    assert_eq!(url.object, "my-object");
}

#[test]
fn region_from_name_and_back() {
    assert_eq!(Region::from_name("us-east-1"), Some(Region::UsEast1));
    assert_eq!(Region::from_name("useast1"), Some(Region::UsEast1));
    assert_eq!(Region::from_name("US-EAST-1"), Some(Region::UsEast1));
    assert_eq!(Region::from_name("atlantis-1"), None);
    assert_eq!(Region::UsEast1.name(), "us-east-1");
    assert_eq!(Region::CnNorthwest1.name(), "cn-northwest-1");
}

#[test]
fn url_string_round_trips() {
    let uri = "s3://ap-south-1/my-bucket/my-object?version=one";
    let url = parse_s3_url(uri).unwrap();
    assert_eq!(url.url_string(), uri);
    let again = parse_s3_url(&url.url_string()).unwrap();
    assert_eq!(again.region, url.region);
    assert_eq!(again.bucket, url.bucket);
    assert_eq!(again.object, url.object);
    assert_eq!(again.version, url.version);
}

#[test]
fn url_string_without_version() {
    let url = GstS3Url {
        region: Region::EuCentral1,
        bucket: "b".to_string(),
        object: "k/with/slashes/".to_string(),
        version: None,
    };
    assert_eq!(url.url_string(), "s3://eu-central-1/b/k/with/slashes/");
}

#[test]
fn clone_preserves_fields() {
    let url = parse_s3_url("s3://ap-south-1/my-bucket/my-object?version=one").unwrap();
    let copy = url.clone();
    assert_eq!(copy.region, url.region);
    assert_eq!(copy.bucket, url.bucket);
    assert_eq!(copy.object, url.object);
    assert_eq!(copy.version, url.version);
}
