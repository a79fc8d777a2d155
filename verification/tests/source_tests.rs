use gst_plugin_s3::plugin_init;
use gst_plugin_s3::s3src::{probe_complete, read_complete, ProbeFault, S3Src, SourceError};
use gst_plugin_s3::s3url::UriError;

const URI: &str = "s3://ap-south-1/my-bucket/my-object";

fn started_source(size: u64) -> S3Src {
    let mut src = S3Src::new();
    src.set_uri(URI).unwrap();
    let url = src.start_begin().unwrap();
    src.start_complete(url, Ok(size)).unwrap();
    src
}

#[test]
fn start_then_size_then_second_start_fails() {
    let mut src = S3Src::new();
    src.set_uri(URI).unwrap();
    let url = src.start_begin().unwrap();
    assert_eq!(url.bucket, "my-bucket");
    src.start_complete(url, Ok(1024)).unwrap();
    assert_eq!(src.get_size(), Some(1024));
    // starting again is misuse and leaves the session untouched
    assert_eq!(src.start_begin().unwrap_err(), SourceError::Failure);
    let url2 = gst_plugin_s3::s3url::parse_s3_url(URI).unwrap();
    assert_eq!(src.start_complete(url2, Ok(7)).unwrap_err(), SourceError::Failure);
    assert_eq!(src.get_size(), Some(1024));
}

#[test]
fn start_without_uri_is_settings_error() {
    let src = S3Src::new();
    assert_eq!(src.start_begin().unwrap_err(), SourceError::Settings);
}

#[test]
fn set_uri_failure_clears_locator() {
    let mut src = S3Src::new();
    src.set_uri(URI).unwrap();
    assert_eq!(src.set_uri("s3://atlantis-1/b/k").unwrap_err(), UriError::BadUri);
    assert_eq!(src.start_begin().unwrap_err(), SourceError::Settings);
}

#[test]
fn failed_probe_leaves_source_stopped() {
    let mut src = S3Src::new();
    src.set_uri(URI).unwrap();
    let url = src.start_begin().unwrap();
    let probe: Result<u64, SourceError> = Err(SourceError::NotFound { cause: "404".to_string() });
    assert_eq!(
        src.start_complete(url, probe).unwrap_err(),
        SourceError::NotFound { cause: "404".to_string() }
    );
    assert_eq!(src.get_size(), None);
    // the source is still stopped, so it can be started normally afterwards
    let url = src.start_begin().unwrap();
    src.start_complete(url, Ok(3)).unwrap();
    assert_eq!(src.get_size(), Some(3));
}

#[test]
fn stop_on_stopped_fails() {
    let mut src = S3Src::new();
    assert_eq!(src.stop().unwrap_err(), SourceError::Failure);
}

#[test]
fn stop_discards_session() {
    let mut src = started_source(512);
    src.stop().unwrap();
    assert_eq!(src.get_size(), None);
    assert_eq!(src.stop().unwrap_err(), SourceError::Failure);
}

#[test]
fn size_unknown_until_started() {
    let mut src = S3Src::new();
    assert_eq!(src.get_size(), None);
    src.set_uri(URI).unwrap();
    assert_eq!(src.get_size(), None);
    let url = src.start_begin().unwrap();
    src.start_complete(url, Ok(99)).unwrap();
    assert_eq!(src.get_size(), Some(99));
}

#[test]
fn read_before_start_is_misuse_not_network_error() {
    let src = S3Src::new();
    assert_eq!(src.read_request(100, 50).unwrap_err(), SourceError::Failure);
}

#[test]
fn read_request_builds_exact_inclusive_range() {
    let src = started_source(4096);
    let req = src.read_request(100, 50).unwrap();
    assert_eq!(req.bucket, "my-bucket");
    assert_eq!(req.key, "my-object");
    assert_eq!(req.version, None);
    assert_eq!(req.range, "bytes=100-149");
}

#[test]
fn read_request_carries_version() {
    let mut src = S3Src::new();
    src.set_uri("s3://ap-south-1/my-bucket/my-object?version=one").unwrap();
    let url = src.start_begin().unwrap();
    src.start_complete(url, Ok(10)).unwrap();
    let req = src.read_request(0, 1).unwrap();
    assert_eq!(req.version, Some("one".to_string()));
    assert_eq!(req.range, "bytes=0-0");
}

#[test]
fn read_request_largest_window() {
    let src = started_source(u64::MAX);
    let req = src.read_request(u64::MAX - 1, 1).unwrap();
    assert_eq!(req.range, "bytes=18446744073709551614-18446744073709551614");
}

#[test]
fn short_read_passes_through_unpadded() {
    let body = vec![7u8; 30];
    let out = read_complete(50, Ok(body.clone())).unwrap();
    assert_eq!(out, body);
}

#[test]
fn oversized_read_is_failure() {
    let body = vec![0u8; 51];
    assert_eq!(read_complete(50, Ok(body)).unwrap_err(), SourceError::Failure);
}

#[test]
fn read_error_passes_through() {
    let err = SourceError::ReadFailure { cause: "connection reset".to_string() };
    assert_eq!(
        read_complete(50, Err(err.clone())).unwrap_err(),
        err
    );
}

#[test]
fn probe_reports_content_length() {
    assert_eq!(probe_complete(Ok(Some(1234))), Ok(1234));
    assert_eq!(probe_complete(Ok(Some(0))), Ok(0));
}

#[test]
fn probe_without_length_is_open_failure() {
    assert!(matches!(
        probe_complete(Ok(None)),
        Err(SourceError::OpenFailed { .. })
    ));
    assert!(matches!(
        probe_complete(Ok(Some(-1))),
        Err(SourceError::OpenFailed { .. })
    ));
}

#[test]
fn probe_faults_are_classified() {
    assert_eq!(
        probe_complete(Err(ProbeFault::Absent { cause: "no such key".to_string() })),
        Err(SourceError::NotFound { cause: "no such key".to_string() })
    );
    assert_eq!(
        probe_complete(Err(ProbeFault::Other { cause: "throttled".to_string() })),
        Err(SourceError::OpenFailed { cause: "throttled".to_string() })
    );
}

#[test]
fn seek_is_inert() {
    let src = started_source(10);
    assert!(src.is_seekable());
    assert!(src.do_seek(3, 9));
    assert_eq!(src.get_size(), Some(10));
}

#[test]
fn get_uri_prints_stored_locator() {
    let mut src = S3Src::new();
    assert_eq!(src.get_uri(), "");
    src.set_uri(URI).unwrap();
    assert_eq!(src.get_uri(), URI);
}

#[test]
fn plugin_init_reports_success() {
    assert!(plugin_init(true));
    assert!(plugin_init(false));
}
