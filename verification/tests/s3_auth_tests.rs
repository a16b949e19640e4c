use just_tile::s3_auth::{
    is_signable, request_url, signing_result, AccessKey, ConfigChoice, DraftError, MappingFile,
    RequestDraft, S3AuthManager, SigningFailure,
};

const URL: &str = "https://s3.amazonaws.com/test/data.tif";
const NOW: u64 = 1_440_938_160;

fn credentials(token: Option<&str>) -> AccessKey {
    AccessKey {
        access_key_id: "fake_key".to_string(),
        secret_access_key: "fake_secret".to_string(),
        session_token: token.map(|token| token.to_string()),
    }
}

fn draft() -> Result<RequestDraft, DraftError> {
    Ok(RequestDraft { method: "GET".to_string(), headers: vec![] })
}

fn sign(
    credentials: Option<&AccessKey>,
    region: Option<&str>,
    draft: &Result<RequestDraft, DraftError>,
    url: &str,
    now: u64,
) -> Result<Vec<(String, String)>, String> {
    let region = region.map(|region| region.to_string());
    let tried = S3AuthManager::<u8>::try_sign(credentials, region.as_ref(), draft, url, now);
    let result = tried.expect("the request can be signed");
    let signed = S3AuthManager::<u8>::sign(credentials, region.as_ref(), draft, url, now);
    assert_eq!(result, signed);
    result
}

fn value<'a>(headers: &'a [(String, String)], name: &str) -> Option<&'a str> {
    let found = headers.iter().find(|header| header.0.eq_ignore_ascii_case(name));
    found.map(|header| header.1.as_str())
}

fn manager(text: &str) -> S3AuthManager<u8> {
    S3AuthManager::new(0, MappingFile::Text("endpoints.json".to_string(), text.to_string())).0
}

fn chosen(choice: ConfigChoice<'_, u8>) -> Result<u8, String> {
    match choice {
        ConfigChoice::Ready(config) => Ok(*config),
        ConfigChoice::Load(name) => Err(name),
    }
}

#[test]
fn test_sign_without_credentials_skips_signing() {
    let headers = sign(None, None, &draft(), "https://s3.amazonaws.com/test/data.tif", NOW)
        .expect("Signing should not fail, just return the unauthenticated builder");
    assert!(value(&headers, "Authorization").is_none());
    assert!(value(&headers, "x-amz-date").is_none());
    assert!(headers.is_empty());
}

#[test]
fn test_sign_with_credentials_adds_auth() {
    let key = AccessKey {
        access_key_id: "fake_key".to_string(),
        secret_access_key: "fake_secret".to_string(),
        session_token: None,
    };
    let headers = sign(
        Some(&key),
        Some("us-west-2"),
        &draft(),
        "https://s3.amazonaws.com/test/data.tif",
        NOW,
    )
    .expect("Signing should succeed");
    assert!(value(&headers, "Authorization").is_some());
    assert!(value(&headers, "x-amz-date").is_some());
}

#[test]
fn signatures_name_the_key_the_region_and_the_service() {
    let headers = sign(Some(&credentials(None)), Some("us-west-2"), &draft(), URL, NOW).unwrap();
    assert_eq!(headers.len(), 2);
    assert_eq!(headers[0].0, "x-amz-date");
    assert_eq!(headers[0].1, "20150830T123600Z");
    assert_eq!(headers[1].0, "authorization");
    let authorization = &headers[1].1;
    assert!(authorization.starts_with(
        "AWS4-HMAC-SHA256 Credential=fake_key/20150830/us-west-2/s3/aws4_request, \
         SignedHeaders=host;x-amz-date, Signature="
    ), "{}", authorization);
}

#[test]
fn the_region_defaults_to_us_east_1() {
    let key = credentials(None);
    let given = sign(Some(&key), Some("us-east-1"), &draft(), URL, NOW);
    let defaulted = sign(Some(&key), None, &draft(), URL, NOW);
    assert_eq!(given, defaulted);
    assert!(defaulted.unwrap()[1].1.contains("/us-east-1/s3/"));
}

#[test]
fn session_tokens_are_sent() {
    let headers = sign(Some(&credentials(Some("tok"))), None, &draft(), URL, NOW).unwrap();
    assert_eq!(headers.len(), 3);
    assert_eq!(headers[2], ("x-amz-security-token".to_string(), "tok".to_string()));
    assert!(headers[1].1.contains("SignedHeaders=host;x-amz-date;x-amz-security-token"));
}

#[test]
fn headers_of_the_request_are_signed() {
    let key = credentials(None);
    let with = |range: Option<&str>| RequestDraft {
        method: "GET".to_string(),
        headers: vec![("range".to_string(), range.map(|range| range.to_string()))],
    };
    let first = sign(Some(&key), None, &Ok(with(Some("bytes=0-1"))), URL, NOW).unwrap();
    assert!(first[1].1.contains("SignedHeaders=host;range;x-amz-date"));
    let second = sign(Some(&key), None, &Ok(with(Some("bytes=0-2"))), URL, NOW).unwrap();
    assert_ne!(first, second);
    let absent = sign(Some(&key), None, &Ok(with(None)), URL, NOW).unwrap();
    let empty = sign(Some(&key), None, &Ok(with(Some(""))), URL, NOW).unwrap();
    assert_eq!(absent, empty);
}

#[test]
fn signatures_depend_on_each_part_of_the_request() {
    let key = credentials(None);
    let base = sign(Some(&key), None, &draft(), URL, NOW).unwrap();
    assert_eq!(base, sign(Some(&key), None, &draft(), URL, NOW).unwrap());
    let head = Ok(RequestDraft { method: "HEAD".to_string(), headers: vec![] });
    assert_ne!(base, sign(Some(&key), None, &head, URL, NOW).unwrap());
    let other = "https://s3.amazonaws.com/test/other.tif";
    assert_ne!(base, sign(Some(&key), None, &draft(), other, NOW).unwrap());
    assert_ne!(base, sign(Some(&key), None, &draft(), URL, NOW + 1).unwrap());
    let mut other_secret = credentials(None);
    other_secret.secret_access_key = "other".to_string();
    assert_ne!(base, sign(Some(&other_secret), None, &draft(), URL, NOW).unwrap());
}

#[test]
fn requests_that_cannot_be_drafted_are_reported() {
    let key = credentials(None);
    assert_eq!(
        sign(Some(&key), None, &Err(DraftError::NotClonable), URL, NOW).unwrap_err(),
        "Cannot clone request builder"
    );
    assert_eq!(
        sign(Some(&key), None, &Err(DraftError::NotBuilt("bad url".to_string())), URL, NOW)
            .unwrap_err(),
        "bad url"
    );
    let unsigned = sign(None, None, &Err(DraftError::NotClonable), URL, NOW);
    assert_eq!(unsigned, Ok(vec![]));
}

#[test]
fn uris_and_headers_that_cannot_be_signed_are_reported() {
    let key = credentials(None);
    let url = "https://host/a b";
    assert!(is_signable(url, 0, NOW));
    assert_eq!(
        sign(Some(&key), None, &draft(), url, NOW).unwrap_err(),
        "Failed to create signable request: failed to create canonical request"
    );
    let broken = Ok(RequestDraft {
        method: "GET".to_string(),
        headers: vec![("no header".to_string(), Some("x".to_string()))],
    });
    assert_eq!(
        sign(Some(&key), None, &broken, URL, NOW).unwrap_err(),
        "Sign error: failed to create canonical request"
    );
}

#[test]
fn each_failed_step_has_its_message() {
    let failed = |failure: SigningFailure| signing_result(Err(failure)).unwrap_err();
    let text = || "why".to_string();
    assert_eq!(
        failed(SigningFailure::Request(text())),
        "Failed to create signable request: why"
    );
    assert_eq!(failed(SigningFailure::Signature(text())), "Sign error: why");
    let headers = vec![("a".to_string(), "b".to_string())];
    assert_eq!(signing_result(Ok(headers.clone())), Ok(headers));
}

#[test]
fn requests_that_would_overrun_are_recognised() {
    assert!(is_signable(URL, 0, NOW));
    assert!(is_signable(URL, 6550, 253402300799));
    assert!(!is_signable(URL, 6551, NOW));
    assert!(!is_signable(URL, 0, 253402300800));
    assert!(!is_signable("", 0, NOW));
    assert!(!is_signable("/data.tif", 0, NOW));
    assert!(!is_signable("localhost:80", 0, NOW));
    assert!(is_signable(&format!("http://host/{}", "a".repeat(40000)), 0, NOW));
    assert!(is_signable(&format!("http://host/?{}", "a".repeat(40000)), 0, NOW));
    assert!(!is_signable(&format!("http://host/?{}", "+".repeat(40000)), 0, NOW));
    assert!(!is_signable(&format!("http://host/?%{}", "a".repeat(40000)), 0, NOW));
    assert!(is_signable(&format!("http://host/{}?%20", "a".repeat(40000)), 0, NOW));
}

#[test]
fn requests_that_would_overrun_are_not_signed() {
    let key = credentials(None);
    let overlong = format!("http://host/?{}", "+".repeat(40000));
    for url in ["/data.tif", "localhost:80", "*", overlong.as_str()] {
        assert!(S3AuthManager::<u8>::try_sign(Some(&key), None, &draft(), url, NOW).is_none());
        let unsigned = S3AuthManager::<u8>::try_sign(None, None, &draft(), url, NOW);
        assert_eq!(unsigned, Some(Ok(vec![])));
    }
    let late = S3AuthManager::<u8>::try_sign(Some(&key), None, &draft(), URL, 253402300800);
    assert!(late.is_none());
}

#[test]
fn texts_that_are_no_uri_are_reported() {
    let key = credentials(None);
    for url in ["", "http:\\\\host\\a.tif", "/a b", "no uri", "host?query"] {
        assert_eq!(
            sign(Some(&key), None, &draft(), url, NOW).unwrap_err(),
            "Failed to create signable request: failed to create canonical request",
            "{}",
            url
        );
    }
}

#[test]
fn long_queries_can_be_signed() {
    let key = credentials(None);
    for (prefix, filler, size) in [
        ("http://host/", "+", 3),
        ("http://host/", "%FF", 9),
        ("http://host/", "%zz", 9),
        ("http://host/", "+&", 6),
        ("http://host/", "a&", 4),
        ("http://host/", "=", 3),
        ("http://host/", "é", 6),
        ("http://host/", "a", 1),
        ("http://host", "~", 1),
    ] {
        let count = (65534 - prefix.len() - 3) / size;
        let url = format!("{}?{}", prefix, filler.repeat(count));
        assert!(is_signable(&url, 0, NOW), "{}", filler);
        assert!(!is_signable(&format!("{}{}", url, filler.repeat(9)), 0, NOW), "{}", filler);
        assert!(sign(Some(&key), None, &draft(), &url, NOW).is_ok(), "{}", filler);
    }
}

#[test]
fn many_headers_and_late_years_can_be_signed() {
    let headers = (0..6550).map(|i| (format!("x-{}", i), Some("v".to_string()))).collect();
    let many = Ok(RequestDraft { method: "GET".to_string(), headers });
    let signed = sign(Some(&credentials(Some("t"))), None, &many, URL, 253402300799).unwrap();
    assert_eq!(signed[0].1, "99991231T235959Z");
}

#[test]
fn objects_are_requested_from_their_bucket() {
    let region = "us-west-2".to_string();
    assert_eq!(
        request_url("s3://my-secret-bucket/data.tif", Some(&region)),
        "https://my-secret-bucket.s3.us-west-2.amazonaws.com/data.tif"
    );
    assert_eq!(
        request_url("s3://bucket/a/b c.tif", None),
        "https://bucket.s3.us-east-1.amazonaws.com/a/b c.tif"
    );
    assert_eq!(request_url("s3://bucket", None), "https://bucket.s3.us-east-1.amazonaws.com");
    for url in [URL, "s3://", "s3:///key", "s3:/bucket/key", "S3", "", "xs3://b/k", "s3-//b/k"] {
        assert_eq!(request_url(url, Some(&region)), url);
    }
}

#[test]
fn objects_are_signed_under_the_url_that_is_requested() {
    let key = credentials(None);
    let object = "s3://my-secret-bucket/data.tif";
    let requested = "https://my-secret-bucket.s3.us-west-2.amazonaws.com/data.tif";
    assert_eq!(
        sign(Some(&key), Some("us-west-2"), &draft(), object, NOW),
        sign(Some(&key), Some("us-west-2"), &draft(), requested, NOW)
    );
    let profile = "dev_bucket_admin".to_string();
    let manager = manager(r#"{"my-secret-bucket": "mapped"}"#);
    assert_eq!(chosen(manager.get_config(Some(&profile), object)), Err(profile));
    assert_eq!(chosen(manager.get_config(None, object)), Err("mapped".to_string()));
}

#[test]
fn hosts_are_mapped_to_profiles() {
    let text = r#"{
        "internal-minio.acme.com": "minio_local",
        "s3.us-west-2.amazonaws.com": "default"
    }"#;
    let manager = manager(text);
    let choose = |url: &str| chosen(manager.get_config(None, url));
    assert_eq!(choose("https://internal-minio.acme.com/b/f.tif"), Err("minio_local".to_string()));
    assert_eq!(choose("http://INTERNAL-minio.acme.com:9000/x"), Err("minio_local".to_string()));
    assert_eq!(choose("https://s3.us-west-2.amazonaws.com/f"), Err("default".to_string()));
    assert_eq!(choose("https://example.com/f.tif"), Ok(0));
    assert_eq!(choose("internal-minio.acme.com"), Ok(0));
    assert_eq!(choose("data:text/plain,x"), Ok(0));
}

#[test]
fn named_profiles_come_first() {
    let manager = manager(r#"{"host": "mapped"}"#);
    let name = "dev_bucket_admin".to_string();
    let choice = manager.get_config(Some(&name), "https://host/f.tif");
    assert_eq!(chosen(choice), Err(name.clone()));
    assert_eq!(chosen(manager.choose_config(Some(&name), None)), Err(name));
    let host = "host".to_string();
    assert_eq!(chosen(manager.choose_config(None, Some(&host))), Err("mapped".to_string()));
    assert_eq!(chosen(manager.choose_config(None, None)), Ok(0));
}

#[test]
fn stored_configurations_are_used() {
    let mut manager = manager(r#"{"host": "mapped", "other": "second"}"#);
    manager.store_config("mapped".to_string(), 7);
    assert_eq!(chosen(manager.get_config(None, "https://host/f.tif")), Ok(7));
    let name = "mapped".to_string();
    assert_eq!(chosen(manager.get_config(Some(&name), "https://elsewhere/f.tif")), Ok(7));
    assert_eq!(chosen(manager.get_config(None, "https://other/f.tif")), Err("second".to_string()));
    assert_eq!(chosen(manager.get_config(None, "https://none/f.tif")), Ok(0));
}

#[test]
fn mapping_files_are_reported() {
    let (_, notice) = S3AuthManager::new(0u8, MappingFile::Absent);
    assert!(notice.is_none());

    let (_, notice) = S3AuthManager::new(0u8, MappingFile::Unreadable("e.json".to_string()));
    let notice = notice.unwrap();
    assert!(notice.failed);
    assert_eq!(notice.text, "Failed to read endpoint mapping file at e.json");

    for text in ["", "[]", r#"{"a": 1}"#, r#"{"a": "b"} x"#] {
        let file = MappingFile::Text("e.json".to_string(), text.to_string());
        let (manager, notice) = S3AuthManager::new(0u8, file);
        let notice = notice.unwrap();
        assert!(notice.failed);
        assert_eq!(notice.text, "Failed to parse endpoint mapping JSON at e.json");
        assert_eq!(chosen(manager.get_config(None, "https://a/f.tif")), Ok(0));
    }

    for (text, count) in [("{}", 0), (r#"{"a": "b", "c": "d", "a": "e"}"#, 2)] {
        let file = MappingFile::Text("e.json".to_string(), text.to_string());
        let notice = S3AuthManager::new(0u8, file).1.unwrap();
        assert!(!notice.failed);
        assert_eq!(
            notice.text,
            format!("Loaded {} custom endpoint mappings from e.json", count)
        );
    }
}

#[test]
fn the_last_entry_of_a_host_holds() {
    let file_manager = manager(r#"{"a": "first", "a": "second"}"#);
    assert_eq!(
        chosen(file_manager.get_config(None, "https://a/f.tif")),
        Err("second".to_string())
    );
    let entry = |host: &str, profile: &str| (host.to_string(), profile.to_string());
    let entries = Some(vec![entry("a", "first"), entry("b", "x"), entry("a", "second")]);
    let (manager, notice) = S3AuthManager::with_mapping(0u8, "p", &entries);
    assert_eq!(notice.text, "Loaded 2 custom endpoint mappings from p");
    let host = "a".to_string();
    assert_eq!(chosen(manager.choose_config(None, Some(&host))), Err("second".to_string()));
    let (_, notice) = S3AuthManager::with_mapping(0u8, "p", &None);
    assert_eq!(notice.text, "Failed to parse endpoint mapping JSON at p");
}
