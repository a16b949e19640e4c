//! Whose credentials a request is signed with, and which headers signing adds to it.

use crate::text::{
    before_char, count_before, decimal, decimal_string, joined, lemma_before_char, slice_views,
};
use aws_credential_types::Credentials;
use aws_sigv4::http_request::{sign, SignableBody, SignableRequest, SigningSettings};
use aws_sigv4::sign::v4;
use std::time::{Duration, UNIX_EPOCH};
use vstd::hash_map::StringHashMap;
use vstd::prelude::*;
use vstd::utf8::encode_utf8;

verus! {

/// The region that requests are signed for where the configuration names none.
pub open spec fn default_region() -> Seq<char> {
    "us-east-1"@
}

/// The text of a list of pairs of strings.
pub open spec fn pair_views(pairs: Seq<(String, String)>) -> Seq<(Seq<char>, Seq<char>)> {
    pairs.map_values(|pair: (String, String)| (pair.0@, pair.1@))
}

/// The entries of the JSON object with string values that `serde_json` reads from a text, if the
/// text is one.
pub uninterp spec fn json_entries(text: Seq<char>) -> Option<Seq<(Seq<char>, Seq<char>)>>;

/// The host that `url` finds in a text, if the text is a URL that has one.
pub uninterp spec fn url_host(text: Seq<char>) -> Option<Seq<char>>;

/// Whether `aws_sigv4` accepts a text as the URI of a request.
pub uninterp spec fn is_uri(text: Seq<char>) -> bool;

/// The headers with which `aws_sigv4` signs a request, if it can: from the method, URI, headers and
/// body of the request, the access key, its secret and the session token, the region, the service
/// and the time.
pub uninterp spec fn signature_headers(
    method: Seq<char>,
    uri: Seq<char>,
    headers: Seq<(Seq<char>, Seq<char>)>,
    body: Seq<u8>,
    access_key_id: Seq<char>,
    secret_access_key: Seq<char>,
    session_token: Option<Seq<char>>,
    region: Seq<char>,
    service: Seq<char>,
    now: u64,
) -> Option<Seq<(Seq<char>, Seq<char>)>>;

/// `serde_json::from_str` reads a JSON object with string values, here into a `BTreeMap`. What it
/// reads, and whether it can, depends on the text alone.
#[verifier::external_body]
fn read_entries(text: &str) -> (entries: Option<Vec<(String, String)>>)
    ensures
        match (entries, json_entries(text@)) {
            (Some(entries), Some(pairs)) => pair_views(entries@) == pairs,
            (None, None) => true,
            _ => false,
        },
{
    let map: Option<std::collections::BTreeMap<String, String>> = serde_json::from_str(text).ok();
    map.map(|entries| entries.into_iter().collect())
}

/// `url::Url::parse` reads a URL, and `Url::host_str` hands out its host. Both depend on the text
/// alone.
#[verifier::external_body]
fn read_host(text: &str) -> (host: Option<String>)
    ensures
        match (host, url_host(text@)) {
            (Some(host), Some(name)) => host@ == name,
            (None, None) => true,
            _ => false,
        },
{
    url::Url::parse(text).ok().and_then(|url| url.host_str().map(|host| host.to_string()))
}

/// Access to an account: the access key, its secret, and the token of a temporary session.
pub struct AccessKey {
    pub access_key_id: String,
    pub secret_access_key: String,
    pub session_token: Option<String>,
}

impl AccessKey {
    /// The text of the session token.
    pub open spec fn token(self) -> Option<Seq<char>> {
        match self.session_token {
            Some(token) => Some(token@),
            None => None,
        }
    }
}

/// The step at which signing failed, with the text that describes the error.
pub enum SigningFailure {
    Request(String),
    Signature(String),
}

/// Whether percent-encoding keeps a byte.
pub open spec fn is_plain(b: u8) -> bool {
    ||| 48 <= b <= 57
    ||| 65 <= b <= 90
    ||| 97 <= b <= 122
    ||| b == 45 || b == 46 || b == 95 || b == 126
}

/// The number of bytes that percent-encoding keeps.
pub open spec fn plain_bytes(bytes: Seq<u8>) -> nat
    decreases bytes.len(),
{
    if bytes.len() == 0 {
        0
    } else {
        plain_bytes(bytes.drop_last()) + if is_plain(bytes.last()) {
            1nat
        } else {
            0nat
        }
    }
}

/// The length that a query, from its question mark on, has at most once it is decoded and encoded
/// again: each byte may take three, but one that encoding keeps stays one byte in a query without
/// percent signs.
pub open spec fn longest_query(query: Seq<u8>) -> int {
    if query.contains(37) {
        3 * query.len() as int
    } else {
        3 * query.len() - 2 * plain_bytes(query)
    }
}

/// The length that a URI has at most once its query is decoded and encoded again.
pub open spec fn longest_uri(uri: Seq<char>) -> int {
    let path = before_char(uri, '?') as int;
    encode_utf8(uri.take(path)).len() + longest_query(encode_utf8(uri.skip(path)))
}

/// Whether signing a request with a URI cannot overrun: its headers are few enough for a header map
/// that never has to outgrow its greatest size, its URI is not a bare path or host, it stays within
/// the length of a URI once its query is encoded again, and the year has four digits.
pub open spec fn signable(uri: Seq<char>, headers: nat, now: u64) -> bool {
    &&& headers + 3 <= 6553
    &&& uri.len() > 0 && uri[0] != '/'
    &&& uri.contains('/')
    &&& uri.contains('?') ==> longest_uri(uri) <= 65534
    &&& now <= 253402300799
}

/// Whether headers are those of a signed request: the date, the authorization and, if there is one,
/// the session token.
pub open spec fn carries_signature(
    headers: Seq<(String, String)>,
    session_token: Option<Seq<char>>,
) -> bool {
    &&& headers.len() == if session_token is Some {
        3nat
    } else {
        2nat
    }
    &&& headers[0].0@ == "x-amz-date"@
    &&& headers[1].0@ == "authorization"@
    &&& session_token matches Some(token) ==> {
        &&& headers[2].0@ == "x-amz-security-token"@
        &&& headers[2].1@ == token
    }
}

/// `aws_sigv4::http_request::SignableRequest::new` takes the parts of a request. It fails where
/// the URI is none, whatever the other parts are, with the text that the contract gives.
#[verifier::external_body]
fn check_uri(uri: &str) -> (result: Result<(), String>)
    ensures
        match result {
            Ok(_) => is_uri(uri@),
            Err(text) => !is_uri(uri@) && text@ == "failed to create canonical request"@,
        },
{
    match SignableRequest::new("", uri, std::iter::empty(), SignableBody::Bytes(&[])) {
        Ok(_) => Ok(()),
        Err(e) => Err(e.to_string()),
    }
}

/// `aws_sigv4::http_request::sign` signs a request, here with the default settings. The headers it
/// hands out depend on its arguments alone: they are the date, the authorization and, if there is
/// a session token, the token. It fails with the text that the contract gives. The URI is one and
/// all parameters are given, so that nothing fails before it signs. It panics on a URI without an
/// authority, on a query that is too long once it is encoded, on too many headers and on a year
/// beyond 9999: `signable` leaves those out.
#[verifier::external_body]
fn sign_parts<'a>(
    method: &'a str,
    uri: &'a str,
    headers: Vec<(&'a str, &'a str)>,
    body: &'a [u8],
    access_key_id: &str,
    secret_access_key: &str,
    session_token: Option<String>,
    region: &str,
    service: &str,
    now: u64,
) -> (result: Result<Vec<(String, String)>, String>)
    requires
        is_uri(uri@),
        signable(uri@, headers@.len(), now),
    ensures
        ({
            let token = match session_token {
                Some(token) => Some(token@),
                None => None,
            };
            let signed = signature_headers(
                method@,
                uri@,
                slice_views(headers@),
                body@,
                access_key_id@,
                secret_access_key@,
                token,
                region@,
                service@,
                now,
            );
            match result {
                Ok(added) => {
                    &&& signed == Some(pair_views(added@))
                    &&& carries_signature(added@, token)
                },
                Err(text) => signed is None && text@ == "failed to create canonical request"@,
            }
        }),
{
    let request = SignableRequest::new(method, uri, headers.into_iter(), SignableBody::Bytes(body))
        .map_err(|e| e.to_string())?;
    let identity =
        Credentials::new(access_key_id, secret_access_key, session_token, None, "").into();
    let params = v4::SigningParams::builder().identity(&identity).region(region).name(service)
        .time(UNIX_EPOCH + Duration::from_secs(now)).settings(SigningSettings::default()).build()
        .map_err(|e| e.to_string())?;
    let signed = sign(request, &params.into()).map_err(|e| e.to_string())?;
    Ok(signed.output().headers().map(|h| (h.0.to_string(), h.1.to_string())).collect())
}

/// A request as it stands before it is signed. A header's value is absent where it holds anything
/// but visible ASCII.
pub struct RequestDraft {
    pub method: String,
    pub headers: Vec<(String, Option<String>)>,
}

/// Why there is no draft of a request.
pub enum DraftError {
    NotClonable,
    NotBuilt(String),
}

/// The headers of a draft as they are signed: a value that is absent counts as empty.
pub open spec fn draft_pairs(headers: Seq<(String, Option<String>)>) -> Seq<
    (Seq<char>, Seq<char>),
> {
    headers.map_values(
        |header: (String, Option<String>)|
            (
                header.0@,
                match header.1 {
                    Some(value) => value@,
                    None => Seq::empty(),
                },
            ),
    )
}

/// The region that a request is signed for.
pub open spec fn region_or_default(region: Option<&String>) -> Seq<char> {
    match region {
        Some(name) => name@,
        None => default_region(),
    }
}

/// Whether a URL names an object by its bucket and key.
pub open spec fn is_s3_url(url: Seq<char>) -> bool {
    url.len() > 5 && url.take(5) == "s3://"@ && url[5] != '/'
}

/// The URL under which a file is requested: that of the S3 service of the region for an object that
/// is named by its bucket and key, and any other URL as it is.
pub open spec fn requested_url(url: Seq<char>, region: Seq<char>) -> Seq<char> {
    if is_s3_url(url) {
        let path = url.skip(5);
        let bucket = path.take(before_char(path, '/') as int);
        "https://"@ + bucket + ".s3."@ + region + ".amazonaws.com"@ + path.skip(
            bucket.len() as int,
        )
    } else {
        url
    }
}

/// Finds the URL under which a file is requested.
pub fn request_url(url: &str, region: Option<&String>) -> (requested: String)
    ensures
        requested@ == requested_url(url@, region_or_default(region)),
{
    let len: usize = url.unicode_len();
    proof {
        reveal_strlit("s3://");
    }
    if len <= 5 || url.get_char(0) != 's' || url.get_char(1) != '3' || url.get_char(2) != ':'
        || url.get_char(3) != '/' || url.get_char(4) != '/' || url.get_char(5) == '/' {
        proof {
            if len > 5 && url@.take(5) == "s3://"@ {
                assert(url@.take(5)[0] == 's' && url@.take(5)[1] == '3' && url@.take(5)[2] == ':');
                assert(url@.take(5)[3] == '/' && url@.take(5)[4] == '/');
            }
        }
        return url.to_owned();
    }
    assert(url@.take(5) =~= "s3://"@);
    let path: &str = url.substring_char(5, len);
    assert(path@ =~= url@.skip(5));
    let end: usize = count_before(path, '/');
    let bucket: &str = path.substring_char(0, end);
    let key: &str = path.substring_char(end, len - 5);
    let mut requested = joined("https://", bucket);
    requested.append(".s3.");
    requested.append(region_name(region));
    requested.append(".amazonaws.com");
    requested.append(key);
    assert(bucket@ =~= path@.take(end as int));
    assert(key@ =~= path@.skip(end as int));
    requested
}

fn region_name(region: Option<&String>) -> (name: &str)
    ensures
        name@ == region_or_default(region),
{
    match region {
        Some(name) => name.as_str(),
        None => "us-east-1",
    }
}

/// The headers that signing adds to a request for a URL, or the message with which it fails.
/// Without credentials it adds none.
pub open spec fn added_headers(
    credentials: Option<&AccessKey>,
    region: Option<&String>,
    draft: Result<RequestDraft, DraftError>,
    url: Seq<char>,
    now: u64,
) -> Result<Seq<(Seq<char>, Seq<char>)>, Seq<char>> {
    match (credentials, draft) {
        (None, _) => Ok(Seq::empty()),
        (Some(_), Err(DraftError::NotClonable)) => Err("Cannot clone request builder"@),
        (Some(_), Err(DraftError::NotBuilt(text))) => Err(text@),
        (Some(key), Ok(request)) => {
            let requested = requested_url(url, region_or_default(region));
            let signed = signature_headers(
                request.method@,
                requested,
                draft_pairs(request.headers@),
                Seq::empty(),
                key.access_key_id@,
                key.secret_access_key@,
                key.token(),
                region_or_default(region),
                "s3"@,
                now,
            );
            if !is_uri(requested) {
                Err("Failed to create signable request: "@ + "failed to create canonical request"@)
            } else {
                match signed {
                    Some(headers) => Ok(headers),
                    None => Err("Sign error: "@ + "failed to create canonical request"@),
                }
            }
        },
    }
}

/// The message for a step at which signing failed.
pub open spec fn failure_message(failure: SigningFailure) -> Seq<char> {
    match failure {
        SigningFailure::Request(text) => "Failed to create signable request: "@ + text@,
        SigningFailure::Signature(text) => "Sign error: "@ + text@,
    }
}

/// Hands on the headers with which a request was signed, or the message for the step that failed.
pub fn signing_result(signed: Result<Vec<(String, String)>, SigningFailure>) -> (result: Result<
    Vec<(String, String)>,
    String,
>)
    ensures
        match (result, signed) {
            (Ok(added), Ok(headers)) => added == headers,
            (Err(message), Err(failure)) => message@ == failure_message(failure),
            _ => false,
        },
{
    match signed {
        Ok(headers) => Ok(headers),
        Err(SigningFailure::Request(text)) => Err(
            joined("Failed to create signable request: ", text.as_str()),
        ),
        Err(SigningFailure::Signature(text)) => Err(joined("Sign error: ", text.as_str())),
    }
}

/// Tells whether signing a request with a URI cannot overrun.
pub fn is_signable(uri: &str, headers: usize, now: u64) -> (fits: bool)
    ensures
        fits == signable(uri@, headers as nat, now),
{
    let len: usize = uri.unicode_len();
    if headers > 6550 || now > 253402300799 || len == 0 {
        return false;
    }
    if uri.get_char(0) == '/' || count_before(uri, '/') == len {
        return false;
    }
    let path: usize = count_before(uri, '?');
    if path == len {
        return true;
    }
    let before: &str = uri.substring_char(0, path);
    let query: &str = uri.substring_char(path, len);
    assert(before@ =~= uri@.take(path as int));
    assert(query@ =~= uri@.skip(path as int));
    let size: u128 = before.as_bytes().len() as u128 + count_longest_query(query.as_bytes());
    size <= 65534
}

fn count_longest_query(query: &[u8]) -> (size: u128)
    ensures
        size == longest_query(query@),
        size <= 3 * usize::MAX,
{
    let mut plain: usize = 0;
    let mut encoded: bool = false;
    let mut i: usize = 0;
    while i < query.len()
        invariant
            i <= query@.len(),
            plain <= i,
            plain == plain_bytes(query@.take(i as int)),
            encoded <==> exists|j: int| 0 <= j < i && query@[j] == 37,
        decreases query@.len() - i,
    {
        let b: u8 = query[i];
        assert(query@.take(i + 1).drop_last() =~= query@.take(i as int));
        assert(query@.take(i + 1).last() == b);
        if b == 37 {
            encoded = true;
        }
        if 48 <= b && b <= 57 || 65 <= b && b <= 90 || 97 <= b && b <= 122 || b == 45 || b == 46
            || b == 95 || b == 126 {
            plain = plain + 1;
        }
        i = i + 1;
    }
    assert(query@.take(i as int) =~= query@);
    let most: u128 = 3 * query.len() as u128;
    if encoded {
        most
    } else {
        most - 2 * plain as u128
    }
}

fn signed_pairs<'a>(headers: &'a Vec<(String, Option<String>)>) -> (pairs: Vec<(&'a str, &'a str)>)
    ensures
        slice_views(pairs@) == draft_pairs(headers@),
        pairs@.len() == headers@.len(),
{
    let mut pairs: Vec<(&'a str, &'a str)> = Vec::new();
    let mut i: usize = 0;
    while i < headers.len()
        invariant
            i <= headers@.len(),
            slice_views(pairs@) == draft_pairs(headers@).take(i as int),
            pairs@.len() == i,
        decreases headers@.len() - i,
    {
        let value: &'a str = match &headers[i].1 {
            Some(value) => value.as_str(),
            None => "",
        };
        proof {
            reveal_strlit("");
            assert(""@ =~= Seq::<char>::empty());
        }
        let ghost before = pairs@;
        pairs.push((headers[i].0.as_str(), value));
        assert(slice_views(pairs@) =~= slice_views(before).push(draft_pairs(headers@)[i as int]));
        assert(draft_pairs(headers@).take(i + 1) =~= draft_pairs(headers@).take(i as int).push(
            draft_pairs(headers@)[i as int],
        ));
        i = i + 1;
    }
    assert(draft_pairs(headers@).take(i as int) =~= draft_pairs(headers@));
    pairs
}

/// Whether signing a request for a URL would overrun.
pub open spec fn overruns(
    credentials: Option<&AccessKey>,
    region: Option<&String>,
    draft: Result<RequestDraft, DraftError>,
    url: Seq<char>,
    now: u64,
) -> bool {
    let requested = requested_url(url, region_or_default(region));
    &&& credentials is Some
    &&& draft is Ok
    &&& is_uri(requested)
    &&& !signable(requested, draft->Ok_0.headers@.len(), now)
}

/// What a mapping file gave: none was named, it could not be read, or its path and its text.
pub enum MappingFile {
    Absent,
    Unreadable(String),
    Text(String, String),
}

/// A line for the operator, and whether it tells of a failure.
pub struct Notice {
    pub failed: bool,
    pub text: String,
}

/// The mapping that a list of entries gives: of two entries for a host the later one holds.
pub open spec fn mapping_of(entries: Seq<(Seq<char>, Seq<char>)>) -> Map<Seq<char>, Seq<char>>
    decreases entries.len(),
{
    if entries.len() == 0 {
        Map::empty()
    } else {
        mapping_of(entries.drop_last()).insert(entries.last().0, entries.last().1)
    }
}

/// The line that tells what became of a mapping file.
pub open spec fn mapping_notice(
    path: Seq<char>,
    entries: Option<Seq<(Seq<char>, Seq<char>)>>,
) -> Seq<char> {
    match entries {
        Some(entries) => "Loaded "@ + decimal(mapping_of(entries).len())
            + " custom endpoint mappings from "@ + path,
        None => "Failed to parse endpoint mapping JSON at "@ + path,
    }
}

/// The profile that a request uses: the one that it names, else the one that its host is mapped to.
pub open spec fn chosen_profile(
    override_profile: Option<Seq<char>>,
    host: Option<Seq<char>>,
    mapping: Map<Seq<char>, Seq<char>>,
) -> Option<Seq<char>> {
    match (override_profile, host) {
        (Some(name), _) => Some(name),
        (None, Some(host)) => if mapping.contains_key(host) {
            Some(mapping[host])
        } else {
            None
        },
        (None, None) => None,
    }
}

/// The configuration that a request uses: one that is there, or that of a profile which has yet to
/// be loaded.
pub enum ConfigChoice<'a, C> {
    Ready(&'a C),
    Load(String),
}

/// The text of a string that may be absent.
pub open spec fn text_of(text: Option<&String>) -> Option<Seq<char>> {
    match text {
        Some(text) => Some(text@),
        None => None,
    }
}

/// The configurations that requests are signed with.
#[verifier::reject_recursive_types(C)]
pub struct S3AuthManager<C> {
    default_config: C,
    endpoint_mapping: StringHashMap<String>,
    profile_configs: StringHashMap<C>,
}

impl<C> S3AuthManager<C> {
    /// The configuration for requests without a profile.
    pub closed spec fn default_config(self) -> C {
        self.default_config
    }

    /// The profiles by host.
    pub closed spec fn mapping(self) -> Map<Seq<char>, Seq<char>> {
        self.endpoint_mapping@.map_values(|profile: String| profile@)
    }

    /// The configurations that were loaded, by profile.
    pub closed spec fn configs(self) -> Map<Seq<char>, C> {
        self.profile_configs@
    }

    /// Whether a choice is the configuration that a request uses.
    pub open spec fn chooses(
        self,
        override_profile: Option<Seq<char>>,
        host: Option<Seq<char>>,
        choice: ConfigChoice<'_, C>,
    ) -> bool {
        match chosen_profile(override_profile, host, self.mapping()) {
            None => choice == ConfigChoice::Ready(&self.default_config()),
            Some(name) => if self.configs().contains_key(name) {
                choice == ConfigChoice::Ready(&self.configs()[name])
            } else {
                choice matches ConfigChoice::Load(wanted) && wanted@ == name
            },
        }
    }

    /// Sets up the configurations with what a mapping file gave.
    pub fn new(default_config: C, mapping_file: MappingFile) -> (made: (
        S3AuthManager<C>,
        Option<Notice>,
    ))
        ensures
            made.0.default_config() == default_config,
            made.0.configs() == Map::<Seq<char>, C>::empty(),
            match mapping_file {
                MappingFile::Absent => {
                    &&& made.0.mapping() == mapping_of(Seq::empty())
                    &&& made.1 is None
                },
                MappingFile::Unreadable(path) => {
                    &&& made.0.mapping() == mapping_of(Seq::empty())
                    &&& made.1 matches Some(notice) && notice.failed && notice.text@
                        == "Failed to read endpoint mapping file at "@ + path@
                },
                MappingFile::Text(path, text) => {
                    &&& made.0.mapping() == match json_entries(text@) {
                        Some(entries) => mapping_of(entries),
                        None => mapping_of(Seq::empty()),
                    }
                    &&& made.1 matches Some(notice) && notice.failed == (json_entries(
                        text@,
                    ) is None) && notice.text@ == mapping_notice(path@, json_entries(text@))
                },
            },
    {
        match mapping_file {
            MappingFile::Absent => (Self::with_entries(default_config, &Vec::new()), None),
            MappingFile::Unreadable(path) => {
                let text = joined("Failed to read endpoint mapping file at ", path.as_str());
                (
                    Self::with_entries(default_config, &Vec::new()),
                    Some(Notice { failed: true, text }),
                )
            },
            MappingFile::Text(path, text) => {
                let entries = read_entries(text.as_str());
                let (manager, notice) = Self::with_mapping(default_config, path.as_str(), &entries);
                (manager, Some(notice))
            },
        }
    }

    /// Sets up the configurations with the entries that were read from a mapping file, if it could
    /// be parsed.
    pub fn with_mapping(
        default_config: C,
        path: &str,
        entries: &Option<Vec<(String, String)>>,
    ) -> (made: (S3AuthManager<C>, Notice))
        ensures
            made.0.default_config() == default_config,
            made.0.configs() == Map::<Seq<char>, C>::empty(),
            match *entries {
                Some(entries) => {
                    &&& made.0.mapping() == mapping_of(pair_views(entries@))
                    &&& !made.1.failed
                    &&& made.1.text@ == mapping_notice(path@, Some(pair_views(entries@)))
                },
                None => {
                    &&& made.0.mapping() == mapping_of(Seq::empty())
                    &&& made.1.failed
                    &&& made.1.text@ == mapping_notice(path@, None)
                },
            },
    {
        match entries {
            Some(entries) => {
                let manager = Self::with_entries(default_config, entries);
                let count: usize = manager.endpoint_mapping.len();
                assert(manager.mapping().dom() =~= manager.endpoint_mapping@.dom());
                let number = decimal_string(count as u64);
                let mut text = joined("Loaded ", number.as_str());
                text.append(" custom endpoint mappings from ");
                text.append(path);
                (manager, Notice { failed: false, text })
            },
            None => {
                let text = joined("Failed to parse endpoint mapping JSON at ", path);
                (Self::with_entries(default_config, &Vec::new()), Notice { failed: true, text })
            },
        }
    }

    fn with_entries(default_config: C, entries: &Vec<(String, String)>) -> (manager: S3AuthManager<
        C,
    >)
        ensures
            manager.default_config() == default_config,
            manager.configs() == Map::<Seq<char>, C>::empty(),
            manager.mapping() == mapping_of(pair_views(entries@)),
    {
        let mut manager = S3AuthManager {
            default_config,
            endpoint_mapping: StringHashMap::new(),
            profile_configs: StringHashMap::new(),
        };
        assert(manager.mapping() =~= Map::empty());
        let mut i: usize = 0;
        while i < entries.len()
            invariant
                i <= entries@.len(),
                manager.default_config() == default_config,
                manager.configs() == Map::<Seq<char>, C>::empty(),
                manager.mapping() == mapping_of(pair_views(entries@).take(i as int)),
            decreases entries@.len() - i,
        {
            let ghost before = manager.mapping();
            let ghost pairs = pair_views(entries@);
            let (host, profile) = (&entries[i].0, &entries[i].1);
            manager.endpoint_mapping.insert(host.as_str().to_owned(), profile.as_str().to_owned());
            assert(manager.mapping() =~= before.insert(host@, profile@));
            assert(pairs.take(i + 1).drop_last() =~= pairs.take(i as int));
            assert(pairs.take(i + 1).last() == (host@, profile@));
            i = i + 1;
        }
        assert(pair_views(entries@).take(i as int) =~= pair_views(entries@));
        manager
    }

    /// Chooses the configuration for a request to a URL.
    pub fn get_config<'a>(&'a self, override_profile: Option<&String>, url: &str) -> (choice:
        ConfigChoice<'a, C>)
        ensures
            self.chooses(text_of(override_profile), url_host(url@), choice),
    {
        match override_profile {
            Some(_) => self.choose_config(override_profile, None),
            None => {
                let host = read_host(url);
                self.choose_config(None, host.as_ref())
            },
        }
    }

    /// Chooses the configuration for a request to a host.
    pub fn choose_config<'a>(
        &'a self,
        override_profile: Option<&String>,
        host: Option<&String>,
    ) -> (choice: ConfigChoice<'a, C>)
        ensures
            self.chooses(text_of(override_profile), text_of(host), choice),
    {
        let name: &str = match override_profile {
            Some(name) => name.as_str(),
            None => {
                let mapped = match host {
                    Some(host) => self.endpoint_mapping.get(host.as_str()),
                    None => None,
                };
                match mapped {
                    Some(name) => name.as_str(),
                    None => return ConfigChoice::Ready(&self.default_config),
                }
            },
        };
        match self.profile_configs.get(name) {
            Some(config) => ConfigChoice::Ready(config),
            None => ConfigChoice::Load(name.to_owned()),
        }
    }

    /// Keeps the configuration of a profile that was loaded.
    pub fn store_config(&mut self, name: String, config: C)
        ensures
            final(self).default_config() == old(self).default_config(),
            final(self).mapping() == old(self).mapping(),
            final(self).configs() == old(self).configs().insert(name@, config),
    {
        self.profile_configs.insert(name, config);
    }

    /// Finds the headers that signing adds to a request for a URL, with the credentials and the
    /// region that its configuration gives and at a time in seconds since 1970. Without credentials
    /// the request is left unsigned.
    pub fn sign(
        credentials: Option<&AccessKey>,
        region: Option<&String>,
        draft: &Result<RequestDraft, DraftError>,
        url: &str,
        now: u64,
    ) -> (result: Result<Vec<(String, String)>, String>)
        requires
            !overruns(credentials, region, *draft, url@, now),
        ensures
            match (result, added_headers(credentials, region, *draft, url@, now)) {
                (Ok(added), Ok(headers)) => pair_views(added@) == headers,
                (Err(e), Err(message)) => e@ == message,
                _ => false,
            },
            match (result, credentials) {
                (Ok(added), Some(key)) => carries_signature(added@, key.token()),
                _ => true,
            },
    {
        let key = match credentials {
            Some(key) => key,
            None => {
                let none: Vec<(String, String)> = Vec::new();
                assert(pair_views(none@) =~= Seq::empty());
                return Ok(none);
            },
        };
        let request = match draft {
            Ok(request) => request,
            Err(DraftError::NotClonable) => return Err("Cannot clone request builder".to_owned()),
            Err(DraftError::NotBuilt(text)) => return Err(text.as_str().to_owned()),
        };
        let requested = request_url(url, region);
        let uri: &str = requested.as_str();
        if let Err(text) = check_uri(uri) {
            return signing_result(Err(SigningFailure::Request(text)));
        }
        let token = match &key.session_token {
            Some(token) => Some(token.as_str().to_owned()),
            None => None,
        };
        let body: Vec<u8> = Vec::new();
        assert(body@ =~= Seq::<u8>::empty());
        let signed = match sign_parts(
            request.method.as_str(),
            uri,
            signed_pairs(&request.headers),
            body.as_slice(),
            key.access_key_id.as_str(),
            key.secret_access_key.as_str(),
            token,
            region_name(region),
            "s3",
            now,
        ) {
            Ok(added) => Ok(added),
            Err(text) => Err(SigningFailure::Signature(text)),
        };
        signing_result(signed)
    }

    /// Finds the headers that signing adds to a request for a URL, like `sign`, unless signing it
    /// would overrun.
    pub fn try_sign(
        credentials: Option<&AccessKey>,
        region: Option<&String>,
        draft: &Result<RequestDraft, DraftError>,
        url: &str,
        now: u64,
    ) -> (tried: Option<Result<Vec<(String, String)>, String>>)
        ensures
            tried is None <==> overruns(credentials, region, *draft, url@, now),
            tried matches Some(result) ==> match (
                result,
                added_headers(credentials, region, *draft, url@, now),
            ) {
                (Ok(added), Ok(headers)) => pair_views(added@) == headers,
                (Err(e), Err(message)) => e@ == message,
                _ => false,
            },
            match (tried, credentials) {
                (Some(Ok(added)), Some(key)) => carries_signature(added@, key.token()),
                _ => true,
            },
    {
        if let (Some(_), Ok(request)) = (credentials, draft) {
            let requested = request_url(url, region);
            let uri: &str = requested.as_str();
            if check_uri(uri).is_ok() && !is_signable(uri, request.headers.len(), now) {
                return None;
            }
        }
        Some(Self::sign(credentials, region, draft, url, now))
    }
}

/// An object that is named by its bucket and key is requested from the S3 service of the region.
pub proof fn law_objects_are_requested_from_their_bucket(
    bucket: Seq<char>,
    key: Seq<char>,
    region: Seq<char>,
)
    requires
        bucket.len() > 0,
        !bucket.contains('/'),
    ensures
        requested_url("s3://"@ + bucket + "/"@ + key, region) == "https://"@ + bucket + ".s3."@
            + region + ".amazonaws.com/"@ + key,
{
    reveal_strlit("s3://");
    reveal_strlit("/");
    reveal_strlit(".amazonaws.com");
    reveal_strlit(".amazonaws.com/");
    let url = "s3://"@ + bucket + "/"@ + key;
    let path = url.skip(5);
    assert(url.take(5) =~= "s3://"@);
    assert(url[5] == bucket[0]);
    assert(path =~= bucket + "/"@ + key);
    assert forall|i: int| 0 <= i < bucket.len() implies path[i] != '/' by {
        assert(bucket.contains(bucket[i]));
    }
    lemma_before_char(path, '/', bucket.len());
    assert(path.take(bucket.len() as int) =~= bucket);
    assert(path.skip(bucket.len() as int) =~= "/"@ + key);
    assert(".amazonaws.com"@ + ("/"@ + key) =~= ".amazonaws.com/"@ + key);
    assert(requested_url(url, region) =~= "https://"@ + bucket + ".s3."@ + region
        + ".amazonaws.com/"@ + key);
}

/// A URL of another scheme is requested as it is.
pub proof fn law_other_urls_are_requested_as_they_are(url: Seq<char>, region: Seq<char>)
    requires
        url.len() < 5 || url.take(5) != "s3://"@,
    ensures
        requested_url(url, region) == url,
{
}

/// A host is mapped to the profile that its last entry names.
pub proof fn law_last_entry_of_a_host_holds(entries: Seq<(Seq<char>, Seq<char>)>, i: int)
    requires
        0 <= i < entries.len(),
        forall|j: int| i < j < entries.len() ==> #[trigger] entries[j].0 != entries[i].0,
    ensures
        mapping_of(entries).contains_key(entries[i].0),
        mapping_of(entries)[entries[i].0] == entries[i].1,
    decreases entries.len(),
{
    if i < entries.len() - 1 {
        let rest = entries.drop_last();
        assert(entries[entries.len() - 1].0 != entries[i].0);
        assert forall|j: int| i < j < rest.len() implies #[trigger] rest[j].0 != rest[i].0 by {
            assert(entries[j].0 != entries[i].0);
        }
        law_last_entry_of_a_host_holds(rest, i);
    }
}

/// A host without an entry is not mapped.
pub proof fn law_other_hosts_are_not_mapped(
    entries: Seq<(Seq<char>, Seq<char>)>,
    host: Seq<char>,
)
    requires
        forall|i: int| 0 <= i < entries.len() ==> #[trigger] entries[i].0 != host,
    ensures
        !mapping_of(entries).contains_key(host),
    decreases entries.len(),
{
    if entries.len() > 0 {
        let rest = entries.drop_last();
        assert(entries[entries.len() - 1].0 != host);
        assert forall|i: int| 0 <= i < rest.len() implies #[trigger] rest[i].0 != host by {
            assert(entries[i].0 != host);
        }
        law_other_hosts_are_not_mapped(rest, host);
    }
}

/// The profile that a request names is used, whatever its host is mapped to.
pub proof fn law_named_profile_comes_first(
    name: Seq<char>,
    host: Option<Seq<char>>,
    mapping: Map<Seq<char>, Seq<char>>,
)
    ensures
        chosen_profile(Some(name), host, mapping) == Some(name),
{
}

/// A request that names no profile, to a host that is not mapped, uses the default configuration.
pub proof fn law_default_config_is_the_fallback<C>(
    manager: S3AuthManager<C>,
    host: Option<Seq<char>>,
    choice: ConfigChoice<'_, C>,
)
    requires
        host matches Some(name) ==> !manager.mapping().contains_key(name),
        manager.chooses(None, host, choice),
    ensures
        choice == ConfigChoice::Ready(&manager.default_config()),
{
}

/// Once the configuration of a profile was stored it is used for that profile, and what other
/// profiles use stays the same.
pub proof fn law_stored_config_is_used<C>(
    before: S3AuthManager<C>,
    after: S3AuthManager<C>,
    name: Seq<char>,
    config: C,
    override_profile: Option<Seq<char>>,
    host: Option<Seq<char>>,
    choice: ConfigChoice<'_, C>,
)
    requires
        after.default_config() == before.default_config(),
        after.mapping() == before.mapping(),
        after.configs() == before.configs().insert(name, config),
        after.chooses(override_profile, host, choice),
    ensures
        chosen_profile(override_profile, host, after.mapping()) == Some(name) ==> choice
            == ConfigChoice::Ready(&config),
        chosen_profile(override_profile, host, after.mapping()) != Some(name) ==> before.chooses(
            override_profile,
            host,
            choice,
        ),
{
}

/// Without credentials every request goes out as it is.
pub proof fn law_unsigned_without_credentials(
    region: Option<&String>,
    draft: Result<RequestDraft, DraftError>,
    url: Seq<char>,
    now: u64,
)
    ensures
        added_headers(None, region, draft, url, now) == Ok::<
            Seq<(Seq<char>, Seq<char>)>,
            Seq<char>,
        >(Seq::empty()),
{
}

proof fn lemma_headers_of_a_signed_request(
    key: AccessKey,
    region: Option<&String>,
    request: RequestDraft,
    url: Seq<char>,
    now: u64,
    requested: String,
    token: Option<Seq<char>>,
    named: Seq<char>,
    pairs: Seq<(Seq<char>, Seq<char>)>,
    result: Result<Vec<(String, String)>, String>,
)
    requires
        requested@ == requested_url(url, region_or_default(region)),
        key.session_token matches Some(text) ==> token == Some(text@),
        key.session_token is None ==> token is None,
        named == match region {
            Some(name) => name@,
            None => "us-east-1"@,
        },
        pairs.len() == request.headers@.len(),
        forall|i: int|
            0 <= i < pairs.len() ==> #[trigger] pairs[i] == (
                request.headers@[i].0@,
                match request.headers@[i].1 {
                    Some(value) => value@,
                    None => Seq::empty(),
                },
            ),
        match (result, added_headers(Some(&key), region, Ok(request), url, now)) {
            (Ok(added), Ok(headers)) => pair_views(added@) == headers,
            (Err(e), Err(message)) => e@ == message,
            _ => false,
        },
    ensures
        ({
            let signed = signature_headers(
                request.method@,
                requested@,
                pairs,
                Seq::<u8>::empty(),
                key.access_key_id@,
                key.secret_access_key@,
                token,
                named,
                "s3"@,
                now,
            );
            if !is_uri(requested@) {
                result matches Err(e) && e@
                    == "Failed to create signable request: failed to create canonical request"@
            } else if signed is None {
                result matches Err(e) && e@ == "Sign error: failed to create canonical request"@
            } else {
                &&& result is Ok
                &&& result->Ok_0@.len() == signed->Some_0.len()
                &&& forall|i: int|
                    0 <= i < signed->Some_0.len() ==> #[trigger] signed->Some_0[i] == (
                        result->Ok_0@[i].0@,
                        result->Ok_0@[i].1@,
                    )
            }
        }),
{
    assert(pairs =~= draft_pairs(request.headers@));
    reveal_strlit("Failed to create signable request: ");
    reveal_strlit("Sign error: ");
    reveal_strlit("failed to create canonical request");
    reveal_strlit("Failed to create signable request: failed to create canonical request");
    reveal_strlit("Sign error: failed to create canonical request");
    assert("Failed to create signable request: "@ + "failed to create canonical request"@
        =~= "Failed to create signable request: failed to create canonical request"@);
    assert("Sign error: "@ + "failed to create canonical request"@
        =~= "Sign error: failed to create canonical request"@);
}

/// A request is signed as one without a body, for the service `s3` and the region of its
/// configuration, which is `us-east-1` where it names none, at the URL under which it is requested
/// and with its own method and headers, those without a value as empty ones. What is added are the
/// headers of that signature, in their order; where there is none, that is told.
pub proof fn law_requests_are_signed_without_a_body<C>(
    key: AccessKey,
    region: Option<&String>,
    request: RequestDraft,
    url: &str,
    now: u64,
    requested: String,
    token: Option<Seq<char>>,
    named: Seq<char>,
    pairs: Seq<(Seq<char>, Seq<char>)>,
    result: Result<Vec<(String, String)>, String>,
)
    requires
        call_ensures(request_url, (url, region), requested),
        key.session_token matches Some(text) ==> token == Some(text@),
        key.session_token is None ==> token is None,
        named == match region {
            Some(name) => name@,
            None => "us-east-1"@,
        },
        pairs.len() == request.headers@.len(),
        forall|i: int|
            0 <= i < pairs.len() ==> #[trigger] pairs[i] == (
                request.headers@[i].0@,
                match request.headers@[i].1 {
                    Some(value) => value@,
                    None => Seq::empty(),
                },
            ),
        call_ensures(
            S3AuthManager::<C>::sign,
            (Some(&key), region, &Ok::<RequestDraft, DraftError>(request), url, now),
            result,
        ),
    ensures
        ({
            let signed = signature_headers(
                request.method@,
                requested@,
                pairs,
                Seq::<u8>::empty(),
                key.access_key_id@,
                key.secret_access_key@,
                token,
                named,
                "s3"@,
                now,
            );
            if !is_uri(requested@) {
                result matches Err(e) && e@
                    == "Failed to create signable request: failed to create canonical request"@
            } else if signed is None {
                result matches Err(e) && e@ == "Sign error: failed to create canonical request"@
            } else {
                &&& result is Ok
                &&& result->Ok_0@.len() == signed->Some_0.len()
                &&& forall|i: int|
                    0 <= i < signed->Some_0.len() ==> #[trigger] signed->Some_0[i] == (
                        result->Ok_0@[i].0@,
                        result->Ok_0@[i].1@,
                    )
            }
        }),
{
    lemma_headers_of_a_signed_request(
        key,
        region,
        request,
        url@,
        now,
        requested,
        token,
        named,
        pairs,
        result,
    );
}

/// A request is not signed if and only if it has an account and a draft, goes to a URI and cannot
/// be signed without overrunning; else it is signed as one without a body.
pub proof fn law_requests_that_overrun_are_not_signed<C>(
    key: AccessKey,
    region: Option<&String>,
    request: RequestDraft,
    url: &str,
    now: u64,
    requested: String,
    fits: bool,
    token: Option<Seq<char>>,
    named: Seq<char>,
    pairs: Seq<(Seq<char>, Seq<char>)>,
    tried: Option<Result<Vec<(String, String)>, String>>,
)
    requires
        call_ensures(request_url, (url, region), requested),
        request.headers@.len() <= usize::MAX,
        fits == signable(requested@, request.headers@.len(), now),
        key.session_token matches Some(text) ==> token == Some(text@),
        key.session_token is None ==> token is None,
        named == match region {
            Some(name) => name@,
            None => "us-east-1"@,
        },
        pairs.len() == request.headers@.len(),
        forall|i: int|
            0 <= i < pairs.len() ==> #[trigger] pairs[i] == (
                request.headers@[i].0@,
                match request.headers@[i].1 {
                    Some(value) => value@,
                    None => Seq::empty(),
                },
            ),
        call_ensures(
            S3AuthManager::<C>::try_sign,
            (Some(&key), region, &Ok::<RequestDraft, DraftError>(request), url, now),
            tried,
        ),
    ensures
        tried is None <==> is_uri(requested@) && !fits,
        tried matches Some(result) ==> {
            let signed = signature_headers(
                request.method@,
                requested@,
                pairs,
                Seq::<u8>::empty(),
                key.access_key_id@,
                key.secret_access_key@,
                token,
                named,
                "s3"@,
                now,
            );
            if !is_uri(requested@) {
                result matches Err(e) && e@
                    == "Failed to create signable request: failed to create canonical request"@
            } else if signed is None {
                result matches Err(e) && e@ == "Sign error: failed to create canonical request"@
            } else {
                &&& result is Ok
                &&& result->Ok_0@.len() == signed->Some_0.len()
                &&& forall|i: int|
                    0 <= i < signed->Some_0.len() ==> #[trigger] signed->Some_0[i] == (
                        result->Ok_0@[i].0@,
                        result->Ok_0@[i].1@,
                    )
            }
        },
{
    if let Some(result) = tried {
        lemma_headers_of_a_signed_request(
            key,
            region,
            request,
            url@,
            now,
            requested,
            token,
            named,
            pairs,
            result,
        );
    }
}

/// Signing adds the date, the authorization and, for a session, its token, in this order.
pub proof fn law_signatures_carry_date_and_authorization<C>(
    key: AccessKey,
    region: Option<&String>,
    draft: Result<RequestDraft, DraftError>,
    url: &str,
    now: u64,
    added: Vec<(String, String)>,
)
    requires
        call_ensures(S3AuthManager::<C>::sign, (Some(&key), region, &draft, url, now), Ok(added))
            || call_ensures(
            S3AuthManager::<C>::try_sign,
            (Some(&key), region, &draft, url, now),
            Some(Ok(added)),
        ),
    ensures
        added@.len() >= 2,
        added@[0].0@ == "x-amz-date"@,
        added@[1].0@ == "authorization"@,
        match key.session_token {
            Some(token) => added@.len() == 3 && added@[2].0@ == "x-amz-security-token"@
                && added@[2].1@ == token@,
            None => added@.len() == 2,
        },
{
}

/// Without an account nothing is added to a request. With one, a request that cannot be drafted is
/// refused.
pub proof fn law_requests_without_a_draft_are_refused<C>(
    credentials: Option<&AccessKey>,
    region: Option<&String>,
    draft: Result<RequestDraft, DraftError>,
    url: &str,
    now: u64,
    result: Result<Vec<(String, String)>, String>,
)
    requires
        call_ensures(S3AuthManager::<C>::sign, (credentials, region, &draft, url, now), result)
            || call_ensures(
            S3AuthManager::<C>::try_sign,
            (credentials, region, &draft, url, now),
            Some(result),
        ),
    ensures
        credentials is None ==> (result matches Ok(added) && added@.len() == 0),
        credentials is Some ==> match draft {
            Err(DraftError::NotClonable) => result matches Err(e) && e@
                == "Cannot clone request builder"@,
            Err(DraftError::NotBuilt(text)) => result matches Err(e) && e@ == text@,
            Ok(_) => true,
        },
{
    if credentials is None {
        let added = result->Ok_0;
        assert(pair_views(added@).len() == 0);
    }
}

/// Nothing overruns without an account or a draft.
pub proof fn law_unsigned_requests_do_not_overrun<C>(
    credentials: Option<&AccessKey>,
    region: Option<&String>,
    draft: Result<RequestDraft, DraftError>,
    url: &str,
    now: u64,
    tried: Option<Result<Vec<(String, String)>, String>>,
)
    requires
        credentials is None || draft is Err,
        call_ensures(S3AuthManager::<C>::try_sign, (credentials, region, &draft, url, now), tried),
    ensures
        tried is Some,
        !overruns(credentials, region, draft, url@, now),
{
}

/// The headers of a signed request are handed on as they are, and each step that failed is told.
pub proof fn law_failed_steps_are_told(
    signed: Result<Vec<(String, String)>, SigningFailure>,
    result: Result<Vec<(String, String)>, String>,
)
    requires
        call_ensures(signing_result, (signed,), result),
    ensures
        match signed {
            Ok(headers) => result == Ok::<Vec<(String, String)>, String>(headers),
            Err(SigningFailure::Request(text)) => result matches Err(e) && e@
                == "Failed to create signable request: "@ + text@,
            Err(SigningFailure::Signature(text)) => result matches Err(e) && e@ == "Sign error: "@
                + text@,
        },
{
}

/// The URL of an object that is named by its bucket and key is that of its bucket at the S3 service
/// of the region, `us-east-1` where none is named; any other URL is requested as it is.
pub proof fn law_objects_are_found_at_their_bucket(
    url: &str,
    region: Option<&String>,
    bucket: Seq<char>,
    key: Seq<char>,
    requested: String,
)
    requires
        call_ensures(request_url, (url, region), requested),
        bucket.len() > 0,
        !bucket.contains('/'),
    ensures
        ({
            let named = match region {
                Some(name) => name@,
                None => "us-east-1"@,
            };
            &&& url@ == "s3://"@ + bucket + "/"@ + key ==> requested@ == "https://"@ + bucket
                + ".s3."@ + named + ".amazonaws.com/"@ + key
            &&& url@ == "s3://"@ + bucket ==> requested@ == "https://"@ + bucket + ".s3."@ + named
                + ".amazonaws.com"@
        }),
        url@ == "s3://"@ + "/"@ + key ==> requested@ == url@,
        url@.len() <= 5 || url@.take(5) != "s3://"@ ==> requested@ == url@,
{
    let named = region_or_default(region);
    reveal_strlit("s3://");
    reveal_strlit("/");
    if url@ == "s3://"@ + bucket + "/"@ + key {
        law_objects_are_requested_from_their_bucket(bucket, key, named);
    }
    if url@ == "s3://"@ + bucket {
        let path = url@.skip(5);
        assert(url@.take(5) =~= "s3://"@);
        assert(path =~= bucket);
        assert(bucket.contains(bucket[0]));
        assert forall|i: int| 0 <= i < path.len() implies path[i] != '/' by {
            assert(bucket.contains(bucket[i]));
        }
        lemma_before_char(path, '/', bucket.len());
        assert(path.take(bucket.len() as int) =~= bucket);
        assert(requested@ =~= "https://"@ + bucket + ".s3."@ + named + ".amazonaws.com"@);
    }
    if url@ == "s3://"@ + "/"@ + key {
        assert(url@[5] == '/');
    }
}

/// A request can be signed if and only if it has at most 6550 headers, its time lies before the
/// year 10000, its URI has a slash but does not start with one, and it has no query or one that
/// leaves the URI at no more than 65534 bytes once it is encoded again.
pub proof fn law_signable_requests_are_of_limited_size(
    uri: &str,
    headers: usize,
    now: u64,
    path: Seq<char>,
    query: Seq<char>,
    fits: bool,
)
    requires
        call_ensures(is_signable, (uri, headers, now), fits),
        uri@ == path + query,
        !path.contains('?'),
        query.len() == 0 || query[0] == '?',
    ensures
        fits == signable(uri@, headers as nat, now),
        fits <==> {
            &&& headers <= 6550
            &&& now < 253402300800
            &&& uri@.len() > 0
            &&& uri@[0] != '/'
            &&& exists|i: int| 0 <= i < uri@.len() && uri@[i] == '/'
            &&& query.len() == 0 || encode_utf8(path).len() + longest_query(encode_utf8(query))
                <= 65534
        },
{
    assert forall|i: int| 0 <= i < path.len() implies uri@[i] != '?' by {
        assert(path.contains(path[i]));
        assert(uri@[i] == path[i]);
    }
    if query.len() > 0 {
        assert(uri@[path.len() as int] == query[0]);
        assert(uri@.contains('?'));
    } else if uri@.contains('?') {
        let i = uri@.index_of('?');
        assert(uri@[i] == '?');
    }
    lemma_before_char(uri@, '?', path.len());
    assert(uri@.take(path.len() as int) =~= path);
    assert(uri@.skip(path.len() as int) =~= query);
    if uri@.contains('/') {
        let i = uri@.index_of('/');
        assert(uri@[i] == '/');
    }
}

/// In a query without percent signs each letter, digit, hyphen, dot, underscore and tilde counts
/// once, and each other byte three times; in one with a percent sign each byte counts three times.
pub proof fn law_queries_are_measured_byte_by_byte(query: Seq<u8>, b: u8)
    ensures
        longest_query(Seq::empty()) == 0,
        query.contains('%' as u8) ==> longest_query(query) == 3 * query.len(),
        !query.contains('%' as u8) && b != '%' as u8 ==> longest_query(query.push(b))
            - longest_query(query) == if 'a' as u8 <= b <= 'z' as u8 || 'A' as u8 <= b <= 'Z' as u8
            || '0' as u8 <= b <= '9' as u8 || b == '-' as u8 || b == '.' as u8 || b == '_' as u8 || b
            == '~' as u8 {
            1int
        } else {
            3
        },
{
    let longer = query.push(b);
    assert(longer.drop_last() =~= query);
    if longer.contains(37) {
        let i = longer.index_of(37);
        assert(longer[i] == 37);
        if i < query.len() {
            assert(query[i] == 37);
        }
    }
}

proof fn lemma_mapping_has_distinct_hosts(entries: Seq<(Seq<char>, Seq<char>)>)
    requires
        forall|i: int, j: int|
            0 <= i < j < entries.len() ==> (#[trigger] entries[i]).0 != (#[trigger] entries[j]).0,
    ensures
        mapping_of(entries).dom().finite(),
        mapping_of(entries).len() == entries.len(),
    decreases entries.len(),
{
    if entries.len() > 0 {
        let rest = entries.drop_last();
        assert forall|i: int, j: int|
            0 <= i < j < rest.len() implies (#[trigger] rest[i]).0 != (#[trigger] rest[j]).0 by {
            assert(entries[i].0 != entries[j].0);
        }
        lemma_mapping_has_distinct_hosts(rest);
        let host = entries.last().0;
        assert forall|i: int| 0 <= i < rest.len() implies #[trigger] rest[i].0 != host by {
            assert(entries[i].0 != entries[entries.len() - 1].0);
        }
        law_other_hosts_are_not_mapped(rest, host);
        assert(mapping_of(entries).dom() =~= mapping_of(rest).dom().insert(host));
    } else {
        assert(mapping_of(entries).dom() =~= Set::empty());
    }
}

/// The entries of a mapping file map each host to the profile of its last entry and no other host,
/// and are counted where no host has two. Without entries nothing is mapped. Requests without a
/// profile get the given configuration, and no other is loaded.
pub proof fn law_mapping_is_set_up_from_its_entries<C>(
    default_config: C,
    path: &str,
    entries: Option<Vec<(String, String)>>,
    i: int,
    host: Seq<char>,
    made: (S3AuthManager<C>, Notice),
)
    requires
        call_ensures(S3AuthManager::<C>::with_mapping, (default_config, path, &entries), made),
    ensures
        made.0.default_config() == default_config,
        forall|name: Seq<char>| !#[trigger] made.0.configs().contains_key(name),
        match entries {
            Some(pairs) => {
                &&& !made.1.failed
                &&& 0 <= i < pairs@.len() && pairs@[i].0@ == host && (forall|j: int|
                    i < j < pairs@.len() ==> (#[trigger] pairs@[j]).0@ != host)
                    ==> made.0.mapping().contains_key(host) && made.0.mapping()[host]
                    == pairs@[i].1@
                &&& (forall|j: int| 0 <= j < pairs@.len() ==> (#[trigger] pairs@[j]).0@ != host)
                    ==> !made.0.mapping().contains_key(host)
                &&& (forall|j: int, k: int|
                    0 <= j < k < pairs@.len() ==> (#[trigger] pairs@[j]).0@ != (
                    #[trigger] pairs@[k]).0@) ==> made.1.text@ == "Loaded "@ + decimal(
                    pairs@.len(),
                ) + " custom endpoint mappings from "@ + path@
            },
            None => {
                &&& made.1.failed
                &&& made.1.text@ == "Failed to parse endpoint mapping JSON at "@ + path@
                &&& !made.0.mapping().contains_key(host)
            },
        },
{
    if let Some(pairs) = entries {
        let views = pair_views(pairs@);
        assert forall|j: int| 0 <= j < pairs@.len() implies #[trigger] views[j] == (
            pairs@[j].0@,
            pairs@[j].1@,
        ) by {}
        if 0 <= i < pairs@.len() && pairs@[i].0@ == host && (forall|j: int|
            i < j < pairs@.len() ==> (#[trigger] pairs@[j]).0@ != host) {
            assert forall|j: int| i < j < views.len() implies #[trigger] views[j].0
                != views[i].0 by {
                assert(pairs@[j].0@ != host);
            }
            law_last_entry_of_a_host_holds(views, i);
        }
        if forall|j: int| 0 <= j < pairs@.len() ==> (#[trigger] pairs@[j]).0@ != host {
            assert forall|j: int| 0 <= j < views.len() implies #[trigger] views[j].0 != host by {
                assert(pairs@[j].0@ != host);
            }
            law_other_hosts_are_not_mapped(views, host);
        }
        if forall|j: int, k: int|
            0 <= j < k < pairs@.len() ==> (#[trigger] pairs@[j]).0@ != (#[trigger] pairs@[k]).0@ {
            assert forall|j: int, k: int|
                0 <= j < k < views.len() implies (#[trigger] views[j]).0 != (
            #[trigger] views[k]).0 by {
                assert(pairs@[j].0@ != pairs@[k].0@);
            }
            lemma_mapping_has_distinct_hosts(views);
        }
    } else {
        law_other_hosts_are_not_mapped(Seq::empty(), host);
    }
}

/// The text of a mapping file maps each host as its entries say; a file that is not there, cannot
/// be read or cannot be parsed maps none. The operator is told of each file that is there.
pub proof fn law_mapping_files_are_read<C>(
    default_config: C,
    mapping_file: MappingFile,
    i: int,
    host: Seq<char>,
    made: (S3AuthManager<C>, Option<Notice>),
)
    requires
        call_ensures(S3AuthManager::<C>::new, (default_config, mapping_file), made),
    ensures
        made.0.default_config() == default_config,
        forall|name: Seq<char>| !#[trigger] made.0.configs().contains_key(name),
        match mapping_file {
            MappingFile::Absent => {
                &&& made.1 is None
                &&& !made.0.mapping().contains_key(host)
            },
            MappingFile::Unreadable(path) => {
                &&& made.1 matches Some(notice) && notice.failed && notice.text@
                    == "Failed to read endpoint mapping file at "@ + path@
                &&& !made.0.mapping().contains_key(host)
            },
            MappingFile::Text(path, text) => match json_entries(text@) {
                None => {
                    &&& made.1 matches Some(notice) && notice.failed && notice.text@
                        == "Failed to parse endpoint mapping JSON at "@ + path@
                    &&& !made.0.mapping().contains_key(host)
                },
                Some(pairs) => {
                    &&& made.1 is Some
                    &&& !made.1->Some_0.failed
                    &&& 0 <= i < pairs.len() && pairs[i].0 == host && (forall|j: int|
                        i < j < pairs.len() ==> (#[trigger] pairs[j]).0 != host)
                        ==> made.0.mapping().contains_key(host) && made.0.mapping()[host]
                        == pairs[i].1
                    &&& (forall|j: int| 0 <= j < pairs.len() ==> (#[trigger] pairs[j]).0 != host)
                        ==> !made.0.mapping().contains_key(host)
                    &&& (forall|j: int, k: int|
                        0 <= j < k < pairs.len() ==> (#[trigger] pairs[j]).0 != (
                        #[trigger] pairs[k]).0) ==> made.1->Some_0.text@ == "Loaded "@ + decimal(
                        pairs.len(),
                    ) + " custom endpoint mappings from "@ + path@
                },
            },
        },
{
    law_other_hosts_are_not_mapped(Seq::empty(), host);
    if let MappingFile::Text(path, text) = mapping_file {
        if let Some(pairs) = json_entries(text@) {
            if 0 <= i < pairs.len() && pairs[i].0 == host && (forall|j: int|
                i < j < pairs.len() ==> (#[trigger] pairs[j]).0 != host) {
                law_last_entry_of_a_host_holds(pairs, i);
            }
            if forall|j: int| 0 <= j < pairs.len() ==> (#[trigger] pairs[j]).0 != host {
                law_other_hosts_are_not_mapped(pairs, host);
            }
            if forall|j: int, k: int|
                0 <= j < k < pairs.len() ==> (#[trigger] pairs[j]).0 != (#[trigger] pairs[k]).0 {
                lemma_mapping_has_distinct_hosts(pairs);
            }
        }
    }
}

/// A request uses the configuration of the profile that it names, or else of the one that its host
/// is mapped to, or else the one for requests without a profile. A profile whose configuration was
/// not loaded yet is to be loaded.
pub proof fn law_requests_use_the_config_of_their_profile<C>(
    manager: S3AuthManager<C>,
    override_profile: Option<&String>,
    host: Option<&String>,
    choice: ConfigChoice<'_, C>,
)
    requires
        call_ensures(
            S3AuthManager::<C>::choose_config,
            (&manager, override_profile, host),
            choice,
        ),
    ensures
        override_profile matches Some(name) ==> {
            &&& manager.configs().contains_key(name@) ==> choice == ConfigChoice::Ready(
                &manager.configs()[name@],
            )
            &&& !manager.configs().contains_key(name@) ==> (choice matches ConfigChoice::Load(
                wanted,
            ) && wanted@ == name@)
        },
        override_profile is None ==> match host {
            Some(host) => {
                let name = manager.mapping()[host@];
                if !manager.mapping().contains_key(host@) {
                    choice == ConfigChoice::Ready(&manager.default_config())
                } else if manager.configs().contains_key(name) {
                    choice == ConfigChoice::Ready(&manager.configs()[name])
                } else {
                    choice matches ConfigChoice::Load(wanted) && wanted@ == name
                }
            },
            None => choice == ConfigChoice::Ready(&manager.default_config()),
        },
{
}

/// A request to a URL uses the configuration of the profile that it names, or else of the one that
/// the host of the URL is mapped to, or else the one for requests without a profile.
pub proof fn law_requests_to_a_url_use_the_config_of_its_host<C>(
    manager: S3AuthManager<C>,
    override_profile: Option<&String>,
    url: &str,
    choice: ConfigChoice<'_, C>,
)
    requires
        call_ensures(S3AuthManager::<C>::get_config, (&manager, override_profile, url), choice),
    ensures
        override_profile matches Some(name) ==> {
            &&& manager.configs().contains_key(name@) ==> choice == ConfigChoice::Ready(
                &manager.configs()[name@],
            )
            &&& !manager.configs().contains_key(name@) ==> (choice matches ConfigChoice::Load(
                wanted,
            ) && wanted@ == name@)
        },
        override_profile is None ==> match url_host(url@) {
            Some(host) => {
                let name = manager.mapping()[host];
                if !manager.mapping().contains_key(host) {
                    choice == ConfigChoice::Ready(&manager.default_config())
                } else if manager.configs().contains_key(name) {
                    choice == ConfigChoice::Ready(&manager.configs()[name])
                } else {
                    choice matches ConfigChoice::Load(wanted) && wanted@ == name
                }
            },
            None => choice == ConfigChoice::Ready(&manager.default_config()),
        },
{
}

/// The configuration of a profile that was loaded is kept under its name, and nothing else changes.
pub proof fn law_loaded_configs_are_kept<C>(
    manager: &mut S3AuthManager<C>,
    name: String,
    config: C,
    other: Seq<char>,
)
    requires
        call_ensures(S3AuthManager::<C>::store_config, (manager, name, config), ()),
    ensures
        final(manager).default_config() == old(manager).default_config(),
        final(manager).mapping() == old(manager).mapping(),
        final(manager).configs().contains_key(name@),
        final(manager).configs()[name@] == config,
        other != name@ ==> {
            &&& final(manager).configs().contains_key(other)
                == old(manager).configs().contains_key(other)
            &&& old(manager).configs().contains_key(other) ==> final(manager).configs()[other]
                == old(manager).configs()[other]
        },
{
}

/// The operator is told how many hosts have entries, of which `hosts` is a list without repeats.
pub proof fn law_mapped_hosts_are_counted<C>(
    default_config: C,
    path: &str,
    entries: Vec<(String, String)>,
    hosts: Seq<Seq<char>>,
    made: (S3AuthManager<C>, Notice),
)
    requires
        call_ensures(
            S3AuthManager::<C>::with_mapping,
            (default_config, path, &Some(entries)),
            made,
        ),
        hosts.no_duplicates(),
        forall|i: int| 0 <= i < entries@.len() ==> hosts.contains((#[trigger] entries@[i]).0@),
        forall|k: int|
            0 <= k < hosts.len() ==> exists|i: int|
                0 <= i < entries@.len() && (#[trigger] entries@[i]).0@ == #[trigger] hosts[k],
    ensures
        made.1.text@ == "Loaded "@ + decimal(hosts.len()) + " custom endpoint mappings from "@
            + path@,
{
    let pairs = pair_views(entries@);
    let mapped = mapping_of(pairs);
    hosts.unique_seq_to_set();
    assert forall|host: Seq<char>| mapped.dom().contains(host) <==> hosts.to_set().contains(
        host,
    ) by {
        if hosts.contains(host) {
            let k = hosts.index_of(host);
            assert(hosts[k] == host);
            let i = choose|i: int| 0 <= i < entries@.len() && (#[trigger] entries@[i]).0@ == host;
            assert(pairs[i].0 == host);
            lemma_hosts_with_an_entry_are_mapped(pairs, i);
        } else {
            assert forall|i: int| 0 <= i < pairs.len() implies #[trigger] pairs[i].0 != host by {
                assert(hosts.contains(entries@[i].0@));
            }
            law_other_hosts_are_not_mapped(pairs, host);
        }
    }
    assert(mapped.dom() =~= hosts.to_set());
}

proof fn lemma_hosts_with_an_entry_are_mapped(entries: Seq<(Seq<char>, Seq<char>)>, i: int)
    requires
        0 <= i < entries.len(),
    ensures
        mapping_of(entries).contains_key(entries[i].0),
    decreases entries.len(),
{
    if i < entries.len() - 1 {
        lemma_hosts_with_an_entry_are_mapped(entries.drop_last(), i);
    }
}

} // verus!
