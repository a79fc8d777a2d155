//! Parsing of object-store URIs of the form
//! `s3://<region>/<bucket>/<key...>[?version=<id>]` into validated locators.
//!
//! The grammar is modelled by spec functions over the character sequence of
//! the input, and `parse_s3_url` is proved to agree with that model exactly:
//! which URIs are accepted, which error each rejected URI draws, and that the
//! bucket, key and version fields pass through unchanged.

use crate::text::{
    find2_from, find_char, find_char2, find_from, lemma_find2_from, lemma_find2_from_is,
    lemma_find_from, lemma_find_from_concat, lemma_find_from_is, lower, str_eq, str_eq_lower,
};
use vstd::prelude::*;
use vstd::string::StringExecFns;

verus! {

/// The closed set of storage regions a locator may name. A host string
/// resolves to a region through `region_of`, which accepts each region's
/// hyphenated name or its compact alias, in any ASCII case.
#[derive(Clone, Copy, PartialEq, Eq, Structural, Debug)]
pub enum Region {
    ApEast1,
    ApNortheast1,
    ApNortheast2,
    ApNortheast3,
    ApSouth1,
    ApSoutheast1,
    ApSoutheast2,
    CaCentral1,
    EuCentral1,
    EuWest1,
    EuWest2,
    EuWest3,
    EuNorth1,
    MeSouth1,
    SaEast1,
    UsEast1,
    UsEast2,
    UsWest1,
    UsWest2,
    UsGovEast1,
    UsGovWest1,
    CnNorth1,
    CnNorthwest1,
}

/// The canonical (hyphenated, lower-case) name of a region.
pub open spec fn region_name(r: Region) -> Seq<char> {
    match r {
        Region::ApEast1 => "ap-east-1"@,
        Region::ApNortheast1 => "ap-northeast-1"@,
        Region::ApNortheast2 => "ap-northeast-2"@,
        Region::ApNortheast3 => "ap-northeast-3"@,
        Region::ApSouth1 => "ap-south-1"@,
        Region::ApSoutheast1 => "ap-southeast-1"@,
        Region::ApSoutheast2 => "ap-southeast-2"@,
        Region::CaCentral1 => "ca-central-1"@,
        Region::EuCentral1 => "eu-central-1"@,
        Region::EuWest1 => "eu-west-1"@,
        Region::EuWest2 => "eu-west-2"@,
        Region::EuWest3 => "eu-west-3"@,
        Region::EuNorth1 => "eu-north-1"@,
        Region::MeSouth1 => "me-south-1"@,
        Region::SaEast1 => "sa-east-1"@,
        Region::UsEast1 => "us-east-1"@,
        Region::UsEast2 => "us-east-2"@,
        Region::UsWest1 => "us-west-1"@,
        Region::UsWest2 => "us-west-2"@,
        Region::UsGovEast1 => "us-gov-east-1"@,
        Region::UsGovWest1 => "us-gov-west-1"@,
        Region::CnNorth1 => "cn-north-1"@,
        Region::CnNorthwest1 => "cn-northwest-1"@,
    }
}

/// The region table: which host strings resolve to which region. Each region
/// is reachable by its hyphenated name or its compact alias, compared without
/// regard to ASCII case; everything else is unknown.
pub open spec fn region_of(host: Seq<char>) -> Option<Region> {
    let h = lower(host);
    if h == lower("ap-east-1"@) || h == lower("apeast1"@) {
        Some(Region::ApEast1)
    } else if h == lower("ap-northeast-1"@) || h == lower("apnortheast1"@) {
        Some(Region::ApNortheast1)
    } else if h == lower("ap-northeast-2"@) || h == lower("apnortheast2"@) {
        Some(Region::ApNortheast2)
    } else if h == lower("ap-northeast-3"@) || h == lower("apnortheast3"@) {
        Some(Region::ApNortheast3)
    } else if h == lower("ap-south-1"@) || h == lower("apsouth1"@) {
        Some(Region::ApSouth1)
    } else if h == lower("ap-southeast-1"@) || h == lower("apsoutheast1"@) {
        Some(Region::ApSoutheast1)
    } else if h == lower("ap-southeast-2"@) || h == lower("apsoutheast2"@) {
        Some(Region::ApSoutheast2)
    } else if h == lower("ca-central-1"@) || h == lower("cacentral1"@) {
        Some(Region::CaCentral1)
    } else if h == lower("eu-central-1"@) || h == lower("eucentral1"@) {
        Some(Region::EuCentral1)
    } else if h == lower("eu-west-1"@) || h == lower("euwest1"@) {
        Some(Region::EuWest1)
    } else if h == lower("eu-west-2"@) || h == lower("euwest2"@) {
        Some(Region::EuWest2)
    } else if h == lower("eu-west-3"@) || h == lower("euwest3"@) {
        Some(Region::EuWest3)
    } else if h == lower("eu-north-1"@) || h == lower("eunorth1"@) {
        Some(Region::EuNorth1)
    } else if h == lower("me-south-1"@) || h == lower("mesouth1"@) {
        Some(Region::MeSouth1)
    } else if h == lower("sa-east-1"@) || h == lower("saeast1"@) {
        Some(Region::SaEast1)
    } else if h == lower("us-east-1"@) || h == lower("useast1"@) {
        Some(Region::UsEast1)
    } else if h == lower("us-east-2"@) || h == lower("useast2"@) {
        Some(Region::UsEast2)
    } else if h == lower("us-west-1"@) || h == lower("uswest1"@) {
        Some(Region::UsWest1)
    } else if h == lower("us-west-2"@) || h == lower("uswest2"@) {
        Some(Region::UsWest2)
    } else if h == lower("us-gov-east-1"@) || h == lower("usgoveast1"@) {
        Some(Region::UsGovEast1)
    } else if h == lower("us-gov-west-1"@) || h == lower("usgovwest1"@) {
        Some(Region::UsGovWest1)
    } else if h == lower("cn-north-1"@) || h == lower("cnnorth1"@) {
        Some(Region::CnNorth1)
    } else if h == lower("cn-northwest-1"@) || h == lower("cnnorthwest1"@) {
        Some(Region::CnNorthwest1)
    } else {
        None
    }
}

impl Region {
    /// Resolve a host string against the region table.
    pub fn from_name(host: &str) -> (r: Option<Region>)
        ensures
            r == region_of(host@),
    {
        if str_eq_lower(host, "ap-east-1") || str_eq_lower(host, "apeast1") {
            Some(Region::ApEast1)
        } else if str_eq_lower(host, "ap-northeast-1") || str_eq_lower(host, "apnortheast1") {
            Some(Region::ApNortheast1)
        } else if str_eq_lower(host, "ap-northeast-2") || str_eq_lower(host, "apnortheast2") {
            Some(Region::ApNortheast2)
        } else if str_eq_lower(host, "ap-northeast-3") || str_eq_lower(host, "apnortheast3") {
            Some(Region::ApNortheast3)
        } else if str_eq_lower(host, "ap-south-1") || str_eq_lower(host, "apsouth1") {
            Some(Region::ApSouth1)
        } else if str_eq_lower(host, "ap-southeast-1") || str_eq_lower(host, "apsoutheast1") {
            Some(Region::ApSoutheast1)
        } else if str_eq_lower(host, "ap-southeast-2") || str_eq_lower(host, "apsoutheast2") {
            Some(Region::ApSoutheast2)
        } else if str_eq_lower(host, "ca-central-1") || str_eq_lower(host, "cacentral1") {
            Some(Region::CaCentral1)
        } else if str_eq_lower(host, "eu-central-1") || str_eq_lower(host, "eucentral1") {
            Some(Region::EuCentral1)
        } else if str_eq_lower(host, "eu-west-1") || str_eq_lower(host, "euwest1") {
            Some(Region::EuWest1)
        } else if str_eq_lower(host, "eu-west-2") || str_eq_lower(host, "euwest2") {
            Some(Region::EuWest2)
        } else if str_eq_lower(host, "eu-west-3") || str_eq_lower(host, "euwest3") {
            Some(Region::EuWest3)
        } else if str_eq_lower(host, "eu-north-1") || str_eq_lower(host, "eunorth1") {
            Some(Region::EuNorth1)
        } else if str_eq_lower(host, "me-south-1") || str_eq_lower(host, "mesouth1") {
            Some(Region::MeSouth1)
        } else if str_eq_lower(host, "sa-east-1") || str_eq_lower(host, "saeast1") {
            Some(Region::SaEast1)
        } else if str_eq_lower(host, "us-east-1") || str_eq_lower(host, "useast1") {
            Some(Region::UsEast1)
        } else if str_eq_lower(host, "us-east-2") || str_eq_lower(host, "useast2") {
            Some(Region::UsEast2)
        } else if str_eq_lower(host, "us-west-1") || str_eq_lower(host, "uswest1") {
            Some(Region::UsWest1)
        } else if str_eq_lower(host, "us-west-2") || str_eq_lower(host, "uswest2") {
            Some(Region::UsWest2)
        } else if str_eq_lower(host, "us-gov-east-1") || str_eq_lower(host, "usgoveast1") {
            Some(Region::UsGovEast1)
        } else if str_eq_lower(host, "us-gov-west-1") || str_eq_lower(host, "usgovwest1") {
            Some(Region::UsGovWest1)
        } else if str_eq_lower(host, "cn-north-1") || str_eq_lower(host, "cnnorth1") {
            Some(Region::CnNorth1)
        } else if str_eq_lower(host, "cn-northwest-1") || str_eq_lower(host, "cnnorthwest1") {
            Some(Region::CnNorthwest1)
        } else {
            None
        }
    }

    /// The canonical name of this region, for building client endpoints or
    /// printing a locator back as a URI.
    pub fn name(&self) -> (r: &'static str)
        ensures
            r@ == region_name(*self),
    {
        match self {
            Region::ApEast1 => "ap-east-1",
            Region::ApNortheast1 => "ap-northeast-1",
            Region::ApNortheast2 => "ap-northeast-2",
            Region::ApNortheast3 => "ap-northeast-3",
            Region::ApSouth1 => "ap-south-1",
            Region::ApSoutheast1 => "ap-southeast-1",
            Region::ApSoutheast2 => "ap-southeast-2",
            Region::CaCentral1 => "ca-central-1",
            Region::EuCentral1 => "eu-central-1",
            Region::EuWest1 => "eu-west-1",
            Region::EuWest2 => "eu-west-2",
            Region::EuWest3 => "eu-west-3",
            Region::EuNorth1 => "eu-north-1",
            Region::MeSouth1 => "me-south-1",
            Region::SaEast1 => "sa-east-1",
            Region::UsEast1 => "us-east-1",
            Region::UsEast2 => "us-east-2",
            Region::UsWest1 => "us-west-1",
            Region::UsWest2 => "us-west-2",
            Region::UsGovEast1 => "us-gov-east-1",
            Region::UsGovWest1 => "us-gov-west-1",
            Region::CnNorth1 => "cn-north-1",
            Region::CnNorthwest1 => "cn-northwest-1",
        }
    }
}

/// How a URI can fail to name an object: the wrong scheme, or a malformed
/// host, path or query.
#[derive(Clone, Copy, PartialEq, Eq, Structural, Debug)]
pub enum UriError {
    UnsupportedProtocol,
    BadUri,
}

/// The mathematical content of a locator: the region together with the
/// bucket, key and optional version as character sequences.
pub struct UrlModel {
    pub region: Region,
    pub bucket: Seq<char>,
    pub object: Seq<char>,
    pub version: Option<Seq<char>>,
}

/// A validated object locator: region, bucket, object key, and an optional
/// version id pinning one revision of the object.
#[derive(Debug)]
pub struct GstS3Url {
    pub region: Region,
    pub bucket: String,
    pub object: String,
    pub version: Option<String>,
}

impl View for GstS3Url {
    type V = UrlModel;

    open spec fn view(&self) -> UrlModel {
        UrlModel {
            region: self.region,
            bucket: self.bucket@,
            object: self.object@,
            version: match self.version {
                Some(v) => Some(v@),
                None => None,
            },
        }
    }
}

impl Clone for GstS3Url {
    /// Cloning a locator preserves its model.
    fn clone(&self) -> (r: Self)
        ensures
            r@ == self@,
    {
        GstS3Url {
            region: self.region,
            bucket: self.bucket.clone(),
            object: self.object.clone(),
            version: match &self.version {
                Some(v) => Some(v.clone()),
                None => None,
            },
        }
    }
}

impl GstS3Url {
    /// The locator printed back as a URI, with the region's canonical name
    /// as the host.
    pub fn url_string(&self) -> (r: String)
        ensures
            r@ == uri_of(region_name(self.region), self.bucket@, self.object@, self@.version),
    {
        let mut r = String::new();
        r.append("s3://");
        r.append(self.region.name());
        r.append("/");
        r.append(self.bucket.as_str());
        r.append("/");
        r.append(self.object.as_str());
        match &self.version {
            Some(v) => {
                r.append("?version=");
                r.append(v.as_str());
            },
            None => {},
        }
        proof {
            assert(r@ =~= uri_of(
                region_name(self.region),
                self.bucket@,
                self.object@,
                self@.version,
            ));
        }
        r
    }
}

/// The URI up to its fragment part: everything before the first `'#'`.
pub open spec fn stripped(u: Seq<char>) -> Seq<char> {
    u.subrange(0, find_from(u, '#', 0))
}

/// Position of the first `':'`, which ends the scheme.
pub open spec fn scheme_end(u: Seq<char>) -> int {
    find_from(stripped(u), ':', 0)
}

/// Whether the URI has a scheme separator at all.
pub open spec fn has_scheme(u: Seq<char>) -> bool {
    scheme_end(u) < stripped(u).len()
}

/// The scheme: everything before the first `':'`.
pub open spec fn scheme_of(u: Seq<char>) -> Seq<char> {
    stripped(u).subrange(0, scheme_end(u))
}

/// Whether the scheme is the object-store token `s3`, in any ASCII case.
pub open spec fn scheme_matches(u: Seq<char>) -> bool {
    lower(scheme_of(u)) == lower("s3"@)
}

/// Whether `://` follows the scheme, so that a host component exists.
pub open spec fn has_authority(u: Seq<char>) -> bool {
    let s = stripped(u);
    let cp = scheme_end(u);
    cp + 2 < s.len() && s[cp + 1] == '/' && s[cp + 2] == '/'
}

/// Start of the host component.
pub open spec fn host_start(u: Seq<char>) -> int {
    scheme_end(u) + 3
}

/// End of the host component: the first `'/'` or `'?'` after it, or the end
/// of the URI.
pub open spec fn host_end(u: Seq<char>) -> int {
    find2_from(stripped(u), '/', '?', host_start(u))
}

/// The host component, which must name a region.
pub open spec fn host_of(u: Seq<char>) -> Seq<char> {
    stripped(u).subrange(host_start(u), host_end(u))
}

/// The query split at `'&'` into its non-empty pieces, each piece a
/// `key[=value]` parameter, starting from position `i` of the URI.
pub open spec fn pieces_from(s: Seq<char>, i: int) -> Seq<Seq<char>>
    decreases s.len() - i,
    via pieces_from_decreases
{
    if i < 0 || i >= s.len() {
        Seq::empty()
    } else {
        let a = find_from(s, '&', i);
        let piece = s.subrange(i, a);
        let rest = if a >= s.len() {
            Seq::<Seq<char>>::empty()
        } else {
            pieces_from(s, a + 1)
        };
        if piece.len() == 0 {
            rest
        } else {
            seq![piece] + rest
        }
    }
}

#[via_fn]
proof fn pieces_from_decreases(s: Seq<char>, i: int) {
    if 0 <= i < s.len() {
        lemma_find_from(s, '&', i);
    }
}

/// The name of a `key[=value]` parameter: everything before the first `'='`.
pub open spec fn pair_key(p: Seq<char>) -> Seq<char> {
    p.subrange(0, find_from(p, '=', 0))
}

/// The value of a `key[=value]` parameter: everything after the first `'='`,
/// or empty if there is none.
pub open spec fn pair_val(p: Seq<char>) -> Seq<char> {
    let e = find_from(p, '=', 0);
    if e >= p.len() {
        Seq::empty()
    } else {
        p.subrange(e + 1, p.len() as int)
    }
}

/// The version decision for a query: no parameters means no version, a single
/// parameter named `version` supplies one, and anything else is rejected
/// (`None` here meaning the URI is invalid).
pub open spec fn version_of_query(pieces: Seq<Seq<char>>) -> Option<Option<Seq<char>>> {
    if pieces.len() == 0 {
        Some(None)
    } else if pieces.len() == 1 && pair_key(pieces[0]) == "version"@ {
        Some(Some(pair_val(pieces[0])))
    } else {
        None
    }
}

/// The URI grammar `s3://<region>/<bucket>/<key...>[?version=<id>]` as one
/// total function from the input to either a locator model or the error the
/// input draws. `parse_s3_url` is proved to agree with this function exactly.
pub open spec fn spec_parse(u: Seq<char>) -> Result<UrlModel, UriError> {
    let s = stripped(u);
    if !has_scheme(u) {
        Err(UriError::BadUri)
    } else if !scheme_matches(u) {
        Err(UriError::UnsupportedProtocol)
    } else if !has_authority(u) {
        Err(UriError::BadUri)
    } else {
        match region_of(host_of(u)) {
            None => Err(UriError::BadUri),
            Some(region) => {
                let he = host_end(u);
                if he == s.len() || s[he] == '?' {
                    // no path at all, so no bucket segment
                    Err(UriError::BadUri)
                } else {
                    let bs = he + 1;
                    let be = find2_from(s, '/', '?', bs);
                    if be == bs {
                        // empty bucket segment
                        Err(UriError::BadUri)
                    } else if be == s.len() || s[be] == '?' {
                        // a bucket alone, with no key segment
                        Err(UriError::BadUri)
                    } else {
                        let ks = be + 1;
                        let qs = find_from(s, '?', ks);
                        if qs == ks {
                            // empty object key
                            Err(UriError::BadUri)
                        } else {
                            match version_of_query(pieces_from(s, qs + 1)) {
                                None => Err(UriError::BadUri),
                                Some(version) => Ok(
                                    UrlModel {
                                        region,
                                        bucket: s.subrange(bs, be),
                                        object: s.subrange(ks, qs),
                                        version,
                                    },
                                ),
                            }
                        }
                    }
                }
            },
        }
    }
}

/// Searching within a window of a sequence finds the same first occurrence as
/// searching the extracted window, clipped to the window's end.
pub proof fn lemma_find_sub(s: Seq<char>, a: int, b: int, c: char)
    requires
        0 <= a <= b <= s.len(),
    ensures
        find_from(s, c, a) < b ==> find_from(s.subrange(a, b), c, 0) == find_from(s, c, a) - a,
        find_from(s, c, a) >= b ==> find_from(s.subrange(a, b), c, 0) == b - a,
{
    let f = find_from(s, c, a);
    lemma_find_from(s, c, a);
    let sub = s.subrange(a, b);
    if f < b {
        assert(forall|j: int| 0 <= j < f - a ==> sub[j] != c);
        lemma_find_from_is(sub, c, 0, f - a);
    } else {
        assert(forall|j: int| 0 <= j < b - a ==> sub[j] != c);
        lemma_find_from_is(sub, c, 0, b - a);
    }
}

/// Parse the version parameter of the query beginning at position `q0`,
/// reporting the value of a single `version` parameter, the absence of any
/// parameter, or that the query is invalid.
fn parse_version(s: &str, q0: usize) -> (r: Option<Option<String>>)
    requires
        q0 <= s@.len(),
    ensures
        (match (r, version_of_query(pieces_from(s@, q0 as int))) {
            (Some(Some(v)), Some(Some(mv))) => v@ == mv,
            (Some(None), Some(None)) => true,
            (None, None) => true,
            _ => false,
        }),
{
    let n = s.unicode_len();
    let mut i = q0;
    let mut count: usize = 0;
    let mut fs: usize = 0;
    let mut fe: usize = 0;
    let ghost whole = pieces_from(s@, q0 as int);
    let ghost mut acc: Seq<Seq<char>> = Seq::empty();
    proof {
        assert(whole =~= acc + pieces_from(s@, q0 as int));
    }
    while i < n
        invariant
            q0 <= i <= n,
            n == s@.len(),
            whole == pieces_from(s@, q0 as int),
            whole == acc + pieces_from(s@, i as int),
            count == acc.len(),
            count <= 1,
            count == 1 ==> q0 <= fs < fe <= n && acc[0] == s@.subrange(fs as int, fe as int),
        decreases n - i,
    {
        let a = find_char(s, '&', i);
        let ghost piece = s@.subrange(i as int, a as int);
        let ghost rest = if a >= n {
            Seq::<Seq<char>>::empty()
        } else {
            pieces_from(s@, a as int + 1)
        };
        proof {
            assert(pieces_from(s@, i as int) == (if piece.len() == 0 {
                rest
            } else {
                seq![piece] + rest
            }));
        }
        if a > i {
            if count == 0 {
                fs = i;
                fe = a;
            }
            count = count + 1;
            proof {
                acc = acc + seq![piece];
                assert(whole =~= acc + rest);
                assert(acc[0] == (if acc.len() == 1 {
                    piece
                } else {
                    acc[0]
                }));
            }
            if count == 2 {
                proof {
                    assert(whole.len() >= 2);
                }
                return None;
            }
        }
        if a < n {
            i = a + 1;
        } else {
            i = n;
            proof {
                assert(pieces_from(s@, n as int) =~= Seq::<Seq<char>>::empty());
                assert(whole =~= acc + pieces_from(s@, n as int));
            }
        }
    }
    proof {
        assert(pieces_from(s@, n as int) =~= Seq::<Seq<char>>::empty());
        assert(whole =~= acc);
    }
    if count == 0 {
        return Some(None);
    }
    // exactly one parameter: it must be named `version`
    let ghost piece = s@.subrange(fs as int, fe as int);
    proof {
        assert(whole =~= seq![piece]);
        lemma_find_sub(s@, fs as int, fe as int, '=');
    }
    let e = find_char(s, '=', fs);
    if e < fe {
        let key = s.substring_char(fs, e);
        if str_eq(key, "version") {
            proof {
                assert(pair_key(piece) =~= key@);
                assert(pair_val(piece) =~= s@.subrange(e as int + 1, fe as int));
            }
            let v = s.substring_char(e + 1, fe);
            return Some(Some(v.to_owned()));
        }
        proof {
            assert(pair_key(piece) =~= key@);
        }
        return None;
    } else {
        let key = s.substring_char(fs, fe);
        if str_eq(key, "version") {
            proof {
                assert(pair_key(piece) =~= key@);
                assert(pair_val(piece) =~= Seq::<char>::empty());
            }
            return Some(Some(String::new()));
        }
        proof {
            assert(pair_key(piece) =~= key@);
        }
        return None;
    }
}

/// Turn a URI string into a validated locator, or the error it draws:
/// `UnsupportedProtocol` for any scheme other than `s3`, and `BadUri` for a
/// missing or unknown region host, a missing or empty bucket or key segment,
/// or a query with any parameter besides a single `version`.
pub fn parse_s3_url(uri: &str) -> (r: Result<GstS3Url, UriError>)
    ensures
        (match (r, spec_parse(uri@)) {
            (Ok(url), Ok(m)) => url@ == m,
            (Err(e), Err(me)) => e == me,
            _ => false,
        }),
{
    let hash = find_char(uri, '#', 0);
    let s = uri.substring_char(0, hash);
    proof {
        assert(s@ == stripped(uri@));
    }
    let n = s.unicode_len();
    let cp = find_char(s, ':', 0);
    if cp == n {
        return Err(UriError::BadUri);
    }
    let scheme = s.substring_char(0, cp);
    if !str_eq_lower(scheme, "s3") {
        return Err(UriError::UnsupportedProtocol);
    }
    if !(n - cp > 2 && s.get_char(cp + 1) == '/' && s.get_char(cp + 2) == '/') {
        return Err(UriError::BadUri);
    }
    let hs = cp + 3;
    let he = find_char2(s, '/', '?', hs);
    let host = s.substring_char(hs, he);
    let region = match Region::from_name(host) {
        Some(r) => r,
        None => {
            return Err(UriError::BadUri);
        },
    };
    if he == n || s.get_char(he) == '?' {
        return Err(UriError::BadUri);
    }
    let bs = he + 1;
    let be = find_char2(s, '/', '?', bs);
    if be == bs {
        return Err(UriError::BadUri);
    }
    if be == n || s.get_char(be) == '?' {
        return Err(UriError::BadUri);
    }
    let ks = be + 1;
    let qs = find_char(s, '?', ks);
    if qs == ks {
        return Err(UriError::BadUri);
    }
    let bucket = s.substring_char(bs, be);
    let object = s.substring_char(ks, qs);
    let version: Option<String>;
    if qs == n {
        version = None;
        proof {
            assert(pieces_from(s@, qs as int + 1) =~= Seq::<Seq<char>>::empty());
        }
    } else {
        version = match parse_version(s, qs + 1) {
            Some(v) => v,
            None => {
                return Err(UriError::BadUri);
            },
        };
    }
    Ok(GstS3Url { region, bucket: bucket.to_owned(), object: object.to_owned(), version })
}

/// Whether `c` occurs nowhere in `s`.
pub open spec fn lacks(s: Seq<char>, c: char) -> bool {
    forall|i: int| 0 <= i < s.len() ==> #[trigger] s[i] != c
}

/// A URI assembled from its components:
/// `s3://<host>/<bucket>/<object>` with `?version=<v>` appended when a
/// version is present.
pub open spec fn uri_of(
    host: Seq<char>,
    bucket: Seq<char>,
    object: Seq<char>,
    version: Option<Seq<char>>,
) -> Seq<char> {
    "s3://"@ + host + "/"@ + bucket + "/"@ + object + (match version {
        None => Seq::<char>::empty(),
        Some(v) => "?version="@ + v,
    })
}

/// The invariants of a locator: a non-empty bucket holding no path
/// separator, a non-empty key, and fields free of the delimiters that would
/// change the shape of the URI they came from.
pub open spec fn wf_model(m: UrlModel) -> bool {
    &&& m.bucket.len() > 0
    &&& lacks(m.bucket, '/') && lacks(m.bucket, '?') && lacks(m.bucket, '#')
    &&& m.object.len() > 0
    &&& lacks(m.object, '?') && lacks(m.object, '#')
    &&& (m.version matches Some(v) ==> lacks(v, '&') && lacks(v, '#'))
}

/// No parameter piece of a query holds `'&'`; and a character absent from
/// the split range is absent from every piece.
pub proof fn lemma_pieces_lack(s: Seq<char>, i: int, c: char)
    requires
        0 <= i,
        c == '&' || (forall|j: int| i <= j < s.len() ==> #[trigger] s[j] != c),
    ensures
        forall|k: int|
            0 <= k < pieces_from(s, i).len() ==> lacks(#[trigger] pieces_from(s, i)[k], c),
    decreases s.len() - i,
{
    if 0 <= i < s.len() {
        let a = find_from(s, '&', i);
        lemma_find_from(s, '&', i);
        let piece = s.subrange(i, a);
        let rest = if a >= s.len() {
            Seq::<Seq<char>>::empty()
        } else {
            pieces_from(s, a + 1)
        };
        assert(lacks(piece, c));
        if a < s.len() {
            lemma_pieces_lack(s, a + 1, c);
        }
        assert forall|k: int| 0 <= k < pieces_from(s, i).len() implies lacks(
            #[trigger] pieces_from(s, i)[k],
            c,
        ) by {
            if piece.len() == 0 {
                assert(pieces_from(s, i)[k] == rest[k]);
            } else {
                if k == 0 {
                    assert(pieces_from(s, i)[k] == piece);
                } else {
                    assert(pieces_from(s, i)[k] == rest[k - 1]);
                }
            }
        }
    }
}

/// Every locator the parser produces satisfies the locator invariants, and
/// its region is the one its host resolved to.
pub proof fn lemma_parse_wf(u: Seq<char>, m: UrlModel)
    requires
        spec_parse(u) == Ok::<UrlModel, UriError>(m),
    ensures
        wf_model(m),
        region_of(host_of(u)) == Some(m.region),
{
    let s = stripped(u);
    lemma_find_from(u, '#', 0);
    assert(forall|j: int| 0 <= j < s.len() ==> #[trigger] s[j] != '#');
    let he = host_end(u);
    let bs = he + 1;
    let be = find2_from(s, '/', '?', bs);
    lemma_find2_from(s, '/', '?', bs);
    assert(lacks(s.subrange(bs, be), '/'));
    assert(lacks(s.subrange(bs, be), '?'));
    assert(lacks(s.subrange(bs, be), '#'));
    let ks = be + 1;
    let qs = find_from(s, '?', ks);
    lemma_find_from(s, '?', ks);
    assert(lacks(s.subrange(ks, qs), '?'));
    assert(lacks(s.subrange(ks, qs), '#'));
    if m.version is Some {
        let pieces = pieces_from(s, qs + 1);
        assert(pieces.len() == 1 && pair_key(pieces[0]) == "version"@);
        lemma_pieces_lack(s, qs + 1, '&');
        lemma_pieces_lack(s, qs + 1, '#');
        let piece = pieces[0];
        let e = find_from(piece, '=', 0);
        lemma_find_from(piece, '=', 0);
        if e < piece.len() {
            assert(lacks(piece.subrange(e + 1, piece.len() as int), '&'));
            assert(lacks(piece.subrange(e + 1, piece.len() as int), '#'));
        }
    }
}

/// A URI with a scheme other than the `s3` token is rejected as
/// `UnsupportedProtocol`, whatever else it holds.
pub proof fn lemma_wrong_scheme_rejected(u: Seq<char>)
    requires
        has_scheme(u),
        !scheme_matches(u),
    ensures
        spec_parse(u) == Err::<UrlModel, UriError>(UriError::UnsupportedProtocol),
{
}

/// A URI that does not decompose into scheme, host and path — no scheme
/// separator at all, or no `://` authority after an `s3` scheme — is
/// rejected as `BadUri`.
pub proof fn lemma_undecomposable_rejected(u: Seq<char>)
    requires
        !has_scheme(u) || (scheme_matches(u) && !has_authority(u)),
    ensures
        spec_parse(u) == Err::<UrlModel, UriError>(UriError::BadUri),
{
}

/// Every URI assembled from a host the region table knows, a non-empty
/// bucket segment, a non-empty key, and at most one version parameter is
/// accepted, and the locator returns those components unchanged.
pub proof fn lemma_valid_uri_parses(
    region: Region,
    host: Seq<char>,
    bucket: Seq<char>,
    object: Seq<char>,
    version: Option<Seq<char>>,
)
    requires
        region_of(host) == Some(region),
        lacks(host, '/') && lacks(host, '?') && lacks(host, '#'),
        bucket.len() > 0 && lacks(bucket, '/') && lacks(bucket, '?') && lacks(bucket, '#'),
        object.len() > 0 && lacks(object, '?') && lacks(object, '#'),
        (version matches Some(v) ==> lacks(v, '&') && lacks(v, '#')),
    ensures
        spec_parse(uri_of(host, bucket, object, version)) == Ok::<UrlModel, UriError>(
            UrlModel { region, bucket, object, version },
        ),
{
    reveal_strlit("s3://");
    reveal_strlit("s3");
    reveal_strlit("/");
    reveal_strlit("?version=");
    reveal_strlit("version");
    let u = uri_of(host, bucket, object, version);
    let hl = host.len() as int;
    let bl = bucket.len() as int;
    let ol = object.len() as int;
    let he = 5 + hl;
    let bs = he + 1;
    let be = bs + bl;
    let ks = be + 1;
    let qs = ks + ol;
    let tail = (match version {
        None => Seq::<char>::empty(),
        Some(v) => "?version="@ + v,
    });
    let n = u.len() as int;
    assert(n == qs + tail.len());
    assert(u[0] == 's' && u[1] == '3' && u[2] == ':' && u[3] == '/' && u[4] == '/');
    assert(forall|j: int| 5 <= j < he ==> #[trigger] u[j] == host[j - 5]);
    assert(u[he] == '/');
    assert(forall|j: int| bs <= j < be ==> #[trigger] u[j] == bucket[j - bs]);
    assert(u[be] == '/');
    assert(forall|j: int| ks <= j < qs ==> #[trigger] u[j] == object[j - ks]);
    assert(forall|j: int| qs <= j < n ==> #[trigger] u[j] == tail[j - qs]);
    if let Some(v) = version {
        assert(tail[0] == '?' && tail[1] == 'v' && tail[2] == 'e' && tail[3] == 'r' && tail[4]
            == 's' && tail[5] == 'i' && tail[6] == 'o' && tail[7] == 'n' && tail[8] == '=');
        assert(forall|k: int| 9 <= k < tail.len() ==> #[trigger] tail[k] == v[k - 9]);
    }
    // no fragment anywhere, so nothing is stripped
    assert forall|j: int| 0 <= j < n implies #[trigger] u[j] != '#' by {
        if qs <= j < n {
            match version {
                Some(v) => {
                    if j - qs >= 9 {
                        assert(tail[j - qs] == v[j - qs - 9]);
                    }
                },
                None => {},
            }
        }
    }
    lemma_find_from_is(u, '#', 0, n);
    assert(stripped(u) =~= u);
    // the scheme is exactly `s3`
    lemma_find_from_is(u, ':', 0, 2);
    assert(scheme_end(u) == 2);
    assert(has_scheme(u));
    assert(scheme_of(u) =~= "s3"@);
    assert(scheme_matches(u));
    assert(has_authority(u));
    // the host component is exactly `host`
    lemma_find2_from_is(u, '/', '?', 5, he);
    assert(host_end(u) == he);
    assert(host_of(u) =~= host);
    assert(region_of(host_of(u)) == Some(region));
    // the bucket segment is exactly `bucket`
    lemma_find2_from_is(u, '/', '?', bs, be);
    assert(u.subrange(bs, be) =~= bucket);
    // the object key is exactly `object`
    lemma_find_from_is(u, '?', ks, qs);
    assert(u.subrange(ks, qs) =~= object);
    // the query holds exactly the requested version decision
    match version {
        None => {
            assert(qs == n);
            assert(pieces_from(u, qs + 1) =~= Seq::<Seq<char>>::empty());
            assert(version_of_query(pieces_from(u, qs + 1)) == Some(None::<Seq<char>>));
        },
        Some(v) => {
            let q0 = qs + 1;
            assert forall|j: int| q0 <= j < n implies #[trigger] u[j] != '&' by {
                assert(u[j] == tail[j - qs]);
                if j - qs >= 9 {
                    assert(tail[j - qs] == v[j - qs - 9]);
                }
            }
            lemma_find_from_is(u, '&', q0, n);
            let piece = u.subrange(q0, n);
            assert(piece.len() == 8 + v.len());
            assert(pieces_from(u, q0) == seq![piece] + Seq::<Seq<char>>::empty());
            assert(pieces_from(u, q0) =~= seq![piece]);
            assert(forall|k: int| 0 <= k < piece.len() ==> #[trigger] piece[k] == tail[k + 1]);
            lemma_find_from_is(piece, '=', 0, 7);
            assert(pair_key(piece) =~= "version"@);
            assert(pair_val(piece) =~= v);
            assert(version_of_query(pieces_from(u, q0)) == Some(Some(v)));
        },
    }
}

/// Splitting a query into parameters sees the content alone: prefixing the
/// sequence it lives in shifts nothing.
pub proof fn lemma_pieces_concat(t: Seq<char>, q: Seq<char>, i: int)
    requires
        0 <= i <= q.len(),
    ensures
        pieces_from(t + q, t.len() + i) == pieces_from(q, i),
    decreases q.len() - i,
{
    let u = t + q;
    let tl = t.len() as int;
    if i >= q.len() {
        assert(pieces_from(u, tl + i) =~= Seq::<Seq<char>>::empty());
        assert(pieces_from(q, i) =~= Seq::<Seq<char>>::empty());
    } else {
        lemma_find_from_concat(t, q, '&', i);
        let a = find_from(q, '&', i);
        lemma_find_from(q, '&', i);
        assert(u.subrange(tl + i, tl + a) =~= q.subrange(i, a));
        if a < q.len() {
            lemma_pieces_concat(t, q, a + 1);
        }
        assert(pieces_from(u, tl + i) == pieces_from(q, i));
    }
}

/// A URI with only a bucket segment and no key segment is rejected, with or
/// without a trailing slash after the bucket.
pub proof fn lemma_bucket_only_rejected(host: Seq<char>, bucket: Seq<char>)
    requires
        region_of(host) is Some,
        lacks(host, '/') && lacks(host, '?') && lacks(host, '#'),
        bucket.len() > 0 && lacks(bucket, '/') && lacks(bucket, '?') && lacks(bucket, '#'),
    ensures
        spec_parse("s3://"@ + host + "/"@ + bucket) == Err::<UrlModel, UriError>(UriError::BadUri),
        spec_parse("s3://"@ + host + "/"@ + bucket + "/"@) == Err::<UrlModel, UriError>(
            UriError::BadUri,
        ),
{
    reveal_strlit("s3://");
    reveal_strlit("s3");
    reveal_strlit("/");
    let hl = host.len() as int;
    let bl = bucket.len() as int;
    let he = 5 + hl;
    let bs = he + 1;
    let be = bs + bl;
    let u1 = "s3://"@ + host + "/"@ + bucket;
    let u2 = "s3://"@ + host + "/"@ + bucket + "/"@;
    // the bucket-only form: the bucket segment never ends, so no key exists
    {
        let u = u1;
        let n = u.len() as int;
        assert(n == be);
        assert(u[0] == 's' && u[1] == '3' && u[2] == ':' && u[3] == '/' && u[4] == '/');
        assert(forall|j: int| 5 <= j < he ==> #[trigger] u[j] == host[j - 5]);
        assert(u[he] == '/');
        assert(forall|j: int| bs <= j < be ==> #[trigger] u[j] == bucket[j - bs]);
        assert(forall|j: int| 0 <= j < n ==> #[trigger] u[j] != '#');
        lemma_find_from_is(u, '#', 0, n);
        assert(stripped(u) =~= u);
        lemma_find_from_is(u, ':', 0, 2);
        assert(scheme_of(u) =~= "s3"@);
        assert(scheme_matches(u));
        assert(has_authority(u));
        lemma_find2_from_is(u, '/', '?', 5, he);
        assert(host_of(u) =~= host);
        lemma_find2_from_is(u, '/', '?', bs, n);
        assert(spec_parse(u) == Err::<UrlModel, UriError>(UriError::BadUri));
    }
    // the trailing-slash form: the key segment exists but is empty
    {
        let u = u2;
        let n = u.len() as int;
        assert(n == be + 1);
        assert(u[0] == 's' && u[1] == '3' && u[2] == ':' && u[3] == '/' && u[4] == '/');
        assert(forall|j: int| 5 <= j < he ==> #[trigger] u[j] == host[j - 5]);
        assert(u[he] == '/');
        assert(forall|j: int| bs <= j < be ==> #[trigger] u[j] == bucket[j - bs]);
        assert(u[be] == '/');
        assert(forall|j: int| 0 <= j < n ==> #[trigger] u[j] != '#');
        lemma_find_from_is(u, '#', 0, n);
        assert(stripped(u) =~= u);
        lemma_find_from_is(u, ':', 0, 2);
        assert(scheme_of(u) =~= "s3"@);
        assert(scheme_matches(u));
        assert(has_authority(u));
        lemma_find2_from_is(u, '/', '?', 5, he);
        assert(host_of(u) =~= host);
        lemma_find2_from_is(u, '/', '?', bs, be);
        lemma_find_from_is(u, '?', be + 1, n);
        assert(spec_parse(u) == Err::<UrlModel, UriError>(UriError::BadUri));
    }
}

/// A URI with no bucket segment at all is rejected, with or without the
/// slash that would begin a path.
pub proof fn lemma_no_bucket_rejected(host: Seq<char>)
    requires
        region_of(host) is Some,
        lacks(host, '/') && lacks(host, '?') && lacks(host, '#'),
    ensures
        spec_parse("s3://"@ + host) == Err::<UrlModel, UriError>(UriError::BadUri),
        spec_parse("s3://"@ + host + "/"@) == Err::<UrlModel, UriError>(UriError::BadUri),
{
    reveal_strlit("s3://");
    reveal_strlit("s3");
    reveal_strlit("/");
    let hl = host.len() as int;
    let he = 5 + hl;
    // no path at all
    {
        let u = "s3://"@ + host;
        let n = u.len() as int;
        assert(n == he);
        assert(u[0] == 's' && u[1] == '3' && u[2] == ':' && u[3] == '/' && u[4] == '/');
        assert(forall|j: int| 5 <= j < he ==> #[trigger] u[j] == host[j - 5]);
        assert(forall|j: int| 0 <= j < n ==> #[trigger] u[j] != '#');
        lemma_find_from_is(u, '#', 0, n);
        assert(stripped(u) =~= u);
        lemma_find_from_is(u, ':', 0, 2);
        assert(scheme_of(u) =~= "s3"@);
        assert(scheme_matches(u));
        assert(has_authority(u));
        lemma_find2_from_is(u, '/', '?', 5, n);
        assert(host_of(u) =~= host);
        assert(spec_parse(u) == Err::<UrlModel, UriError>(UriError::BadUri));
    }
    // a slash but an empty bucket segment
    {
        let u = "s3://"@ + host + "/"@;
        let n = u.len() as int;
        assert(n == he + 1);
        assert(u[0] == 's' && u[1] == '3' && u[2] == ':' && u[3] == '/' && u[4] == '/');
        assert(forall|j: int| 5 <= j < he ==> #[trigger] u[j] == host[j - 5]);
        assert(u[he] == '/');
        assert(forall|j: int| 0 <= j < n ==> #[trigger] u[j] != '#');
        lemma_find_from_is(u, '#', 0, n);
        assert(stripped(u) =~= u);
        lemma_find_from_is(u, ':', 0, 2);
        assert(scheme_of(u) =~= "s3"@);
        assert(scheme_matches(u));
        assert(has_authority(u));
        lemma_find2_from_is(u, '/', '?', 5, he);
        assert(host_of(u) =~= host);
        lemma_find2_from_is(u, '/', '?', he + 1, n);
        assert(spec_parse(u) == Err::<UrlModel, UriError>(UriError::BadUri));
    }
}

/// A query carrying anything besides a single `version=<id>` parameter —
/// another name, a duplicate, or any second parameter — has the whole URI
/// rejected, however well-formed the rest of it is.
pub proof fn lemma_bad_query_rejected(
    host: Seq<char>,
    bucket: Seq<char>,
    object: Seq<char>,
    q: Seq<char>,
)
    requires
        region_of(host) is Some,
        lacks(host, '/') && lacks(host, '?') && lacks(host, '#'),
        bucket.len() > 0 && lacks(bucket, '/') && lacks(bucket, '?') && lacks(bucket, '#'),
        object.len() > 0 && lacks(object, '?') && lacks(object, '#'),
        lacks(q, '#'),
        version_of_query(pieces_from(q, 0)) is None,
    ensures
        spec_parse("s3://"@ + host + "/"@ + bucket + "/"@ + object + "?"@ + q) == Err::<
            UrlModel,
            UriError,
        >(UriError::BadUri),
{
    reveal_strlit("s3://");
    reveal_strlit("s3");
    reveal_strlit("/");
    reveal_strlit("?");
    let t = "s3://"@ + host + "/"@ + bucket + "/"@ + object + "?"@;
    let u = t + q;
    let hl = host.len() as int;
    let bl = bucket.len() as int;
    let ol = object.len() as int;
    let he = 5 + hl;
    let bs = he + 1;
    let be = bs + bl;
    let ks = be + 1;
    let qs = ks + ol;
    let n = u.len() as int;
    assert(t.len() == qs + 1);
    assert(n == qs + 1 + q.len());
    assert(u[0] == 's' && u[1] == '3' && u[2] == ':' && u[3] == '/' && u[4] == '/');
    assert(forall|j: int| 5 <= j < he ==> #[trigger] u[j] == host[j - 5]);
    assert(u[he] == '/');
    assert(forall|j: int| bs <= j < be ==> #[trigger] u[j] == bucket[j - bs]);
    assert(u[be] == '/');
    assert(forall|j: int| ks <= j < qs ==> #[trigger] u[j] == object[j - ks]);
    assert(u[qs] == '?');
    assert(forall|j: int| qs + 1 <= j < n ==> #[trigger] u[j] == q[j - qs - 1]);
    assert(forall|j: int| 0 <= j < n ==> #[trigger] u[j] != '#');
    lemma_find_from_is(u, '#', 0, n);
    assert(stripped(u) =~= u);
    lemma_find_from_is(u, ':', 0, 2);
    assert(scheme_of(u) =~= "s3"@);
    assert(scheme_matches(u));
    assert(has_authority(u));
    lemma_find2_from_is(u, '/', '?', 5, he);
    assert(host_of(u) =~= host);
    lemma_find2_from_is(u, '/', '?', bs, be);
    lemma_find_from_is(u, '?', ks, qs);
    lemma_pieces_concat(t, q, 0);
    assert(version_of_query(pieces_from(u, qs + 1)) is None);
    assert(spec_parse(u) == Err::<UrlModel, UriError>(UriError::BadUri));
}

/// A key ending in a slash stays exactly as written: the trailing slash is
/// preserved in the locator, and the URI is valid.
pub proof fn lemma_trailing_slash_preserved(
    region: Region,
    host: Seq<char>,
    bucket: Seq<char>,
    object: Seq<char>,
)
    requires
        region_of(host) == Some(region),
        lacks(host, '/') && lacks(host, '?') && lacks(host, '#'),
        bucket.len() > 0 && lacks(bucket, '/') && lacks(bucket, '?') && lacks(bucket, '#'),
        object.len() > 0 && lacks(object, '?') && lacks(object, '#'),
        object.last() == '/',
    ensures
        spec_parse(uri_of(host, bucket, object, None)) == Ok::<UrlModel, UriError>(
            UrlModel { region, bucket, object, version: None },
        ),
{
    lemma_valid_uri_parses(region, host, bucket, object, None);
}

/// An `s3` URI whose host does not resolve against the region table is
/// rejected as `BadUri`, regardless of the path or query after it.
pub proof fn lemma_unknown_region_rejected(u: Seq<char>)
    requires
        has_scheme(u),
        scheme_matches(u),
        has_authority(u),
        region_of(host_of(u)) is None,
    ensures
        spec_parse(u) == Err::<UrlModel, UriError>(UriError::BadUri),
{
}

} // verus!

