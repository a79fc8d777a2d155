//! The source's two-state session lifecycle: Stopped/Started, a one-time
//! size probe at start, and stateless byte-range read requests.
//!
//! The state machine itself performs no network traffic. The host driver
//! asks it what to do (`start_begin`, `read_request`), performs the transport
//! call, and hands the observed outcome back (`start_complete`,
//! `probe_complete`, `read_complete`); every decision along the way is
//! verified, whatever the transport reported.

use crate::s3url::{parse_s3_url, spec_parse, GstS3Url, UriError, UrlModel};
use vstd::prelude::*;
use vstd::string::StringExecFns;

verus! {

/// The lifecycle of one source instance: either stopped, or started with the
/// locator it serves and the object size learned from the size probe.
pub enum StreamingState {
    Stopped,
    Started { url: GstS3Url, size: u64 },
}

/// How an operation of the source can fail: API misuse (`Failure`), starting
/// with no locator configured (`Settings`), a size probe that found nothing
/// (`NotFound`) or something unusable (`OpenFailed`), and a failed range
/// read (`ReadFailure`). The probe and read variants carry the transport's
/// own description of the cause.
#[derive(Clone, PartialEq, Eq, Debug)]
pub enum SourceError {
    Failure,
    Settings,
    NotFound { cause: String },
    OpenFailed { cause: String },
    ReadFailure { cause: String },
}

/// What the driver observed when the metadata probe itself failed: either the
/// store said the object (or bucket, or version) does not exist, or some
/// other fault occurred.
#[derive(Clone, PartialEq, Eq, Debug)]
pub enum ProbeFault {
    Absent { cause: String },
    Other { cause: String },
}

/// A fully-specified byte-range request: the object coordinates and the
/// inclusive range header value, ready for the transport to send.
#[derive(Clone, PartialEq, Eq, Debug)]
pub struct GetRangeRequest {
    pub bucket: String,
    pub key: String,
    pub version: Option<String>,
    pub range: String,
}

/// The decimal digit character for `d` in `0..10`.
pub open spec fn dec_digit(d: int) -> char {
    if d == 0 {
        '0'
    } else if d == 1 {
        '1'
    } else if d == 2 {
        '2'
    } else if d == 3 {
        '3'
    } else if d == 4 {
        '4'
    } else if d == 5 {
        '5'
    } else if d == 6 {
        '6'
    } else if d == 7 {
        '7'
    } else if d == 8 {
        '8'
    } else {
        '9'
    }
}

/// The usual decimal rendering of a non-negative number: most significant
/// digit first, no leading zeros (a lone `0` for zero).
pub open spec fn dec_of(n: int) -> Seq<char>
    decreases n,
{
    if n < 10 {
        seq![dec_digit(n)]
    } else {
        dec_of(n / 10).push(dec_digit(n % 10))
    }
}

/// The numeric value of a digit sequence, inverse to `dec_of`.
pub open spec fn dec_val(s: Seq<char>) -> int
    decreases s.len(),
{
    if s.len() == 0 {
        0
    } else {
        dec_val(s.drop_last()) * 10 + digit_val(s.last())
    }
}

/// The numeric value of a single digit character.
pub open spec fn digit_val(c: char) -> int {
    if c == '0' {
        0
    } else if c == '1' {
        1
    } else if c == '2' {
        2
    } else if c == '3' {
        3
    } else if c == '4' {
        4
    } else if c == '5' {
        5
    } else if c == '6' {
        6
    } else if c == '7' {
        7
    } else if c == '8' {
        8
    } else {
        9
    }
}

/// Rendering a number and reading the digits back yields the number: the
/// decimal rendering is faithful.
pub proof fn lemma_dec_of_val(n: int)
    requires
        0 <= n,
    ensures
        dec_val(dec_of(n)) == n,
    decreases n,
{
    if n < 10 {
        assert(dec_of(n) =~= seq![dec_digit(n)]);
        assert(dec_of(n).drop_last() =~= Seq::<char>::empty());
        assert(dec_val(dec_of(n)) == dec_val(Seq::<char>::empty()) * 10 + digit_val(dec_digit(n)));
    } else {
        lemma_dec_of_val(n / 10);
        vstd::arithmetic::div_mod::lemma_fundamental_div_mod(n, 10);
        assert(dec_of(n).drop_last() =~= dec_of(n / 10));
        assert(dec_of(n).last() == dec_digit(n % 10));
        assert(digit_val(dec_digit(n % 10)) == n % 10);
    }
}

/// Append the single decimal digit `d` to `s`.
fn append_digit(s: &mut String, d: u64)
    requires
        d < 10,
    ensures
        final(s)@ == old(s)@ + seq![dec_digit(d as int)],
{
    proof {
        reveal_strlit("0");
        reveal_strlit("1");
        reveal_strlit("2");
        reveal_strlit("3");
        reveal_strlit("4");
        reveal_strlit("5");
        reveal_strlit("6");
        reveal_strlit("7");
        reveal_strlit("8");
        reveal_strlit("9");
    }
    if d == 0 {
        s.append("0");
    } else if d == 1 {
        s.append("1");
    } else if d == 2 {
        s.append("2");
    } else if d == 3 {
        s.append("3");
    } else if d == 4 {
        s.append("4");
    } else if d == 5 {
        s.append("5");
    } else if d == 6 {
        s.append("6");
    } else if d == 7 {
        s.append("7");
    } else if d == 8 {
        s.append("8");
    } else {
        s.append("9");
    }
    proof {
        assert(final(s)@ =~= old(s)@ + seq![dec_digit(d as int)]);
    }
}

/// Append the decimal rendering of `n` to `s`.
fn push_dec(s: &mut String, n: u64)
    ensures
        final(s)@ == old(s)@ + dec_of(n as int),
    decreases n,
{
    if n >= 10 {
        push_dec(s, n / 10);
    }
    append_digit(s, n % 10);
    proof {
        assert(final(s)@ =~= old(s)@ + dec_of(n as int));
    }
}

/// The range header value for the inclusive byte window `[first, last]`.
pub open spec fn range_spec(first: int, last: int) -> Seq<char> {
    "bytes="@ + dec_of(first) + "-"@ + dec_of(last)
}

/// A pull-mode object-store source: a stored locator set from a URI, and the
/// Stopped/Started session lifecycle around it.
pub struct S3Src {
    pub url: Option<GstS3Url>,
    pub state: StreamingState,
}

impl S3Src {
    /// Whether a session is live.
    pub open spec fn is_started(&self) -> bool {
        self.state is Started
    }

    /// The locator of the live session, if any.
    pub open spec fn session(&self) -> Option<UrlModel> {
        match self.state {
            StreamingState::Started { url, .. } => Some(url@),
            StreamingState::Stopped => None,
        }
    }

    /// The probed object size of the live session; `None` means unknown,
    /// i.e. no session is live.
    pub open spec fn size_opt(&self) -> Option<u64> {
        match self.state {
            StreamingState::Started { size, .. } => Some(size),
            StreamingState::Stopped => None,
        }
    }

    /// The locator configured by `set_uri`, if any.
    pub open spec fn stored_url(&self) -> Option<UrlModel> {
        match self.url {
            Some(u) => Some(u@),
            None => None,
        }
    }

    /// A fresh source: stopped, with no locator configured.
    pub fn new() -> (s: S3Src)
        ensures
            !s.is_started(),
            s.stored_url() is None,
    {
        S3Src { url: None, state: StreamingState::Stopped }
    }

    /// Configure the locator from a URI string. A URI the parser rejects
    /// clears any previously stored locator and reports the parser's error;
    /// the session state is untouched either way.
    pub fn set_uri(&mut self, uri: &str) -> (r: Result<(), UriError>)
        ensures
            final(self).state == old(self).state,
            (match spec_parse(uri@) {
                Ok(m) => r is Ok && final(self).stored_url() == Some(m),
                Err(e) => r == Err::<(), UriError>(e) && final(self).stored_url() is None,
            }),
    {
        match parse_s3_url(uri) {
            Ok(u) => {
                self.url = Some(u);
                Ok(())
            },
            Err(e) => {
                self.url = None;
                Err(e)
            },
        }
    }

    /// First half of `start`: check the lifecycle and hand the driver the
    /// locator to connect to and probe. Starting while started is misuse and
    /// changes nothing; starting with no locator configured is a settings
    /// error.
    pub fn start_begin(&self) -> (r: Result<GstS3Url, SourceError>)
        ensures
            self.is_started() ==> r == Err::<GstS3Url, SourceError>(SourceError::Failure),
            !self.is_started() && self.stored_url() is None ==> r == Err::<
                GstS3Url,
                SourceError,
            >(SourceError::Settings),
            !self.is_started() && self.stored_url() is Some ==> (r matches Ok(u) && Some(u@)
                == self.stored_url()),
    {
        if let StreamingState::Started { .. } = self.state {
            return Err(SourceError::Failure);
        }
        match &self.url {
            Some(u) => Ok(u.clone()),
            None => Err(SourceError::Settings),
        }
    }

    /// Second half of `start`: fold the probe's outcome into the lifecycle.
    /// Only a successful probe creates the session, fully formed in one step;
    /// on any failure the state stays exactly as it was.
    pub fn start_complete(&mut self, url: GstS3Url, probe: Result<u64, SourceError>) -> (r: Result<
        (),
        SourceError,
    >)
        ensures
            old(self).is_started() ==> r == Err::<(), SourceError>(SourceError::Failure)
                && *final(self) == *old(self),
            !old(self).is_started() ==> (match probe {
                Ok(size) => r is Ok && final(self).session() == Some(url@) && final(self).size_opt()
                    == Some(size) && final(self).stored_url() == old(self).stored_url(),
                Err(e) => r == Err::<(), SourceError>(e) && *final(self) == *old(self),
            }),
    {
        if let StreamingState::Started { .. } = self.state {
            return Err(SourceError::Failure);
        }
        match probe {
            Ok(size) => {
                self.state = StreamingState::Started { url, size };
                Ok(())
            },
            Err(e) => Err(e),
        }
    }

    /// Stop the source, discarding the session. Stopping while already
    /// stopped is misuse and changes nothing.
    pub fn stop(&mut self) -> (r: Result<(), SourceError>)
        ensures
            !old(self).is_started() ==> r == Err::<(), SourceError>(SourceError::Failure)
                && *final(self) == *old(self),
            old(self).is_started() ==> r is Ok && !final(self).is_started()
                && final(self).stored_url() == old(self).stored_url(),
    {
        if let StreamingState::Stopped = self.state {
            return Err(SourceError::Failure);
        }
        self.state = StreamingState::Stopped;
        Ok(())
    }

    /// The object's size: unknown until a session is started, then the value
    /// the size probe reported, fixed for the session's duration.
    pub fn get_size(&self) -> (r: Option<u64>)
        ensures
            r == self.size_opt(),
    {
        match &self.state {
            StreamingState::Started { size, .. } => Some(*size),
            StreamingState::Stopped => None,
        }
    }

    /// The configured locator printed back as a URI, or the empty string
    /// when none is configured.
    pub fn get_uri(&self) -> (r: String)
        ensures
            (match self.url {
                Some(u) => r@ == crate::s3url::uri_of(
                    crate::s3url::region_name(u@.region),
                    u@.bucket,
                    u@.object,
                    u@.version,
                ),
                None => r@ == Seq::<char>::empty(),
            }),
    {
        match &self.url {
            Some(u) => u.url_string(),
            None => String::new(),
        }
    }

    /// Every read is an independent, fully-specified range request, so the
    /// source is seekable.
    pub fn is_seekable(&self) -> (r: bool)
        ensures
            r,
    {
        true
    }

    /// Accepted unconditionally and has no effect: with no sequential read
    /// cursor, there is nothing to reposition.
    pub fn do_seek(&self, _start: u64, _stop: u64) -> (r: bool)
        ensures
            r,
    {
        true
    }

    /// Build the range request for a window of `length` bytes at `offset`:
    /// the inclusive range `[offset, offset + length - 1]` against the live
    /// session's object. Reading without a session is misuse, reported as
    /// `Failure` before any request exists.
    pub fn read_request(&self, offset: u64, length: u64) -> (r: Result<
        GetRangeRequest,
        SourceError,
    >)
        requires
            length >= 1,
            offset + length - 1 <= u64::MAX,
        ensures
            !self.is_started() ==> r == Err::<GetRangeRequest, SourceError>(SourceError::Failure),
            self.is_started() ==> (self.session() matches Some(m) && r matches Ok(req) && {
                &&& req.bucket@ == m.bucket
                &&& req.key@ == m.object
                &&& (match req.version {
                    Some(v) => m.version == Some(v@),
                    None => m.version is None,
                })
                &&& req.range@ == range_spec(offset as int, offset + length - 1)
            }),
    {
        let url = match &self.state {
            StreamingState::Started { url, .. } => url,
            StreamingState::Stopped => {
                return Err(SourceError::Failure);
            },
        };
        let mut range = String::new();
        range.append("bytes=");
        push_dec(&mut range, offset);
        range.append("-");
        push_dec(&mut range, offset + (length - 1));
        proof {
            assert(range@ =~= range_spec(offset as int, offset + length - 1));
        }
        Ok(
            GetRangeRequest {
                bucket: url.bucket.clone(),
                key: url.object.clone(),
                version: match &url.version {
                    Some(v) => Some(v.clone()),
                    None => None,
                },
                range,
            },
        )
    }
}

/// Interpret the size probe's outcome: a reported content length is the
/// object's size; a response without a usable length is `OpenFailed`,
/// distinct from the store saying the object is absent (`NotFound`).
pub fn probe_complete(outcome: Result<Option<i64>, ProbeFault>) -> (r: Result<u64, SourceError>)
    ensures
        (match outcome {
            Ok(Some(len)) => if 0 <= len {
                r == Ok::<u64, SourceError>(len as u64)
            } else {
                r matches Err(e) && e matches SourceError::OpenFailed { cause } && cause@
                    == "no content length in response"@
            },
            Ok(None) => r matches Err(e) && e matches SourceError::OpenFailed { cause } && cause@
                == "no content length in response"@,
            Err(ProbeFault::Absent { cause }) => r == Err::<u64, SourceError>(
                SourceError::NotFound { cause },
            ),
            Err(ProbeFault::Other { cause }) => r == Err::<u64, SourceError>(
                SourceError::OpenFailed { cause },
            ),
        }),
{
    match outcome {
        Ok(Some(len)) => {
            if len >= 0 {
                Ok(len as u64)
            } else {
                Err(SourceError::OpenFailed { cause: "no content length in response".to_owned() })
            }
        },
        Ok(None) => Err(SourceError::OpenFailed { cause: "no content length in response".to_owned() }),
        Err(ProbeFault::Absent { cause }) => Err(SourceError::NotFound { cause }),
        Err(ProbeFault::Other { cause }) => Err(SourceError::OpenFailed { cause }),
    }
}

/// Accept the store's response to a range request of `length` bytes: the
/// bytes pass through exactly as delivered — a short window is not padded —
/// but a response larger than the requested window violates the source's
/// invariant and is misuse-class `Failure`, not a read error.
pub fn read_complete(length: u64, response: Result<Vec<u8>, SourceError>) -> (r: Result<
    Vec<u8>,
    SourceError,
>)
    ensures
        (match response {
            Ok(data) => if data@.len() <= length {
                r matches Ok(out) && out@ == data@
            } else {
                r == Err::<Vec<u8>, SourceError>(SourceError::Failure)
            },
            Err(e) => r == Err::<Vec<u8>, SourceError>(e),
        }),
{
    match response {
        Ok(data) => {
            if data.len() as u64 <= length {
                Ok(data)
            } else {
                Err(SourceError::Failure)
            }
        },
        Err(e) => Err(e),
    }
}

} // verus!
