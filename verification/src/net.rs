//! Reaching a peer: which addresses are accepted, whose key is expected, and
//! which messages belong to a job.
use vstd::prelude::*;
use vstd::string::StringSliceAdditionalSpecFns;
use vstd::utf8::encode_utf8;

use crate::codec::{hex_decode, unhexed};
use crate::error::{AppError, Trouble};
use crate::p2p::P2P_SCHEME;
use crate::pot::ledger::JobInvoice;
use crate::protocol::{
    opt, JobDelta, JobKind, JobResult, JobStatus, JobStatusUpdate, PeerAnnounce,
};
use crate::text::{
    blank, concat, concat3, contains, has_prefix, has_text, lower, lowercased, same,
    same_ignoring_case, starts_with, strip_prefix, stripped, to_lowercase, trim, trimmed,
};

verus! {

broadcast use vstd::string::group_string_axioms;

/// How many seconds a peer may take to say anything at all.
pub const CONNECT_TIMEOUT: u64 = 8;

/// How many seconds a job may run.
pub const JOB_TIMEOUT: u64 = 600;

/// How many seconds a film may take.
pub const VIDEO_JOB_TIMEOUT: u64 = 2_100;

/// How many seconds a job of a kind may run.
pub fn timeout_for(kind: JobKind) -> (r: u64)
    ensures
        r == (if kind == JobKind::Video {
            VIDEO_JOB_TIMEOUT
        } else {
            JOB_TIMEOUT
        }),
{
    match kind {
        JobKind::Video => VIDEO_JOB_TIMEOUT,
        _ => JOB_TIMEOUT,
    }
}

// --------------------------------------------------------------- addresses

/// What `url::Url::parse` makes of a text: the scheme, and the host where it
/// has one.
pub uninterp spec fn url_parts(s: Seq<char>) -> Option<(Seq<char>, Option<Seq<char>>)>;

/// What `url` says of a text that is no URL.
pub uninterp spec fn url_complaint(s: Seq<char>) -> Seq<char>;

/// `url::Url::parse` with its `scheme` and `host_str`, or its refusal in words
/// of its own.
#[verifier::external_body]
fn parse_url(s: &str) -> (r: Result<(String, Option<String>), String>)
    ensures
        match r {
            Ok(u) => url_parts(s@) == Some((u.0@, opt(u.1))),
            Err(e) => url_parts(s@) is None && e@ == url_complaint(s@),
        },
{
    let url = url::Url::parse(s).map_err(|e| e.to_string())?;
    Ok((url.scheme().to_string(), url.host_str().map(|h| h.to_string())))
}

/// A key: 64 hex digits.
pub open spec fn is_key(s: Seq<char>) -> bool {
    encode_utf8(s).len() == 64 && unhexed(s) is Some
}

pub fn is_peer_key(s: &str) -> (r: bool)
    ensures
        r == is_key(s@),
{
    s.as_bytes().len() == 64 && hex_decode(s).is_ok()
}

/// What is wrong with a socket address, given what it was parsed as.
pub open spec fn socket_fault(
    s: Seq<char>,
    parts: Option<(Seq<char>, Option<Seq<char>>)>,
) -> Option<Seq<char>> {
    match parts {
        None => Some("not a valid URL: "@ + url_complaint(s)),
        Some((scheme, host)) => if scheme != "ws"@ && scheme != "wss"@ {
            Some(
                "endpoint scheme must be ws:// or wss:// (got "@ + scheme + "://)"@,
            )
        } else {
            match host {
                Some(h) if h.len() > 0 => None,
                _ => Some("endpoint has no host"@),
            }
        },
    }
}

/// What is wrong with an endpoint, if anything. `address` is what is wrong
/// with it as a network address, which is what one that begins with a slash
/// is taken for.
pub open spec fn endpoint_fault(s: Seq<char>, address: Option<Seq<char>>) -> Option<Seq<char>> {
    if starts_with(s, "/"@) {
        address
    } else {
        match stripped(s, P2P_SCHEME@) {
            Some(hex) => if is_key(hex) {
                None
            } else {
                Some("a p2p endpoint must be p2p://<64 hex characters>"@)
            },
            None => socket_fault(s, url_parts(s)),
        }
    }
}

/// Checks a socket address, given its scheme and host.
pub fn check_socket(scheme: &str, host: &Option<String>) -> (r: Result<(), AppError>)
    ensures
        match r {
            Ok(_) => (scheme@ == "ws"@ || scheme@ == "wss"@) && (opt(*host) matches Some(h)
                && h.len() > 0),
            Err(e) => if scheme@ != "ws"@ && scheme@ != "wss"@ {
                e@ == Trouble::Invalid(
                    "endpoint scheme must be ws:// or wss:// (got "@ + scheme@ + "://)"@,
                )
            } else {
                &&& !(opt(*host) matches Some(h) && h.len() > 0)
                &&& e@ == Trouble::Invalid("endpoint has no host"@)
            },
        },
{
    if !same(scheme, "ws") && !same(scheme, "wss") {
        return Err(
            AppError::Invalid(
                concat3("endpoint scheme must be ws:// or wss:// (got ", scheme, "://)"),
            ),
        );
    }
    match host {
        Some(h) if !h.as_str().is_empty() => Ok(()),
        _ => Err(AppError::Invalid("endpoint has no host".to_string())),
    }
}

/// Accepts `ws://`, `wss://` and `p2p://` endpoints and network addresses that
/// name a peer, and nothing else. `address` is what is wrong with the endpoint
/// as a network address.
pub fn validate_endpoint(endpoint: &str, address: &Option<String>) -> (r: Result<(), AppError>)
    ensures
        match r {
            Ok(_) => endpoint_fault(endpoint@, opt(*address)) is None,
            Err(e) => match endpoint_fault(endpoint@, opt(*address)) {
                Some(why) => e@ == Trouble::Invalid(why),
                None => false,
            },
        },
{
    if has_prefix(endpoint, "/") {
        return match address {
            None => Ok(()),
            Some(why) => Err(AppError::Invalid(why.clone())),
        };
    }
    if let Some(hex) = strip_prefix(endpoint, P2P_SCHEME) {
        if !is_peer_key(hex.as_str()) {
            return Err(
                AppError::Invalid("a p2p endpoint must be p2p://<64 hex characters>".to_string()),
            );
        }
        return Ok(());
    }
    match parse_url(endpoint) {
        Err(why) => Err(AppError::Invalid(concat("not a valid URL: ", why.as_str()))),
        Ok((scheme, host)) => check_socket(scheme.as_str(), &host),
    }
}

/// What is meant by what a user types: a host and port is a socket, a bare key
/// a peer of the network.
pub open spec fn meant(input: Seq<char>) -> Seq<char> {
    let t = trimmed(input);
    if starts_with(t, "/"@) || contains(t, "://"@) {
        t
    } else if is_key(t) {
        P2P_SCHEME@ + lowercased(t)
    } else {
        "ws://"@ + t
    }
}

/// The endpoint that is meant by what a user types, when it is one.
pub fn normalize_endpoint(input: &str, address: &Option<String>) -> (r: Result<String, AppError>)
    ensures
        match r {
            Ok(s) => {
                &&& !blank(input@)
                &&& s@ == meant(input@)
                &&& endpoint_fault(s@, opt(*address)) is None
            },
            Err(e) => if blank(input@) {
                e@ == Trouble::Invalid("endpoint is empty"@)
            } else {
                match endpoint_fault(meant(input@), opt(*address)) {
                    Some(why) => e@ == Trouble::Invalid(why),
                    None => false,
                }
            },
        },
{
    let t = trim(input);
    if t.as_str().is_empty() {
        return Err(AppError::Invalid("endpoint is empty".to_string()));
    }
    let candidate = if has_prefix(t.as_str(), "/") || has_text(t.as_str(), "://") {
        t
    } else if is_peer_key(t.as_str()) {
        concat(P2P_SCHEME, to_lowercase(t.as_str()).as_str())
    } else {
        concat("ws://", t.as_str())
    };
    match validate_endpoint(candidate.as_str(), address) {
        Ok(_) => Ok(candidate),
        Err(e) => Err(e),
    }
}

// -------------------------------------------------------------------- keys

/// Whether a pinned key allows this one.
pub open spec fn key_allowed(pinned: Option<Seq<char>>, actual: Seq<char>) -> bool {
    match pinned {
        Some(p) => lower(p) == lower(actual),
        None => true,
    }
}

/// Refuses an announce from another key than the pinned one.
pub fn check_announce(pinned: &Option<String>, announced: &str) -> (r: Result<(), AppError>)
    ensures
        match r {
            Ok(_) => key_allowed(opt(*pinned), announced@),
            Err(e) => {
                &&& !key_allowed(opt(*pinned), announced@)
                &&& opt(*pinned) matches Some(p) && e@ == Trouble::Net(
                    "peer key mismatch: pinned "@ + p + ", endpoint announced "@ + announced@,
                )
            },
        },
{
    if let Some(expected) = pinned {
        if !same_ignoring_case(expected.as_str(), announced) {
            let mut text = concat3(
                "peer key mismatch: pinned ",
                expected.as_str(),
                ", endpoint announced ",
            );
            text.append(announced);
            return Err(AppError::Net(text));
        }
    }
    Ok(())
}

// ---------------------------------------------------------------- messages

/// What a worker sends.
#[derive(Debug, PartialEq)]
pub enum WorkerMessage {
    JobStatus(JobStatusUpdate),
    JobResult(JobResult),
    JobDelta(JobDelta),
    JobInvoice(JobInvoice),
    PeerAnnounce(PeerAnnounce),
    Unknown,
}

impl WorkerMessage {
    /// The job a message is about, when it is about one.
    pub open spec fn job(self) -> Option<u128> {
        match self {
            WorkerMessage::JobStatus(s) => Some(s.job_id),
            WorkerMessage::JobResult(r) => Some(r.job_id),
            WorkerMessage::JobDelta(d) => Some(d.job_id),
            WorkerMessage::JobInvoice(i) => Some(i.job_id),
            _ => None,
        }
    }
}

pub fn job_id_of(m: &WorkerMessage) -> (r: Option<u128>)
    ensures
        r == m.job(),
{
    match m {
        WorkerMessage::JobStatus(s) => Some(s.job_id),
        WorkerMessage::JobResult(r) => Some(r.job_id),
        WorkerMessage::JobDelta(d) => Some(d.job_id),
        WorkerMessage::JobInvoice(i) => Some(i.job_id),
        _ => None,
    }
}

/// What to do with a message on a job's connection.
#[derive(Debug, PartialEq)]
pub enum Relay {
    /// It is of no concern to this job.
    Skip,
    /// Hand it on.
    Forward,
    /// Hand it on; the job is over.
    ForwardAndStop,
    /// The peer is not who it should be.
    Refuse(AppError),
}

/// A job's connection: what came over it so far.
#[derive(Debug, Clone, Copy, PartialEq, Eq, Structural)]
pub struct Connection {
    pub job_id: u128,
    pub got_result: bool,
    /// The peer said why it failed, which is no hanging up.
    pub said_why: bool,
    /// The peer was asked to stop; it is asked once.
    pub asked_to_stop: bool,
}

impl Connection {
    pub open spec fn after(self, m: WorkerMessage) -> Connection {
        match m {
            WorkerMessage::JobResult(r) if r.job_id == self.job_id => Connection {
                got_result: true,
                ..self
            },
            WorkerMessage::JobStatus(s) if s.job_id == self.job_id => Connection {
                said_why: self.said_why || s.status == JobStatus::Failed,
                ..self
            },
            _ => self,
        }
    }

    pub fn new(job_id: u128) -> (r: Connection)
        ensures
            r == (Connection { job_id, got_result: false, said_why: false, asked_to_stop: false }),
    {
        Connection { job_id, got_result: false, said_why: false, asked_to_stop: false }
    }

    /// What to do with a message. `announced` is what the check of an
    /// announced key came to.
    pub fn hear(&mut self, m: &WorkerMessage, announced: Result<(), AppError>) -> (r: Relay)
        ensures
            *final(self) == old(self).after(*m),
            match *m {
                WorkerMessage::PeerAnnounce(_) => match announced {
                    Ok(_) => r == Relay::Forward,
                    Err(e) => r == Relay::Refuse(e),
                },
                WorkerMessage::Unknown => r == Relay::Skip,
                WorkerMessage::JobStatus(s) => r == (if s.job_id != old(self).job_id {
                    Relay::Skip
                } else if s.status.terminal() {
                    Relay::ForwardAndStop
                } else {
                    Relay::Forward
                }),
                _ => r == (if m.job() != Some(old(self).job_id) {
                    Relay::Skip
                } else {
                    Relay::Forward
                }),
            },
    {
        match m {
            WorkerMessage::PeerAnnounce(_) => match announced {
                Ok(_) => Relay::Forward,
                Err(e) => Relay::Refuse(e),
            },
            WorkerMessage::Unknown => Relay::Skip,
            WorkerMessage::JobStatus(s) => {
                if s.job_id != self.job_id {
                    return Relay::Skip;
                }
                if s.status == JobStatus::Failed {
                    self.said_why = true;
                }
                if s.status.is_terminal() {
                    Relay::ForwardAndStop
                } else {
                    Relay::Forward
                }
            },
            WorkerMessage::JobResult(r) => {
                if r.job_id != self.job_id {
                    return Relay::Skip;
                }
                self.got_result = true;
                Relay::Forward
            },
            WorkerMessage::JobDelta(d) => if d.job_id != self.job_id {
                Relay::Skip
            } else {
                Relay::Forward
            },
            WorkerMessage::JobInvoice(i) => if i.job_id != self.job_id {
                Relay::Skip
            } else {
                Relay::Forward
            },
        }
    }

    /// Whether to ask the peer to stop: the first time only.
    pub fn ask_to_stop(&mut self) -> (r: bool)
        ensures
            r == !old(self).asked_to_stop,
            *final(self) == (Connection { asked_to_stop: true, ..*old(self) }),
    {
        let first = !self.asked_to_stop;
        self.asked_to_stop = true;
        first
    }

    /// How a connection that closed is judged: a peer that gave neither a
    /// result nor a reason hung up. `pipe` is what the connection is called.
    pub fn close(&self, pipe: &str) -> (r: Result<(), AppError>)
        ensures
            match r {
                Ok(_) => self.got_result || self.said_why,
                Err(e) => !self.got_result && !self.said_why && e@ == Trouble::Net(
                    "peer closed the "@ + pipe@ + " without a result"@,
                ),
            },
    {
        if !self.got_result && !self.said_why {
            return Err(
                AppError::Net(concat3("peer closed the ", pipe, " without a result")),
            );
        }
        Ok(())
    }
}

/// A connection never hands on a message about another job.
pub proof fn law_other_jobs_leave_no_trace(c: Connection, m: WorkerMessage)
    requires
        m.job() matches Some(id) && id != c.job_id,
    ensures
        c.after(m) == c,
{
}

} // verus!
