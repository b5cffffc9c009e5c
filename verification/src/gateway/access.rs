//! Who may use the local endpoint, and where it listens.
use vstd::prelude::*;
use vstd::string::StringSliceAdditionalSpecFns;
use vstd::utf8::encode_utf8_decode_utf8;

use crate::codec::{hex_encode, hexed, random_secret};
use crate::error::{AppError, Trouble};
use crate::protocol::opt;
use crate::store::{Db, MOST_ROWS};
use crate::text::{
    blank, concat, concat3, decimal, decimal_of, is_blank, parse_number, parsed, same,
    strip_prefix, stripped, trim, trimmed,
};

verus! {

broadcast use vstd::string::group_string_axioms;

pub const SETTING_GATEWAY: &'static str = "gateway";

pub const SETTING_GATEWAY_PORT: &'static str = "gateway_port";

/// Made up here and never typed by the user: without it nothing on this
/// machine can use the providers.
pub const SETTING_GATEWAY_TOKEN: &'static str = "gateway_token";

/// Whether an unknown model name falls through to one on offer.
pub const SETTING_GATEWAY_SUBSTITUTE: &'static str = "gateway_substitute";

/// The model outside tools should get; empty means whichever is cheapest.
pub const SETTING_GATEWAY_MODEL: &'static str = "gateway_model";

pub const DEFAULT_PORT: u16 = 11435;

// ---------------------------------------------------------------- settings

/// A switch that is off unless set to `true`.
pub open spec fn switched_on(setting: Option<Seq<char>>) -> bool {
    setting == Some("true"@)
}

/// A switch that is on unless set to `false`.
pub open spec fn not_switched_off(setting: Option<Seq<char>>) -> bool {
    setting != Some("false"@)
}

/// A setting's text without white space around it, when any is left.
pub open spec fn filled(setting: Option<Seq<char>>) -> Option<Seq<char>> {
    match setting {
        Some(s) if !blank(s) => Some(trimmed(s)),
        _ => None,
    }
}

/// The port to listen on: the configured one where it is a port, otherwise
/// the usual one.
pub open spec fn port_for(setting: Option<Seq<char>>) -> u16 {
    match setting {
        Some(s) => match parsed(trimmed(s), 10) {
            Some(n) if 0 < n <= u16::MAX => n as u16,
            _ => DEFAULT_PORT,
        },
        None => DEFAULT_PORT,
    }
}

pub fn is_on(setting: &Option<String>) -> (r: bool)
    ensures
        r == switched_on(opt(*setting)),
{
    match setting {
        Some(s) => same(s.as_str(), "true"),
        None => false,
    }
}

pub fn is_not_off(setting: &Option<String>) -> (r: bool)
    ensures
        r == not_switched_off(opt(*setting)),
{
    match setting {
        Some(s) => !same(s.as_str(), "false"),
        None => true,
    }
}

/// Whether the endpoint is switched on.
pub fn enabled(setting: &Option<String>) -> (r: bool)
    ensures
        r == switched_on(opt(*setting)),
{
    is_on(setting)
}

/// Whether an unknown model name is answered by another model.
pub fn substitutes(setting: &Option<String>) -> (r: bool)
    ensures
        r == not_switched_off(opt(*setting)),
{
    is_not_off(setting)
}

/// The model the user picked for outside tools, if they picked one.
pub fn chosen_model(setting: &Option<String>) -> (r: Option<String>)
    ensures
        opt(r) == filled(opt(*setting)),
{
    match setting {
        Some(s) => {
            if is_blank(s.as_str()) {
                None
            } else {
                Some(trim(s.as_str()))
            }
        },
        None => None,
    }
}

pub fn configured_port(setting: &Option<String>) -> (r: u16)
    ensures
        r == port_for(opt(*setting)),
        r > 0,
{
    if let Some(s) = setting {
        if let Some(n) = parse_number(trim(s.as_str()).as_str(), 10) {
            if 0 < n && n <= u16::MAX as u64 {
                return n as u16;
            }
        }
    }
    DEFAULT_PORT
}

// ------------------------------------------------------------------- token

/// A token made from secret bytes.
pub open spec fn token_text(secret: Seq<u8>) -> Seq<char> {
    "rm-"@ + hexed(secret)
}

pub fn token_from(secret: &Vec<u8>) -> (r: String)
    ensures
        r@ == token_text(secret@),
{
    concat("rm-", hex_encode(secret.as_slice()).as_str())
}

/// The token to ask for, and whether it is new and has to be kept. A token
/// that is there already stays; a new one is drawn by chance.
pub fn token(existing: &Option<String>) -> (r: (String, bool))
    ensures
        r.1 == (filled(opt(*existing)) is None),
        !r.1 ==> opt(*existing) == Some(r.0@),
        r.1 ==> is_drawn(r.0@),
{
    if let Some(s) = existing {
        if !is_blank(s.as_str()) {
            return (s.clone(), false);
        }
    }
    let secret = random_secret();
    assert(secret@.len() == 24 && token_text(secret@) == token_text(secret@));
    (token_from(&secret), true)
}

/// Some token that was drawn by chance.
pub open spec fn is_drawn(token: Seq<char>) -> bool {
    exists|secret: Seq<u8>| secret.len() == 24 && token == #[trigger] token_text(secret)
}

/// Puts a new token in place of the one there is. From then on only the new
/// one opens the door.
pub fn rotate_token(db: &mut Db) -> (r: Result<String, AppError>)
    requires
        old(db).wf(),
    ensures
        final(db).wf(),
        *final(db) == (Db { settings: final(db).settings, ..*old(db) }),
        match r {
            Ok(t) => {
                &&& is_drawn(t@)
                &&& final(db).setting(SETTING_GATEWAY_TOKEN@) == Some(t@)
                &&& forall|k: Seq<char>|
                    k != SETTING_GATEWAY_TOKEN@ ==> #[trigger] final(db).setting(k) == old(
                        db,
                    ).setting(k)
            },
            Err(e) => {
                &&& old(db).setting(SETTING_GATEWAY_TOKEN@) is None
                &&& old(db).settings@.len() == MOST_ROWS
                &&& *final(db) == *old(db)
                &&& e@ == Trouble::Db("database or disk is full"@)
            },
        },
{
    let (fresh, _) = token(&None);
    match db.set_setting(SETTING_GATEWAY_TOKEN, fresh.as_str()) {
        Ok(_) => Ok(fresh),
        Err(e) => Err(e),
    }
}

/// The token a request presents: Anthropic clients send it as `x-api-key`,
/// OpenAI ones as a bearer token.
pub open spec fn presented(api_key: Option<Seq<char>>, authorization: Option<Seq<char>>) -> Option<
    Seq<char>,
> {
    match api_key {
        Some(k) => Some(k),
        None => match authorization {
            Some(a) => stripped(a, "Bearer "@),
            None => None,
        },
    }
}

/// Whether two texts are the same, read to the end whatever is found.
fn same_to_the_end(a: &str, b: &str) -> (r: bool)
    ensures
        r == (a@ == b@),
{
    let x = a.as_bytes();
    let y = b.as_bytes();
    proof {
        encode_utf8_decode_utf8(a@);
        encode_utf8_decode_utf8(b@);
    }
    if x.len() != y.len() {
        return false;
    }
    let mut differ: u8 = 0;
    let mut i: usize = 0;
    while i < x.len()
        invariant
            i <= x@.len(),
            x@.len() == y@.len(),
            differ == 0 <==> (forall|k: int| 0 <= k < i ==> x@[k] == y@[k]),
        decreases x@.len() - i,
    {
        let p: u8 = x[i];
        let q: u8 = y[i];
        let next: u8 = differ | (p ^ q);
        assert(next == 0 <==> differ == 0 && p == q) by (bit_vector)
            requires
                next == differ | (p ^ q),
        ;
        differ = next;
        i = i + 1;
    }
    if differ == 0 {
        assert(x@ =~= y@);
    }
    differ == 0
}

/// Whether a request carries the token.
pub fn authorized(
    expected: &str,
    api_key: &Option<String>,
    authorization: &Option<String>,
) -> (r: bool)
    ensures
        r == (presented(opt(*api_key), opt(*authorization)) == Some(expected@)),
{
    let given = match api_key {
        Some(k) => Some(k.clone()),
        None => match authorization {
            Some(a) => strip_prefix(a.as_str(), "Bearer "),
            None => None,
        },
    };
    match given {
        Some(g) => same_to_the_end(g.as_str(), expected),
        None => false,
    }
}

/// A request without a token is never let in.
pub proof fn law_no_token_no_entry(expected: Seq<char>)
    ensures
        presented(None, None) != Some(expected),
{
}

// --------------------------------------------------------------- listening

/// What the connect screen shows.
#[derive(Debug, PartialEq)]
pub struct GatewayStatus {
    pub enabled: bool,
    /// A listener is bound right now.
    pub running: bool,
    pub port: u16,
    pub base_url: String,
    pub token: String,
    /// Why the last attempt to listen failed.
    pub error: Option<String>,
    /// An unknown model name is answered by another model on offer.
    pub substitute: bool,
    /// The model outside tools are told to ask for; none means the cheapest.
    pub model: Option<String>,
    /// Requests served since the app started.
    pub requests: u64,
}

/// The address programs on this machine reach the endpoint at.
pub open spec fn loopback_url(port: u16) -> Seq<char> {
    "http://127.0.0.1:"@ + decimal(port as nat)
}

pub fn base_url(port: u16) -> (r: String)
    ensures
        r@ == loopback_url(port),
{
    concat("http://127.0.0.1:", decimal_of(port as u64).as_str())
}

/// The endpoint's state, from the settings and what is listening.
pub fn status(
    on: &Option<String>,
    port: &Option<String>,
    substitute: &Option<String>,
    model: &Option<String>,
    token: String,
    listening: Option<u16>,
    error: Option<String>,
    requests: u64,
) -> (r: GatewayStatus)
    ensures
        r.enabled == switched_on(opt(*on)),
        r.running == (listening is Some),
        r.port == (match listening {
            Some(p) => p,
            None => port_for(opt(*port)),
        }),
        r.base_url@ == loopback_url(r.port),
        r.token@ == token@,
        opt(r.error) == opt(error),
        r.substitute == not_switched_off(opt(*substitute)),
        opt(r.model) == filled(opt(*model)),
        r.requests == requests,
{
    let at: u16 = match listening {
        Some(p) => p,
        None => configured_port(port),
    };
    GatewayStatus {
        enabled: enabled(on),
        running: listening.is_some(),
        port: at,
        base_url: base_url(at),
        token,
        error,
        substitute: substitutes(substitute),
        model: chosen_model(model),
        requests,
    }
}

/// What bringing the listener in line with the settings takes.
#[derive(Debug, Clone, Copy, PartialEq, Eq, Structural)]
pub enum Listening {
    /// It listens where it should: leave it.
    Keep,
    /// Close whatever is open, and nothing more.
    Close,
    /// Close whatever is open, then listen on this port.
    Open(u16),
}

/// What the settings ask of the listener.
pub open spec fn called_for(
    on: Option<Seq<char>>,
    port: Option<Seq<char>>,
    listening: Option<u16>,
) -> Listening {
    if !switched_on(on) {
        Listening::Close
    } else if listening == Some(port_for(port)) {
        Listening::Keep
    } else {
        Listening::Open(port_for(port))
    }
}

/// Brings the listener in line with the settings.
pub fn reconcile(on: &Option<String>, port: &Option<String>, listening: Option<u16>) -> (r:
    Listening)
    ensures
        r == called_for(opt(*on), opt(*port), listening),
{
    let want = enabled(on);
    let at: u16 = configured_port(port);
    if !want {
        return Listening::Close;
    }
    match listening {
        Some(p) if p == at => Listening::Keep,
        _ => Listening::Open(at),
    }
}

/// Why listening failed, in words a person can act on.
pub fn bind_error(port: u16, in_use: bool, reason: &str) -> (r: String)
    ensures
        r@ == (if in_use {
            "port "@ + decimal(port as nat) + " is already in use — pick another one"@
        } else {
            "cannot listen on 127.0.0.1:"@ + decimal(port as nat) + ": "@ + reason@
        }),
{
    let number = decimal_of(port as u64);
    if in_use {
        concat3("port ", number.as_str(), " is already in use — pick another one")
    } else {
        let mut r = concat3("cannot listen on 127.0.0.1:", number.as_str(), ": ");
        r.append(reason);
        r
    }
}

} // verus!
