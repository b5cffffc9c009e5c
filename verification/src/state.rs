//! Settings: which there are, what each may be, and what they come to.
use vstd::prelude::*;

use crate::error::{AppError, Trouble};
use crate::gateway::access::{
    is_not_off, is_on, not_switched_off, switched_on, DEFAULT_PORT, SETTING_GATEWAY,
    SETTING_GATEWAY_MODEL, SETTING_GATEWAY_PORT, SETTING_GATEWAY_SUBSTITUTE,
};
use crate::protocol::{copy_opt, copy_texts, opt};
use crate::text::{
    blank, concat3, has_prefix, is_blank, lemma_texts_push, lines, lines_of, parse_number, parsed,
    same, starts_with, texts, trim, trimmed,
};

verus! {

broadcast use vstd::string::group_string_axioms;

pub const SETTING_DOWNLOAD_DIR: &'static str = "download_dir";

pub const SETTING_DEFAULT_PEER: &'static str = "default_peer";

pub const SETTING_DEFAULT_LLM: &'static str = "default_llm_model";

pub const SETTING_DEFAULT_IMAGE: &'static str = "default_image_model";

pub const SETTING_THEME: &'static str = "theme";

pub const SETTING_SIGN_JOBS: &'static str = "sign_jobs";

pub const SETTING_BOOTSTRAP: &'static str = "bootstrap";

pub const SETTING_DISCOVERY: &'static str = "discovery";

pub const SETTING_MOCK_WORKER: &'static str = "mock_worker";

/// The settings that can be set.
pub open spec fn known_settings() -> Seq<Seq<char>> {
    seq![
        SETTING_DOWNLOAD_DIR@,
        SETTING_DEFAULT_PEER@,
        SETTING_DEFAULT_LLM@,
        SETTING_DEFAULT_IMAGE@,
        SETTING_THEME@,
        SETTING_SIGN_JOBS@,
        SETTING_BOOTSTRAP@,
        SETTING_DISCOVERY@,
        SETTING_MOCK_WORKER@,
        SETTING_GATEWAY@,
        SETTING_GATEWAY_PORT@,
        SETTING_GATEWAY_SUBSTITUTE@,
        SETTING_GATEWAY_MODEL@,
    ]
}

fn is_known(key: &str) -> (r: bool)
    ensures
        r == known_settings().contains(key@),
{
    let ghost all = known_settings();
    let r = same(key, SETTING_DOWNLOAD_DIR) || same(key, SETTING_DEFAULT_PEER) || same(
        key,
        SETTING_DEFAULT_LLM,
    ) || same(key, SETTING_DEFAULT_IMAGE) || same(key, SETTING_THEME) || same(
        key,
        SETTING_SIGN_JOBS,
    ) || same(key, SETTING_BOOTSTRAP) || same(key, SETTING_DISCOVERY) || same(
        key,
        SETTING_MOCK_WORKER,
    ) || same(key, SETTING_GATEWAY) || same(key, SETTING_GATEWAY_PORT) || same(
        key,
        SETTING_GATEWAY_SUBSTITUTE,
    ) || same(key, SETTING_GATEWAY_MODEL);
    proof {
        assert(all[0] == SETTING_DOWNLOAD_DIR@);
        assert(all[1] == SETTING_DEFAULT_PEER@);
        assert(all[2] == SETTING_DEFAULT_LLM@);
        assert(all[3] == SETTING_DEFAULT_IMAGE@);
        assert(all[4] == SETTING_THEME@);
        assert(all[5] == SETTING_SIGN_JOBS@);
        assert(all[6] == SETTING_BOOTSTRAP@);
        assert(all[7] == SETTING_DISCOVERY@);
        assert(all[8] == SETTING_MOCK_WORKER@);
        assert(all[9] == SETTING_GATEWAY@);
        assert(all[10] == SETTING_GATEWAY_PORT@);
        assert(all[11] == SETTING_GATEWAY_SUBSTITUTE@);
        assert(all[12] == SETTING_GATEWAY_MODEL@);
        if all.contains(key@) {
            let i = choose|i: int| 0 <= i < all.len() && all[i] == key@;
            assert(r);
        }
    }
    r
}

// ---------------------------------------------------------------- bootstrap

/// A line that names an entry point: not blank, and no comment.
pub open spec fn is_entry(line: Seq<char>) -> bool {
    let t = trimmed(line);
    t.len() > 0 && !starts_with(t, "#"@)
}

/// The entry points in a list, one a line.
pub open spec fn entries(ls: Seq<Seq<char>>) -> Seq<Seq<char>>
    decreases ls.len(),
{
    if ls.len() == 0 {
        seq![]
    } else if is_entry(ls.last()) {
        entries(ls.drop_last()).push(trimmed(ls.last()))
    } else {
        entries(ls.drop_last())
    }
}

/// The entry points a list names, one a line; blank lines and comments are
/// left out.
pub fn entry_points(list: &str) -> (r: Vec<String>)
    ensures
        texts(r@) == entries(lines(list@)),
{
    let all = lines_of(list);
    let ghost ls = lines(list@);
    let mut out: Vec<String> = Vec::new();
    let mut i: usize = 0;
    assert(texts(out@) =~= entries(ls.take(0)));
    while i < all.len()
        invariant
            i <= all@.len(),
            texts(all@) == ls,
            texts(out@) == entries(ls.take(i as int)),
        decreases all@.len() - i,
    {
        let ghost now = ls.take(i as int + 1);
        assert(now.drop_last() =~= ls.take(i as int));
        assert(now.last() == all@[i as int]@);
        let t = trim(all[i].as_str());
        if !t.as_str().is_empty() && !has_prefix(t.as_str(), "#") {
            proof {
                lemma_texts_push(out@, t);
            }
            out.push(t);
        }
        i = i + 1;
    }
    assert(ls.take(i as int) =~= ls);
    out
}

/// The entry points in use: the configured ones, or where there are none the
/// network's own.
pub fn bootstrap_addrs(configured: &Option<String>, default: &Vec<String>) -> (r: Vec<String>)
    ensures
        texts(r@) == ({
            let own = match opt(*configured) {
                Some(s) => entries(lines(s)),
                None => entries(lines(""@)),
            };
            if own.len() == 0 {
                texts(default@)
            } else {
                own
            }
        }),
{
    let own = match configured {
        Some(s) => entry_points(s.as_str()),
        None => entry_points(""),
    };
    assert(texts(own@).len() == own@.len());
    if own.len() == 0 {
        copy_texts(default)
    } else {
        own
    }
}

// ------------------------------------------------------------------ setting

/// A port that can be listened on without privileges.
pub open spec fn good_port(value: Seq<char>) -> bool {
    match parsed(trimmed(value), 10) {
        Some(n) => 1024 <= n <= u16::MAX,
        None => false,
    }
}

/// What is wrong with a setting, if anything. `entries_fault` is what is wrong
/// with the first entry point that is none, `absolute` whether the value is an
/// absolute path.
pub open spec fn setting_fault(
    key: Seq<char>,
    value: Seq<char>,
    entries_fault: Option<Seq<char>>,
    absolute: bool,
) -> Option<Seq<char>> {
    if !known_settings().contains(key) {
        Some("unknown setting '"@ + key + "'"@)
    } else if key == SETTING_BOOTSTRAP@ && entries_fault is Some {
        entries_fault
    } else if key == SETTING_GATEWAY_PORT@ && !blank(value) && !good_port(value) {
        Some("port must be a number between 1024 and 65535"@)
    } else if key == SETTING_DOWNLOAD_DIR@ && !blank(value) && !absolute {
        Some("download directory must be an absolute path"@)
    } else {
        None
    }
}

/// What setting a setting does besides keeping it.
#[derive(Debug, Clone, Copy, PartialEq, Eq, Structural)]
pub enum SideEffect {
    Nothing,
    /// The directory has to be there.
    MakeDirectory,
    /// The worker in this process is to be listed, or not to be.
    Mock(bool),
}

/// Whether a setting may be set, and what it does besides.
pub fn set_setting(key: &str, value: &str, entries_fault: &Option<String>, absolute: bool) -> (r:
    Result<SideEffect, AppError>)
    ensures
        match r {
            Ok(s) => {
                &&& setting_fault(key@, value@, opt(*entries_fault), absolute) is None
                &&& s == (if key@ == SETTING_DOWNLOAD_DIR@ && !blank(value@) {
                    SideEffect::MakeDirectory
                } else if key@ == SETTING_MOCK_WORKER@ {
                    SideEffect::Mock(value@ == "true"@)
                } else {
                    SideEffect::Nothing
                })
            },
            Err(e) => match setting_fault(key@, value@, opt(*entries_fault), absolute) {
                Some(why) => e@ == Trouble::Invalid(why),
                None => false,
            },
        },
{
    if !is_known(key) {
        return Err(AppError::Invalid(concat3("unknown setting '", key, "'")));
    }
    if same(key, SETTING_BOOTSTRAP) {
        if let Some(why) = entries_fault {
            return Err(AppError::Invalid(why.clone()));
        }
    }
    if same(key, SETTING_GATEWAY_PORT) && !is_blank(value) {
        let good = match parse_number(trim(value).as_str(), 10) {
            Some(n) => 1024 <= n && n <= u16::MAX as u64,
            None => false,
        };
        if !good {
            return Err(
                AppError::Invalid("port must be a number between 1024 and 65535".to_string()),
            );
        }
    }
    if same(key, SETTING_DOWNLOAD_DIR) && !is_blank(value) {
        if !absolute {
            return Err(
                AppError::Invalid("download directory must be an absolute path".to_string()),
            );
        }
        return Ok(SideEffect::MakeDirectory);
    }
    if same(key, SETTING_MOCK_WORKER) {
        return Ok(SideEffect::Mock(same(value, "true")));
    }
    Ok(SideEffect::Nothing)
}

/// What has to be done again once a setting is set.
#[derive(Debug, Clone, Copy, PartialEq, Eq, Structural)]
pub enum AfterSetting {
    Nothing,
    /// The node is built from it.
    RebuildNode,
    /// The endpoint is opened, moved or closed by it.
    ReconcileGateway,
}

pub fn after_setting(key: &str) -> (r: AfterSetting)
    ensures
        r == (if key@ == SETTING_BOOTSTRAP@ || key@ == SETTING_DISCOVERY@ {
            AfterSetting::RebuildNode
        } else if key@ == SETTING_GATEWAY@ || key@ == SETTING_GATEWAY_PORT@ {
            AfterSetting::ReconcileGateway
        } else {
            AfterSetting::Nothing
        }),
{
    if same(key, SETTING_BOOTSTRAP) || same(key, SETTING_DISCOVERY) {
        AfterSetting::RebuildNode
    } else if same(key, SETTING_GATEWAY) || same(key, SETTING_GATEWAY_PORT) {
        AfterSetting::ReconcileGateway
    } else {
        AfterSetting::Nothing
    }
}

// ----------------------------------------------------------------- settings

/// The directory results are kept in: the configured one, or the usual one.
pub fn download_dir(setting: &Option<String>, default: &str) -> (r: String)
    ensures
        r@ == (match opt(*setting) {
            Some(s) if !blank(s) => s,
            _ => default@,
        }),
{
    match setting {
        Some(s) => if is_blank(s.as_str()) {
            default.to_string()
        } else {
            s.clone()
        },
        None => default.to_string(),
    }
}

/// Whether jobs are signed; they are unless switched off.
pub fn sign_jobs(setting: &Option<String>) -> (r: bool)
    ensures
        r == not_switched_off(opt(*setting)),
{
    is_not_off(setting)
}

/// Whether peers are looked for; they are unless switched off.
pub fn discovery_enabled(setting: &Option<String>) -> (r: bool)
    ensures
        r == not_switched_off(opt(*setting)),
{
    is_not_off(setting)
}

/// The port shown: the configured one where it is a number that fits.
pub open spec fn shown_port(setting: Option<Seq<char>>) -> u16 {
    match setting {
        Some(s) => match parsed(trimmed(s), 10) {
            Some(n) if n <= u16::MAX => n as u16,
            _ => DEFAULT_PORT,
        },
        None => DEFAULT_PORT,
    }
}

/// All settings as the settings screen shows them.
#[derive(Debug, PartialEq)]
pub struct Settings {
    pub download_dir: String,
    pub default_peer: Option<String>,
    pub default_llm_model: Option<String>,
    pub default_image_model: Option<String>,
    pub theme: String,
    pub sign_jobs: bool,
    pub bootstrap: String,
    pub discovery: bool,
    pub mock_worker: bool,
    /// How many entry points are in use.
    pub entry_points: u32,
    pub gateway: bool,
    pub gateway_port: u16,
    pub app_data_dir: String,
    pub db_path: String,
    pub key_path: String,
}

/// The settings as they are kept.
#[derive(Debug, PartialEq)]
pub struct Kept {
    pub download_dir: Option<String>,
    pub default_peer: Option<String>,
    pub default_llm_model: Option<String>,
    pub default_image_model: Option<String>,
    pub theme: Option<String>,
    pub sign_jobs: Option<String>,
    pub bootstrap: Option<String>,
    pub discovery: Option<String>,
    pub mock_worker: Option<String>,
    pub gateway: Option<String>,
    pub gateway_port: Option<String>,
}

/// Where things are.
#[derive(Debug, PartialEq)]
pub struct Places {
    pub default_download_dir: String,
    pub app_data_dir: String,
    pub db_path: String,
    pub key_path: String,
}

pub open spec fn or_else(o: Option<Seq<char>>, other: Seq<char>) -> Seq<char> {
    match o {
        Some(s) => s,
        None => other,
    }
}

/// All settings as they are shown. `mock_env` is whether the environment asks
/// for the worker in this process, `entry_points` how many are in use.
pub fn settings(kept: &Kept, places: &Places, mock_env: bool, entry_points: u32) -> (r: Settings)
    ensures
        r.download_dir@ == (match opt(kept.download_dir) {
            Some(s) if !blank(s) => s,
            _ => places.default_download_dir@,
        }),
        opt(r.default_peer) == opt(kept.default_peer),
        opt(r.default_llm_model) == opt(kept.default_llm_model),
        opt(r.default_image_model) == opt(kept.default_image_model),
        r.theme@ == or_else(opt(kept.theme), "light"@),
        r.sign_jobs == not_switched_off(opt(kept.sign_jobs)),
        r.bootstrap@ == or_else(opt(kept.bootstrap), seq![]),
        r.discovery == not_switched_off(opt(kept.discovery)),
        r.mock_worker == (switched_on(opt(kept.mock_worker)) || mock_env),
        r.entry_points == entry_points,
        r.gateway == switched_on(opt(kept.gateway)),
        r.gateway_port == shown_port(opt(kept.gateway_port)),
        r.app_data_dir@ == places.app_data_dir@,
        r.db_path@ == places.db_path@,
        r.key_path@ == places.key_path@,
{
    let theme = match &kept.theme {
        Some(t) => t.clone(),
        None => "light".to_string(),
    };
    let bootstrap = match &kept.bootstrap {
        Some(b) => b.clone(),
        None => String::new(),
    };
    let mut port: u16 = DEFAULT_PORT;
    if let Some(s) = &kept.gateway_port {
        if let Some(n) = parse_number(trim(s.as_str()).as_str(), 10) {
            if n <= u16::MAX as u64 {
                port = n as u16;
            }
        }
    }
    Settings {
        download_dir: download_dir(&kept.download_dir, places.default_download_dir.as_str()),
        default_peer: copy_opt(&kept.default_peer),
        default_llm_model: copy_opt(&kept.default_llm_model),
        default_image_model: copy_opt(&kept.default_image_model),
        theme,
        sign_jobs: sign_jobs(&kept.sign_jobs),
        bootstrap,
        discovery: discovery_enabled(&kept.discovery),
        mock_worker: is_on(&kept.mock_worker) || mock_env,
        entry_points,
        gateway: is_on(&kept.gateway),
        gateway_port: port,
        app_data_dir: places.app_data_dir.clone(),
        db_path: places.db_path.clone(),
        key_path: places.key_path.clone(),
    }
}

} // verus!
