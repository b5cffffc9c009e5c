//! The tools that can be pointed at the local endpoint, and how each keeps
//! its settings.
use vstd::prelude::*;

use crate::connected_tools::jsonc::{plain_json, strip_jsonc};
use crate::connected_tools::lines::PROVIDER_KEY;
use crate::error::{AppError, Trouble};
use crate::gateway::access::GatewayStatus;
use crate::json::{
    json_read, json_written_pretty, law_put_then_get, law_remove_then_get, lookup, parse,
    print_pretty, Json, Tree,
};
use crate::protocol::opt;
use crate::text::{concat, concat3, has_prefix, lower, same, starts_with, texts, to_lower};

verus! {

broadcast use vstd::string::group_string_axioms;

/// What the settings that say whether a tool is connected begin with.
pub const SETTING_PREFIX: &'static str = "connected_tool_";

#[derive(Debug, Clone, Copy, PartialEq, Eq, Structural)]
pub enum ToolFormat {
    OpenCode,
    Codex,
    ClaudeCode,
    Pi,
    Crush,
    Goose,
    Zed,
}

/// A tool that can be connected.
#[derive(Debug, PartialEq)]
pub struct ToolProfile {
    pub key: String,
    pub display_name: String,
    pub format: ToolFormat,
    /// The program looked for where there are no settings yet.
    pub binary: String,
    /// What a connect does, in words.
    pub method: String,
    /// The desktop app to open instead of a terminal, where there is one.
    pub app_name: Option<&'static str>,
    /// What macOS knows the app by.
    pub macos_bundle_id: Option<&'static str>,
}

impl ToolFormat {
    /// What a tool goes by. `brand` is the name that `ClaudeCode` carries
    /// before its `Code`.
    pub open spec fn key(self, brand: Seq<char>) -> Seq<char> {
        match self {
            ToolFormat::Codex => "codex"@,
            ToolFormat::ClaudeCode => lower(brand) + "-code"@,
            ToolFormat::OpenCode => "opencode"@,
            ToolFormat::Pi => "pi"@,
            ToolFormat::Crush => "crush"@,
            ToolFormat::Goose => "goose"@,
            ToolFormat::Zed => "zed"@,
        }
    }
}

/// What a tool is called, what it is started with, what is done to connect
/// it, and under what name and id it is an app of its own.
pub struct Known {
    pub display_name: Seq<char>,
    pub binary: Seq<char>,
    pub method: Seq<char>,
    pub app_name: Option<Seq<char>>,
    pub macos_bundle_id: Option<Seq<char>>,
}

pub open spec fn known_tool(format: ToolFormat, brand: Seq<char>) -> Known {
    match format {
        ToolFormat::Codex => Known {
            display_name: "Codex"@,
            binary: "codex"@,
            method: "Patches ~/.codex/config.toml"@,
            app_name: Some("ChatGPT"@),
            macos_bundle_id: Some("com.openai.codex"@),
        },
        ToolFormat::ClaudeCode => Known {
            display_name: brand + " Code"@,
            binary: lower(brand),
            method: "Patches ~/."@ + lower(brand) + "/settings.json"@,
            app_name: None,
            macos_bundle_id: None,
        },
        ToolFormat::OpenCode => Known {
            display_name: "OpenCode"@,
            binary: "opencode"@,
            method: "Patches ~/.config/opencode/opencode.jsonc"@,
            app_name: Some("OpenCode"@),
            macos_bundle_id: None,
        },
        ToolFormat::Pi => Known {
            display_name: "pi"@,
            binary: "pi"@,
            method: "Patches ~/.pi/agent/models.json"@,
            app_name: None,
            macos_bundle_id: None,
        },
        ToolFormat::Crush => Known {
            display_name: "Crush"@,
            binary: "crush"@,
            method: "Patches crush.json"@,
            app_name: None,
            macos_bundle_id: None,
        },
        ToolFormat::Goose => Known {
            display_name: "Goose"@,
            binary: "goose"@,
            method: "Patches goose's config.yaml"@,
            app_name: Some("Goose"@),
            macos_bundle_id: None,
        },
        ToolFormat::Zed => Known {
            display_name: "Zed"@,
            binary: "zed"@,
            method: "Patches Zed's settings.json (paste the key when asked)"@,
            app_name: Some("Zed"@),
            macos_bundle_id: None,
        },
    }
}

/// The text in an option.
pub open spec fn named_text(o: Option<&'static str>) -> Option<Seq<char>> {
    match o {
        Some(s) => Some(s@),
        None => None,
    }
}

/// A profile says what is known of its tool.
pub open spec fn fits_profile(t: ToolProfile, brand: Seq<char>) -> bool {
    let k = known_tool(t.format, brand);
    &&& t.key@ == t.format.key(brand)
    &&& t.display_name@ == k.display_name && t.binary@ == k.binary
    &&& t.method@ == k.method
    &&& named_text(t.app_name) == k.app_name
    &&& named_text(t.macos_bundle_id) == k.macos_bundle_id
}

/// What is known of a tool.
pub fn profile(format: ToolFormat, brand: &str) -> (r: ToolProfile)
    ensures
        r.format == format,
        r.key@ == format.key(brand@),
        fits_profile(r, brand@),
{
    match format {
        ToolFormat::Codex => ToolProfile {
            key: "codex".to_string(),
            display_name: "Codex".to_string(),
            format,
            binary: "codex".to_string(),
            method: "Patches ~/.codex/config.toml".to_string(),
            app_name: Some("ChatGPT"),
            macos_bundle_id: Some("com.openai.codex"),
        },
        ToolFormat::ClaudeCode => ToolProfile {
            key: concat(to_lower(brand).as_str(), "-code"),
            display_name: concat(brand, " Code"),
            format,
            binary: to_lower(brand),
            method: concat3("Patches ~/.", to_lower(brand).as_str(), "/settings.json"),
            app_name: None,
            macos_bundle_id: None,
        },
        ToolFormat::OpenCode => ToolProfile {
            key: "opencode".to_string(),
            display_name: "OpenCode".to_string(),
            format,
            binary: "opencode".to_string(),
            method: "Patches ~/.config/opencode/opencode.jsonc".to_string(),
            app_name: Some("OpenCode"),
            macos_bundle_id: None,
        },
        ToolFormat::Pi => ToolProfile {
            key: "pi".to_string(),
            display_name: "pi".to_string(),
            format,
            binary: "pi".to_string(),
            method: "Patches ~/.pi/agent/models.json".to_string(),
            app_name: None,
            macos_bundle_id: None,
        },
        ToolFormat::Crush => ToolProfile {
            key: "crush".to_string(),
            display_name: "Crush".to_string(),
            format,
            binary: "crush".to_string(),
            method: "Patches crush.json".to_string(),
            app_name: None,
            macos_bundle_id: None,
        },
        ToolFormat::Goose => ToolProfile {
            key: "goose".to_string(),
            display_name: "Goose".to_string(),
            format,
            binary: "goose".to_string(),
            method: "Patches goose's config.yaml".to_string(),
            app_name: Some("Goose"),
            macos_bundle_id: None,
        },
        ToolFormat::Zed => ToolProfile {
            key: "zed".to_string(),
            display_name: "Zed".to_string(),
            format,
            binary: "zed".to_string(),
            method: "Patches Zed's settings.json (paste the key when asked)".to_string(),
            app_name: Some("Zed"),
            macos_bundle_id: None,
        },
    }
}

/// The tools in the order they are listed in.
pub open spec fn listed_formats() -> Seq<ToolFormat> {
    seq![
        ToolFormat::Codex,
        ToolFormat::ClaudeCode,
        ToolFormat::OpenCode,
        ToolFormat::Pi,
        ToolFormat::Crush,
        ToolFormat::Goose,
        ToolFormat::Zed,
    ]
}

pub fn formats() -> (r: Vec<ToolFormat>)
    ensures
        r@ == listed_formats(),
{
    let mut v: Vec<ToolFormat> = Vec::new();
    v.push(ToolFormat::Codex);
    v.push(ToolFormat::ClaudeCode);
    v.push(ToolFormat::OpenCode);
    v.push(ToolFormat::Pi);
    v.push(ToolFormat::Crush);
    v.push(ToolFormat::Goose);
    v.push(ToolFormat::Zed);
    assert(v@ =~= listed_formats());
    v
}

/// The tool a key names.
pub fn tool(key: &str, brand: &str) -> (r: Result<ToolProfile, AppError>)
    ensures
        match r {
            Ok(t) => t.key@ == key@ && t.format.key(brand@) == key@ && fits_profile(t, brand@),
            Err(e) => {
                &&& forall|i: int|
                    0 <= i < listed_formats().len() ==> (#[trigger] listed_formats()[i]).key(
                        brand@,
                    ) != key@
                &&& e@ == Trouble::NotFound("unknown tool '"@ + key@ + "'"@)
            },
        },
{
    let all = formats();
    let mut i: usize = 0;
    while i < all.len()
        invariant
            i <= all@.len(),
            all@ == listed_formats(),
            forall|k: int| 0 <= k < i ==> (#[trigger] listed_formats()[k]).key(brand@) != key@,
        decreases all@.len() - i,
    {
        let t = profile(all[i], brand);
        if same(t.key.as_str(), key) {
            return Ok(t);
        }
        i = i + 1;
    }
    Err(AppError::NotFound(concat3("unknown tool '", key, "'")))
}

/// Where a path starts.
#[derive(Debug, Clone, Copy, PartialEq, Eq, Structural)]
pub enum Root {
    Home,
    /// The roaming application data of Windows, or home where there is none.
    AppData,
    /// The local application data of Windows, or home where there is none.
    LocalAppData,
}

/// Where a tool keeps its settings: the start of the path, and its parts.
pub open spec fn settings_place(format: ToolFormat, brand: Seq<char>, windows: bool) -> (
    Root,
    Seq<Seq<char>>,
) {
    match format {
        ToolFormat::Codex => (Root::Home, seq![".codex"@, "config.toml"@]),
        ToolFormat::ClaudeCode => (Root::Home, seq!["."@ + lower(brand), "settings.json"@]),
        ToolFormat::OpenCode => (Root::Home, seq![".config"@, "opencode"@, "opencode.jsonc"@]),
        ToolFormat::Pi => (Root::Home, seq![".pi"@, "agent"@, "models.json"@]),
        ToolFormat::Crush => if windows {
            (Root::LocalAppData, seq!["crush"@, "crush.json"@])
        } else {
            (Root::Home, seq![".config"@, "crush"@, "crush.json"@])
        },
        ToolFormat::Goose => if windows {
            (Root::AppData, seq!["Block"@, "goose"@, "config"@, "config.yaml"@])
        } else {
            (Root::Home, seq![".config"@, "goose"@, "config.yaml"@])
        },
        ToolFormat::Zed => if windows {
            (Root::AppData, seq!["Zed"@, "settings.json"@])
        } else {
            (Root::Home, seq![".config"@, "zed"@, "settings.json"@])
        },
    }
}

fn two(a: &str, b: &str) -> (r: Vec<String>)
    ensures
        texts(r@) == seq![a@, b@],
{
    let mut v: Vec<String> = Vec::new();
    v.push(a.to_string());
    v.push(b.to_string());
    assert(texts(v@) =~= seq![a@, b@]);
    v
}

fn three(a: &str, b: &str, c: &str) -> (r: Vec<String>)
    ensures
        texts(r@) == seq![a@, b@, c@],
{
    let mut v: Vec<String> = Vec::new();
    v.push(a.to_string());
    v.push(b.to_string());
    v.push(c.to_string());
    assert(texts(v@) =~= seq![a@, b@, c@]);
    v
}

/// Where a tool keeps its settings.
pub fn config_path(format: ToolFormat, brand: &str, windows: bool) -> (r: (Root, Vec<String>))
    ensures
        (r.0, texts(r.1@)) == settings_place(format, brand@, windows),
{
    match format {
        ToolFormat::Codex => (Root::Home, two(".codex", "config.toml")),
        ToolFormat::ClaudeCode => {
            (Root::Home, two(concat(".", to_lower(brand).as_str()).as_str(), "settings.json"))
        },
        ToolFormat::OpenCode => (Root::Home, three(".config", "opencode", "opencode.jsonc")),
        ToolFormat::Pi => (Root::Home, three(".pi", "agent", "models.json")),
        ToolFormat::Crush => if windows {
            (Root::LocalAppData, two("crush", "crush.json"))
        } else {
            (Root::Home, three(".config", "crush", "crush.json"))
        },
        ToolFormat::Goose => if windows {
            let mut v = three("Block", "goose", "config");
            let ghost before = v@;
            v.push("config.yaml".to_string());
            assert(texts(v@) =~= texts(before).push("config.yaml"@));
            assert(texts(v@) =~= seq!["Block"@, "goose"@, "config"@, "config.yaml"@]);
            (Root::AppData, v)
        } else {
            (Root::Home, three(".config", "goose", "config.yaml"))
        },
        ToolFormat::Zed => if windows {
            (Root::AppData, two("Zed", "settings.json"))
        } else {
            (Root::Home, three(".config", "zed", "settings.json"))
        },
    }
}

/// Where pi keeps the provider it uses, in the home directory.
pub fn pi_settings_path() -> (r: Vec<String>)
    ensures
        texts(r@) == seq![".pi"@, "agent"@, "settings.json"@],
{
    three(".pi", "agent", "settings.json")
}

/// Where the first copy of a file is kept.
pub fn backup_path(path: &str) -> (r: String)
    ensures
        r@ == path@ + ".rootmode-bak"@,
{
    concat(path, ".rootmode-bak")
}

/// Whether a tool is there: any one sign will do.
pub fn installed(bundle_found: bool, app_found: bool, settings_dir: bool, on_path: bool) -> (r: bool)
    ensures
        r == (bundle_found || app_found || settings_dir || on_path),
{
    bundle_found || app_found || settings_dir || on_path
}

/// The setting that says whether a tool is connected.
pub fn connected_setting(key: &str) -> (r: String)
    ensures
        r@ == SETTING_PREFIX@ + key@,
{
    concat(SETTING_PREFIX, key)
}

/// A tool as the connect screen shows it.
#[derive(Debug, PartialEq)]
pub struct ToolStatus {
    pub key: String,
    pub display_name: String,
    pub method: String,
    pub installed: bool,
    pub connected: bool,
    pub config_path: String,
}

/// A tool as the connect screen shows it. `setting` is what is kept of its
/// being connected.
pub fn status_of(
    t: &ToolProfile,
    installed: bool,
    setting: &Option<String>,
    config_path: &str,
) -> (r: ToolStatus)
    ensures
        r.key@ == t.key@,
        r.display_name@ == t.display_name@,
        r.method@ == t.method@,
        r.installed == installed,
        r.connected == (opt(*setting) == Some("true"@)),
        r.config_path@ == config_path@,
{
    let connected = match setting {
        Some(v) => same(v.as_str(), "true"),
        None => false,
    };
    ToolStatus {
        key: t.key.clone(),
        display_name: t.display_name.clone(),
        method: t.method.clone(),
        installed,
        connected,
        config_path: config_path.to_string(),
    }
}

/// Refuses to connect a tool that is not there.
pub fn check_installed(t: &ToolProfile, installed: bool) -> (r: Result<(), AppError>)
    ensures
        match r {
            Ok(_) => installed,
            Err(e) => !installed && e@ == Trouble::Invalid(
                t.display_name@
                    + " was not found on this machine — install it (or run it once), then connect."@,
            ),
        },
{
    if installed {
        Ok(())
    } else {
        Err(
            AppError::Invalid(
                concat(
                    t.display_name.as_str(),
                    " was not found on this machine — install it (or run it once), then connect.",
                ),
            ),
        )
    }
}

/// What a tool needs to know: where to go, with what key, for what model.
#[derive(Debug, PartialEq)]
pub struct Endpoint {
    pub base_url: String,
    pub token: String,
    pub model: String,
}

/// What a tool is told of the endpoint. The model is the chosen one, or the
/// fallback, or `auto`.
pub fn endpoint_from_status(status: &GatewayStatus, fallback_model: &Option<String>) -> (r: Endpoint)
    ensures
        r.base_url@ == status.base_url@,
        r.token@ == status.token@,
        r.model@ == (match (opt(status.model), opt(*fallback_model)) {
            (Some(m), _) => m,
            (None, Some(m)) => m,
            (None, None) => "auto"@,
        }),
{
    let model = match &status.model {
        Some(m) => m.clone(),
        None => match fallback_model {
            Some(m) => m.clone(),
            None => "auto".to_string(),
        },
    };
    Endpoint { base_url: status.base_url.clone(), token: status.token.clone(), model }
}

impl Endpoint {
    /// The address with the version that OpenAI-shaped clients expect.
    pub open spec fn v1(self) -> Seq<char> {
        self.base_url@ + "/v1"@
    }

    fn v1_url(&self) -> (r: String)
        ensures
            r@ == self.v1(),
    {
        concat(self.base_url.as_str(), "/v1")
    }
}

// ------------------------------------------------------------ JSON settings

/// A file's settings: what it holds, comments aside; an empty record where
/// there is no file or it cannot be read.
pub open spec fn settings_in(existing: Option<Seq<char>>) -> Tree {
    match existing {
        Some(s) => match json_read(plain_json(s)) {
            Some(t) => t,
            None => Tree::record(),
        },
        None => Tree::record(),
    }
}

pub fn read_json_lenient(existing: &Option<String>) -> (r: Json)
    ensures
        r@ == settings_in(opt(*existing)),
{
    match existing {
        Some(s) => match parse(strip_jsonc(s.as_str()).as_str()) {
            Some(j) => j,
            None => Json::record(),
        },
        None => Json::record(),
    }
}

/// Settings as a file.
pub open spec fn settings_text(t: Tree) -> Seq<char> {
    json_written_pretty(t) + "\n"@
}

pub fn settings_file(j: &Json) -> (r: String)
    ensures
        r@ == settings_text(j@),
{
    concat(print_pretty(j).as_str(), "\n")
}

/// The record under a key; an empty one where there is none.
pub open spec fn inner_record(root: Tree, key: Seq<char>) -> Tree {
    match root.get(key) {
        Some(t) if t is Record => t,
        _ => Tree::record(),
    }
}

fn inner_record_of(root: &Json, key: &str) -> (r: Json)
    ensures
        r@ == inner_record(root@, key@),
{
    match root.get(key) {
        Some(j) => if j.is_record() {
            j.copy()
        } else {
            Json::record()
        },
        None => Json::record(),
    }
}

/// A record with a field of an inner record set.
pub open spec fn put_in(root: Tree, outer: Seq<char>, key: Seq<char>, value: Tree) -> Tree {
    root.put(outer, inner_record(root, outer).put(key, value))
}

fn put_into(root: Json, outer: &str, key: &str, value: Json) -> (r: Json)
    ensures
        r@ == put_in(root@, outer@, key@, value@),
{
    let inner = inner_record_of(&root, outer).put(key, value);
    root.put(outer, inner)
}

/// A record with a field of an inner record taken out, where there is such a
/// record.
pub open spec fn take_out(root: Tree, outer: Seq<char>, key: Seq<char>) -> Tree {
    match root.get(outer) {
        Some(t) if t is Record => root.put(outer, t.without(key)),
        _ => Tree::Record(root.fields()),
    }
}

fn as_record(root: Json) -> (r: Json)
    ensures
        r@ == Tree::Record(root@.fields()),
{
    if root.is_record() {
        root
    } else {
        Json::record()
    }
}

fn take_from(root: Json, outer: &str, key: &str) -> (r: Json)
    ensures
        r@ == take_out(root@, outer@, key@),
{
    let inner = match root.get(outer) {
        Some(j) => if j.is_record() {
            Some(j.copy())
        } else {
            None
        },
        None => None,
    };
    match inner {
        Some(j) => root.put(outer, j.without(key)),
        None => as_record(root),
    }
}

/// A provider put into an inner record is there, and nothing else in the file
/// is touched.
pub proof fn law_connecting_touches_only_ours(
    root: Tree,
    outer: Seq<char>,
    key: Seq<char>,
    value: Tree,
)
    ensures
        inner_record(put_in(root, outer, key, value), outer).get(key) == Some(value),
        forall|k: Seq<char>|
            k != key ==> #[trigger] inner_record(put_in(root, outer, key, value), outer).get(k) == inner_record(
                root,
                outer,
            ).get(k),
        forall|k: Seq<char>|
            k != outer ==> #[trigger] put_in(root, outer, key, value).get(k) == root.get(k),
{
    let inner = inner_record(root, outer).put(key, value);
    law_put_then_get(root.fields(), outer, inner);
    law_put_then_get(inner_record(root, outer).fields(), key, value);
    let after = put_in(root, outer, key, value);
    assert(after.get(outer) == Some(inner));
    assert forall|k: Seq<char>| k != key implies #[trigger] inner_record(after, outer).get(k) == inner_record(
        root,
        outer,
    ).get(k) by {
        assert(lookup(inner_record(root, outer).fields(), k) == inner_record(root, outer).get(k));
    }
    assert forall|k: Seq<char>| k != outer implies #[trigger] after.get(k) == root.get(k) by {
        assert(lookup(root.fields(), k) == root.get(k));
    }
}

/// A provider taken out of an inner record is gone, and nothing else in the
/// file is touched.
pub proof fn law_disconnecting_touches_only_ours(root: Tree, outer: Seq<char>, key: Seq<char>)
    ensures
        inner_record(take_out(root, outer, key), outer).get(key) is None,
        forall|k: Seq<char>|
            k != key ==> #[trigger] inner_record(take_out(root, outer, key), outer).get(k) == inner_record(
                root,
                outer,
            ).get(k),
        forall|k: Seq<char>|
            k != outer ==> #[trigger] take_out(root, outer, key).get(k) == root.get(k),
{
    let after = take_out(root, outer, key);
    match root.get(outer) {
        Some(t) if t is Record => {
            let inner = t.without(key);
            law_put_then_get(root.fields(), outer, inner);
            law_remove_then_get(t.fields(), key);
            assert(after.get(outer) == Some(inner));
            assert forall|k: Seq<char>| k != key implies #[trigger] inner_record(after, outer).get(k) == inner_record(
                root,
                outer,
            ).get(k) by {
                assert(lookup(t.fields(), k) == t.get(k));
            }
            assert forall|k: Seq<char>| k != outer implies #[trigger] after.get(k) == root.get(
                k,
            ) by {
                assert(lookup(root.fields(), k) == root.get(k));
            }
        },
        _ => {},
    }
}

/// A provider that was put into an inner record and taken out again: the inner
/// record has the fields it had, and so has the file.
pub proof fn law_a_provider_comes_out(root: Tree, outer: Seq<char>, key: Seq<char>, value: Tree)
    requires
        inner_record(root, outer).get(key) is None,
    ensures
        ({
            let back = take_out(put_in(root, outer, key, value), outer, key);
            &&& forall|k: Seq<char>|
                #[trigger] inner_record(back, outer).get(k) == inner_record(root, outer).get(k)
            &&& forall|k: Seq<char>| k != outer ==> #[trigger] back.get(k) == root.get(k)
        }),
{
    let there = put_in(root, outer, key, value);
    let back = take_out(there, outer, key);
    law_connecting_touches_only_ours(root, outer, key, value);
    law_disconnecting_touches_only_ours(there, outer, key);
    assert forall|k: Seq<char>| #[trigger] inner_record(back, outer).get(k) == inner_record(
        root,
        outer,
    ).get(k) by {
        if k != key {
            assert(inner_record(there, outer).get(k) == inner_record(root, outer).get(k));
        }
    }
    assert forall|k: Seq<char>| k != outer implies #[trigger] back.get(k) == root.get(k) by {
        assert(there.get(k) == root.get(k));
    }
}

// ----------------------------------------------------------------- opencode

/// The model as OpenCode names it: the provider, then the model.
pub open spec fn opencode_model(model: Seq<char>) -> Seq<char> {
    PROVIDER_KEY@ + "/"@ + model
}

pub open spec fn opencode_provider(ep: Endpoint) -> Tree {
    Tree::record().with("name"@, Tree::Text("rootmode"@)).with(
        "npm"@,
        Tree::Text("@ai-sdk/openai-compatible"@),
    ).with(
        "options"@,
        Tree::record().with("baseURL"@, Tree::Text(ep.v1())).with(
            "apiKey"@,
            Tree::Text(ep.token@),
        ),
    ).with(
        "models"@,
        Tree::record().with(
            ep.model@,
            Tree::record().with("name"@, Tree::Text(ep.model@)),
        ),
    )
}

pub open spec fn opencode_connected(root: Tree, ep: Endpoint) -> Tree {
    put_in(root, "provider"@, PROVIDER_KEY@, opencode_provider(ep)).put(
        "model"@,
        Tree::Text(opencode_model(ep.model@)),
    )
}

pub fn connect_opencode(config: Json, ep: &Endpoint) -> (r: Json)
    ensures
        r@ == opencode_connected(config@, *ep),
{
    let model = ep.model.as_str();
    let provider = Json::record().with("name", Json::text("rootmode")).with(
        "npm",
        Json::text("@ai-sdk/openai-compatible"),
    ).with(
        "options",
        Json::record().with("baseURL", Json::Text(ep.v1_url())).with(
            "apiKey",
            Json::text(ep.token.as_str()),
        ),
    ).with(
        "models",
        Json::record().with(model, Json::record().with("name", Json::text(model))),
    );
    put_into(config, "provider", PROVIDER_KEY, provider).put(
        "model",
        Json::Text(concat3(PROVIDER_KEY, "/", model)),
    )
}

pub open spec fn opencode_disconnected(root: Tree) -> Tree {
    let out = take_out(root, "provider"@, PROVIDER_KEY@);
    match out.text_at("model"@) {
        Some(m) if starts_with(m, PROVIDER_KEY@ + "/"@) => out.without("model"@),
        _ => out,
    }
}

pub fn disconnect_opencode(config: Json) -> (r: Json)
    ensures
        r@ == opencode_disconnected(config@),
{
    let out = take_from(config, "provider", PROVIDER_KEY);
    let ours = match out.text_at("model") {
        Some(m) => has_prefix(m.as_str(), concat(PROVIDER_KEY, "/").as_str()),
        None => false,
    };
    if ours {
        out.without("model")
    } else {
        out
    }
}

// --------------------------------------------------- a tool that reads `env`

pub open spec fn claude_connected(root: Tree, ep: Endpoint) -> Tree {
    root.put(
        "env"@,
        inner_record(root, "env"@).put("ANTHROPIC_BASE_URL"@, Tree::Text(ep.base_url@)).put(
            "ANTHROPIC_AUTH_TOKEN"@,
            Tree::Text(ep.token@),
        ).put("ANTHROPIC_MODEL"@, Tree::Text(ep.model@)),
    )
}

pub fn connect_claude_code(config: Json, ep: &Endpoint) -> (r: Json)
    ensures
        r@ == claude_connected(config@, *ep),
{
    let env = inner_record_of(&config, "env").put(
        "ANTHROPIC_BASE_URL",
        Json::text(ep.base_url.as_str()),
    ).put("ANTHROPIC_AUTH_TOKEN", Json::text(ep.token.as_str())).put(
        "ANTHROPIC_MODEL",
        Json::text(ep.model.as_str()),
    );
    config.put("env", env)
}

pub open spec fn claude_disconnected(root: Tree) -> Tree {
    match root.get("env"@) {
        Some(env) if env is Record => {
            let left = env.without("ANTHROPIC_BASE_URL"@).without(
                "ANTHROPIC_AUTH_TOKEN"@,
            ).without("ANTHROPIC_MODEL"@);
            if left.fields().len() == 0 {
                root.without("env"@)
            } else {
                root.put("env"@, left)
            }
        },
        _ => Tree::Record(root.fields()),
    }
}

fn is_empty_record(j: &Json) -> (r: bool)
    ensures
        r == (j@.fields().len() == 0),
{
    match j {
        Json::Record(v) => {
            assert(j@.fields().len() == v@.len());
            v.len() == 0
        },
        _ => true,
    }
}

pub fn disconnect_claude_code(config: Json) -> (r: Json)
    ensures
        r@ == claude_disconnected(config@),
{
    let env = match config.get("env") {
        Some(j) => if j.is_record() {
            Some(j.copy())
        } else {
            None
        },
        None => None,
    };
    match env {
        None => as_record(config),
        Some(env) => {
            let left = env.without("ANTHROPIC_BASE_URL").without("ANTHROPIC_AUTH_TOKEN").without(
                "ANTHROPIC_MODEL",
            );
            if is_empty_record(&left) {
                config.without("env")
            } else {
                config.put("env", left)
            }
        },
    }
}

// ----------------------------------------------------------------------- pi

pub open spec fn pi_provider(ep: Endpoint) -> Tree {
    Tree::record().with("baseURL"@, Tree::Text(ep.v1())).with("apiKey"@, Tree::Text(ep.token@)).with(
        "api"@,
        Tree::Text("openai-completions"@),
    ).with("models"@, Tree::just(Tree::Text(ep.model@)))
}

/// pi's models, pointed at the endpoint.
pub fn connect_pi_models(config: Json, ep: &Endpoint) -> (r: Json)
    ensures
        r@ == config@.put(PROVIDER_KEY@, pi_provider(*ep)),
{
    config.put(
        PROVIDER_KEY,
        Json::record().with("baseURL", Json::Text(ep.v1_url())).with(
            "apiKey",
            Json::text(ep.token.as_str()),
        ).with("api", Json::text("openai-completions")).with(
            "models",
            Json::just(Json::text(ep.model.as_str())),
        ),
    )
}

/// pi's choice of provider and model, pointed at the endpoint.
pub fn connect_pi_settings(config: Json, ep: &Endpoint) -> (r: Json)
    ensures
        r@ == config@.put("provider"@, Tree::Text(PROVIDER_KEY@)).put(
            "model"@,
            Tree::Text(ep.model@),
        ),
{
    config.put("provider", Json::text(PROVIDER_KEY)).put("model", Json::text(ep.model.as_str()))
}

pub fn disconnect_pi_models(config: Json) -> (r: Json)
    ensures
        r@ == config@.without(PROVIDER_KEY@),
{
    config.without(PROVIDER_KEY)
}

pub fn disconnect_pi_settings(config: Json) -> (r: Json)
    ensures
        r@ == (if config@.text_at("provider"@) == Some(PROVIDER_KEY@) {
            config@.without("provider"@).without("model"@)
        } else {
            Tree::Record(config@.fields())
        }),
{
    let ours = match config.text_at("provider") {
        Some(p) => same(p.as_str(), PROVIDER_KEY),
        None => false,
    };
    if ours {
        config.without("provider").without("model")
    } else {
        as_record(config)
    }
}

// -------------------------------------------------------------------- crush

pub open spec fn crush_provider(ep: Endpoint) -> Tree {
    Tree::record().with("type"@, Tree::Text("openai"@)).with("base_url"@, Tree::Text(ep.v1())).with(
        "api_key"@,
        Tree::Text(ep.token@),
    ).with(
        "models"@,
        Tree::just(
            Tree::record().with("id"@, Tree::Text(ep.model@)).with("name"@, Tree::Text(ep.model@)),
        ),
    )
}

pub fn connect_crush(config: Json, ep: &Endpoint) -> (r: Json)
    ensures
        r@ == put_in(config@, "providers"@, PROVIDER_KEY@, crush_provider(*ep)),
{
    let model = ep.model.as_str();
    put_into(
        config,
        "providers",
        PROVIDER_KEY,
        Json::record().with("type", Json::text("openai")).with(
            "base_url",
            Json::Text(ep.v1_url()),
        ).with("api_key", Json::text(ep.token.as_str())).with(
            "models",
            Json::just(Json::record().with("id", Json::text(model)).with("name", Json::text(model))),
        ),
    )
}

pub fn disconnect_crush(config: Json) -> (r: Json)
    ensures
        r@ == take_out(config@, "providers"@, PROVIDER_KEY@),
{
    take_from(config, "providers", PROVIDER_KEY)
}

// ---------------------------------------------------------------------- zed

pub open spec fn zed_provider(ep: Endpoint) -> Tree {
    Tree::record().with("api_url"@, Tree::Text(ep.v1())).with(
        "available_models"@,
        Tree::just(
            Tree::record().with("name"@, Tree::Text(ep.model@)).with(
                "max_tokens"@,
                Tree::Number(32000),
            ),
        ),
    )
}

/// Zed keeps keys in its own keychain: a connect only says where to go.
pub fn connect_zed(config: Json, ep: &Endpoint) -> (r: Json)
    ensures
        r@ == config@.put(
            "language_models"@,
            put_in(
                inner_record(config@, "language_models"@),
                "openai_compatible"@,
                PROVIDER_KEY@,
                zed_provider(*ep),
            ),
        ),
{
    let models = put_into(
        inner_record_of(&config, "language_models"),
        "openai_compatible",
        PROVIDER_KEY,
        Json::record().with("api_url", Json::Text(ep.v1_url())).with(
            "available_models",
            Json::just(
                Json::record().with("name", Json::text(ep.model.as_str())).with(
                    "max_tokens",
                    Json::Number(32000),
                ),
            ),
        ),
    );
    config.put("language_models", models)
}

pub fn disconnect_zed(config: Json) -> (r: Json)
    ensures
        r@ == (match config@.get("language_models"@) {
            Some(lm) if lm is Record => config@.put(
                "language_models"@,
                take_out(lm, "openai_compatible"@, PROVIDER_KEY@),
            ),
            _ => Tree::Record(config@.fields()),
        }),
{
    let models = match config.get("language_models") {
        Some(j) => if j.is_record() {
            Some(j.copy())
        } else {
            None
        },
        None => None,
    };
    match models {
        Some(lm) => config.put(
            "language_models",
            take_from(lm, "openai_compatible", PROVIDER_KEY),
        ),
        None => as_record(config),
    }
}

// -------------------------------------------------------------------- files

/// The settings a connect leaves, for the tools that keep one JSON file.
pub open spec fn json_connected(format: ToolFormat, root: Tree, ep: Endpoint) -> Tree {
    match format {
        ToolFormat::OpenCode => opencode_connected(root, ep),
        ToolFormat::ClaudeCode => claude_connected(root, ep),
        ToolFormat::Pi => root.put(PROVIDER_KEY@, pi_provider(ep)),
        ToolFormat::Crush => put_in(root, "providers"@, PROVIDER_KEY@, crush_provider(ep)),
        ToolFormat::Zed => root.put(
            "language_models"@,
            put_in(
                inner_record(root, "language_models"@),
                "openai_compatible"@,
                PROVIDER_KEY@,
                zed_provider(ep),
            ),
        ),
        _ => root,
    }
}

/// The file a connect writes for a tool that keeps JSON settings.
pub fn connect_json(format: ToolFormat, existing: &Option<String>, ep: &Endpoint) -> (r: String)
    ensures
        r@ == settings_text(json_connected(format, settings_in(opt(*existing)), *ep)),
{
    let config = read_json_lenient(existing);
    let next = match format {
        ToolFormat::OpenCode => connect_opencode(config, ep),
        ToolFormat::ClaudeCode => connect_claude_code(config, ep),
        ToolFormat::Pi => connect_pi_models(config, ep),
        ToolFormat::Crush => connect_crush(config, ep),
        ToolFormat::Zed => connect_zed(config, ep),
        _ => config,
    };
    settings_file(&next)
}

/// The settings a disconnect leaves.
pub open spec fn json_disconnected(format: ToolFormat, root: Tree) -> Tree {
    match format {
        ToolFormat::OpenCode => opencode_disconnected(root),
        ToolFormat::ClaudeCode => claude_disconnected(root),
        ToolFormat::Pi => root.without(PROVIDER_KEY@),
        ToolFormat::Crush => take_out(root, "providers"@, PROVIDER_KEY@),
        ToolFormat::Zed => match root.get("language_models"@) {
            Some(lm) if lm is Record => root.put(
                "language_models"@,
                take_out(lm, "openai_compatible"@, PROVIDER_KEY@),
            ),
            _ => Tree::Record(root.fields()),
        },
        _ => root,
    }
}

/// The file a disconnect writes for a tool that keeps JSON settings.
pub fn disconnect_json(format: ToolFormat, existing: &Option<String>) -> (r: String)
    ensures
        r@ == settings_text(json_disconnected(format, settings_in(opt(*existing)))),
{
    let config = read_json_lenient(existing);
    let next = match format {
        ToolFormat::OpenCode => disconnect_opencode(config),
        ToolFormat::ClaudeCode => disconnect_claude_code(config),
        ToolFormat::Pi => disconnect_pi_models(config),
        ToolFormat::Crush => disconnect_crush(config),
        ToolFormat::Zed => disconnect_zed(config),
        _ => config,
    };
    settings_file(&next)
}

// ------------------------------------------------------- there and back

proof fn lemma_put(t: Tree, key: Seq<char>, value: Tree)
    ensures
        t.put(key, value).get(key) == Some(value),
        forall|k: Seq<char>| k != key ==> #[trigger] t.put(key, value).get(k) == t.get(k),
{
    law_put_then_get(t.fields(), key, value);
    assert forall|k: Seq<char>| k != key implies #[trigger] t.put(key, value).get(k) == t.get(k) by {
        assert(lookup(t.fields(), k) == t.get(k));
    }
}

proof fn lemma_without(t: Tree, key: Seq<char>)
    ensures
        t.without(key).get(key) is None,
        forall|k: Seq<char>| k != key ==> #[trigger] t.without(key).get(k) == t.get(k),
{
    law_remove_then_get(t.fields(), key);
    assert forall|k: Seq<char>| k != key implies #[trigger] t.without(key).get(k) == t.get(k) by {
        assert(lookup(t.fields(), k) == t.get(k));
    }
}

/// OpenCode's settings that named no model, and this app's provider nowhere,
/// hold after a disconnect what they held before the connect.
pub proof fn law_opencode_disconnect_undoes_connect(root: Tree, ep: Endpoint)
    requires
        root.get("model"@) is None,
        inner_record(root, "provider"@).get(PROVIDER_KEY@) is None,
    ensures
        ({
            let back = opencode_disconnected(opencode_connected(root, ep));
            &&& forall|k: Seq<char>|
                #[trigger] inner_record(back, "provider"@).get(k) == inner_record(
                    root,
                    "provider"@,
                ).get(k)
            &&& forall|k: Seq<char>| k != "provider"@ ==> #[trigger] back.get(k) == root.get(k)
        }),
{
    reveal_strlit("model");
    reveal_strlit("provider");
    assert("model"@.len() != "provider"@.len());
    let put = put_in(root, "provider"@, PROVIDER_KEY@, opencode_provider(ep));
    let name = opencode_model(ep.model@);
    let there = opencode_connected(root, ep);
    law_connecting_touches_only_ours(root, "provider"@, PROVIDER_KEY@, opencode_provider(ep));
    lemma_put(put, "model"@, Tree::Text(name));
    let out = take_out(there, "provider"@, PROVIDER_KEY@);
    law_disconnecting_touches_only_ours(there, "provider"@, PROVIDER_KEY@);
    assert(out.get("model"@) == there.get("model"@));
    assert(out.text_at("model"@) == Some(name));
    assert(name.take((PROVIDER_KEY@ + "/"@).len() as int) =~= PROVIDER_KEY@ + "/"@);
    lemma_without(out, "model"@);
    let back = opencode_disconnected(there);
    assert(back == out.without("model"@));
    assert(back.get("provider"@) == out.get("provider"@));
    assert(there.get("provider"@) == put.get("provider"@));
    assert forall|k: Seq<char>| #[trigger] inner_record(back, "provider"@).get(k) == inner_record(
        root,
        "provider"@,
    ).get(k) by {
        assert(inner_record(back, "provider"@) == inner_record(out, "provider"@));
        assert(inner_record(there, "provider"@) == inner_record(put, "provider"@));
        if k != PROVIDER_KEY@ {
            assert(inner_record(out, "provider"@).get(k) == inner_record(there, "provider"@).get(k));
            assert(inner_record(put, "provider"@).get(k) == inner_record(root, "provider"@).get(k));
        } else {
            assert(inner_record(out, "provider"@).get(PROVIDER_KEY@) is None);
        }
    }
    assert forall|k: Seq<char>| k != "provider"@ implies #[trigger] back.get(k) == root.get(k) by {
        if k != "model"@ {
            assert(back.get(k) == out.get(k));
            assert(out.get(k) == there.get(k));
            assert(there.get(k) == put.get(k));
            assert(put.get(k) == root.get(k));
        }
    }
}

/// pi's choice, where it had made none, is none again after a disconnect, and
/// nothing else has changed.
pub proof fn law_pi_disconnect_undoes_connect(root: Tree, model: Seq<char>)
    requires
        root.get("provider"@) is None,
        root.get("model"@) is None,
    ensures
        ({
            let there = root.put("provider"@, Tree::Text(PROVIDER_KEY@)).put(
                "model"@,
                Tree::Text(model),
            );
            let back = there.without("provider"@).without("model"@);
            &&& there.text_at("provider"@) == Some(PROVIDER_KEY@)
            &&& forall|k: Seq<char>| #[trigger] back.get(k) == root.get(k)
        }),
{
    reveal_strlit("model");
    reveal_strlit("provider");
    assert("model"@.len() != "provider"@.len());
    let first = root.put("provider"@, Tree::Text(PROVIDER_KEY@));
    let there = first.put("model"@, Tree::Text(model));
    lemma_put(root, "provider"@, Tree::Text(PROVIDER_KEY@));
    lemma_put(first, "model"@, Tree::Text(model));
    let out = there.without("provider"@);
    lemma_without(there, "provider"@);
    lemma_without(out, "model"@);
    let back = out.without("model"@);
    assert forall|k: Seq<char>| #[trigger] back.get(k) == root.get(k) by {
        if k == "provider"@ {
            assert(back.get(k) == out.get(k));
        } else if k != "model"@ {
            assert(back.get(k) == out.get(k));
            assert(out.get(k) == there.get(k));
            assert(there.get(k) == first.get(k));
            assert(first.get(k) == root.get(k));
        }
    }
}

/// The settings of a tool that reads `env`, where they set none of the three
/// variables, hold after a disconnect what they held before the connect.
pub proof fn law_env_disconnect_undoes_connect(root: Tree, ep: Endpoint)
    requires
        inner_record(root, "env"@).get("ANTHROPIC_BASE_URL"@) is None,
        inner_record(root, "env"@).get("ANTHROPIC_AUTH_TOKEN"@) is None,
        inner_record(root, "env"@).get("ANTHROPIC_MODEL"@) is None,
    ensures
        ({
            let back = claude_disconnected(claude_connected(root, ep));
            &&& forall|k: Seq<char>|
                #[trigger] inner_record(back, "env"@).get(k) == inner_record(root, "env"@).get(k)
            &&& forall|k: Seq<char>| k != "env"@ ==> #[trigger] back.get(k) == root.get(k)
        }),
{
    let (a, b, c) = ("ANTHROPIC_BASE_URL"@, "ANTHROPIC_AUTH_TOKEN"@, "ANTHROPIC_MODEL"@);
    reveal_strlit("ANTHROPIC_BASE_URL");
    reveal_strlit("ANTHROPIC_AUTH_TOKEN");
    reveal_strlit("ANTHROPIC_MODEL");
    assert(a.len() == 18 && b.len() == 20 && c.len() == 15);
    let e = inner_record(root, "env"@);
    let e1 = e.put(a, Tree::Text(ep.base_url@));
    let e2 = e1.put(b, Tree::Text(ep.token@));
    let e3 = e2.put(c, Tree::Text(ep.model@));
    lemma_put(e, a, Tree::Text(ep.base_url@));
    lemma_put(e1, b, Tree::Text(ep.token@));
    lemma_put(e2, c, Tree::Text(ep.model@));
    let there = claude_connected(root, ep);
    lemma_put(root, "env"@, e3);
    assert(there.get("env"@) == Some(e3));
    let f1 = e3.without(a);
    let f2 = f1.without(b);
    let left = f2.without(c);
    lemma_without(e3, a);
    lemma_without(f1, b);
    lemma_without(f2, c);
    assert forall|k: Seq<char>| #[trigger] left.get(k) == e.get(k) by {
        if k == a {
            assert(left.get(k) == f2.get(k));
            assert(f2.get(k) == f1.get(k));
        } else if k == b {
            assert(left.get(k) == f2.get(k));
        } else if k != c {
            assert(left.get(k) == f2.get(k));
            assert(f2.get(k) == f1.get(k));
            assert(f1.get(k) == e3.get(k));
            assert(e3.get(k) == e2.get(k));
            assert(e2.get(k) == e1.get(k));
            assert(e1.get(k) == e.get(k));
        }
    }
    let back = claude_disconnected(there);
    lemma_put(there, "env"@, left);
    lemma_without(there, "env"@);
    assert forall|k: Seq<char>| #[trigger] inner_record(back, "env"@).get(k) == inner_record(
        root,
        "env"@,
    ).get(k) by {
        assert(left.get(k) == e.get(k));
        if left.fields().len() == 0 {
            assert(back.get("env"@) is None);
            assert(lookup(left.fields(), k) is None);
            assert(lookup(Tree::record().fields(), k) is None);
        } else {
            assert(back.get("env"@) == Some(left));
        }
    }
    assert forall|k: Seq<char>| k != "env"@ implies #[trigger] back.get(k) == root.get(k) by {
        assert(back.get(k) == there.get(k));
        assert(there.get(k) == root.get(k));
    }
}

} // verus!
