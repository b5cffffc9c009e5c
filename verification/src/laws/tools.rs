//! Connected apps: what stands in their settings once they are pointed at the
//! endpoint, and what of their own settings stays.
use vstd::prelude::*;

use crate::connected_tools::jsonc::{
    closes, comment_end, plain_json, string_end, uncommented, without_last_commas,
};
use crate::connected_tools::lines::{
    codex_connected, codex_disconnected, first_starting, first_table, goose_connected,
    provider_line, provider_table, toml_quoted, top_removed, top_set, uses_provider,
    without_blank_end, without_provider, yaml_set, PROVIDER_KEY,
};
use crate::connected_tools::shell::{export_block, rc_file, shell_quoted, shell_read};
use crate::connected_tools::tools::{
    crush_provider, inner_record, json_connected, json_disconnected,
    law_connecting_touches_only_ours, opencode_provider, settings_in, settings_place, zed_provider,
    Endpoint, Root, ToolFormat,
};
use crate::json::{json_read, law_put_then_get, law_remove_then_get, Tree};
use crate::laws::replies::lemma_one_more_field;
use crate::text::{blank, contains, ends_with, index_of, is_white, lower, starts_with, trim_start};

verus! {

broadcast use vstd::string::group_string_axioms;

// ---------------------------------------------------------------- JSON files

/// Setting a field gives that field its value and leaves all others.
pub broadcast proof fn lemma_field_set(t: Tree, key: Seq<char>, value: Tree, asked: Seq<char>)
    ensures
        #[trigger] t.put(key, value).get(asked) == (if asked == key {
            Some(value)
        } else {
            t.get(asked)
        }),
{
    law_put_then_get(t.fields(), key, value);
}

/// OpenCode finds the endpoint's address, the token and the model with this
/// app's provider, and uses that model.
pub proof fn law_opencode_finds_the_endpoint(root: Tree, ep: Endpoint)
    ensures
        ({
            let t = json_connected(ToolFormat::OpenCode, root, ep);
            let p = inner_record(t, "provider"@).get("rootmode"@);
            &&& t.get("model"@) == Some(Tree::Text("rootmode"@ + "/"@ + ep.model@))
            &&& p matches Some(q) && {
                &&& q.get("options"@) matches Some(o) && o.get("baseURL"@) == Some(
                    Tree::Text(ep.base_url@ + "/v1"@),
                ) && o.get("apiKey"@) == Some(Tree::Text(ep.token@))
                &&& q.get("models"@) matches Some(m) && m.get(ep.model@) is Some
            }
            &&& forall|k: Seq<char>|
                k != "provider"@ && k != "model"@ ==> #[trigger] t.get(k) == root.get(k)
        }),
{
    broadcast use {lemma_one_more_field, lemma_field_set};

    reveal_strlit("provider");
    reveal_strlit("model");
    reveal_strlit("rootmode");
    reveal_strlit("options");
    reveal_strlit("baseURL");
    reveal_strlit("apiKey");
    reveal_strlit("models");
    reveal_strlit("name");
    reveal_strlit("npm");
    assert("provider"@.len() == 8);
    assert("model"@.len() == 5);
    assert("rootmode"@.len() == 8);
    assert("options"@.len() == 7);
    assert("baseURL"@.len() == 7);
    assert("apiKey"@.len() == 6);
    assert("models"@.len() == 6);
    assert("name"@.len() == 4);
    assert("npm"@.len() == 3);
    assert("provider"@[0] == 'p');
    assert("rootmode"@[0] == 'r');
    assert("options"@[0] == 'o');
    assert("baseURL"@[0] == 'b');
    assert("apiKey"@[0] == 'a');
    assert("models"@[0] == 'm');
    law_connecting_touches_only_ours(root, "provider"@, PROVIDER_KEY@, opencode_provider(ep));
}

/// The app that reads its address from its environment finds the address
/// itself, the token and the model there.
pub proof fn law_the_environment_names_the_endpoint(root: Tree, ep: Endpoint)
    ensures
        ({
            let t = json_connected(ToolFormat::ClaudeCode, root, ep);
            let env = inner_record(t, "env"@);
            &&& env.get("ANTHROPIC_BASE_URL"@) == Some(Tree::Text(ep.base_url@))
            &&& env.get("ANTHROPIC_AUTH_TOKEN"@) == Some(Tree::Text(ep.token@))
            &&& env.get("ANTHROPIC_MODEL"@) == Some(Tree::Text(ep.model@))
            &&& forall|k: Seq<char>|
                k != "ANTHROPIC_BASE_URL"@ && k != "ANTHROPIC_AUTH_TOKEN"@ && k
                    != "ANTHROPIC_MODEL"@ ==> #[trigger] env.get(k) == inner_record(
                    root,
                    "env"@,
                ).get(k)
            &&& forall|k: Seq<char>| k != "env"@ ==> #[trigger] t.get(k) == root.get(k)
        }),
{
    broadcast use lemma_field_set;

    reveal_strlit("env");
    reveal_strlit("ANTHROPIC_BASE_URL");
    reveal_strlit("ANTHROPIC_AUTH_TOKEN");
    reveal_strlit("ANTHROPIC_MODEL");
    assert("env"@.len() == 3);
    assert("ANTHROPIC_BASE_URL"@.len() == 18);
    assert("ANTHROPIC_AUTH_TOKEN"@.len() == 20);
    assert("ANTHROPIC_MODEL"@.len() == 15);
}

/// Pi, Crush and Zed each find the endpoint's address and the model with this
/// app's provider; the first two find the token there too.
pub proof fn law_providers_name_the_endpoint(root: Tree, ep: Endpoint)
    ensures
        json_connected(ToolFormat::Pi, root, ep).get("rootmode"@) matches Some(p) && p.get(
            "baseURL"@,
        ) == Some(Tree::Text(ep.base_url@ + "/v1"@)) && p.get("apiKey"@) == Some(
            Tree::Text(ep.token@),
        ) && p.get("api"@) == Some(Tree::Text("openai-completions"@)) && p.get("models"@) == Some(
            Tree::List(seq![Tree::Text(ep.model@)]),
        ),
        inner_record(json_connected(ToolFormat::Crush, root, ep), "providers"@).get(
            "rootmode"@,
        ) matches Some(p) && p.get("base_url"@) == Some(Tree::Text(ep.base_url@ + "/v1"@)) && p.get(
            "api_key"@,
        ) == Some(Tree::Text(ep.token@)) && p.get("type"@) == Some(Tree::Text("openai"@)) && (
        p.get("models"@) matches Some(Tree::List(m)) && m.len() == 1 && m[0].get("id"@) == Some(
            Tree::Text(ep.model@),
        ) && m[0].get("name"@) == Some(Tree::Text(ep.model@))),
        inner_record(
            inner_record(json_connected(ToolFormat::Zed, root, ep), "language_models"@),
            "openai_compatible"@,
        ).get("rootmode"@) matches Some(p) && p.get("api_url"@) == Some(
            Tree::Text(ep.base_url@ + "/v1"@),
        ) && (p.get("available_models"@) matches Some(Tree::List(m)) && m.len() == 1 && m[0].get(
            "name"@,
        ) == Some(Tree::Text(ep.model@)) && m[0].get("max_tokens"@) == Some(Tree::Number(32000))),
{
    broadcast use {lemma_one_more_field, lemma_field_set};

    reveal_strlit("rootmode");
    reveal_strlit("baseURL");
    reveal_strlit("apiKey");
    reveal_strlit("api");
    reveal_strlit("models");
    reveal_strlit("providers");
    reveal_strlit("type");
    reveal_strlit("base_url");
    reveal_strlit("api_key");
    reveal_strlit("id");
    reveal_strlit("name");
    reveal_strlit("language_models");
    reveal_strlit("openai_compatible");
    reveal_strlit("api_url");
    reveal_strlit("available_models");
    reveal_strlit("max_tokens");
    assert("rootmode"@.len() == 8);
    assert("baseURL"@.len() == 7);
    assert("apiKey"@.len() == 6);
    assert("api"@.len() == 3);
    assert("models"@.len() == 6);
    assert("providers"@.len() == 9);
    assert("type"@.len() == 4);
    assert("base_url"@.len() == 8);
    assert("api_key"@.len() == 7);
    assert("id"@.len() == 2);
    assert("name"@.len() == 4);
    assert("language_models"@.len() == 15);
    assert("openai_compatible"@.len() == 17);
    assert("api_url"@.len() == 7);
    assert("available_models"@.len() == 16);
    assert("max_tokens"@.len() == 10);
    assert("rootmode"@[0] == 'r');
    assert("base_url"@[0] == 'b');
    assert("baseURL"@[0] == 'b');
    assert("api_key"@[0] == 'a');
    assert("api_url"@[0] == 'a');
    assert("apiKey"@[0] == 'a');
    assert("models"@[0] == 'm');
    assert("type"@[0] == 't');
    assert("name"@[0] == 'n');
    assert("api_key"@[4] == 'k');
    assert("api_url"@[4] == 'u');
    law_connecting_touches_only_ours(root, "providers"@, PROVIDER_KEY@, crush_provider(ep));
    law_connecting_touches_only_ours(
        inner_record(root, "language_models"@),
        "openai_compatible"@,
        PROVIDER_KEY@,
        zed_provider(ep),
    );
}

/// What a tool has set besides stays, connecting and disconnecting.
pub proof fn law_other_settings_stay(root: Tree, ep: Endpoint, k: Seq<char>)
    ensures
        k != "rootmode"@ ==> json_connected(ToolFormat::Pi, root, ep).get(k) == root.get(k)
            && json_disconnected(ToolFormat::Pi, root).get(k) == root.get(k),
        k != "providers"@ ==> json_connected(ToolFormat::Crush, root, ep).get(k) == root.get(k)
            && json_disconnected(ToolFormat::Crush, root).get(k) == root.get(k),
        k != "language_models"@ ==> json_connected(ToolFormat::Zed, root, ep).get(k) == root.get(k)
            && json_disconnected(ToolFormat::Zed, root).get(k) == root.get(k),
        k != "env"@ ==> json_disconnected(ToolFormat::ClaudeCode, root).get(k) == root.get(k),
        k != "provider"@ && k != "model"@ ==> json_disconnected(ToolFormat::OpenCode, root).get(k)
            == root.get(k),
{
    broadcast use lemma_field_set;

    law_remove_then_get(root.fields(), PROVIDER_KEY@);
    law_remove_then_get(root.fields(), "env"@);
    law_connecting_touches_only_ours(root, "providers"@, PROVIDER_KEY@, crush_provider(ep));
    crate::connected_tools::tools::law_disconnecting_touches_only_ours(
        root,
        "providers"@,
        PROVIDER_KEY@,
    );
    crate::connected_tools::tools::law_disconnecting_touches_only_ours(
        root,
        "provider"@,
        PROVIDER_KEY@,
    );
    let out = crate::connected_tools::tools::take_out(root, "provider"@, PROVIDER_KEY@);
    law_remove_then_get(out.fields(), "model"@);
    if k != "provider"@ && k != "model"@ {
        assert(out.get(k) == root.get(k));
        assert(out.without("model"@).get(k) == crate::json::lookup(out.fields(), k));
    }
}

/// After a disconnect no provider of this app is left.
pub proof fn law_no_provider_is_left(root: Tree)
    ensures
        json_disconnected(ToolFormat::Pi, root).get("rootmode"@) is None,
        inner_record(json_disconnected(ToolFormat::Crush, root), "providers"@).get("rootmode"@)
            is None,
        inner_record(json_disconnected(ToolFormat::OpenCode, root), "provider"@).get("rootmode"@)
            is None,
        inner_record(
            inner_record(json_disconnected(ToolFormat::Zed, root), "language_models"@),
            "openai_compatible"@,
        ).get("rootmode"@) is None,
        inner_record(json_disconnected(ToolFormat::ClaudeCode, root), "env"@).get(
            "ANTHROPIC_BASE_URL"@,
        ) is None && inner_record(json_disconnected(ToolFormat::ClaudeCode, root), "env"@).get(
            "ANTHROPIC_AUTH_TOKEN"@,
        ) is None && inner_record(json_disconnected(ToolFormat::ClaudeCode, root), "env"@).get(
            "ANTHROPIC_MODEL"@,
        ) is None,
        json_disconnected(ToolFormat::OpenCode, root).get("model"@) matches Some(Tree::Text(m))
            ==> !starts_with(m, "rootmode"@ + "/"@) && root.get("model"@) == Some(Tree::Text(m)),
{
    broadcast use lemma_field_set;

    reveal_strlit("rootmode");
    reveal_strlit("provider");
    reveal_strlit("providers");
    reveal_strlit("model");
    reveal_strlit("env");
    reveal_strlit("language_models");
    reveal_strlit("openai_compatible");
    reveal_strlit("ANTHROPIC_BASE_URL");
    reveal_strlit("ANTHROPIC_AUTH_TOKEN");
    reveal_strlit("ANTHROPIC_MODEL");
    assert("rootmode"@.len() == 8);
    assert("provider"@.len() == 8);
    assert("providers"@.len() == 9);
    assert("model"@.len() == 5);
    assert("env"@.len() == 3);
    assert("language_models"@.len() == 15);
    assert("openai_compatible"@.len() == 17);
    assert("ANTHROPIC_BASE_URL"@.len() == 18);
    assert("ANTHROPIC_AUTH_TOKEN"@.len() == 20);
    assert("ANTHROPIC_MODEL"@.len() == 15);
    assert("rootmode"@[0] == 'r');
    assert("provider"@[0] == 'p');
    assert("language_models"@[0] == 'l');
    assert("ANTHROPIC_MODEL"@[0] == 'A');
    let (a, b, c) = ("ANTHROPIC_BASE_URL"@, "ANTHROPIC_AUTH_TOKEN"@, "ANTHROPIC_MODEL"@);
    law_remove_then_get(root.fields(), PROVIDER_KEY@);
    law_remove_then_get(root.fields(), "env"@);
    crate::connected_tools::tools::law_disconnecting_touches_only_ours(
        root,
        "providers"@,
        PROVIDER_KEY@,
    );
    crate::connected_tools::tools::law_disconnecting_touches_only_ours(
        root,
        "provider"@,
        PROVIDER_KEY@,
    );
    let out = crate::connected_tools::tools::take_out(root, "provider"@, PROVIDER_KEY@);
    law_remove_then_get(out.fields(), "model"@);
    if let Some(lm) = root.get("language_models"@) {
        crate::connected_tools::tools::law_disconnecting_touches_only_ours(
            lm,
            "openai_compatible"@,
            PROVIDER_KEY@,
        );
    }
    if let Some(env) = root.get("env"@) {
        law_remove_then_get(env.fields(), a);
        law_remove_then_get(env.without(a).fields(), b);
        law_remove_then_get(env.without(a).without(b).fields(), c);
    }
}

/// A model that the user chose of another provider stays chosen.
pub proof fn law_another_model_stays(root: Tree, m: Seq<char>)
    requires
        root.get("model"@) == Some(Tree::Text(m)),
        !starts_with(m, "rootmode"@ + "/"@),
    ensures
        json_disconnected(ToolFormat::OpenCode, root).get("model"@) == Some(Tree::Text(m)),
{
    reveal_strlit("provider");
    reveal_strlit("model");
    assert("provider"@.len() == 8 && "model"@.len() == 5);
    crate::connected_tools::tools::law_disconnecting_touches_only_ours(
        root,
        "provider"@,
        PROVIDER_KEY@,
    );
    let out = crate::connected_tools::tools::take_out(root, "provider"@, PROVIDER_KEY@);
    assert(out.get("model"@) == root.get("model"@));
}

/// A file that is not there, or that makes no sense, holds no settings; any
/// other holds what it says without its comments.
pub proof fn law_what_a_settings_file_holds(s: Seq<char>)
    ensures
        settings_in(None) == Tree::record(),
        json_read(plain_json(s)) is None ==> settings_in(Some(s)) == Tree::record(),
        json_read(plain_json(s)) matches Some(t) ==> settings_in(Some(s)) == t,
{
}

// ------------------------------------------------------------------ comments

/// A comment up to the end of its line goes, and the line break stays.
pub proof fn law_a_line_comment_goes(c: Seq<char>, rest: Seq<char>)
    requires
        !c.contains('\n'),
    ensures
        uncommented(seq!['/', '/'] + c + seq!['\n'] + rest) == seq!['\n'] + uncommented(rest),
        uncommented(seq!['/', '/'] + c) == Seq::<char>::empty(),
{
    let s = seq!['/', '/'] + c + seq!['\n'] + rest;
    let n = 2 + c.len() as int;
    crate::text::lemma_index_of(s, '\n');
    assert(s[n] == '\n');
    assert(s[0] == '/' && s[1] == '/');
    assert forall|i: int| 0 <= i < n implies s[i] != '\n' by {
        if i >= 2 {
            assert(s[i] == c[i - 2]);
            assert(c.contains(c[i - 2]));
        }
    }
    crate::text::lemma_index_of_unique(s, '\n', n);
    assert(s.skip(n + 1) =~= rest);
    let t = seq!['/', '/'] + c;
    assert(t[0] == '/' && t[1] == '/');
    crate::text::lemma_index_of(t, '\n');
    let k = index_of(t, '\n');
    if k < t.len() {
        assert(t[k] == c[k - 2]);
        assert(c.contains(c[k - 2]));
    }
}

/// A comment between its two marks goes.
pub proof fn law_a_block_comment_goes(c: Seq<char>, rest: Seq<char>)
    requires
        !c.contains('*'),
    ensures
        uncommented(seq!['/', '*'] + c + seq!['*', '/'] + rest) == uncommented(rest),
{
    let s = seq!['/', '*'] + c + seq!['*', '/'] + rest;
    assert(s[0] == '/' && s[1] == '*');
    lemma_comment_end(c, rest, 2);
    assert(s.skip(c.len() as int + 4) =~= rest);
}

proof fn lemma_comment_end(c: Seq<char>, rest: Seq<char>, i: int)
    requires
        !c.contains('*'),
        2 <= i <= 2 + c.len(),
    ensures
        comment_end(seq!['/', '*'] + c + seq!['*', '/'] + rest, i) == c.len() + 4,
    decreases c.len() + 2 - i,
{
    let s = seq!['/', '*'] + c + seq!['*', '/'] + rest;
    if i < 2 + c.len() {
        assert(s[i] == c[i - 2]);
        assert(c.contains(c[i - 2]));
        lemma_comment_end(c, rest, i + 1);
    } else {
        assert(s[i] == '*' && s[i + 1] == '/');
    }
}

/// What is quoted stays, whatever stands in it.
pub proof fn law_a_quoted_text_stays(w: Seq<char>, rest: Seq<char>)
    requires
        !w.contains('"'),
        !w.contains('\\'),
    ensures
        uncommented(seq!['"'] + w + seq!['"'] + rest) == seq!['"'] + w + seq!['"'] + uncommented(
            rest,
        ),
        without_last_commas(seq!['"'] + w + seq!['"'] + rest) == seq!['"'] + w + seq!['"']
            + without_last_commas(rest),
{
    let s = seq!['"'] + w + seq!['"'] + rest;
    lemma_string_end(w, rest, 1);
    let e = w.len() as int + 2;
    assert(s[0] == '"');
    assert(s.take(e) =~= seq!['"'] + w + seq!['"']);
    assert(s.skip(e) =~= rest);
}

proof fn lemma_string_end(w: Seq<char>, rest: Seq<char>, i: int)
    requires
        !w.contains('"'),
        !w.contains('\\'),
        1 <= i <= 1 + w.len(),
    ensures
        string_end(seq!['"'] + w + seq!['"'] + rest, i) == w.len() + 2,
    decreases w.len() + 1 - i,
{
    let s = seq!['"'] + w + seq!['"'] + rest;
    if i < 1 + w.len() {
        assert(s[i] == w[i - 1]);
        assert(w.contains(w[i - 1]));
        lemma_string_end(w, rest, i + 1);
    } else {
        assert(s[i] == '"');
    }
}

/// A quote behind a backslash does not end the text it stands in.
pub proof fn law_an_escaped_quote_ends_nothing(w: Seq<char>, c: char, v: Seq<char>, rest: Seq<char>)
    requires
        !w.contains('"') && !w.contains('\\'),
        !v.contains('"') && !v.contains('\\'),
    ensures
        ({
            let q = seq!['"'] + w + seq!['\\', c] + v + seq!['"'];
            &&& uncommented(q + rest) == q + uncommented(rest)
            &&& without_last_commas(q + rest) == q + without_last_commas(rest)
        }),
{
    let q = seq!['"'] + w + seq!['\\', c] + v + seq!['"'];
    let s = q + rest;
    let n = q.len() as int;
    assert forall|i: int| 1 <= i < 1 + w.len() implies #[trigger] s[i] != '"' && s[i] != '\\' by {
        assert(s[i] == w[i - 1]);
        assert(w.contains(w[i - 1]));
    }
    assert forall|i: int| 3 + w.len() <= i < n - 1 implies #[trigger] s[i] != '"' && s[i]
        != '\\' by {
        assert(s[i] == v[i - 3 - w.len()]);
        assert(v.contains(v[i - 3 - w.len()]));
    }
    lemma_plain_run(s, 1, 1 + w.len() as int);
    let k = 1 + w.len() as int;
    assert(s[k] == '\\');
    assert(string_end(s, k) == string_end(s, k + 2));
    lemma_plain_run(s, k + 2, n - 1);
    assert(s[n - 1] == '"');
    assert(string_end(s, n - 1) == n);
    assert(s.take(n) =~= q);
    assert(s.skip(n) =~= rest);
    assert(s[0] == '"');
}

proof fn lemma_plain_run(s: Seq<char>, i: int, j: int)
    requires
        0 <= i <= j <= s.len(),
        forall|k: int| i <= k < j ==> #[trigger] s[k] != '"' && s[k] != '\\',
    ensures
        string_end(s, i) == string_end(s, j),
    decreases j - i,
{
    if i < j {
        assert(s[i] != '"' && s[i] != '\\');
        lemma_plain_run(s, i + 1, j);
    }
}

/// A comma goes where a bracket closes after it, and stays anywhere else;
/// every other character outside of quotes stays.
pub proof fn law_only_a_last_comma_goes(c: char, rest: Seq<char>)
    ensures
        closes(rest) ==> without_last_commas(seq![','] + rest) == without_last_commas(rest),
        !closes(rest) ==> without_last_commas(seq![','] + rest) == seq![','] + without_last_commas(
            rest,
        ),
        c != ',' && c != '"' ==> without_last_commas(seq![c] + rest) == seq![c]
            + without_last_commas(rest),
        c != '"' && c != '/' ==> uncommented(seq![c] + rest) == seq![c] + uncommented(rest),
        closes(seq!['}'] + rest) && closes(seq![']'] + rest),
        !is_white(c) && c != '}' && c != ']' ==> !closes(seq![c] + rest),
        is_white(c) ==> closes(seq![c] + rest) == closes(rest),
{
    let s = seq![c] + rest;
    let t = seq![','] + rest;
    assert(s.drop_first() =~= rest);
    assert(t.drop_first() =~= rest);
    assert(s[0] == c && t[0] == ',');
    let x = seq!['}'] + rest;
    let y = seq![']'] + rest;
    assert(x[0] == '}' && y[0] == ']');
    assert(trim_start(x) == x && trim_start(y) == y);
}

// --------------------------------------------------------------- line files

/// Codex uses this app's provider and the model, and the provider's table
/// gives the address and the name of the variable that holds the token.
pub proof fn law_codex_finds_the_endpoint(
    ls: Seq<Seq<char>>,
    base_url: Seq<char>,
    model: Seq<char>,
)
    ensures
        ({
            let after = codex_connected(ls, base_url, model);
            &&& after.contains("model_provider = "@ + toml_quoted("rootmode"@))
            &&& after.contains("model = "@ + toml_quoted(model))
            &&& after.contains("[model_providers."@ + "rootmode"@ + "]"@)
            &&& after.contains("base_url = "@ + toml_quoted(base_url + "/v1"@))
            &&& after.contains("env_key = "@ + toml_quoted("ROOTMODE_GATEWAY_TOKEN"@))
            &&& after.contains("wire_api = \"responses\""@)
        }),
{
    let cleared = without_provider(ls);
    let provided = top_set(cleared, "model_provider"@, provider_line());
    let line = "model = "@ + toml_quoted(model);
    let modelled = top_set(provided, "model"@, line);
    let front = without_blank_end(modelled);
    let table = provider_table(base_url);
    let after = codex_connected(ls, base_url, model);
    lemma_top_set_holds(cleared, "model_provider"@, provider_line());
    lemma_top_set_holds(provided, "model"@, line);
    reveal_strlit("model_provider = ");
    reveal_strlit("model = ");
    reveal_strlit("model");
    reveal_strlit(" ");
    assert("model_provider = "@[0] == 'm' && "model_provider = "@[5] == '_' && "model_provider = "@.len()
        == 17);
    assert("model = "@[0] == 'm' && "model = "@.len() == 8);
    assert(provider_line()[0] == 'm' && provider_line()[5] == '_');
    assert(line[0] == 'm');
    assert(trim_start(provider_line()) == provider_line());
    let key = "model"@ + " "@;
    assert(key.len() == 6 && key[5] == ' ');
    if starts_with(provider_line(), key) {
        assert(provider_line().take(6)[5] == provider_line()[5]);
    }
    lemma_top_set_keeps(provided, "model"@, line, provider_line());
    crate::laws::texts::law_trimming_takes_the_space_around(provider_line());
    crate::laws::texts::law_trimming_takes_the_space_around(line);
    assert(!is_white('m'));
    assert(!blank(provider_line()) && !blank(line));
    lemma_blank_end_keeps(modelled, provider_line());
    lemma_blank_end_keeps(modelled, line);
    let i = choose|i: int| 0 <= i < front.len() && front[i] == provider_line();
    assert(after[i] == provider_line());
    let j = choose|j: int| 0 <= j < front.len() && front[j] == line;
    assert(after[j] == line);
    let n = front.len() as int + 1;
    assert(after[n] == table[0]);
    assert(after[n + 2] == table[2]);
    assert(after[n + 3] == table[3]);
    assert(after[n + 4] == table[4]);
}

proof fn lemma_first(ls: Seq<Seq<char>>, p: Seq<char>, i: int, limit: int)
    requires
        0 <= i <= limit <= ls.len(),
    ensures
        i <= first_starting(ls, p, i, limit) <= limit,
        first_starting(ls, p, i, limit) < limit ==> starts_with(
            trim_start(ls[first_starting(ls, p, i, limit)]),
            p,
        ),
    decreases limit - i,
{
    if i < limit && !starts_with(trim_start(ls[i]), p) {
        lemma_first(ls, p, i + 1, limit);
    }
}

proof fn lemma_top_set_holds(ls: Seq<Seq<char>>, key: Seq<char>, line: Seq<char>)
    ensures
        top_set(ls, key, line).contains(line),
{
    lemma_first(ls, "["@, 0, ls.len() as int);
    let limit = first_table(ls);
    lemma_first(ls, key + " "@, 0, limit);
    let i = first_starting(ls, key + " "@, 0, limit);
    let after = top_set(ls, key, line);
    if i < limit {
        assert(after[i] == line);
    } else {
        assert(after[limit] == line);
    }
}

proof fn lemma_top_set_keeps(ls: Seq<Seq<char>>, key: Seq<char>, line: Seq<char>, l: Seq<char>)
    requires
        ls.contains(l),
        !starts_with(trim_start(l), key + " "@),
    ensures
        top_set(ls, key, line).contains(l),
{
    lemma_first(ls, "["@, 0, ls.len() as int);
    let limit = first_table(ls);
    lemma_first(ls, key + " "@, 0, limit);
    let i = first_starting(ls, key + " "@, 0, limit);
    let after = top_set(ls, key, line);
    let k = choose|k: int| 0 <= k < ls.len() && ls[k] == l;
    if i < limit {
        assert(k != i);
        assert(after[k] == l);
    } else if k < limit {
        assert(after[k] == l);
    } else {
        assert(after[k + 1] == l);
    }
}

proof fn lemma_blank_end_keeps(ls: Seq<Seq<char>>, l: Seq<char>)
    requires
        ls.contains(l),
        !blank(l),
    ensures
        without_blank_end(ls).contains(l),
    decreases ls.len(),
{
    if ls.len() > 0 && blank(ls.last()) {
        let k = choose|k: int| 0 <= k < ls.len() && ls[k] == l;
        assert(k < ls.len() - 1);
        assert(ls.drop_last()[k] == l);
        lemma_blank_end_keeps(ls.drop_last(), l);
    }
}

/// Lines that choose somebody else's provider stay when this app's table is
/// taken out.
pub proof fn law_another_provider_stays(ls: Seq<Seq<char>>)
    ensures
        !uses_provider(without_provider(ls)) ==> codex_disconnected(ls) == without_provider(ls),
        uses_provider(without_provider(ls)) ==> codex_disconnected(ls).len() < without_provider(
            ls,
        ).len(),
{
    let rest = without_provider(ls);
    lemma_first(rest, "["@, 0, rest.len() as int);
    lemma_first(rest, "model_provider"@ + " "@, 0, first_table(rest));
    let once = top_removed(rest, "model_provider"@);
    lemma_first(once, "["@, 0, once.len() as int);
    lemma_first(once, "model"@ + " "@, 0, first_table(once));
}

/// Goose finds the provider, the model, the address and the token.
pub proof fn law_goose_finds_the_endpoint(
    ls: Seq<Seq<char>>,
    base_url: Seq<char>,
    token: Seq<char>,
    model: Seq<char>,
)
    ensures
        ({
            let after = goose_connected(ls, base_url, token, model);
            &&& after.contains("GOOSE_PROVIDER"@ + ": "@ + "openai"@)
            &&& after.contains("GOOSE_MODEL"@ + ": "@ + model)
            &&& after.contains("OPENAI_HOST"@ + ": "@ + base_url)
            &&& after.contains("OPENAI_API_KEY"@ + ": "@ + token)
        }),
{
    reveal_strlit("GOOSE_PROVIDER");
    reveal_strlit("GOOSE_MODEL");
    reveal_strlit("OPENAI_HOST");
    reveal_strlit("OPENAI_API_KEY");
    assert("GOOSE_PROVIDER"@.len() == 14);
    assert("GOOSE_MODEL"@.len() == 11);
    assert("OPENAI_HOST"@.len() == 11);
    assert("OPENAI_API_KEY"@.len() == 14);
    assert("GOOSE_PROVIDER"@[0] == 'G');
    assert("OPENAI_API_KEY"@[0] == 'O');
    assert("GOOSE_MODEL"@[0] == 'G');
    assert("OPENAI_HOST"@[0] == 'O');
    assert("GOOSE_PROVIDER"@[0] == 'G' && "GOOSE_PROVIDER"@[6] == 'P');
    assert("GOOSE_MODEL"@[0] == 'G' && "GOOSE_MODEL"@[6] == 'M');
    assert("OPENAI_HOST"@[0] == 'O' && "OPENAI_HOST"@[7] == 'H');
    assert("OPENAI_API_KEY"@[0] == 'O' && "OPENAI_API_KEY"@[7] == 'A');
    reveal_strlit(":");
    reveal_strlit(": ");
    assert(":"@.len() == 1 && ": "@.len() == 2);
    let a = "GOOSE_PROVIDER"@;
    let b = "GOOSE_MODEL"@;
    let c = "OPENAI_HOST"@;
    let d = "OPENAI_API_KEY"@;
    let l1 = yaml_set(ls, a, "openai"@);
    let l2 = yaml_set(l1, b, model);
    let l3 = yaml_set(l2, c, base_url);
    let la = a + ": "@ + "openai"@;
    let lb = b + ": "@ + model;
    let lc = c + ": "@ + base_url;
    assert(la[0] == 'G' && lb[0] == 'G' && lc[0] == 'O');
    assert(trim_start(la) == la && trim_start(lb) == lb && trim_start(lc) == lc);
    lemma_yaml_set_holds(ls, a, "openai"@);
    lemma_yaml_set_holds(l1, b, model);
    lemma_yaml_set_holds(l2, c, base_url);
    lemma_yaml_set_holds(l3, d, token);
    assert(la[6] == 'P' && lb[6] == 'M' && lc[7] == 'H');
    lemma_other_key(la, b + ":"@, 6);
    lemma_yaml_set_keeps(l1, b, model, la);
    lemma_other_key(la, c + ":"@, 0);
    lemma_yaml_set_keeps(l2, c, base_url, la);
    lemma_other_key(lb, c + ":"@, 0);
    lemma_yaml_set_keeps(l2, c, base_url, lb);
    lemma_other_key(la, d + ":"@, 0);
    lemma_yaml_set_keeps(l3, d, token, la);
    lemma_other_key(lb, d + ":"@, 0);
    lemma_yaml_set_keeps(l3, d, token, lb);
    lemma_other_key(lc, d + ":"@, 7);
    lemma_yaml_set_keeps(l3, d, token, lc);
}

proof fn lemma_other_key(l: Seq<char>, key: Seq<char>, i: int)
    requires
        0 <= i < key.len(),
        i < l.len(),
        l[i] != key[i],
    ensures
        !starts_with(l, key),
{
    if starts_with(l, key) {
        assert(l.take(key.len() as int)[i] == l[i]);
    }
}

proof fn lemma_yaml_set_holds(ls: Seq<Seq<char>>, key: Seq<char>, value: Seq<char>)
    ensures
        yaml_set(ls, key, value).contains(key + ": "@ + value),
{
    lemma_first(ls, key + ":"@, 0, ls.len() as int);
    let i = first_starting(ls, key + ":"@, 0, ls.len() as int);
    let after = yaml_set(ls, key, value);
    assert(after[i] == key + ": "@ + value);
}

proof fn lemma_yaml_set_keeps(ls: Seq<Seq<char>>, key: Seq<char>, value: Seq<char>, l: Seq<char>)
    requires
        ls.contains(l),
        !starts_with(trim_start(l), key + ":"@),
    ensures
        yaml_set(ls, key, value).contains(l),
{
    lemma_first(ls, key + ":"@, 0, ls.len() as int);
    let i = first_starting(ls, key + ":"@, 0, ls.len() as int);
    let k = choose|k: int| 0 <= k < ls.len() && ls[k] == l;
    assert(k != i);
    assert(yaml_set(ls, key, value)[k] == l);
}

// ------------------------------------------------------------------- shells

/// A shell that ends in `zsh` or `bash` reads the file of that name.
pub proof fn law_a_shell_reads_its_own_file(path: Seq<char>, s: Seq<char>, has_zshrc: bool)
    ensures
        rc_file(path + "zsh"@, has_zshrc) == ".zshrc"@,
        rc_file(path + "bash"@, has_zshrc) == ".bashrc"@,
        !ends_with(s, "zsh"@) && !ends_with(s, "bash"@) ==> rc_file(s, true) == ".zshrc"@
            && rc_file(s, false) == ".profile"@,
{
    lemma_shell_ends(path);
}

proof fn lemma_shell_ends(path: Seq<char>)
    ensures
        ends_with(path + "zsh"@, "zsh"@),
        ends_with(path + "bash"@, "bash"@),
        !ends_with(path + "bash"@, "zsh"@),
{
    reveal_strlit("zsh");
    reveal_strlit("bash");
    let z = "zsh"@;
    let b = "bash"@;
    assert(z.len() == 3 && b.len() == 4 && z[0] == 'z' && b[1] == 'a');
    assert((path + z).skip(path.len() as int) =~= z);
    assert((path + b).skip(path.len() as int) =~= b);
    let s = path + b;
    assert(s.skip(s.len() - 3)[0] == 'a');
}

/// The block that is written for a shell sets the variable to the value.
pub proof fn law_an_export_sets_the_variable(name: Seq<char>, value: Seq<char>)
    ensures
        contains(export_block(name, value), "\nexport "@ + name + "="@ + shell_quoted(value) + "\n"@),
        shell_read(shell_quoted(value), false) == Some(value),
{
    crate::connected_tools::shell::law_shell_quoting_reads_back(value);
    let begin = crate::connected_tools::shell::MARK_BEGIN@;
    let end = crate::connected_tools::shell::MARK_END@;
    let mid = "\nexport "@ + name + "="@ + shell_quoted(value) + "\n"@;
    crate::text::lemma_contains_middle(begin, mid, end);
    assert(begin + mid + end =~= export_block(name, value));
}

// -------------------------------------------------------------------- places

/// Away from Windows every tool's settings stand in the home folder; there,
/// three of them stand with the data of apps.
pub proof fn law_where_settings_stand(f: ToolFormat, brand: Seq<char>)
    ensures
        settings_place(f, brand, false).0 == Root::Home,
        settings_place(ToolFormat::Crush, brand, true).0 == Root::LocalAppData,
        settings_place(ToolFormat::Goose, brand, true).0 == Root::AppData,
        settings_place(ToolFormat::Zed, brand, true).0 == Root::AppData,
        settings_place(ToolFormat::Codex, brand, false).1 == seq![".codex"@, "config.toml"@],
        settings_place(ToolFormat::ClaudeCode, brand, false).1 == seq![
            "."@ + lower(brand),
            "settings.json"@,
        ],
        settings_place(ToolFormat::OpenCode, brand, false).1 == seq![
            ".config"@,
            "opencode"@,
            "opencode.jsonc"@,
        ],
        settings_place(ToolFormat::Pi, brand, false).1 == seq![".pi"@, "agent"@, "models.json"@],
        settings_place(ToolFormat::Crush, brand, false).1.drop_first() == settings_place(
            ToolFormat::Crush,
            brand,
            true,
        ).1,
        settings_place(ToolFormat::Crush, brand, true).1 == seq!["crush"@, "crush.json"@],
        settings_place(ToolFormat::Goose, brand, false).1 == seq![
            ".config"@,
            "goose"@,
            "config.yaml"@,
        ],
        settings_place(ToolFormat::Goose, brand, true).1 == seq![
            "Block"@,
            "goose"@,
            "config"@,
            "config.yaml"@,
        ],
        settings_place(ToolFormat::Zed, brand, false).1 == seq![
            ".config"@,
            "zed"@,
            "settings.json"@,
        ],
        settings_place(ToolFormat::Zed, brand, true).1 == seq!["Zed"@, "settings.json"@],
        f == ToolFormat::Codex || f == ToolFormat::ClaudeCode || f == ToolFormat::OpenCode || f
            == ToolFormat::Pi ==> settings_place(f, brand, true) == settings_place(f, brand, false),
{
    assert(settings_place(ToolFormat::Crush, brand, false).1.drop_first() =~= settings_place(
        ToolFormat::Crush,
        brand,
        true,
    ).1);
}

} // verus!
