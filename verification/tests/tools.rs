//! Pointing other tools at the local endpoint, and back.
use rootmode_desktop::connected_tools::jsonc::strip_jsonc;
use rootmode_desktop::connected_tools::lines::{
    connect_codex, connect_goose, disconnect_codex, disconnect_goose, toml_string,
};
use rootmode_desktop::connected_tools::shell::{
    export_env_var, launch_command, mac_launch_script, remove_guarded_block,
    replace_guarded_block, shell_quote, shell_rc_file, windows_launch_command,
};
use rootmode_desktop::connected_tools::tools::{
    backup_path, check_installed, config_path, connect_json, connect_pi_models, connect_pi_settings,
    connected_setting, disconnect_json, disconnect_pi_models, disconnect_pi_settings,
    endpoint_from_status, formats, installed, pi_settings_path, profile, read_json_lenient, status_of, tool,
    Endpoint, Root, ToolFormat,
};
use rootmode_desktop::gateway::access::status;
use rootmode_desktop::json::Json;

const BRAND: &str = "Acme";

fn endpoint() -> Endpoint {
    Endpoint {
        base_url: "http://127.0.0.1:11435".into(),
        token: "rm-1".into(),
        model: "llama".into(),
    }
}

fn json(text: &str) -> Json {
    Json::from_text(text).unwrap()
}

#[test]
fn comments_and_trailing_commas_are_taken_out() {
    let plain = strip_jsonc("{ // note\n \"a\": \"// not a note\", /* x */ \"b\": [1, 2,], }");
    let j = json(&plain);
    assert_eq!(j.text_at("a").unwrap(), "// not a note");
    assert_eq!(j.get("b").unwrap().as_list().unwrap().len(), 2);
    let untouched = r#"{"a":"b /* c */"}"#;
    assert_eq!(strip_jsonc(untouched), untouched);
}

#[test]
fn a_file_that_does_not_read_is_started_anew() {
    assert!(read_json_lenient(&Some("not json".into())).is_record());
    assert!(read_json_lenient(&None).is_record());
}

#[test]
fn codex_is_connected_and_put_back() {
    let before = "model = \"gpt\"\n\n[tools]\nx = 1\n";
    let after = connect_codex(&Some(before.into()), "http://127.0.0.1:11435", "llama");
    assert!(after.contains("model = \"llama\""));
    assert!(after.contains("[tools]\nx = 1"));
    assert!(after.contains("http://127.0.0.1:11435"));
    assert!(!after.contains("\"gpt\""));
    let back = disconnect_codex(&after);
    assert!(!back.contains("11435"));
    assert!(back.contains("[tools]\nx = 1"));
    assert_eq!(toml_string("a\"b\\c"), r#""a\"b\\c""#);
}

#[test]
fn codex_gives_back_the_file_it_was_given() {
    let before = "# mine\n\n[tools]\nx = 1\n";
    let after = connect_codex(&Some(before.into()), "http://h", "llama");
    assert!(after.contains("model = \"llama\""));
    let back = disconnect_codex(&after);
    let lines: Vec<&str> = back.lines().filter(|l| !l.trim().is_empty()).collect();
    assert_eq!(lines, ["# mine", "[tools]", "x = 1"]);
    let other = "model_provider = \"other\"\nmodel = \"m\"\n";
    assert_eq!(disconnect_codex(other), other, "somebody else's choice");
}

#[test]
fn goose_is_connected_and_put_back() {
    let after = connect_goose(&Some("other: 1\n".into()), "http://h", "rm-1", "llama");
    assert!(after.contains("other: 1"));
    assert!(after.contains("llama"));
    let back = disconnect_goose(&after);
    let lines: Vec<&str> = back.lines().filter(|l| !l.trim().is_empty()).collect();
    assert_eq!(lines, ["other: 1"]);
}

#[test]
fn json_settings_are_put_back_as_they_were() {
    for (format, box_name) in [
        (ToolFormat::OpenCode, "provider"),
        (ToolFormat::ClaudeCode, "env"),
        (ToolFormat::Crush, "providers"),
    ] {
        let text = format!(r#"{{"{box_name}":{{"theirs":"1"}},"theme":"x"}}"#);
        let after = connect_json(format, &Some(text.clone()), &endpoint());
        assert!(after.contains("11435"), "{format:?}");
        let back = json(&disconnect_json(format, &Some(after)));
        let inner = back.get(box_name).unwrap();
        assert_eq!(inner.to_text(), r#"{"theirs":"1"}"#, "{format:?}");
        assert_eq!(back.text_at("theme").unwrap(), "x", "{format:?}");
    }
    let back = disconnect_json(
        ToolFormat::OpenCode,
        &Some(connect_json(ToolFormat::OpenCode, &None, &endpoint())),
    );
    assert!(json(&back).get("model").is_none(), "{back}");
}

#[test]
fn json_tools_keep_what_is_not_ours() {
    for format in [
        ToolFormat::OpenCode,
        ToolFormat::ClaudeCode,
        ToolFormat::Crush,
        ToolFormat::Zed,
    ] {
        let before = Some(r#"{"keep":{"me":1}}"#.to_string());
        let after = connect_json(format, &before, &endpoint());
        assert!(after.contains("11435"), "{format:?}: {after}");
        assert!(after.contains("\"keep\""), "{format:?}");
        let back = disconnect_json(format, &Some(after));
        assert!(!back.contains("11435"), "{format:?}: {back}");
        assert!(back.contains("\"keep\""), "{format:?}");
    }
}

#[test]
fn a_shell_quote_cannot_be_left() {
    assert_eq!(shell_quote("it's"), r"'it'\''s'");
    assert_eq!(
        launch_command("rm-1", "codex"),
        "export ROOTMODE_GATEWAY_TOKEN='rm-1'; codex; exec $SHELL"
    );
    assert!(mac_launch_script("t", "pi").ends_with("'t'; pi\""));
    assert_eq!(
        windows_launch_command("t", "pi"),
        "set ROOTMODE_GATEWAY_TOKEN=t&&pi"
    );
}

#[test]
fn a_guarded_block_goes_in_once_and_comes_out() {
    let rc = "alias a=b\n";
    let once = export_env_var(rc, "TOKEN", "x");
    let twice = export_env_var(&once, "TOKEN", "y");
    assert_eq!(twice.matches("TOKEN").count(), 1);
    assert!(twice.contains("'y'") && !twice.contains("'x'"));
    assert!(remove_guarded_block(&twice).contains("alias a=b"));
    assert!(!remove_guarded_block(&twice).contains("TOKEN"));
    let block = replace_guarded_block("", "export A=1");
    assert!(block.contains("export A=1"));
    assert_eq!(shell_rc_file("/bin/zsh", false), ".zshrc");
    assert_eq!(shell_rc_file("/usr/bin/bash", true), ".bashrc");
    assert_eq!(shell_rc_file("", true), ".zshrc");
    assert_eq!(shell_rc_file("/bin/fish", false), ".profile");
}

#[test]
fn a_block_of_several_lines_stands_once_at_the_end() {
    let block = |body: &str| {
        format!("# >>> rootmode connected apps >>>\n{body}\n# <<< rootmode connected apps <<<")
    };
    let first = block("export A=1\nexport B=2");
    let rc = format!("{}\n\nalias a=b\n", block("export OLD=1"));
    let once = replace_guarded_block(&rc, &first);
    assert!(once.ends_with(&format!("{first}\n")));
    assert_eq!(once.matches(">>> rootmode").count(), 1);
    assert_eq!(replace_guarded_block(&once, &first), once);
    assert_eq!(
        remove_guarded_block(&once).trim_end(),
        remove_guarded_block(&rc).trim_end()
    );
}

#[test]
fn tools_are_known_by_their_keys() {
    assert_eq!(formats().len(), 7);
    assert_eq!(tool("zed", BRAND).unwrap().display_name, "Zed");
    let t = tool("acme-code", BRAND).unwrap();
    assert_eq!(t.format, ToolFormat::ClaudeCode);
    assert_eq!(t.display_name, "Acme Code");
    assert_eq!(t.method, "Patches ~/.acme/settings.json");
    assert_eq!(
        tool("vim", BRAND).unwrap_err().message(),
        "not found: unknown tool 'vim'"
    );
    let (root, path) = config_path(ToolFormat::Goose, BRAND, true);
    assert_eq!(root, Root::AppData);
    assert_eq!(path, ["Block", "goose", "config", "config.yaml"]);
    assert_eq!(config_path(ToolFormat::ClaudeCode, BRAND, false).1, [".acme", "settings.json"]);
    assert_eq!(backup_path("/a"), "/a.rootmode-bak");
}

#[test]
fn a_tool_that_is_not_there_is_not_connected() {
    assert!(!installed(false, false, false, false));
    assert!(installed(false, false, true, false));
    let t = profile(ToolFormat::Pi, BRAND);
    assert!(check_installed(&t, true).is_ok());
    assert!(check_installed(&t, false).unwrap_err().message().starts_with("pi was not found"));
    assert_eq!(connected_setting("pi"), "connected_tool_pi");
    let s = status_of(&t, true, &Some("true".into()), "/p");
    assert!(s.connected && s.installed);
}

#[test]
fn a_tool_is_told_the_chosen_model() {
    let on = Some("true".to_string());
    let at = |model: Option<&str>| {
        status(&on, &None, &None, &model.map(str::to_string), "t".into(), None, None, 0)
    };
    assert_eq!(endpoint_from_status(&at(Some("m")), &None).model, "m");
    assert_eq!(endpoint_from_status(&at(None), &Some("f".into())).model, "f");
    assert_eq!(endpoint_from_status(&at(None), &None).model, "auto");
}

#[test]
fn pi_is_connected_in_two_files_and_put_back() {
    let models = connect_pi_models(json(r#"{"keep":1}"#), &endpoint());
    assert!(models.to_text().contains("11435"));
    assert!(!disconnect_pi_models(models).to_text().contains("11435"));
    let chosen = connect_pi_settings(json(r#"{"theme":"x"}"#), &endpoint());
    assert_eq!(chosen.text_at("model").unwrap(), "llama");
    assert_eq!(disconnect_pi_settings(chosen).to_text(), r#"{"theme":"x"}"#);
    let theirs = json(r#"{"model":"y","provider":"other"}"#);
    assert_eq!(
        disconnect_pi_settings(theirs).to_text(),
        r#"{"model":"y","provider":"other"}"#
    );
    assert_eq!(pi_settings_path(), [".pi", "agent", "settings.json"]);
}

#[test]
fn what_is_quoted_stays_as_it_is() {
    let s = r#"{"a":",}","b":"// no","c":[1,]}"#;
    assert_eq!(strip_jsonc(s), r#"{"a":",}","b":"// no","c":[1]}"#);
}
