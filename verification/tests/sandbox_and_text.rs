use agents_core::agent_tool_input::{default_tool_input_builder, StructuredInputSchemaInfo};
use agents_core::errors::AgentsError;
use agents_core::json::{JsonMember, JsonValue};
use agents_core::sandbox::{ApplyPatchOperation, LocalSandboxSession, Manifest, SandboxCapability};
use agents_core::shell::{shell_like_split, shell_single_quote, validate_shell_command, workspace_shell_command};
use agents_core::text::{is_blank, trim_str};

fn session() -> LocalSandboxSession {
    LocalSandboxSession::new("/tmp/ws".to_owned(), Manifest::new(), true)
}

fn message_of(error: &AgentsError) -> String {
    error.to_string()
}

#[test]
fn splits_shell_words_with_quotes_and_escapes() {
    let words = shell_like_split("echo 'a b' \"c\\\"d\" e\\ f").unwrap_or_else(|_| panic!("should split"));
    assert_eq!(words, vec!["echo".to_owned(), "a b".to_owned(), "c\"d".to_owned(), "e f".to_owned()]);
    match shell_like_split("echo 'open") {
        Err(e) => assert_eq!(message_of(&e), "shell command contains an unterminated quote"),
        Ok(_) => panic!("open quote should be refused"),
    }
}

#[test]
fn shell_commands_must_stay_in_the_workspace() {
    assert!(validate_shell_command("/workspace", "ls /workspace/src").is_ok());
    assert!(validate_shell_command("/workspace", "cat notes.txt").is_ok());
    assert!(validate_shell_command("/workspace", "cat ../secret").is_err());
    assert!(validate_shell_command("/workspace", "cat a/../../b").is_err());
    assert!(validate_shell_command("/workspace", "ls /etc").is_err());
    assert!(validate_shell_command("/workspace", "ls /workspaces").is_err());
    match validate_shell_command("/workspace", "cd ..") {
        Err(e) => assert_eq!(message_of(&e), "shell command must stay within the sandbox workspace"),
        Ok(_) => panic!("parent directory should be refused"),
    }
}

#[test]
fn quotes_workspace_for_the_shell() {
    assert_eq!(shell_single_quote("it's"), "'it'\"'\"'s'");
    assert_eq!(workspace_shell_command("/tmp/ws", "ls"), "cd '/tmp/ws' && ls");
}

#[test]
fn resolves_paths_inside_the_workspace() {
    let session = session();
    assert_eq!(session.resolve_path("notes/a.txt").ok().as_deref(), Some("/tmp/ws/notes/a.txt"));
    assert_eq!(session.resolve_path("/workspace/./b.txt").ok().as_deref(), Some("/tmp/ws/b.txt"));
    for bad in ["", "   ", "../x", "/etc/passwd", "a/../../b"] {
        match session.resolve_path(bad) {
            Err(e) => assert_eq!(message_of(&e), "path must stay within the sandbox workspace"),
            Ok(p) => panic!("{bad:?} should be refused, got {p}"),
        }
    }
}

#[test]
fn apply_patch_writes_the_replacement_at_the_resolved_path() {
    let session = session();
    let write = session
        .apply_patch(ApplyPatchOperation { path: "src/lib.rs".to_owned(), replacement: "fn main() {}".to_owned() })
        .unwrap_or_else(|_| panic!("patch should apply"));
    assert_eq!(write.host_path, "/tmp/ws/src/lib.rs");
    assert_eq!(write.contents, "fn main() {}");
    assert!(write.result.updated);
    assert_eq!(write.result.path, "src/lib.rs");
    assert!(session
        .apply_patch(ApplyPatchOperation { path: "../escape".to_owned(), replacement: String::new() })
        .is_err());
}

#[test]
fn memory_notes_read_back_what_was_written() {
    let mut session = session();
    session.write_memory_note("k".to_owned(), "v1".to_owned()).unwrap_or_else(|_| panic!("write"));
    session.write_memory_note("k".to_owned(), "v2".to_owned()).unwrap_or_else(|_| panic!("write"));
    assert_eq!(session.read_memory_note("k").ok().flatten().as_deref(), Some("v2"));
    assert_eq!(session.read_memory_note("other").ok().flatten(), None);
}

#[test]
fn capabilities_keep_first_occurrence_order() {
    let deduped = SandboxCapability::dedupe(vec![
        SandboxCapability::Shell,
        SandboxCapability::Filesystem,
        SandboxCapability::Shell,
    ]);
    assert_eq!(deduped, vec![SandboxCapability::Shell, SandboxCapability::Filesystem]);
    assert_eq!(SandboxCapability::ApplyPatch.as_str(), "apply_patch");
    assert_eq!(SandboxCapability::defaults().len(), 3);
}

#[test]
fn trims_ascii_and_unicode_whitespace() {
    assert_eq!(trim_str("\t hi there \n"), "hi there");
    assert_eq!(trim_str("\u{3000}wide\u{a0}"), "wide");
    assert!(is_blank(" \u{2003} "));
    assert!(!is_blank(" x "));
}

#[test]
fn structured_tool_input_shows_indented_json() {
    let params = JsonValue::Object(vec![JsonMember {
        key: "query".to_owned(),
        value: JsonValue::String("rust".to_owned()),
    }]);
    let info = StructuredInputSchemaInfo { summary: None, json_schema: None };
    let text = default_tool_input_builder(&params, Some(&info));
    assert!(text.contains("{\n  \"query\": \"rust\"\n}"));
}

fn file(name: &str, content: &str) -> agents_core::fingerprint::FingerprintNode {
    agents_core::fingerprint::FingerprintNode::File { name: name.to_owned(), content: content.as_bytes().to_vec() }
}

#[test]
fn fingerprint_of_an_empty_workspace_is_the_digest_of_nothing() {
    assert_eq!(
        agents_core::fingerprint::fingerprint_workspace(&vec![]),
        "e3b0c44298fc1c149afbf4c8996fb92427ae41e4649b934ca495991b7852b855"
    );
}

#[test]
fn fingerprint_digests_entries_in_name_order() {
    let dir = agents_core::fingerprint::FingerprintNode::Dir { name: "b".to_owned(), children: vec![file("c", "yy")] };
    // "a" + "file" + "x", then "b" + "dir", then "b/c" + "file" + "yy".
    let expected = "cab0b8607c8ddb563906a500d84be7c222ab99e3c12d306f2b10f795c6faca0a";
    assert_eq!(agents_core::fingerprint::fingerprint_workspace(&vec![file("a", "x"), dir]), expected);
    let dir = agents_core::fingerprint::FingerprintNode::Dir { name: "b".to_owned(), children: vec![file("c", "yy")] };
    assert_eq!(agents_core::fingerprint::fingerprint_workspace(&vec![dir, file("a", "x")]), expected);
}

#[test]
fn fingerprint_covers_links_and_nested_paths() {
    let link = agents_core::fingerprint::FingerprintNode::Symlink { name: "link".to_owned(), target: "target".to_owned() };
    let dir = agents_core::fingerprint::FingerprintNode::Dir { name: "l".to_owned(), children: vec![link] };
    assert_eq!(
        agents_core::fingerprint::fingerprint_workspace(&vec![dir]),
        "4842d1cb7c44200a7ae799cca081004c586f925263d544d14652c768fc39303e"
    );
}

#[test]
fn trimming_drops_unicode_white_space_beyond_ascii() {
    assert_eq!(trim_str("\u{3000}\u{a0}name\u{2009}\u{85}"), "name");
    assert_eq!(trim_str("\u{200b}name"), "\u{200b}name");
    assert!(is_blank("\u{2028}\u{1680} "));
}
