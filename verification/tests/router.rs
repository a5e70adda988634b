use std::path::PathBuf;

use bundt::detector::{DetectionResult, Signal};
use bundt::framing::{decode_frame, encode_frame};
use bundt::router::{message_kind, relay_frame, uri_to_path, Message, MessageKind, Outgoing, Router};
use bundt::synthesiser::synthesise;
use bundt::wire::configuration_notification;
use serde_json::Value;

// ── helpers ──────────────────────────────────────────────────────────────────

fn msg(method: &str) -> Message {
    Message { method: Some(method.to_string()), root_uri: None, root_path: None, document_uri: None, document_text: None }
}

fn initialize(root_uri: Option<&str>) -> Message {
    Message { root_uri: root_uri.map(str::to_string), ..msg("initialize") }
}

fn did_open(uri: &str, text: &str) -> Message {
    Message { document_uri: Some(uri.to_string()), document_text: Some(text.to_string()), ..msg("textDocument/didOpen") }
}

fn did_close(uri: &str) -> Message {
    Message { document_uri: Some(uri.to_string()), ..msg("textDocument/didClose") }
}

/// Runs the router over `msgs` as the proxy loop does. `lockfile_roots` are
/// the workspace roots that hold `bun.lockb`. Returns, in order, the method of
/// each message written downstream.
fn drive(router: &mut Router, msgs: &[Message], lockfile_roots: &[&str]) -> Vec<String> {
    let mut written = Vec::new();
    for m in msgs {
        let lockfile = match router.lockfile_probe_path(m) {
            Some(p) => lockfile_roots.contains(&p.as_str()),
            None => false,
        };
        let synthesis = router
            .synthesis_request(m, lockfile)
            .map(|signal| synthesise(&signal, "/data/bundt/bun-types-1.3.14".to_string()));
        for out in router.handle(m, lockfile, synthesis) {
            match out {
                Outgoing::Configuration(s) => {
                    assert_eq!(s.tsconfig.module_resolution, "bundler");
                    assert_eq!(s.tsconfig.types, vec!["bun-types".to_string()]);
                    written.push("workspace/didChangeConfiguration".to_string());
                }
                Outgoing::ForwardFrame => written.push(m.method.clone().unwrap_or_default()),
            }
        }
    }
    written
}

fn encode(frames: &[&[u8]]) -> Vec<u8> {
    let mut buf = Vec::new();
    for f in frames {
        buf.extend_from_slice(&encode_frame(f));
    }
    buf
}

fn decode_all(bytes: &[u8]) -> Vec<Value> {
    let mut out = Vec::new();
    let mut pos = 0;
    while let Some((f, used)) = decode_frame(&bytes[pos..]).unwrap() {
        pos += used;
        out.push(serde_json::from_slice(&f).unwrap());
    }
    out
}

/// The editor-to-server loop over a whole input stream, as the proxy runs
/// it: decode each frame, skip it unless it is JSON, probe for `bun.lockb`
/// where asked (`lockfile_roots` hold one), synthesise where asked, and
/// write what the router gives. Returns everything written downstream.
fn ide_to_lsp(input: &[u8], lockfile_roots: &[&str]) -> Vec<u8> {
    let mut router = Router::new();
    let mut lsp_in = Vec::new();
    let mut pos = 0;
    while let Some((frame, used)) = decode_frame(&input[pos..]).unwrap() {
        pos += used;
        let accepted = match router.accept_frame(&frame) {
            Some(f) => f,
            None => continue,
        };
        let lockfile = match &accepted.lockfile_probe {
            Some(root) => lockfile_roots.contains(&root.as_str()),
            None => false,
        };
        let synthesis = router
            .synthesis_request(&accepted.message, lockfile)
            .map(|signal| synthesise(&signal, "/data/bundt/bun-types-1.3.14".to_string()));
        for bytes in router.handle_frame(&frame, &accepted.message, lockfile, synthesis) {
            lsp_in.extend_from_slice(&bytes);
        }
    }
    lsp_in
}

// ── uri_to_path ───────────────────────────────────────────────────────────────

#[test]
fn uri_to_path_triple_slash() {
    let p = uri_to_path("file:///home/user/project").unwrap();
    assert_eq!(PathBuf::from(p), PathBuf::from("/home/user/project"));
}

#[test]
fn uri_to_path_with_host() {
    let p = uri_to_path("file://localhost/home/user/project").unwrap();
    assert_eq!(PathBuf::from(p), PathBuf::from("/home/user/project"));
}

#[test]
fn uri_to_path_non_file_scheme_returns_none() {
    assert!(uri_to_path("https://example.com").is_none());
}

#[test]
fn uri_to_path_host_without_path_returns_none() {
    assert!(uri_to_path("file://localhost").is_none());
    assert!(uri_to_path("file:/x").is_none());
}

#[test]
fn uri_to_path_keeps_non_ascii() {
    assert_eq!(uri_to_path("file:///tmp/プロジェクト").as_deref(), Some("/tmp/プロジェクト"));
}

// ── message kinds ─────────────────────────────────────────────────────────────

#[test]
fn message_kinds() {
    assert_eq!(message_kind(&msg("initialize")), MessageKind::Initialize);
    assert_eq!(message_kind(&msg("initialized")), MessageKind::Initialized);
    assert_eq!(message_kind(&msg("textDocument/didOpen")), MessageKind::DidOpen);
    assert_eq!(message_kind(&msg("textDocument/didClose")), MessageKind::DidClose);
    assert_eq!(message_kind(&msg("textDocument/didChange")), MessageKind::Other);
    assert_eq!(message_kind(&msg("Initialize")), MessageKind::Other);
    assert_eq!(message_kind(&Message { method: None, ..msg("x") }), MessageKind::Other);
}

// ── forwarding ────────────────────────────────────────────────────────────────

#[test]
fn unknown_method_forwarded_unchanged() {
    let body = b"{\"method\":\"textDocument/didChange\",\"params\":{}}";
    let lsp_in = ide_to_lsp(&encode(&[body]), &[]);
    assert_eq!(lsp_in, encode_frame(body));
    let frames = decode_all(&lsp_in);
    assert_eq!(frames.len(), 1);
    assert_eq!(frames[0]["method"], "textDocument/didChange");
}

#[test]
fn lsp_to_ide_forwarded_unchanged() {
    let body = b"{\"id\":1,\"result\":{}}";
    let out = relay_frame(body).unwrap();
    assert_eq!(out, encode_frame(body));
    let (received, _) = decode_frame(&out).unwrap().unwrap();
    assert_eq!(received, body);
}

#[test]
fn malformed_json_frame_is_skipped() {
    let mut input = b"Content-Length: 3\r\n\r\nnot".to_vec();
    input.extend_from_slice(&encode_frame(b"{\"ok\":true}"));
    let mut written = Vec::new();
    let mut pos = 0;
    while let Some((body, used)) = decode_frame(&input[pos..]).unwrap() {
        pos += used;
        if let Some(frame) = relay_frame(&body) {
            written.extend_from_slice(&frame);
        }
    }
    let (first, used) = decode_frame(&written).unwrap().unwrap();
    assert_eq!(first, b"{\"ok\":true}");
    assert!(decode_frame(&written[used..]).unwrap().is_none());
}

#[test]
fn relay_accepts_json_with_whitespace_and_refuses_trailing_garbage() {
    assert!(relay_frame(b"  [1, 2]\n").is_some());
    assert!(relay_frame(b"{} {}").is_none());
    assert!(relay_frame(b"").is_none());
}

#[test]
fn eof_on_ide_input_terminates_run() {
    // An empty editor stream ends the loop at once, with nothing written.
    assert!(ide_to_lsp(&[], &[]).is_empty());
}

#[test]
fn initialize_without_rooturi_does_not_crash() {
    let init = br#"{"jsonrpc":"2.0","id":1,"method":"initialize","params":{"rootUri":null,"capabilities":{}}}"#;
    let frames = decode_all(&ide_to_lsp(&encode(&[init]), &[]));
    assert_eq!(frames.len(), 1);
    assert_eq!(frames[0]["method"], "initialize");
}

#[test]
fn initialize_without_lockfile_no_config_injected() {
    let init = br#"{"jsonrpc":"2.0","id":1,"method":"initialize","params":{"rootUri":"file:///work/no-lock","capabilities":{}}}"#;
    let initialized = br#"{"jsonrpc":"2.0","method":"initialized","params":{}}"#;
    let frames = decode_all(&ide_to_lsp(&encode(&[init, initialized]), &[]));
    assert!(
        frames.iter().all(|f| f["method"] != "workspace/didChangeConfiguration"),
        "unexpected config notification: {frames:?}"
    );
}

#[test]
fn initialize_with_lockfile_injects_config_at_initialized() {
    let init = br#"{"jsonrpc":"2.0","id":1,"method":"initialize","params":{"rootUri":"file:///work/bun-app","capabilities":{}}}"#;
    let initialized = br#"{"jsonrpc":"2.0","method":"initialized","params":{}}"#;
    let frames = decode_all(&ide_to_lsp(&encode(&[init, initialized]), &["/work/bun-app"]));
    // Should be: initialize, workspace/didChangeConfiguration, initialized
    assert_eq!(frames.len(), 3, "expected 3 frames, got: {frames:?}");
    assert_eq!(frames[0]["method"], "initialize");
    assert_eq!(frames[1]["method"], "workspace/didChangeConfiguration");
    assert_eq!(frames[2]["method"], "initialized");

    // Config must contain the expected compiler options.
    let compiler_opts =
        &frames[1]["params"]["settings"]["typescript"]["tsserver"]["implicitProjectConfig"]["compilerOptions"];
    assert_eq!(compiler_opts["moduleResolution"], "bundler");
    let types: Vec<&str> = compiler_opts["types"].as_array().unwrap().iter().map(|t| t.as_str().unwrap()).collect();
    assert_eq!(types, vec!["bun-types"]);
}

#[test]
fn initialize_falls_back_to_root_path() {
    let mut router = Router::new();
    let init = Message { root_path: Some("/work/bun-app".to_string()), ..msg("initialize") };
    assert_eq!(router.lockfile_probe_path(&init).as_deref(), Some("/work/bun-app"));
    let written = drive(&mut router, &[init, msg("initialized")], &["/work/bun-app"]);
    assert_eq!(written, vec!["initialize", "workspace/didChangeConfiguration", "initialized"]);
}

#[test]
fn root_uri_wins_over_root_path() {
    let router = Router::new();
    let init = Message {
        root_uri: Some("file:///work/from-uri".to_string()),
        root_path: Some("/work/from-path".to_string()),
        ..msg("initialize")
    };
    assert_eq!(router.lockfile_probe_path(&init).as_deref(), Some("/work/from-uri"));
}

#[test]
fn initialize_frame_with_plain_root_path_activates() {
    let init = br#"{"jsonrpc":"2.0","id":1,"method":"initialize","params":{"rootUri":null,"rootPath":"/ws","capabilities":{}}}"#;
    let initialized = br#"{"jsonrpc":"2.0","method":"initialized","params":{}}"#;
    let out = ide_to_lsp(&encode(&[init, initialized]), &["/ws"]);
    let frames = decode_all(&out);
    assert_eq!(frames.len(), 3);
    assert_eq!(frames[0]["method"], "initialize");
    assert_eq!(frames[1]["method"], "workspace/didChangeConfiguration");
    assert_eq!(frames[2]["method"], "initialized");
}

#[test]
fn failed_synthesis_at_initialize_sends_nothing() {
    let mut router = Router::new();
    let init = initialize(Some("file:///work/bun-app"));
    assert_eq!(router.lockfile_probe_path(&init).as_deref(), Some("/work/bun-app"));
    assert_eq!(router.synthesis_request(&init, true), Some(Signal::Lockfile));
    assert_eq!(router.synthesis_request(&init, false), None);
    let out = router.handle(&init, true, None);
    assert!(matches!(out.as_slice(), [Outgoing::ForwardFrame]));
    let out = router.handle(&msg("initialized"), false, None);
    assert!(matches!(out.as_slice(), [Outgoing::ForwardFrame]));
}

// ── textDocument/didOpen ─────────────────────────────────────────────────────

#[test]
fn did_open_shebang_injects_config_before_did_open() {
    let init = br#"{"jsonrpc":"2.0","id":1,"method":"initialize","params":{"rootUri":null,"capabilities":{}}}"#;
    let initialized = br#"{"jsonrpc":"2.0","method":"initialized","params":{}}"#;
    let did_open = br##"{"jsonrpc":"2.0","method":"textDocument/didOpen","params":{"textDocument":{"uri":"file:///foo.ts","text":"#!/usr/bin/env bun\n"}}}"##;
    let frames = decode_all(&ide_to_lsp(&encode(&[init, initialized, did_open]), &[]));
    // initialize, initialized, workspace/didChangeConfiguration, textDocument/didOpen
    assert_eq!(frames.len(), 4, "expected 4 frames, got: {frames:?}");
    assert_eq!(frames[2]["method"], "workspace/didChangeConfiguration");
    assert_eq!(frames[3]["method"], "textDocument/didOpen");

    let compiler_opts =
        &frames[2]["params"]["settings"]["typescript"]["tsserver"]["implicitProjectConfig"]["compilerOptions"];
    assert_eq!(compiler_opts["moduleResolution"], "bundler");
}

#[test]
fn did_open_non_bun_no_config_injected() {
    let init = br#"{"jsonrpc":"2.0","id":1,"method":"initialize","params":{"rootUri":null,"capabilities":{}}}"#;
    let initialized = br#"{"jsonrpc":"2.0","method":"initialized","params":{}}"#;
    let did_open = br#"{"jsonrpc":"2.0","method":"textDocument/didOpen","params":{"textDocument":{"uri":"file:///foo.ts","text":"const x: number = 1;"}}}"#;
    let frames = decode_all(&ide_to_lsp(&encode(&[init, initialized, did_open]), &[]));
    assert!(
        frames.iter().all(|f| f["method"] != "workspace/didChangeConfiguration"),
        "unexpected config notification: {frames:?}"
    );
}

#[test]
fn second_bun_did_open_no_duplicate_config() {
    let init = br#"{"jsonrpc":"2.0","id":1,"method":"initialize","params":{"rootUri":null,"capabilities":{}}}"#;
    let initialized = br#"{"jsonrpc":"2.0","method":"initialized","params":{}}"#;
    let open1 = br##"{"jsonrpc":"2.0","method":"textDocument/didOpen","params":{"textDocument":{"uri":"file:///a.ts","text":"#!/usr/bin/env bun\n"}}}"##;
    let open2 = br##"{"jsonrpc":"2.0","method":"textDocument/didOpen","params":{"textDocument":{"uri":"file:///b.ts","text":"#!/usr/bin/env bun\n"}}}"##;
    let frames = decode_all(&ide_to_lsp(&encode(&[init, initialized, open1, open2]), &[]));
    let config_count = frames.iter().filter(|f| f["method"] == "workspace/didChangeConfiguration").count();
    assert_eq!(config_count, 1, "expected exactly 1 config notification, got {config_count}");
}

#[test]
fn did_open_in_lockfile_workspace_activates() {
    let mut router = Router::new();
    let written = drive(
        &mut router,
        &[initialize(Some("file:///w")), did_open("file:///w/a.ts", "const x = 1;")],
        &["/w"],
    );
    // Activated at initialize; the configuration waits for `initialized`.
    assert_eq!(written, vec!["initialize", "textDocument/didOpen"]);
    assert_eq!(router.cached_detection("file:///w/a.ts"), Some(DetectionResult::Active { signal: Signal::Lockfile }));
}

#[test]
fn did_open_records_detection_in_cache() {
    let mut router = Router::new();
    drive(&mut router, &[did_open("file:///a.ts", "const x = 1;"), did_open("", "#!/usr/bin/env bun\n")], &[]);
    assert_eq!(router.cached_detection("file:///a.ts"), Some(DetectionResult::Inactive));
    assert_eq!(router.cached_detection(""), None);
}

// ── textDocument/didClose ─────────────────────────────────────────────────────

#[test]
fn did_close_evicts_uri_and_forwards_frame() {
    let mut router = Router::new();
    let written = drive(
        &mut router,
        &[initialize(None), msg("initialized"), did_open("file:///a.ts", "#!/usr/bin/env bun\n"), did_close("file:///a.ts")],
        &[],
    );
    assert!(written.iter().any(|m| m == "textDocument/didClose"), "didClose not forwarded: {written:?}");
    assert_eq!(router.cached_detection("file:///a.ts"), None);
}

#[test]
fn did_close_unknown_uri_does_not_crash() {
    let close = br#"{"jsonrpc":"2.0","method":"textDocument/didClose","params":{"textDocument":{"uri":"file:///never-opened.ts"}}}"#;
    let frames = decode_all(&ide_to_lsp(&encode(&[close]), &[]));
    assert_eq!(frames[0]["method"], "textDocument/didClose");
}

// ── frames on the wire ────────────────────────────────────────────────────────

#[test]
fn malformed_editor_frame_is_skipped_and_others_pass_byte_for_byte() {
    let good1 = b"{ \"id\" : 1 }";
    let good2 = br#"{"jsonrpc":"2.0","method":"$/cancelRequest","params":{"id":1}}"#;
    let lsp_in = ide_to_lsp(&encode(&[good1, b"not json", good2]), &[]);
    assert_eq!(lsp_in, encode(&[good1, good2]));
}

#[test]
fn accept_frame_reads_the_fields() {
    let router = Router::new();
    assert!(router.accept_frame(b"{oops").is_none());
    let f = router
        .accept_frame(br#"{"method":"textDocument/didOpen","params":{"textDocument":{"uri":"file:///a.ts","text":"x","version":1}}}"#)
        .unwrap();
    assert_eq!(f.message.method.as_deref(), Some("textDocument/didOpen"));
    assert_eq!(f.message.document_uri.as_deref(), Some("file:///a.ts"));
    assert_eq!(f.message.document_text.as_deref(), Some("x"));
    assert_eq!(f.message.root_uri, None);
    // No workspace root is known yet, so there is nothing to probe.
    assert_eq!(f.lockfile_probe, None);
    let f = router.accept_frame(br#"{"method":5,"params":{"rootUri":7,"rootPath":"file:///w"}}"#).unwrap();
    assert_eq!(f.message.method, None);
    assert_eq!(f.message.root_uri, None);
    assert_eq!(f.message.root_path.as_deref(), Some("file:///w"));
}

#[test]
fn did_open_probes_lockfile_only_when_text_does_not_decide() {
    let mut router = Router::new();
    let init = router.accept_frame(br#"{"method":"initialize","params":{"rootUri":"file:///w"}}"#).unwrap();
    assert_eq!(init.lockfile_probe.as_deref(), Some("/w"));
    router.handle(&init.message, false, None);
    let plain = router.accept_frame(br#"{"method":"textDocument/didOpen","params":{"textDocument":{"uri":"file:///w/a.ts","text":"x"}}}"#).unwrap();
    assert_eq!(plain.lockfile_probe.as_deref(), Some("/w"));
    let bun = router.accept_frame(br#"{"method":"textDocument/didOpen","params":{"textDocument":{"uri":"file:///w/b.ts","text":"import 'bun';"}}}"#).unwrap();
    assert_eq!(bun.lockfile_probe, None);
}

#[test]
fn configuration_notification_layout() {
    let s = synthesise(&Signal::Lockfile, "/data/dir \"quoted\"\\x".to_string());
    let bytes = configuration_notification(&s);
    let v: Value = serde_json::from_slice(&bytes).unwrap();
    assert_eq!(v["jsonrpc"], "2.0");
    assert_eq!(v["method"], "workspace/didChangeConfiguration");
    let opts = &v["params"]["settings"]["typescript"]["tsserver"]["implicitProjectConfig"]["compilerOptions"];
    assert_eq!(opts["moduleResolution"], "bundler");
    assert_eq!(opts["target"], "ESNext");
    assert_eq!(opts["lib"][0], "ESNext");
    assert_eq!(opts["lib"].as_array().unwrap().len(), 1);
    assert_eq!(opts["resolveJsonModule"], true);
    assert_eq!(opts["typeRoots"][0], "/data/dir \"quoted\"\\x");
    assert_eq!(opts["types"][0], "bun-types");
    assert_eq!(opts.as_object().unwrap().len(), 6);
    // Compact, keys in sorted order, as serde_json writes a JSON object.
    assert_eq!(serde_json::to_vec(&v).unwrap(), bytes);
}

#[test]
fn configuration_notification_escapes_strings() {
    let s = synthesise(&Signal::Lockfile, "/d\"\\\t\n\u{1}\u{1f}\u{7f}\u{e9}".to_string());
    let bytes = configuration_notification(&s);
    let expected: &[u8] = b"\"typeRoots\":[\"/d\\\"\\\\\\t\\n\\u0001\\u001f\x7f\xc3\xa9\"]";
    assert!(bytes.windows(expected.len()).any(|w| w == expected));
}
