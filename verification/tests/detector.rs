use bundt::detector::{detect, has_bun_import, is_bun_shebang, DetectionResult, Signal};

// The workspace enters `detect` as what was found at its root: `None` without
// a root, `Some(true)` when `bun.lockb` is there, `Some(false)` when it is not.

// ── shebang ──────────────────────────────────────────────────────────────────

#[test]
fn shebang_first_line_exact_match() {
    let result = detect("#!/usr/bin/env bun\nconst x = 1;", None);
    assert_eq!(result, DetectionResult::Active { signal: Signal::Shebang });
}

#[test]
fn shebang_only_line() {
    let result = detect("#!/usr/bin/env bun", None);
    assert_eq!(result, DetectionResult::Active { signal: Signal::Shebang });
}

#[test]
fn shebang_on_second_line_is_not_detected() {
    let result = detect("\n#!/usr/bin/env bun\n", None);
    assert_eq!(result, DetectionResult::Inactive);
}

#[test]
fn shebang_with_extra_arg_is_not_detected() {
    let result = detect("#!/usr/bin/env bun --smol\nconst x = 1;", None);
    assert_eq!(result, DetectionResult::Inactive);
}

#[test]
fn shebang_with_leading_whitespace_is_not_detected() {
    let result = detect(" #!/usr/bin/env bun\n", None);
    assert_eq!(result, DetectionResult::Inactive);
}

#[test]
fn shebang_with_crlf_line_ending_is_detected() {
    assert!(is_bun_shebang("#!/usr/bin/env bun\r\nconst x = 1;"));
}

#[test]
fn shebang_with_trailing_carriage_return_only_is_not_detected() {
    // A lone '\r' with no '\n' after it stays part of the line.
    assert!(!is_bun_shebang("#!/usr/bin/env bun\r"));
}

// ── bun import ───────────────────────────────────────────────────────────────

#[test]
fn named_import_double_quote() {
    let result = detect(r#"import { $ } from "bun";"#, None);
    assert_eq!(result, DetectionResult::Active { signal: Signal::BunImport });
}

#[test]
fn named_import_single_quote() {
    let result = detect("import { $ } from 'bun';", None);
    assert_eq!(result, DetectionResult::Active { signal: Signal::BunImport });
}

#[test]
fn bare_import_double_quote() {
    let result = detect(r#"import "bun";"#, None);
    assert_eq!(result, DetectionResult::Active { signal: Signal::BunImport });
}

#[test]
fn bare_import_single_quote() {
    let result = detect("import 'bun';", None);
    assert_eq!(result, DetectionResult::Active { signal: Signal::BunImport });
}

#[test]
fn reexport_from_bun() {
    let result = detect(r#"export { serve } from "bun";"#, None);
    assert_eq!(result, DetectionResult::Active { signal: Signal::BunImport });
}

#[test]
fn import_from_bun_utils_is_not_detected() {
    let result = detect(r#"import { foo } from "bun-utils";"#, None);
    assert_eq!(result, DetectionResult::Inactive);
}

#[test]
fn require_bun_is_not_detected() {
    let result = detect(r#"const bun = require("bun");"#, None);
    assert_eq!(result, DetectionResult::Inactive);
}

#[test]
fn dynamic_import_bun_is_not_detected() {
    let result = detect(r#"const b = await import("bun");"#, None);
    assert_eq!(result, DetectionResult::Inactive);
}

#[test]
fn import_inside_a_comment_still_matches() {
    assert!(has_bun_import("// see: import 'bun'\nconst x = 1;"));
}

#[test]
fn import_with_non_ascii_text_around_it() {
    assert!(has_bun_import("// 日本語\nimport { $ } from \"bun\"; // ✓"));
    assert!(!has_bun_import("// 日本語 bun"));
}

// ── lockfile ─────────────────────────────────────────────────────────────────

#[test]
fn lockfile_present_at_workspace_root() {
    let result = detect("const x = 1;", Some(true));
    assert_eq!(result, DetectionResult::Active { signal: Signal::Lockfile });
}

#[test]
fn lockfile_absent_at_workspace_root() {
    let result = detect("const x = 1;", Some(false));
    assert_eq!(result, DetectionResult::Inactive);
}

#[test]
fn lockfile_check_skipped_when_workspace_root_is_none() {
    let result = detect("const x = 1;", None);
    assert_eq!(result, DetectionResult::Inactive);
}

// ── inactive ─────────────────────────────────────────────────────────────────

#[test]
fn empty_content_no_workspace_is_inactive() {
    assert_eq!(detect("", None), DetectionResult::Inactive);
}

// ── priority ordering ────────────────────────────────────────────────────────

#[test]
fn shebang_beats_bun_import() {
    let content = "#!/usr/bin/env bun\nimport { $ } from \"bun\";";
    let result = detect(content, None);
    assert_eq!(result, DetectionResult::Active { signal: Signal::Shebang });
}

#[test]
fn bun_import_beats_lockfile() {
    let result = detect(r#"import { $ } from "bun";"#, Some(true));
    assert_eq!(result, DetectionResult::Active { signal: Signal::BunImport });
}

#[test]
fn shebang_beats_lockfile() {
    let result = detect("#!/usr/bin/env bun\n", Some(true));
    assert_eq!(result, DetectionResult::Active { signal: Signal::Shebang });
}
