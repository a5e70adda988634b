//! Decides whether a file is in Bun context and which signal said so.

use vstd::prelude::*;

use crate::text::{chars_of, contains_chars, contains_seq, find_char, index_of_from, lemma_index_of_from_bounds, matches_at};

verus! {

/// The signal that caused Bun context to be detected.
///
/// Evaluated in priority order: Shebang > BunImport > Lockfile.
/// Only the highest-priority matching signal is returned.
#[derive(Debug, Clone, Copy, PartialEq, Eq, Structural)]
pub enum Signal {
    /// `#!/usr/bin/env bun` on the first line of the file.
    Shebang,
    /// A static ES module import or re-export from the `"bun"` specifier.
    BunImport,
    /// `bun.lockb` exists in the workspace root.
    Lockfile,
}

/// Whether a file is in Bun context and, if so, which signal triggered it.
#[derive(Debug, Clone, Copy, PartialEq, Eq, Structural)]
pub enum DetectionResult {
    Inactive,
    Active { signal: Signal },
}

/// The only shebang line that counts as a Bun signal.
pub open spec fn bun_shebang() -> Seq<char> {
    "#!/usr/bin/env bun"@
}

/// The first line of `s` as `str::lines` yields it: everything before the
/// first `'\n'`, without a `'\r'` that directly precedes that `'\n'`; the
/// whole text when there is no `'\n'` (a final `'\r'` is then kept).
pub open spec fn first_line(s: Seq<char>) -> Seq<char> {
    let nl = index_of_from(s, '\n', 0);
    if nl >= s.len() {
        s
    } else if nl > 0 && s[nl - 1] == '\r' {
        s.subrange(0, nl - 1)
    } else {
        s.subrange(0, nl)
    }
}

/// The first line is exactly `#!/usr/bin/env bun`.
pub open spec fn is_bun_shebang_spec(s: Seq<char>) -> bool {
    first_line(s) == bun_shebang()
}

/// The text contains one of the four static import forms of `"bun"`.
pub open spec fn has_bun_import_spec(s: Seq<char>) -> bool {
    ||| contains_seq(s, "from \"bun\""@)
    ||| contains_seq(s, "from 'bun'"@)
    ||| contains_seq(s, "import \"bun\""@)
    ||| contains_seq(s, "import 'bun'"@)
}

/// The detection outcome for a file whose text is `content`.
///
/// `lockfile_at_root` is `None` when there is no workspace root, and
/// `Some(present)` otherwise, `present` telling whether `bun.lockb` exists as
/// a file at that root.
pub open spec fn detect_spec(content: Seq<char>, lockfile_at_root: Option<bool>) -> DetectionResult {
    if is_bun_shebang_spec(content) {
        DetectionResult::Active { signal: Signal::Shebang }
    } else if has_bun_import_spec(content) {
        DetectionResult::Active { signal: Signal::BunImport }
    } else if lockfile_at_root == Some(true) {
        DetectionResult::Active { signal: Signal::Lockfile }
    } else {
        DetectionResult::Inactive
    }
}

/// One of the four static import forms of `"bun"`, by number.
pub open spec fn bun_import_form(k: int) -> Seq<char> {
    if k == 0 {
        "from \"bun\""@
    } else if k == 1 {
        "from 'bun'"@
    } else if k == 2 {
        "import \"bun\""@
    } else {
        "import 'bun'"@
    }
}

/// An import form of `"bun"` anywhere in the text, whatever comes before or
/// after it, makes the text import `"bun"`, and the file Bun context whatever
/// the workspace says.
pub proof fn lemma_bun_import_anywhere(before: Seq<char>, k: int, after: Seq<char>, lockfile_at_root: Option<bool>)
    requires
        0 <= k < 4,
    ensures
        has_bun_import_spec(before + bun_import_form(k) + after),
        detect_spec(before + bun_import_form(k) + after, lockfile_at_root) is Active,
{
    let p = bun_import_form(k);
    let s = before + p + after;
    let i = before.len() as int;
    assert(s.subrange(i, i + p.len()) =~= p);
}

/// Only the four import forms count: a text that imports `"bun"` holds one
/// of them somewhere.
pub proof fn lemma_bun_import_needs_a_form(s: Seq<char>)
    requires
        has_bun_import_spec(s),
    ensures
        exists|before: Seq<char>, k: int, after: Seq<char>|
            0 <= k < 4 && s == #[trigger] (before + bun_import_form(k) + after),
{
    let k: int = if contains_seq(s, bun_import_form(0)) {
        0
    } else if contains_seq(s, bun_import_form(1)) {
        1
    } else if contains_seq(s, bun_import_form(2)) {
        2
    } else {
        3
    };
    let p = bun_import_form(k);
    let i = choose|i: int| 0 <= i && i + p.len() <= s.len() && #[trigger] s.subrange(i, i + p.len()) == p;
    let before = s.subrange(0, i);
    let after = s.subrange(i + p.len(), s.len() as int);
    assert(s =~= before + p + after);
}

/// With no text to read, the lockfile alone decides: Bun context exactly
/// when `bun.lockb` was found at the workspace root.
pub proof fn lemma_empty_text_follows_lockfile(lockfile_at_root: Option<bool>)
    ensures
        detect_spec(Seq::empty(), lockfile_at_root) == if lockfile_at_root == Some(true) {
            DetectionResult::Active { signal: Signal::Lockfile }
        } else {
            DetectionResult::Inactive
        },
{
    let e = Seq::<char>::empty();
    reveal_strlit("#!/usr/bin/env bun");
    reveal_strlit("from \"bun\"");
    reveal_strlit("from 'bun'");
    reveal_strlit("import \"bun\"");
    reveal_strlit("import 'bun'");
    assert(first_line(e) =~= e);
    assert(!is_bun_shebang_spec(e));
    assert(!has_bun_import_spec(e));
}

/// Decide whether `file_content` (and optionally its workspace) is Bun context.
///
/// Signals are evaluated in priority order and the function returns on the
/// first match. The workspace enters only through `lockfile_at_root`: `None`
/// when there is no workspace root, `Some(present)` when the caller has looked
/// for `bun.lockb` at the root. Shebang and import checks read `file_content`
/// alone.
pub fn detect(file_content: &str, lockfile_at_root: Option<bool>) -> (r: DetectionResult)
    ensures
        r == detect_spec(file_content@, lockfile_at_root),
{
    if is_bun_shebang(file_content) {
        return DetectionResult::Active { signal: Signal::Shebang };
    }
    if has_bun_import(file_content) {
        return DetectionResult::Active { signal: Signal::BunImport };
    }
    if lockfile_at_root == Some(true) {
        return DetectionResult::Active { signal: Signal::Lockfile };
    }
    DetectionResult::Inactive
}

/// Returns true iff the very first line is exactly `#!/usr/bin/env bun`.
/// Leading whitespace and extra arguments (e.g. `#!/usr/bin/env bun --smol`)
/// are not accepted.
pub fn is_bun_shebang(content: &str) -> (r: bool)
    ensures
        r == is_bun_shebang_spec(content@),
{
    let text = chars_of(content);
    let shebang = chars_of("#!/usr/bin/env bun");
    let nl = find_char(&text, '\n', 0);
    proof {
        lemma_index_of_from_bounds(text@, '\n', 0);
    }
    let end = if nl < text.len() && nl > 0 && text[nl - 1] == '\r' {
        nl - 1
    } else {
        nl
    };
    assert(first_line(text@) =~= text@.subrange(0, end as int));
    end == shebang.len() && matches_at(&text, 0, &shebang)
}

/// Returns true if `content` contains a static ES module import or re-export
/// from the `"bun"` specifier: `from "bun"`, `from 'bun'`, `import "bun"` or
/// `import 'bun'`. `require("bun")` and dynamic `import("bun")` do not match.
/// Occurrences inside comments or string literals match too, which is benign.
pub fn has_bun_import(content: &str) -> (r: bool)
    ensures
        r == has_bun_import_spec(content@),
{
    let text = chars_of(content);
    contains_chars(&text, &chars_of("from \"bun\""))
        || contains_chars(&text, &chars_of("from 'bun'"))
        || contains_chars(&text, &chars_of("import \"bun\""))
        || contains_chars(&text, &chars_of("import 'bun'"))
}

} // verus!
