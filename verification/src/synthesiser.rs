//! The compiler options that give a Bun-context file its type intelligence.

use vstd::prelude::*;

use crate::detector::Signal;
use crate::text::chars_of;
use vstd::string::StringExecFns;

verus! {

/// The in-memory TypeScript compiler options sent to the downstream server.
#[derive(Debug)]
pub struct CompilerOptions {
    pub module_resolution: String,
    pub target: String,
    pub lib: Vec<String>,
    pub resolve_json_module: bool,
    pub type_roots: Vec<String>,
    pub types: Vec<String>,
}

/// The compiler options as plain character sequences.
pub struct CompilerOptionsView {
    pub module_resolution: Seq<char>,
    pub target: Seq<char>,
    pub lib: Seq<Seq<char>>,
    pub resolve_json_module: bool,
    pub type_roots: Seq<Seq<char>>,
    pub types: Seq<Seq<char>>,
}

/// Each string of a list, as characters.
pub open spec fn strings_view(v: Seq<String>) -> Seq<Seq<char>> {
    v.map_values(|s: String| s@)
}

impl View for CompilerOptions {
    type V = CompilerOptionsView;

    open spec fn view(&self) -> CompilerOptionsView {
        CompilerOptionsView {
            module_resolution: self.module_resolution@,
            target: self.target@,
            lib: strings_view(self.lib@),
            resolve_json_module: self.resolve_json_module,
            type_roots: strings_view(self.type_roots@),
            types: strings_view(self.types@),
        }
    }
}

/// What the synthesiser produces: the compiler options and the directory
/// that holds the extracted `bun-types` declarations.
#[derive(Debug)]
pub struct SynthesisResult {
    pub tsconfig: CompilerOptions,
    pub types_root: String,
}

pub struct SynthesisView {
    pub tsconfig: CompilerOptionsView,
    pub types_root: Seq<char>,
}

impl View for SynthesisResult {
    type V = SynthesisView;

    open spec fn view(&self) -> SynthesisView {
        SynthesisView { tsconfig: self.tsconfig@, types_root: self.types_root@ }
    }
}

/// The Bun compiler options for declarations extracted under `types_root`:
/// module resolution `bundler`, target and lib `ESNext`, JSON modules
/// resolved, `types_root` as the only type root and `bun-types` as the only
/// type package.
pub open spec fn bun_compiler_options(types_root: Seq<char>) -> CompilerOptionsView {
    CompilerOptionsView {
        module_resolution: "bundler"@,
        target: "ESNext"@,
        lib: seq!["ESNext"@],
        resolve_json_module: true,
        type_roots: seq![types_root],
        types: seq!["bun-types"@],
    }
}

/// The synthesis for a file detected through `signal`, with the declarations
/// extracted under `types_root`.
pub open spec fn synthesis_spec(signal: Signal, types_root: Seq<char>) -> SynthesisView {
    SynthesisView { tsconfig: bun_compiler_options(types_root), types_root }
}

/// Builds the compiler options for a Bun-context file whose declarations have
/// been extracted under `types_root`.
pub fn synthesise(signal: &Signal, types_root: String) -> (r: SynthesisResult)
    ensures
        r@ == synthesis_spec(*signal, types_root@),
{
    let lib = vec!["ESNext".to_string()];
    let type_roots = vec![types_root.clone()];
    let types = vec!["bun-types".to_string()];
    let r = SynthesisResult {
        tsconfig: CompilerOptions {
            module_resolution: "bundler".to_string(),
            target: "ESNext".to_string(),
            lib,
            resolve_json_module: true,
            type_roots,
            types,
        },
        types_root,
    };
    assert(r.tsconfig@.lib =~= seq!["ESNext"@]);
    assert(r.tsconfig@.type_roots =~= seq![r.types_root@]);
    assert(r.tsconfig@.types =~= seq!["bun-types"@]);
    r
}

/// The signal does not change what is synthesised.
pub proof fn lemma_synthesis_ignores_signal(a: Signal, b: Signal, types_root: Seq<char>)
    ensures
        synthesis_spec(a, types_root) == synthesis_spec(b, types_root),
{
}

/// The type root of the compiler options is the extraction directory itself.
pub proof fn lemma_type_roots_is_types_root(signal: Signal, types_root: Seq<char>)
    ensures
        synthesis_spec(signal, types_root).tsconfig.type_roots == seq![synthesis_spec(signal, types_root).types_root],
{
}

/// The synthesis keeps the extraction directory it is given, unchanged: it
/// is the recorded types root and the only type root of the options, beside
/// module resolution `bundler`, target and lib `ESNext`, JSON modules
/// resolved and `bun-types` as the only type package.
pub proof fn lemma_synthesis_keeps_types_root(signal: Signal, root: Seq<char>)
    ensures
        synthesis_spec(signal, root).types_root == root,
        synthesis_spec(signal, root).tsconfig.type_roots == seq![root],
        synthesis_spec(signal, root).tsconfig.module_resolution == "bundler"@,
        synthesis_spec(signal, root).tsconfig.target == "ESNext"@,
        synthesis_spec(signal, root).tsconfig.lib == seq!["ESNext"@],
        synthesis_spec(signal, root).tsconfig.resolve_json_module,
        synthesis_spec(signal, root).tsconfig.types == seq!["bun-types"@],
{
}

/// `part` appended to the path `base` with one `/` between them: none is
/// added when `base` is empty or already ends with `/`.
pub open spec fn join_path(base: Seq<char>, part: Seq<char>) -> Seq<char> {
    if base.len() == 0 || base.last() == '/' {
        base + part
    } else {
        base + seq!['/'] + part
    }
}

/// Where the declarations of `bun-types` version `version` are extracted:
/// `{data_dir}/bundt/bun-types-{version}`.
pub open spec fn types_root_spec(data_dir: Seq<char>, version: Seq<char>) -> Seq<char> {
    join_path(join_path(data_dir, "bundt"@), "bun-types-"@ + version)
}

fn push_component(path: &mut String, part: &str)
    ensures
        final(path)@ == join_path(old(path)@, part@),
{
    let chars = chars_of(path.as_str());
    let n = chars.len();
    if n > 0 && chars[n - 1] != '/' {
        proof {
            reveal_strlit("/");
        }
        path.append("/");
        assert(path@ =~= old(path)@ + seq!['/']);
    }
    path.append(part);
}

/// The extraction directory for `bun-types` version `version` under the
/// user data directory `data_dir`.
pub fn types_root_path(data_dir: &str, version: &str) -> (r: String)
    ensures
        r@ == types_root_spec(data_dir@, version@),
{
    let mut path = String::from_str(data_dir);
    push_component(&mut path, "bundt");
    let mut last = String::from_str("bun-types-");
    last.append(version);
    push_component(&mut path, last.as_str());
    path
}

} // verus!
