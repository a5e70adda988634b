use bundt::detector::Signal;
use bundt::launch::launch_command;
use bundt::synthesiser::{synthesise, types_root_path, SynthesisResult};

fn run_synthesise(signal: Signal) -> SynthesisResult {
    synthesise(&signal, "/home/u/.local/share/bundt/bun-types-1.3.14".to_string())
}

#[test]
fn required_fields_present() {
    let result = run_synthesise(Signal::Shebang);
    let cfg = &result.tsconfig;
    assert_eq!(cfg.module_resolution, "bundler");
    assert_eq!(cfg.target, "ESNext");
    assert_eq!(cfg.lib, vec!["ESNext".to_string()]);
    assert!(cfg.resolve_json_module);
    assert_eq!(cfg.types, vec!["bun-types".to_string()]);
}

#[test]
fn types_root_matches_tsconfig() {
    let result = run_synthesise(Signal::Shebang);
    assert_eq!(result.tsconfig.type_roots.len(), 1);
    assert_eq!(result.types_root, result.tsconfig.type_roots[0]);
}

#[test]
fn all_signals_produce_same_tsconfig() {
    let shebang = run_synthesise(Signal::Shebang);
    let bun_import = run_synthesise(Signal::BunImport);
    let lockfile = run_synthesise(Signal::Lockfile);
    assert_eq!(format!("{:?}", shebang), format!("{:?}", bun_import));
    assert_eq!(format!("{:?}", shebang), format!("{:?}", lockfile));
}

#[test]
fn launch_defaults_to_bun_x() {
    let (bin, args) = launch_command(None, Vec::new());
    assert_eq!(bin, "bun");
    assert_eq!(args, vec!["x", "typescript-language-server", "--stdio"]);
    let (bin, args) = launch_command(Some("tsls".to_string()), vec!["--stdio".to_string()]);
    assert_eq!(bin, "tsls");
    assert_eq!(args, vec!["--stdio"]);
}

#[test]
fn type_roots_contains_extraction_path() {
    let root = types_root_path("/home/u/.local/share", "1.3.14");
    let result = synthesise(&Signal::Shebang, root);
    let roots = &result.tsconfig.type_roots;
    assert_eq!(roots.len(), 1);
    let root_str = &roots[0];
    assert!(root_str.ends_with(&format!("bun-types-{}", "1.3.14")), "unexpected typeRoots path: {root_str}");
}

#[test]
fn types_root_path_layout() {
    assert_eq!(types_root_path("/home/u/.local/share", "1.3.14"), "/home/u/.local/share/bundt/bun-types-1.3.14");
    assert_eq!(types_root_path("/data/", "2"), "/data/bundt/bun-types-2");
    assert_eq!(types_root_path("", "2"), "bundt/bun-types-2");
}
