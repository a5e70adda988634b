//! Which downstream TypeScript server to start.

use vstd::prelude::*;

use crate::synthesiser::strings_view;

verus! {

/// The downstream server started when none is named: `bun x
/// typescript-language-server --stdio`.
pub open spec fn default_launch() -> (Seq<char>, Seq<Seq<char>>) {
    ("bun"@, seq!["x"@, "typescript-language-server"@, "--stdio"@])
}

/// The program and arguments of the downstream server: the named binary with
/// its arguments, or the default when no binary is named.
pub fn launch_command(binary: Option<String>, lsp_args: Vec<String>) -> (r: (String, Vec<String>))
    ensures
        match binary {
            Some(b) => r.0@ == b@ && r.1@ == lsp_args@,
            None => (r.0@, strings_view(r.1@)) == default_launch(),
        },
{
    match binary {
        Some(b) => (b, lsp_args),
        None => {
            let args = vec!["x".to_string(), "typescript-language-server".to_string(), "--stdio".to_string()];
            let r = ("bun".to_string(), args);
            assert(strings_view(r.1@) =~= default_launch().1);
            r
        },
    }
}

} // verus!
