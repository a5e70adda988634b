//! JSON on the wire: the configuration notification sent downstream and what
//! the router reads of an editor frame.

use vstd::prelude::*;
use vstd::slice::slice_to_vec;
use vstd::string::StringSliceAdditionalSpecFns;
use vstd::utf8::encode_utf8;

use crate::router::{Message, MessageView};
use crate::synthesiser::{strings_view, CompilerOptionsView, SynthesisResult};

verus! {

/// A lowercase hexadecimal digit for `d` in `0..16`.
pub open spec fn hex_digit(d: int) -> u8 {
    if d < 10 { (0x30 + d) as u8 } else { (0x61 + d - 10) as u8 }
}

/// How one byte of a string's UTF-8 encoding is written inside a JSON string
/// literal: `"` and `\` behind a backslash; backspace, tab, line feed, form
/// feed and carriage return as `\b`, `\t`, `\n`, `\f`, `\r`; the other
/// bytes below 0x20 as `\u00` and two lowercase hex digits; every other byte
/// (the bytes of non-ASCII characters among them) as it is.
pub open spec fn json_escape_byte(b: u8) -> Seq<u8> {
    if b == 0x22 {
        seq![0x5Cu8, 0x22u8]
    } else if b == 0x5C {
        seq![0x5Cu8, 0x5Cu8]
    } else if b == 0x08 {
        seq![0x5Cu8, 0x62u8]
    } else if b == 0x09 {
        seq![0x5Cu8, 0x74u8]
    } else if b == 0x0A {
        seq![0x5Cu8, 0x6Eu8]
    } else if b == 0x0C {
        seq![0x5Cu8, 0x66u8]
    } else if b == 0x0D {
        seq![0x5Cu8, 0x72u8]
    } else if b < 0x20 {
        seq![0x5Cu8, 0x75u8, 0x30u8, 0x30u8, hex_digit(b as int / 16), hex_digit(b as int % 16)]
    } else {
        seq![b]
    }
}

/// The bytes `bytes`, each escaped as `json_escape_byte` says, in order.
pub open spec fn json_escape_bytes(bytes: Seq<u8>) -> Seq<u8>
    decreases bytes.len(),
{
    if bytes.len() == 0 {
        Seq::empty()
    } else {
        json_escape_bytes(bytes.drop_last()) + json_escape_byte(bytes.last())
    }
}

/// The JSON string literal of `s` as serde_json writes it: the escaped
/// UTF-8 bytes of `s` between two `"`.
pub closed spec fn json_string(s: Seq<char>) -> Seq<u8> {
    seq![0x22u8] + json_escape_bytes(encode_utf8(s)) + seq![0x22u8]
}

/// `serde_json::to_vec` on a `&str`: the string literal that serde_json's
/// `format_escaped_str` writes, which the contract states as `json_string`.
/// It writes into a `Vec`, which cannot fail, so the error arm is never
/// taken.
#[verifier::external_body]
fn json_string_bytes(s: &str) -> (r: Vec<u8>)
    ensures
        r@ == json_string(s@),
{
    match serde_json::to_vec(s) {
        Ok(v) => v,
        Err(_) => Vec::new(),
    }
}

/// The string literals of `items`, separated by commas.
pub open spec fn json_string_list(items: Seq<Seq<char>>) -> Seq<u8>
    decreases items.len(),
{
    if items.len() == 0 {
        Seq::empty()
    } else if items.len() == 1 {
        json_string(items[0])
    } else {
        json_string_list(items.drop_last()) + ",".spec_bytes() + json_string(items.last())
    }
}

/// A JSON array of strings.
pub open spec fn json_string_array(items: Seq<Seq<char>>) -> Seq<u8> {
    "[".spec_bytes() + json_string_list(items) + "]".spec_bytes()
}

pub open spec fn json_bool(b: bool) -> Seq<u8> {
    if b { "true".spec_bytes() } else { "false".spec_bytes() }
}

/// The `workspace/didChangeConfiguration` notification that hands the
/// compiler options to the downstream server under
/// `settings.typescript.tsserver.implicitProjectConfig.compilerOptions`,
/// written as serde_json writes it (compact, keys in sorted order).
pub open spec fn configuration_notification_spec(o: CompilerOptionsView) -> Seq<u8> {
    "{\"jsonrpc\":\"2.0\",\"method\":\"workspace/didChangeConfiguration\",\"params\":{\"settings\":{\"typescript\":{\"tsserver\":{\"implicitProjectConfig\":{\"compilerOptions\":{\"lib\":".spec_bytes()
        + json_string_array(o.lib)
        + ",\"moduleResolution\":".spec_bytes() + json_string(o.module_resolution)
        + ",\"resolveJsonModule\":".spec_bytes() + json_bool(o.resolve_json_module)
        + ",\"target\":".spec_bytes() + json_string(o.target)
        + ",\"typeRoots\":".spec_bytes() + json_string_array(o.type_roots)
        + ",\"types\":".spec_bytes() + json_string_array(o.types)
        + "}}}}}}}".spec_bytes()
}

/// `p` occurs in `s` as a contiguous run of bytes.
pub open spec fn holds_run(s: Seq<u8>, p: Seq<u8>) -> bool {
    exists|i: int| 0 <= i && i + p.len() <= s.len() && #[trigger] s.subrange(i, i + p.len()) == p
}

proof fn lemma_run_at_end(x: Seq<u8>, b1: Seq<u8>, b2: Seq<u8>, b3: Seq<u8>)
    ensures
        holds_run(x + b1 + b2 + b3, b1 + b2 + b3),
{
    let s = x + b1 + b2 + b3;
    let b = b1 + b2 + b3;
    assert(s.subrange(x.len() as int, (x.len() + b.len()) as int) =~= b);
}

proof fn lemma_run_extends(s: Seq<u8>, c: Seq<u8>, b: Seq<u8>)
    requires
        holds_run(s, b),
    ensures
        holds_run(s + c, b),
{
    let i = choose|i: int| 0 <= i && i + b.len() <= s.len() && #[trigger] s.subrange(i, i + b.len()) == b;
    assert((s + c).subrange(i, i + b.len()) =~= s.subrange(i, i + b.len()));
}

/// The notification carries each compiler option passed in, unchanged, under
/// its own key and between its neighbours: `lib`, `moduleResolution`,
/// `resolveJsonModule`, `target`, `typeRoots` and `types` hold exactly the
/// values of `o`.
pub proof fn lemma_notification_carries_options(o: CompilerOptionsView)
    ensures
        ({
            let n = configuration_notification_spec(o);
            &&& holds_run(n, "{\"jsonrpc\":\"2.0\",\"method\":\"workspace/didChangeConfiguration\",\"params\":{\"settings\":{\"typescript\":{\"tsserver\":{\"implicitProjectConfig\":{\"compilerOptions\":{\"lib\":".spec_bytes()
                + json_string_array(o.lib) + ",\"moduleResolution\":".spec_bytes())
            &&& holds_run(n, ",\"moduleResolution\":".spec_bytes() + json_string(o.module_resolution)
                + ",\"resolveJsonModule\":".spec_bytes())
            &&& holds_run(n, ",\"resolveJsonModule\":".spec_bytes() + json_bool(o.resolve_json_module)
                + ",\"target\":".spec_bytes())
            &&& holds_run(n, ",\"target\":".spec_bytes() + json_string(o.target) + ",\"typeRoots\":".spec_bytes())
            &&& holds_run(n, ",\"typeRoots\":".spec_bytes() + json_string_array(o.type_roots)
                + ",\"types\":".spec_bytes())
            &&& holds_run(n, ",\"types\":".spec_bytes() + json_string_array(o.types) + "}}}}}}}".spec_bytes())
        }),
{
    let h = "{\"jsonrpc\":\"2.0\",\"method\":\"workspace/didChangeConfiguration\",\"params\":{\"settings\":{\"typescript\":{\"tsserver\":{\"implicitProjectConfig\":{\"compilerOptions\":{\"lib\":".spec_bytes();
    let k_mr = ",\"moduleResolution\":".spec_bytes();
    let k_rj = ",\"resolveJsonModule\":".spec_bytes();
    let k_t = ",\"target\":".spec_bytes();
    let k_tr = ",\"typeRoots\":".spec_bytes();
    let k_ty = ",\"types\":".spec_bytes();
    let tail = "}}}}}}}".spec_bytes();
    let v_lib = json_string_array(o.lib);
    let v_mr = json_string(o.module_resolution);
    let v_rj = json_bool(o.resolve_json_module);
    let v_t = json_string(o.target);
    let v_tr = json_string_array(o.type_roots);
    let v_ty = json_string_array(o.types);
    let n = configuration_notification_spec(o);
    let c1 = h + v_lib;
    let c2 = c1 + k_mr;
    let c3 = c2 + v_mr;
    let c4 = c3 + k_rj;
    let c5 = c4 + v_rj;
    let c6 = c5 + k_t;
    let c7 = c6 + v_t;
    let c8 = c7 + k_tr;
    let c9 = c8 + v_tr;
    let c10 = c9 + k_ty;
    let c11 = c10 + v_ty;
    assert(n == c11 + tail);
    assert(h =~= Seq::<u8>::empty() + h);
    lemma_run_at_end(Seq::<u8>::empty(), h, v_lib, k_mr);
    lemma_run_extends(c2, v_mr, h + v_lib + k_mr);
    lemma_run_extends(c3, k_rj, h + v_lib + k_mr);
    lemma_run_extends(c4, v_rj, h + v_lib + k_mr);
    lemma_run_extends(c5, k_t, h + v_lib + k_mr);
    lemma_run_extends(c6, v_t, h + v_lib + k_mr);
    lemma_run_extends(c7, k_tr, h + v_lib + k_mr);
    lemma_run_extends(c8, v_tr, h + v_lib + k_mr);
    lemma_run_extends(c9, k_ty, h + v_lib + k_mr);
    lemma_run_extends(c10, v_ty, h + v_lib + k_mr);
    lemma_run_extends(c11, tail, h + v_lib + k_mr);
    lemma_run_at_end(c1, k_mr, v_mr, k_rj);
    lemma_run_extends(c4, v_rj, k_mr + v_mr + k_rj);
    lemma_run_extends(c5, k_t, k_mr + v_mr + k_rj);
    lemma_run_extends(c6, v_t, k_mr + v_mr + k_rj);
    lemma_run_extends(c7, k_tr, k_mr + v_mr + k_rj);
    lemma_run_extends(c8, v_tr, k_mr + v_mr + k_rj);
    lemma_run_extends(c9, k_ty, k_mr + v_mr + k_rj);
    lemma_run_extends(c10, v_ty, k_mr + v_mr + k_rj);
    lemma_run_extends(c11, tail, k_mr + v_mr + k_rj);
    lemma_run_at_end(c3, k_rj, v_rj, k_t);
    lemma_run_extends(c6, v_t, k_rj + v_rj + k_t);
    lemma_run_extends(c7, k_tr, k_rj + v_rj + k_t);
    lemma_run_extends(c8, v_tr, k_rj + v_rj + k_t);
    lemma_run_extends(c9, k_ty, k_rj + v_rj + k_t);
    lemma_run_extends(c10, v_ty, k_rj + v_rj + k_t);
    lemma_run_extends(c11, tail, k_rj + v_rj + k_t);
    lemma_run_at_end(c5, k_t, v_t, k_tr);
    lemma_run_extends(c8, v_tr, k_t + v_t + k_tr);
    lemma_run_extends(c9, k_ty, k_t + v_t + k_tr);
    lemma_run_extends(c10, v_ty, k_t + v_t + k_tr);
    lemma_run_extends(c11, tail, k_t + v_t + k_tr);
    lemma_run_at_end(c7, k_tr, v_tr, k_ty);
    lemma_run_extends(c10, v_ty, k_tr + v_tr + k_ty);
    lemma_run_extends(c11, tail, k_tr + v_tr + k_ty);
    lemma_run_at_end(c9, k_ty, v_ty, tail);
}

fn push_str(out: &mut Vec<u8>, s: &str)
    ensures
        final(out)@ == old(out)@ + s.spec_bytes(),
{
    let mut v = slice_to_vec(s.as_bytes());
    out.append(&mut v);
}

fn push_string_array(out: &mut Vec<u8>, items: &Vec<String>)
    ensures
        final(out)@ == old(out)@ + json_string_array(strings_view(items@)),
{
    let ghost items_v = strings_view(items@);
    let ghost start = old(out)@ + "[".spec_bytes();
    push_str(out, "[");
    let mut i: usize = 0;
    assert(items_v.take(0) =~= Seq::<Seq<char>>::empty());
    while i < items.len()
        invariant
            i <= items@.len(),
            items_v == strings_view(items@),
            out@ == start + json_string_list(items_v.take(i as int)),
        decreases items@.len() - i,
    {
        let ghost before = out@;
        if i > 0 {
            push_str(out, ",");
        }
        let mut q = json_string_bytes(items[i].as_str());
        out.append(&mut q);
        let ghost t = items_v.take(i + 1);
        assert(t.drop_last() =~= items_v.take(i as int));
        assert(t.last() == items@[i as int]@);
        if i == 0 {
            assert(json_string_list(items_v.take(0)) =~= Seq::<u8>::empty());
            assert(out@ =~= start + json_string_list(t));
        } else {
            assert(out@ =~= start + json_string_list(t));
        }
        i = i + 1;
    }
    assert(items_v.take(i as int) =~= items_v);
    push_str(out, "]");
    assert(final(out)@ =~= old(out)@ + json_string_array(items_v));
}

/// The notification that carries the synthesised compiler options downstream.
pub fn configuration_notification(s: &SynthesisResult) -> (r: Vec<u8>)
    ensures
        r@ == configuration_notification_spec(s@.tsconfig),
{
    let o = &s.tsconfig;
    let mut out: Vec<u8> = Vec::new();
    push_str(&mut out, "{\"jsonrpc\":\"2.0\",\"method\":\"workspace/didChangeConfiguration\",\"params\":{\"settings\":{\"typescript\":{\"tsserver\":{\"implicitProjectConfig\":{\"compilerOptions\":{\"lib\":");
    push_string_array(&mut out, &o.lib);
    push_str(&mut out, ",\"moduleResolution\":");
    let mut v = json_string_bytes(o.module_resolution.as_str());
    out.append(&mut v);
    push_str(&mut out, ",\"resolveJsonModule\":");
    if o.resolve_json_module {
        push_str(&mut out, "true");
    } else {
        push_str(&mut out, "false");
    }
    push_str(&mut out, ",\"target\":");
    let mut v = json_string_bytes(o.target.as_str());
    out.append(&mut v);
    push_str(&mut out, ",\"typeRoots\":");
    push_string_array(&mut out, &o.type_roots);
    push_str(&mut out, ",\"types\":");
    push_string_array(&mut out, &o.types);
    push_str(&mut out, "}}}}}}}");
    assert(out@ =~= configuration_notification_spec(s@.tsconfig));
    out
}

/// Whether `serde_json::from_slice::<serde_json::Value>` accepts these bytes.
pub uninterp spec fn is_json_text(bytes: Seq<u8>) -> bool;

/// What an editor frame that serde_json accepts says of the fields the
/// router reads: `method`, `params.rootUri`, `params.rootPath`,
/// `params.textDocument.uri` and `params.textDocument.text`, each taken when
/// it is a JSON string.
pub uninterp spec fn message_of_json(frame: Seq<u8>) -> MessageView;

/// `serde_json::from_slice::<serde_json::Value>`, then each field that the
/// router reads picked out with `Value::pointer` and `Value::as_str`. `None`
/// exactly when the frame is not JSON.
#[verifier::external_body]
pub(crate) fn json_message(frame: &[u8]) -> (r: Option<Message>)
    ensures
        match r {
            Some(m) => is_json_text(frame@) && m@ == message_of_json(frame@),
            None => !is_json_text(frame@),
        },
{
    let v: serde_json::Value = match serde_json::from_slice(frame) {
        Ok(v) => v,
        Err(_) => return None,
    };
    let at = |p: &str| v.pointer(p).and_then(serde_json::Value::as_str).map(str::to_owned);
    Some(Message {
        method: at("/method"),
        root_uri: at("/params/rootUri"),
        root_path: at("/params/rootPath"),
        document_uri: at("/params/textDocument/uri"),
        document_text: at("/params/textDocument/text"),
    })
}

} // verus!
