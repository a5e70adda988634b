//! The decisions of the message loop between the editor and the downstream
//! TypeScript server. The loop itself (reading, writing, probing the disk)
//! runs outside; it hands each editor message here and performs what comes
//! back.

use vstd::prelude::*;
use vstd::string::StrSliceExecFns;

use crate::detector::{detect, detect_spec, lemma_empty_text_follows_lockfile, DetectionResult, Signal};
use crate::framing::{decode_frame_spec, encode_frame, encode_frame_spec, lemma_frame_round_trip, FrameError};
use crate::wire::{configuration_notification, configuration_notification_spec, is_json_text, json_message, message_of_json};
use crate::synthesiser::{SynthesisResult, SynthesisView};
use crate::text::{chars_of, find_char, index_of_from, lemma_index_of_from_bounds, lemma_index_of_from_skip, matches_at, starts_with_seq, str_eq};

verus! {

/// The empty literal holds no character.
proof fn lemma_empty_literal()
    ensures
        ""@ == Seq::<char>::empty(),
{
    reveal_strlit("");
    assert(""@ =~= Seq::<char>::empty());
}

/// An optional string as characters.
pub open spec fn opt_view(o: Option<String>) -> Option<Seq<char>> {
    match o {
        Some(s) => Some(s@),
        None => None,
    }
}

// ---------------------------------------------------------------------------
// File URIs
// ---------------------------------------------------------------------------

/// The path of a `file://` URI: what follows `file://` from its first `/` on
/// (so `file:///p` and `file://host/p` both give `/p`); `None` for another
/// scheme or when no `/` follows.
pub open spec fn uri_to_path_spec(uri: Seq<char>) -> Option<Seq<char>> {
    let scheme = "file://"@;
    if !starts_with_seq(uri, scheme) {
        None
    } else {
        let rest = uri.subrange(scheme.len() as int, uri.len() as int);
        let slash = index_of_from(rest, '/', 0);
        if slash < rest.len() {
            Some(rest.subrange(slash, rest.len() as int))
        } else {
            None
        }
    }
}

/// Converts a `file://` URI to a filesystem path.
/// Handles `file:///path` and `file://host/path` forms.
pub fn uri_to_path(uri: &str) -> (r: Option<String>)
    ensures
        opt_view(r) == uri_to_path_spec(uri@),
{
    let u = chars_of(uri);
    let scheme = chars_of("file://");
    if !matches_at(&u, 0, &scheme) {
        return None;
    }
    let start = scheme.len();
    let slash = find_char(&u, '/', start);
    let ghost rest = u@.subrange(start as int, u@.len() as int);
    proof {
        lemma_index_of_from_skip(u@, '/', start as int, 0);
        lemma_index_of_from_bounds(u@, '/', start as int);
    }
    if slash == u.len() {
        return None;
    }
    let path = uri.substring_char(slash, u.len()).to_string();
    assert(rest.subrange(slash - start, rest.len() as int) =~= u@.subrange(slash as int, u@.len() as int));
    Some(path)
}

/// A URI made of `file://`, a host without `/` (possibly empty) and an
/// absolute path gives back that path.
pub proof fn lemma_file_uri_gives_path(host: Seq<char>, path: Seq<char>)
    requires
        path.len() > 0,
        path[0] == '/',
        forall|i: int| 0 <= i < host.len() ==> host[i] != '/',
    ensures
        uri_to_path_spec("file://"@ + host + path) == Some(path),
{
    let scheme = "file://"@;
    let uri = scheme + host + path;
    let rest = host + path;
    assert(uri.subrange(0, scheme.len() as int) =~= scheme);
    assert(uri.subrange(scheme.len() as int, uri.len() as int) =~= rest);
    lemma_index_of_from_bounds(rest, '/', 0);
    assert(rest[host.len() as int] == '/');
    let slash = index_of_from(rest, '/', 0);
    assert(slash <= host.len()) by {
        if slash > host.len() {
            assert(rest[host.len() as int] != '/');
        }
    }
    assert(slash >= host.len()) by {
        if slash < host.len() {
            assert(rest[slash] == host[slash]);
        }
    }
    assert(rest.subrange(slash, rest.len() as int) =~= path);
}

// ---------------------------------------------------------------------------
// Detection cache
// ---------------------------------------------------------------------------

/// The entries as plain values.
pub open spec fn entries_view(e: Seq<(String, DetectionResult)>) -> Seq<(Seq<char>, DetectionResult)> {
    e.map_values(|p: (String, DetectionResult)| (p.0@, p.1))
}

/// The map that a list of entries denotes; a later entry wins over an
/// earlier one with the same key.
pub open spec fn entries_map(e: Seq<(Seq<char>, DetectionResult)>) -> Map<Seq<char>, DetectionResult>
    decreases e.len(),
{
    if e.len() == 0 {
        Map::empty()
    } else {
        entries_map(e.drop_last()).insert(e.last().0, e.last().1)
    }
}

/// No key occurs twice.
pub open spec fn keys_distinct(e: Seq<(Seq<char>, DetectionResult)>) -> bool {
    forall|i: int, j: int| 0 <= i < j < e.len() ==> #[trigger] e[i].0 != #[trigger] e[j].0
}

proof fn lemma_entries_map_keys(e: Seq<(Seq<char>, DetectionResult)>, k: Seq<char>)
    ensures
        entries_map(e).contains_key(k) <==> exists|i: int| 0 <= i < e.len() && #[trigger] e[i].0 == k,
    decreases e.len(),
{
    if e.len() > 0 {
        let p = e.drop_last();
        lemma_entries_map_keys(p, k);
        if exists|i: int| 0 <= i < p.len() && #[trigger] p[i].0 == k {
            let i = choose|i: int| 0 <= i < p.len() && #[trigger] p[i].0 == k;
            assert(e[i].0 == k);
        }
        if exists|i: int| 0 <= i < e.len() && #[trigger] e[i].0 == k {
            let i = choose|i: int| 0 <= i < e.len() && #[trigger] e[i].0 == k;
            if i < e.len() - 1 {
                assert(p[i].0 == k);
            }
        }
    }
}

proof fn lemma_entries_map_update(e: Seq<(Seq<char>, DetectionResult)>, i: int, v: DetectionResult)
    requires
        0 <= i < e.len(),
        keys_distinct(e),
    ensures
        entries_map(e.update(i, (e[i].0, v))) == entries_map(e).insert(e[i].0, v),
    decreases e.len(),
{
    let k = e[i].0;
    let u = e.update(i, (k, v));
    if i == e.len() - 1 {
        assert(u.drop_last() =~= e.drop_last());
        assert(entries_map(e).insert(k, v) =~= entries_map(e.drop_last()).insert(k, v));
    } else {
        let p = e.drop_last();
        assert(keys_distinct(p));
        lemma_entries_map_update(p, i, v);
        assert(u.drop_last() =~= p.update(i, (k, v)));
        assert(e.last().0 != k);
        assert(entries_map(u) =~= entries_map(e).insert(k, v));
    }
}

proof fn lemma_entries_map_remove(e: Seq<(Seq<char>, DetectionResult)>, i: int)
    requires
        0 <= i < e.len(),
        keys_distinct(e),
    ensures
        entries_map(e.remove(i)) == entries_map(e).remove(e[i].0),
        keys_distinct(e.remove(i)),
    decreases e.len(),
{
    let k = e[i].0;
    let r = e.remove(i);
    let p = e.drop_last();
    if i == e.len() - 1 {
        assert(r =~= p);
        lemma_entries_map_keys(p, k);
        assert(!entries_map(p).contains_key(k));
        assert(entries_map(e).remove(k) =~= entries_map(p));
    } else {
        assert(keys_distinct(p));
        lemma_entries_map_remove(p, i);
        assert(r.drop_last() =~= p.remove(i));
        assert(r.last() == e.last());
        assert(e.last().0 != k);
        assert(entries_map(r) =~= entries_map(e).remove(k));
    }
    assert forall|a: int, b: int| 0 <= a < b < r.len() implies #[trigger] r[a].0 != #[trigger] r[b].0 by {
        let ea = if a < i { a } else { a + 1 };
        let eb = if b < i { b } else { b + 1 };
        assert(r[a] == e[ea]);
        assert(r[b] == e[eb]);
    }
}

/// The detection result of each open document, by URI.
pub struct DetectionCache {
    entries: Vec<(String, DetectionResult)>,
}

impl View for DetectionCache {
    type V = Map<Seq<char>, DetectionResult>;

    closed spec fn view(&self) -> Map<Seq<char>, DetectionResult> {
        entries_map(entries_view(self.entries@))
    }
}

impl DetectionCache {
    /// No URI is listed twice.
    #[verifier::type_invariant]
    spec fn inv(&self) -> bool {
        keys_distinct(entries_view(self.entries@))
    }

    pub fn new() -> (r: DetectionCache)
        ensures
            r@ == Map::<Seq<char>, DetectionResult>::empty(),
    {
        let r = DetectionCache { entries: Vec::new() };
        assert(entries_view(r.entries@) =~= Seq::<(Seq<char>, DetectionResult)>::empty());
        r
    }

    /// Index of the entry for `uri`, or the number of entries.
    fn position(&self, uri: &str) -> (i: usize)
        ensures
            i <= self.entries@.len(),
            i < self.entries@.len() ==> self.entries@[i as int].0@ == uri@,
            i == self.entries@.len() ==> !self@.contains_key(uri@),
    {
        let mut i: usize = 0;
        while i < self.entries.len()
            invariant
                i <= self.entries@.len(),
                forall|j: int| 0 <= j < i ==> (#[trigger] self.entries@[j]).0@ != uri@,
            decreases self.entries@.len() - i,
        {
            if str_eq(self.entries[i].0.as_str(), uri) {
                return i;
            }
            i = i + 1;
        }
        let ghost e = entries_view(self.entries@);
        proof {
            lemma_entries_map_keys(e, uri@);
            if exists|j: int| 0 <= j < e.len() && #[trigger] e[j].0 == uri@ {
                let j = choose|j: int| 0 <= j < e.len() && #[trigger] e[j].0 == uri@;
                assert(self.entries@[j].0@ == uri@);
            }
        }
        i
    }

    /// Records `result` for `uri`, replacing an earlier result.
    pub fn insert(&mut self, uri: String, result: DetectionResult)
        ensures
            final(self)@ == old(self)@.insert(uri@, result),
    {
        proof {
            use_type_invariant(&*self);
        }
        let i = self.position(uri.as_str());
        let ghost e = entries_view(self.entries@);
        let mut entries: Vec<(String, DetectionResult)> = Vec::new();
        std::mem::swap(&mut entries, &mut self.entries);
        if i < entries.len() {
            proof {
                lemma_entries_map_update(e, i as int, result);
            }
            entries.set(i, (uri, result));
            assert(entries_view(entries@) =~= e.update(i as int, (e[i as int].0, result)));
            self.entries = entries;
        } else {
            proof {
                lemma_entries_map_keys(e, uri@);
            }
            entries.push((uri, result));
            let ghost f = entries_view(entries@);
            assert(f.drop_last() =~= e);
            assert forall|a: int, b: int| 0 <= a < b < f.len() implies #[trigger] f[a].0 != #[trigger] f[b].0 by {
                assert(f[a] == e[a]);
                if b == f.len() - 1 {
                    assert(f[b].0 == uri@);
                    assert(e[a].0 != uri@);
                } else {
                    assert(f[b] == e[b]);
                }
            }
            self.entries = entries;
        }
    }

    /// Forgets `uri`; nothing happens when it is not recorded.
    pub fn remove(&mut self, uri: &str)
        ensures
            final(self)@ == old(self)@.remove(uri@),
    {
        proof {
            use_type_invariant(&*self);
        }
        let i = self.position(uri);
        let ghost e = entries_view(self.entries@);
        if i < self.entries.len() {
            proof {
                lemma_entries_map_remove(e, i as int);
            }
            let mut entries: Vec<(String, DetectionResult)> = Vec::new();
            std::mem::swap(&mut entries, &mut self.entries);
            entries.remove(i);
            assert(entries_view(entries@) =~= e.remove(i as int));
            self.entries = entries;
        } else {
            assert(self@ =~= old(self)@.remove(uri@));
        }
    }

    /// The result recorded for `uri`, if any.
    pub fn get(&self, uri: &str) -> (r: Option<DetectionResult>)
        ensures
            r == (if self@.contains_key(uri@) { Some(self@[uri@]) } else { None::<DetectionResult> }),
    {
        proof {
            use_type_invariant(self);
        }
        let i = self.position(uri);
        if i < self.entries.len() {
            let ghost e = entries_view(self.entries@);
            proof {
                lemma_entries_map_update(e, i as int, self.entries@[i as int].1);
                assert(e.update(i as int, (e[i as int].0, e[i as int].1)) =~= e);
            }
            Some(self.entries[i].1)
        } else {
            None
        }
    }
}

// ---------------------------------------------------------------------------
// Messages from the editor
// ---------------------------------------------------------------------------

/// What the router reads of an editor message: its `method` and the string
/// parameters it may use, each `None` when absent or not a string.
#[derive(Debug)]
pub struct Message {
    /// `method`.
    pub method: Option<String>,
    /// `params.rootUri`.
    pub root_uri: Option<String>,
    /// `params.rootPath`.
    pub root_path: Option<String>,
    /// `params.textDocument.uri`.
    pub document_uri: Option<String>,
    /// `params.textDocument.text`.
    pub document_text: Option<String>,
}

pub struct MessageView {
    pub method: Option<Seq<char>>,
    pub root_uri: Option<Seq<char>>,
    pub root_path: Option<Seq<char>>,
    pub document_uri: Option<Seq<char>>,
    pub document_text: Option<Seq<char>>,
}

impl View for Message {
    type V = MessageView;

    open spec fn view(&self) -> MessageView {
        MessageView {
            method: opt_view(self.method),
            root_uri: opt_view(self.root_uri),
            root_path: opt_view(self.root_path),
            document_uri: opt_view(self.document_uri),
            document_text: opt_view(self.document_text),
        }
    }
}

/// The messages the router treats specially; all others are forwarded as
/// they are.
#[derive(Debug, Clone, Copy, PartialEq, Eq, Structural)]
pub enum MessageKind {
    Initialize,
    Initialized,
    DidOpen,
    DidClose,
    Other,
}

pub open spec fn message_kind_spec(method: Option<Seq<char>>) -> MessageKind {
    match method {
        Some(m) => if m == "initialize"@ {
            MessageKind::Initialize
        } else if m == "initialized"@ {
            MessageKind::Initialized
        } else if m == "textDocument/didOpen"@ {
            MessageKind::DidOpen
        } else if m == "textDocument/didClose"@ {
            MessageKind::DidClose
        } else {
            MessageKind::Other
        },
        None => MessageKind::Other,
    }
}

/// Which of the handled methods a message carries.
pub fn message_kind(msg: &Message) -> (k: MessageKind)
    ensures
        k == message_kind_spec(msg@.method),
{
    match &msg.method {
        None => MessageKind::Other,
        Some(m) => {
            let m = m.as_str();
            if str_eq(m, "initialize") {
                MessageKind::Initialize
            } else if str_eq(m, "initialized") {
                MessageKind::Initialized
            } else if str_eq(m, "textDocument/didOpen") {
                MessageKind::DidOpen
            } else if str_eq(m, "textDocument/didClose") {
                MessageKind::DidClose
            } else {
                MessageKind::Other
            }
        },
    }
}

/// The workspace root an `initialize` request names: the path of `rootUri`
/// when it is a string (a `file://` URI), else `rootPath` as given, which the
/// protocol defines as a plain file-system path.
pub open spec fn workspace_root_spec(root_uri: Option<Seq<char>>, root_path: Option<Seq<char>>) -> Option<Seq<char>> {
    match root_uri {
        Some(u) => uri_to_path_spec(u),
        None => root_path,
    }
}

fn workspace_root_of(msg: &Message) -> (r: Option<String>)
    ensures
        opt_view(r) == workspace_root_spec(msg@.root_uri, msg@.root_path),
{
    match &msg.root_uri {
        Some(u) => uri_to_path(u.as_str()),
        None => match &msg.root_path {
            Some(p) => Some(p.clone()),
            None => None,
        },
    }
}

/// The text of an optional string, empty when absent.
pub open spec fn or_empty(o: Option<Seq<char>>) -> Seq<char> {
    match o {
        Some(s) => s,
        None => Seq::empty(),
    }
}

/// What the detector learns of the workspace: nothing without a root,
/// otherwise whether `bun.lockb` is at that root.
pub open spec fn lockfile_probe(root: Option<Seq<char>>, lockfile_at_root: bool) -> Option<bool> {
    if root is Some { Some(lockfile_at_root) } else { None }
}

// ---------------------------------------------------------------------------
// The router
// ---------------------------------------------------------------------------

/// What the router does, besides changing its state.
#[derive(Debug)]
pub enum Outgoing {
    /// Send a `workspace/didChangeConfiguration` notification that carries
    /// these compiler options to the downstream server.
    Configuration(SynthesisResult),
    /// Forward the editor's message to the downstream server unchanged.
    ForwardFrame,
}

pub enum OutgoingView {
    Configuration(SynthesisView),
    ForwardFrame,
}

impl View for Outgoing {
    type V = OutgoingView;

    open spec fn view(&self) -> OutgoingView {
        match self {
            Outgoing::Configuration(s) => OutgoingView::Configuration(s@),
            Outgoing::ForwardFrame => OutgoingView::ForwardFrame,
        }
    }
}

pub open spec fn outgoing_view(v: Seq<Outgoing>) -> Seq<OutgoingView> {
    v.map_values(|o: Outgoing| o@)
}

pub open spec fn synthesis_view(s: Option<SynthesisResult>) -> Option<SynthesisView> {
    match s {
        Some(x) => Some(x@),
        None => None,
    }
}

/// The router's state as plain values.
pub struct RouterView {
    /// The workspace root named at `initialize`.
    pub workspace_root: Option<Seq<char>>,
    /// Bun context has been detected and its configuration produced.
    pub bun_active: bool,
    /// Produced at `initialize` for a lockfile workspace, sent at `initialized`.
    pub pending: Option<SynthesisView>,
    /// The detection result of each open document.
    pub cache: Map<Seq<char>, DetectionResult>,
}

/// The path at which the caller must look for `bun.lockb` before handing
/// `msg` over: the root an `initialize` names; the known root for a
/// `textDocument/didOpen` whose text alone does not show Bun context; none
/// otherwise.
pub open spec fn probe_path_spec(st: RouterView, msg: MessageView) -> Option<Seq<char>> {
    match message_kind_spec(msg.method) {
        MessageKind::Initialize => workspace_root_spec(msg.root_uri, msg.root_path),
        MessageKind::DidOpen => if detect_spec(or_empty(msg.document_text), None) is Active {
            None
        } else {
            st.workspace_root
        },
        _ => None,
    }
}

/// The signal for which handling `msg` calls for a synthesis, if it does: at
/// `initialize` when the named root holds `bun.lockb`; at
/// `textDocument/didOpen` when the document is Bun context and Bun context
/// was not active yet.
pub open spec fn synthesis_request_spec(st: RouterView, msg: MessageView, lockfile_at_root: bool) -> Option<Signal> {
    match message_kind_spec(msg.method) {
        MessageKind::Initialize => {
            let root = workspace_root_spec(msg.root_uri, msg.root_path);
            match detect_spec(Seq::empty(), lockfile_probe(root, lockfile_at_root)) {
                DetectionResult::Active { signal } => if root is Some { Some(signal) } else { None },
                DetectionResult::Inactive => None,
            }
        },
        MessageKind::DidOpen => {
            match detect_spec(or_empty(msg.document_text), lockfile_probe(st.workspace_root, lockfile_at_root)) {
                DetectionResult::Active { signal } => if !st.bun_active { Some(signal) } else { None },
                DetectionResult::Inactive => None,
            }
        },
        _ => None,
    }
}

/// Whether handling `msg` calls for a synthesis.
pub open spec fn needs_synthesis_spec(st: RouterView, msg: MessageView, lockfile_at_root: bool) -> bool {
    synthesis_request_spec(st, msg, lockfile_at_root) is Some
}

/// One step of the router: the next state and what to send, in order, for
/// the editor message `msg`. `lockfile_at_root` tells whether `bun.lockb` is
/// at the path `probe_path_spec` named; `synthesis` is the synthesis when
/// one was called for and produced, `None` when it failed.
pub open spec fn step_spec(
    st: RouterView,
    msg: MessageView,
    lockfile_at_root: bool,
    synthesis: Option<SynthesisView>,
) -> (RouterView, Seq<OutgoingView>) {
    let forward = seq![OutgoingView::ForwardFrame];
    match message_kind_spec(msg.method) {
        MessageKind::Initialize => {
            let root = workspace_root_spec(msg.root_uri, msg.root_path);
            let st1 = RouterView { workspace_root: root, ..st };
            if needs_synthesis_spec(st, msg, lockfile_at_root) && synthesis is Some {
                (RouterView { bun_active: true, pending: synthesis, ..st1 }, forward)
            } else {
                (st1, forward)
            }
        },
        MessageKind::Initialized => {
            if st.bun_active && st.pending is Some {
                (
                    RouterView { pending: None, ..st },
                    seq![OutgoingView::Configuration(st.pending->0), OutgoingView::ForwardFrame],
                )
            } else {
                (st, forward)
            }
        },
        MessageKind::DidOpen => {
            let uri = or_empty(msg.document_uri);
            let result = detect_spec(or_empty(msg.document_text), lockfile_probe(st.workspace_root, lockfile_at_root));
            let cache = if uri.len() > 0 { st.cache.insert(uri, result) } else { st.cache };
            if needs_synthesis_spec(st, msg, lockfile_at_root) && synthesis is Some {
                (
                    RouterView { bun_active: true, cache, ..st },
                    seq![OutgoingView::Configuration(synthesis->0), OutgoingView::ForwardFrame],
                )
            } else {
                (RouterView { cache, ..st }, forward)
            }
        },
        MessageKind::DidClose => {
            let uri = or_empty(msg.document_uri);
            (RouterView { cache: st.cache.remove(uri), ..st }, forward)
        },
        MessageKind::Other => (st, forward),
    }
}

/// An editor frame that holds JSON, as the router reads it.
#[derive(Debug)]
pub struct EditorFrame {
    /// What the router reads of the frame.
    pub message: Message,
    /// Where to look for `bun.lockb` before handling it.
    pub lockfile_probe: Option<String>,
}

/// Byte strings as sequences.
pub open spec fn bytes_view(v: Seq<Vec<u8>>) -> Seq<Seq<u8>> {
    v.map_values(|b: Vec<u8>| b@)
}

/// The frame written downstream for an action taken on the editor frame
/// whose body is `body`.
pub open spec fn frame_bytes(o: OutgoingView, body: Seq<u8>) -> Seq<u8> {
    match o {
        OutgoingView::Configuration(s) => encode_frame_spec(configuration_notification_spec(s.tsconfig)),
        OutgoingView::ForwardFrame => encode_frame_spec(body),
    }
}

/// One step of the router on the editor frame `body` that reads as `msg`:
/// the next state and the frames written downstream, in order.
pub open spec fn handle_frame_spec(
    st: RouterView,
    body: Seq<u8>,
    msg: MessageView,
    lockfile_at_root: bool,
    synthesis: Option<SynthesisView>,
) -> (RouterView, Seq<Seq<u8>>) {
    let (next, sent) = step_spec(st, msg, lockfile_at_root, synthesis);
    (next, sent.map_values(|o: OutgoingView| frame_bytes(o, body)))
}

/// The state of the editor-to-server direction.
pub struct Router {
    workspace_root: Option<String>,
    bun_active: bool,
    pending_synthesis: Option<SynthesisResult>,
    detection_cache: DetectionCache,
}

impl View for Router {
    type V = RouterView;

    closed spec fn view(&self) -> RouterView {
        RouterView {
            workspace_root: opt_view(self.workspace_root),
            bun_active: self.bun_active,
            pending: synthesis_view(self.pending_synthesis),
            cache: self.detection_cache@,
        }
    }
}

impl Router {
    pub fn new() -> (r: Router)
        ensures
            r@.workspace_root == None::<Seq<char>>,
            !r@.bun_active,
            r@.pending == None::<SynthesisView>,
            r@.cache == Map::<Seq<char>, DetectionResult>::empty(),
    {
        Router {
            workspace_root: None,
            bun_active: false,
            pending_synthesis: None,
            detection_cache: DetectionCache::new(),
        }
    }

    /// Where to look for `bun.lockb` before handing `msg` to `handle`.
    pub fn lockfile_probe_path(&self, msg: &Message) -> (r: Option<String>)
        ensures
            opt_view(r) == probe_path_spec(self@, msg@),
    {
        proof {
            lemma_empty_literal();
        }
        match message_kind(msg) {
            MessageKind::Initialize => workspace_root_of(msg),
            MessageKind::DidOpen => {
                let by_text = match &msg.document_text {
                    Some(t) => detect(t.as_str(), None),
                    None => detect("", None),
                };
                match by_text {
                    DetectionResult::Active { .. } => None,
                    DetectionResult::Inactive => match &self.workspace_root {
                        Some(root) => Some(root.clone()),
                        None => None,
                    },
                }
            },
            _ => None,
        }
    }

    /// The signal for which `handle` wants a synthesis for `msg`, if it
    /// wants one.
    pub fn synthesis_request(&self, msg: &Message, lockfile_at_root: bool) -> (r: Option<Signal>)
        ensures
            r == synthesis_request_spec(self@, msg@, lockfile_at_root),
    {
        proof {
            lemma_empty_literal();
        }
        match message_kind(msg) {
            MessageKind::Initialize => {
                let root = workspace_root_of(msg);
                let probe = match &root {
                    Some(_) => Some(lockfile_at_root),
                    None => None,
                };
                match detect("", probe) {
                    DetectionResult::Active { signal } => match root {
                        Some(_) => Some(signal),
                        None => None,
                    },
                    DetectionResult::Inactive => None,
                }
            },
            MessageKind::DidOpen => {
                let probe = match &self.workspace_root {
                    Some(_) => Some(lockfile_at_root),
                    None => None,
                };
                let result = match &msg.document_text {
                    Some(t) => detect(t.as_str(), probe),
                    None => detect("", probe),
                };
                match result {
                    DetectionResult::Active { signal } => if !self.bun_active { Some(signal) } else { None },
                    DetectionResult::Inactive => None,
                }
            },
            _ => None,
        }
    }

    /// The detection result recorded for the open document `uri`, if any.
    pub fn cached_detection(&self, uri: &str) -> (r: Option<DetectionResult>)
        ensures
            r == (if self@.cache.contains_key(uri@) { Some(self@.cache[uri@]) } else { None::<DetectionResult> }),
    {
        self.detection_cache.get(uri)
    }

    /// Reads an editor frame: `None` (the frame is skipped) when it is not
    /// JSON; otherwise what the router reads of it, with the path at which
    /// `bun.lockb` must be looked for before it is handled.
    pub fn accept_frame(&self, frame: &[u8]) -> (r: Option<EditorFrame>)
        ensures
            match r {
                Some(f) => is_json_text(frame@) && f.message@ == message_of_json(frame@)
                    && opt_view(f.lockfile_probe) == probe_path_spec(self@, f.message@),
                None => !is_json_text(frame@),
            },
    {
        match json_message(frame) {
            Some(message) => {
                let lockfile_probe = self.lockfile_probe_path(&message);
                Some(EditorFrame { message, lockfile_probe })
            },
            None => None,
        }
    }

    /// Handles an accepted editor frame and gives the frames to write
    /// downstream, in order: the configuration notification when one is
    /// sent, then `frame` itself, framed again byte for byte.
    pub fn handle_frame(
        &mut self,
        frame: &[u8],
        msg: &Message,
        lockfile_at_root: bool,
        synthesis: Option<SynthesisResult>,
    ) -> (writes: Vec<Vec<u8>>)
        ensures
            (final(self)@, bytes_view(writes@)) == handle_frame_spec(
                old(self)@,
                frame@,
                msg@,
                lockfile_at_root,
                synthesis_view(synthesis),
            ),
    {
        let outs = self.handle(msg, lockfile_at_root, synthesis);
        let ghost sent = outgoing_view(outs@);
        let mut writes: Vec<Vec<u8>> = Vec::new();
        let mut i: usize = 0;
        while i < outs.len()
            invariant
                i <= outs@.len(),
                sent == outgoing_view(outs@),
                bytes_view(writes@) == sent.take(i as int).map_values(|o: OutgoingView| frame_bytes(o, frame@)),
            decreases outs@.len() - i,
        {
            let o = &outs[i];
            assert(sent[i as int] == o@);
            let bytes = match o {
                Outgoing::Configuration(s) => {
                    let note = configuration_notification(s);
                    encode_frame(note.as_slice())
                },
                Outgoing::ForwardFrame => encode_frame(frame),
            };
            assert(bytes@ == frame_bytes(sent[i as int], frame@));
            let ghost before = bytes_view(writes@);
            writes.push(bytes);
            assert(bytes_view(writes@) =~= before.push(bytes@));
            i = i + 1;
            assert(bytes_view(writes@) =~= sent.take(i as int).map_values(|o: OutgoingView| frame_bytes(o, frame@)));
        }
        assert(sent.take(i as int) =~= sent);
        writes
    }

    /// Handles one editor message: updates the state and says what to send
    /// downstream, in order. The message itself is always forwarded, last.
    /// `lockfile_at_root` answers `lockfile_probe_path` (ignored when that
    /// named no path); `synthesis` is the caller's synthesis when
    /// `synthesis_request` asked for one and it succeeded, else `None`.
    pub fn handle(&mut self, msg: &Message, lockfile_at_root: bool, synthesis: Option<SynthesisResult>) -> (out: Vec<Outgoing>)
        ensures
            (final(self)@, outgoing_view(out@)) == step_spec(old(self)@, msg@, lockfile_at_root, synthesis_view(synthesis)),
    {
        let needs = self.synthesis_request(msg, lockfile_at_root).is_some();
        let ghost st = self@;
        let mut out: Vec<Outgoing> = Vec::new();
        match message_kind(msg) {
            MessageKind::Initialize => {
                self.workspace_root = workspace_root_of(msg);
                if needs {
                    match synthesis {
                        Some(s) => {
                            self.bun_active = true;
                            self.pending_synthesis = Some(s);
                        },
                        None => {},
                    }
                }
            },
            MessageKind::Initialized => {
                if self.bun_active {
                    match self.pending_synthesis.take() {
                        Some(s) => {
                            out.push(Outgoing::Configuration(s));
                        },
                        None => {},
                    }
                }
            },
            MessageKind::DidOpen => {
                let probe = match &self.workspace_root {
                    Some(_) => Some(lockfile_at_root),
                    None => None,
                };
                let result = match &msg.document_text {
                    Some(t) => detect(t.as_str(), probe),
                    None => detect("", probe),
                };
                proof {
                    lemma_empty_literal();
                }
                if needs {
                    match synthesis {
                        Some(s) => {
                            out.push(Outgoing::Configuration(s));
                            self.bun_active = true;
                        },
                        None => {},
                    }
                }
                match &msg.document_uri {
                    Some(u) => {
                        if !u.as_str().is_empty() {
                            self.detection_cache.insert(u.clone(), result);
                        }
                    },
                    None => {},
                }
            },
            MessageKind::DidClose => {
                match &msg.document_uri {
                    Some(u) => self.detection_cache.remove(u.as_str()),
                    None => {
                        proof {
                            lemma_empty_literal();
                        }
                        self.detection_cache.remove("");
                    },
                }
            },
            MessageKind::Other => {},
        }
        out.push(Outgoing::ForwardFrame);
        proof {
            let (next, sent) = step_spec(st, msg@, lockfile_at_root, synthesis_view(synthesis));
            assert(outgoing_view(out@) =~= sent);
            assert(self@ == next);
        }
        out
    }
}

// ---------------------------------------------------------------------------
// The server-to-editor direction
// ---------------------------------------------------------------------------


/// What to write to the editor for a frame body read from the downstream
/// server: the same body, framed again, when it is JSON; nothing (the frame
/// is skipped) when it is not.
pub fn relay_frame(body: &[u8]) -> (r: Option<Vec<u8>>)
    ensures
        match r {
            Some(f) => is_json_text(body@) && f@ == encode_frame_spec(body@),
            None => !is_json_text(body@),
        },
{
    if json_message(body).is_some() {
        Some(encode_frame(body))
    } else {
        None
    }
}

// ---------------------------------------------------------------------------
// Laws of the router
// ---------------------------------------------------------------------------

/// Once Bun context is active it stays active, whatever message follows.
pub proof fn lemma_activation_is_permanent(
    st: RouterView,
    msg: MessageView,
    lockfile_at_root: bool,
    synthesis: Option<SynthesisView>,
)
    requires
        st.bun_active,
    ensures
        step_spec(st, msg, lockfile_at_root, synthesis).0.bun_active,
{
}

/// Every editor message is forwarded exactly once, after anything injected;
/// at most one configuration goes before it.
pub proof fn lemma_message_forwarded_last(
    st: RouterView,
    msg: MessageView,
    lockfile_at_root: bool,
    synthesis: Option<SynthesisView>,
)
    ensures
        ({
            let out = step_spec(st, msg, lockfile_at_root, synthesis).1;
            &&& 1 <= out.len() <= 2
            &&& out.last() is ForwardFrame
            &&& forall|i: int| 0 <= i < out.len() - 1 ==> out[i] is Configuration
        }),
{
}

/// A document opened while Bun context is already active adds no second
/// configuration: only the message itself is forwarded.
pub proof fn lemma_no_configuration_once_active(
    st: RouterView,
    msg: MessageView,
    lockfile_at_root: bool,
    synthesis: Option<SynthesisView>,
)
    requires
        st.bun_active,
        message_kind_spec(msg.method) == MessageKind::DidOpen,
    ensures
        step_spec(st, msg, lockfile_at_root, synthesis).1 == seq![OutgoingView::ForwardFrame],
{
}

/// A configuration waits for `initialized` only while Bun context is active.
pub open spec fn pending_only_when_active(st: RouterView) -> bool {
    st.pending is Some ==> st.bun_active
}

/// Every step keeps `pending_only_when_active`.
pub proof fn lemma_pending_only_when_active(
    st: RouterView,
    msg: MessageView,
    lockfile_at_root: bool,
    synthesis: Option<SynthesisView>,
)
    requires
        pending_only_when_active(st),
    ensures
        pending_only_when_active(step_spec(st, msg, lockfile_at_root, synthesis).0),
{
}

/// A document recorded as Bun context implies Bun context is active.
pub open spec fn cached_active_implies_bun_active(st: RouterView) -> bool {
    forall|uri: Seq<char>| #[trigger] st.cache.contains_key(uri) && st.cache[uri] is Active ==> st.bun_active
}

/// A step keeps `cached_active_implies_bun_active` whenever the synthesis it
/// asked for was produced. (When it fails, the document is still recorded as
/// Bun context while the configuration was not produced.)
pub proof fn lemma_cached_active_implies_bun_active(
    st: RouterView,
    msg: MessageView,
    lockfile_at_root: bool,
    synthesis: Option<SynthesisView>,
)
    requires
        cached_active_implies_bun_active(st),
        needs_synthesis_spec(st, msg, lockfile_at_root) ==> synthesis is Some,
    ensures
        cached_active_implies_bun_active(step_spec(st, msg, lockfile_at_root, synthesis).0),
{
    let next = step_spec(st, msg, lockfile_at_root, synthesis).0;
    assert forall|uri: Seq<char>| #[trigger] next.cache.contains_key(uri) && next.cache[uri] is Active implies next.bun_active by {
        if message_kind_spec(msg.method) == MessageKind::DidOpen {
            let u = or_empty(msg.document_uri);
            if u.len() > 0 && uri == u {
            } else {
                assert(st.cache.contains_key(uri));
            }
        } else if message_kind_spec(msg.method) == MessageKind::DidClose {
            assert(st.cache.contains_key(uri));
        }
    }
}

/// Opening a document with a non-empty URI records its detection result.
pub proof fn lemma_did_open_records_detection(
    st: RouterView,
    msg: MessageView,
    lockfile_at_root: bool,
    synthesis: Option<SynthesisView>,
)
    requires
        message_kind_spec(msg.method) == MessageKind::DidOpen,
        or_empty(msg.document_uri).len() > 0,
    ensures
        step_spec(st, msg, lockfile_at_root, synthesis).0.cache == st.cache.insert(
            or_empty(msg.document_uri),
            detect_spec(or_empty(msg.document_text), lockfile_probe(st.workspace_root, lockfile_at_root)),
        ),
{
}

/// Closing a document forgets its detection result and nothing else.
pub proof fn lemma_did_close_evicts(
    st: RouterView,
    msg: MessageView,
    lockfile_at_root: bool,
    synthesis: Option<SynthesisView>,
)
    requires
        message_kind_spec(msg.method) == MessageKind::DidClose,
    ensures
        step_spec(st, msg, lockfile_at_root, synthesis).0.cache == st.cache.remove(or_empty(msg.document_uri)),
        !step_spec(st, msg, lockfile_at_root, synthesis).0.cache.contains_key(or_empty(msg.document_uri)),
{
}

/// `initialize` records the root it names, `rootUri` taken as a `file://`
/// URI and, when that is absent, `rootPath` as the path it is; the caller
/// probes that root for `bun.lockb`, and when the lockfile is there and the
/// synthesis was produced, Bun context becomes active with the
/// configuration waiting for `initialized`.
pub proof fn lemma_initialize_takes_named_root(
    st: RouterView,
    msg: MessageView,
    lockfile_at_root: bool,
    synthesis: Option<SynthesisView>,
)
    requires
        message_kind_spec(msg.method) == MessageKind::Initialize,
    ensures
        ({
            let next = step_spec(st, msg, lockfile_at_root, synthesis).0;
            &&& next.workspace_root == workspace_root_spec(msg.root_uri, msg.root_path)
            &&& msg.root_uri is None ==> next.workspace_root == msg.root_path
            &&& probe_path_spec(st, msg) == next.workspace_root
            &&& (next.workspace_root is Some && lockfile_at_root && synthesis is Some) ==> {
                &&& next.bun_active
                &&& next.pending == synthesis
            }
            &&& !lockfile_at_root ==> next.pending == st.pending && next.bun_active == st.bun_active
        }),
{
    lemma_empty_text_follows_lockfile(lockfile_probe(workspace_root_spec(msg.root_uri, msg.root_path), lockfile_at_root));
}

/// One editor message together with what the caller supplied for it.
pub struct StepInput {
    pub msg: MessageView,
    pub lockfile_at_root: bool,
    pub synthesis: Option<SynthesisView>,
}

/// A run of the router over several messages: the final state and everything
/// sent, in order.
pub open spec fn run_spec(st: RouterView, inputs: Seq<StepInput>) -> (RouterView, Seq<OutgoingView>)
    decreases inputs.len(),
{
    if inputs.len() == 0 {
        (st, Seq::empty())
    } else {
        let i = inputs[0];
        let (st1, out1) = step_spec(st, i.msg, i.lockfile_at_root, i.synthesis);
        let (st2, out2) = run_spec(st1, inputs.drop_first());
        (st2, out1 + out2)
    }
}

/// How many configurations a list of outgoing actions holds.
pub open spec fn configuration_count(out: Seq<OutgoingView>) -> nat
    decreases out.len(),
{
    if out.len() == 0 {
        0
    } else {
        (if out[0] is Configuration { 1nat } else { 0nat }) + configuration_count(out.drop_first())
    }
}

proof fn lemma_configuration_count_concat(a: Seq<OutgoingView>, b: Seq<OutgoingView>)
    ensures
        configuration_count(a + b) == configuration_count(a) + configuration_count(b),
    decreases a.len(),
{
    if a.len() > 0 {
        assert((a + b).drop_first() =~= a.drop_first() + b);
        lemma_configuration_count_concat(a.drop_first(), b);
    }
}

/// How many configurations a state can still send without a new `initialize`.
pub open spec fn configuration_budget(st: RouterView) -> nat {
    if !st.bun_active || st.pending is Some { 1 } else { 0 }
}

proof fn lemma_run_within_budget(st: RouterView, inputs: Seq<StepInput>)
    requires
        pending_only_when_active(st),
        forall|i: int| 0 <= i < inputs.len() ==> message_kind_spec(#[trigger] inputs[i].msg.method) != MessageKind::Initialize,
    ensures
        configuration_count(run_spec(st, inputs).1) <= configuration_budget(st),
    decreases inputs.len(),
{
    if inputs.len() > 0 {
        let i = inputs[0];
        assert(message_kind_spec(inputs[0].msg.method) != MessageKind::Initialize);
        let (st1, out1) = step_spec(st, i.msg, i.lockfile_at_root, i.synthesis);
        lemma_pending_only_when_active(st, i.msg, i.lockfile_at_root, i.synthesis);
        let rest = inputs.drop_first();
        assert forall|k: int| 0 <= k < rest.len() implies message_kind_spec(#[trigger] rest[k].msg.method) != MessageKind::Initialize by {
            assert(rest[k] == inputs[k + 1]);
        }
        lemma_run_within_budget(st1, rest);
        lemma_configuration_count_concat(out1, run_spec(st1, rest).1);
        assert(configuration_count(out1) + configuration_budget(st1) <= configuration_budget(st)) by {
            reveal_with_fuel(configuration_count, 3);
        }
    }
}

/// Without an `initialize`, a fresh router sends at most one configuration,
/// however many Bun documents are opened.
pub proof fn lemma_at_most_one_configuration(inputs: Seq<StepInput>)
    requires
        forall|i: int| 0 <= i < inputs.len() ==> message_kind_spec(#[trigger] inputs[i].msg.method) != MessageKind::Initialize,
    ensures
        ({
            let fresh = RouterView {
                workspace_root: None,
                bun_active: false,
                pending: None,
                cache: Map::empty(),
            };
            configuration_count(run_spec(fresh, inputs).1) <= 1
        }),
{
    let fresh = RouterView { workspace_root: None, bun_active: false, pending: None, cache: Map::empty() };
    lemma_run_within_budget(fresh, inputs);
}

/// A document that is Bun context, opened while Bun context is not active
/// yet, with its synthesis produced, is preceded downstream by exactly one
/// configuration carrying that synthesis, whichever signal detected it, and
/// Bun context becomes active.
pub proof fn lemma_did_open_activation_sends_configuration(
    st: RouterView,
    msg: MessageView,
    lockfile_at_root: bool,
    synthesis: Option<SynthesisView>,
)
    requires
        message_kind_spec(msg.method) == MessageKind::DidOpen,
        !st.bun_active,
        synthesis is Some,
        detect_spec(or_empty(msg.document_text), lockfile_probe(st.workspace_root, lockfile_at_root)) is Active,
    ensures
        step_spec(st, msg, lockfile_at_root, synthesis).1 == seq![
            OutgoingView::Configuration(synthesis->0),
            OutgoingView::ForwardFrame,
        ],
        step_spec(st, msg, lockfile_at_root, synthesis).0.bun_active,
{
}

/// Bun context never becomes active silently: the step that activates it
/// either sends the configuration before the message, or is an `initialize`
/// that keeps the configuration waiting for `initialized`.
pub proof fn lemma_activation_is_announced(
    st: RouterView,
    msg: MessageView,
    lockfile_at_root: bool,
    synthesis: Option<SynthesisView>,
)
    requires
        !st.bun_active,
        step_spec(st, msg, lockfile_at_root, synthesis).0.bun_active,
    ensures
        ({
            let (next, out) = step_spec(st, msg, lockfile_at_root, synthesis);
            ||| out == seq![OutgoingView::Configuration(synthesis->0), OutgoingView::ForwardFrame]
            ||| (message_kind_spec(msg.method) == MessageKind::Initialize && synthesis is Some
                && next.pending == synthesis && out == seq![OutgoingView::ForwardFrame])
        }),
{
}

proof fn lemma_run_spends_budget(st: RouterView, inputs: Seq<StepInput>)
    requires
        pending_only_when_active(st),
        forall|i: int| 0 <= i < inputs.len() ==> message_kind_spec(#[trigger] inputs[i].msg.method) != MessageKind::Initialize,
    ensures
        configuration_count(run_spec(st, inputs).1) + configuration_budget(run_spec(st, inputs).0) == configuration_budget(st),
        pending_only_when_active(run_spec(st, inputs).0),
        st.pending is None ==> run_spec(st, inputs).0.pending is None,
    decreases inputs.len(),
{
    if inputs.len() > 0 {
        let i = inputs[0];
        assert(message_kind_spec(inputs[0].msg.method) != MessageKind::Initialize);
        let (st1, out1) = step_spec(st, i.msg, i.lockfile_at_root, i.synthesis);
        lemma_pending_only_when_active(st, i.msg, i.lockfile_at_root, i.synthesis);
        let rest = inputs.drop_first();
        assert forall|k: int| 0 <= k < rest.len() implies message_kind_spec(#[trigger] rest[k].msg.method) != MessageKind::Initialize by {
            assert(rest[k] == inputs[k + 1]);
        }
        lemma_run_spends_budget(st1, rest);
        lemma_configuration_count_concat(out1, run_spec(st1, rest).1);
        assert(configuration_count(out1) + configuration_budget(st1) == configuration_budget(st)) by {
            reveal_with_fuel(configuration_count, 3);
        }
    }
}

/// Without an `initialize`, a fresh router sends a configuration exactly
/// when it ends with Bun context active: one if it does, none if it does
/// not.
pub proof fn lemma_one_configuration_exactly_when_active(inputs: Seq<StepInput>)
    requires
        forall|i: int| 0 <= i < inputs.len() ==> message_kind_spec(#[trigger] inputs[i].msg.method) != MessageKind::Initialize,
    ensures
        ({
            let fresh = RouterView {
                workspace_root: None,
                bun_active: false,
                pending: None,
                cache: Map::empty(),
            };
            let (last, out) = run_spec(fresh, inputs);
            configuration_count(out) == if last.bun_active { 1nat } else { 0nat }
        }),
{
    let fresh = RouterView { workspace_root: None, bun_active: false, pending: None, cache: Map::empty() };
    lemma_run_spends_budget(fresh, inputs);
}

/// A synthesis is asked for only for Bun context: the detection that
/// `handle` makes for the message is active with the very signal asked for.
pub proof fn lemma_synthesis_only_for_bun_context(st: RouterView, msg: MessageView, lockfile_at_root: bool)
    requires
        synthesis_request_spec(st, msg, lockfile_at_root) is Some,
    ensures
        ({
            let signal = synthesis_request_spec(st, msg, lockfile_at_root)->0;
            match message_kind_spec(msg.method) {
                MessageKind::Initialize => {
                    let root = workspace_root_spec(msg.root_uri, msg.root_path);
                    root is Some && detect_spec(Seq::empty(), lockfile_probe(root, lockfile_at_root))
                        == DetectionResult::Active { signal }
                },
                MessageKind::DidOpen => !st.bun_active && detect_spec(
                    or_empty(msg.document_text),
                    lockfile_probe(st.workspace_root, lockfile_at_root),
                ) == DetectionResult::Active { signal },
                _ => false,
            }
        }),
{
}

/// When no lockfile probe is asked for, the answer passed in changes nothing.
pub proof fn lemma_unprobed_lockfile_is_ignored(st: RouterView, msg: MessageView, synthesis: Option<SynthesisView>)
    requires
        probe_path_spec(st, msg) is None,
    ensures
        step_spec(st, msg, true, synthesis) == step_spec(st, msg, false, synthesis),
        synthesis_request_spec(st, msg, true) == synthesis_request_spec(st, msg, false),
{
}

// ---------------------------------------------------------------------------
// Whole streams
// ---------------------------------------------------------------------------

/// The frames `fs`, each written with `encode_frame`, one after another.
pub open spec fn concat_encoded(fs: Seq<Seq<u8>>) -> Seq<u8>
    decreases fs.len(),
{
    if fs.len() == 0 {
        Seq::empty()
    } else {
        encode_frame_spec(fs[0]) + concat_encoded(fs.drop_first())
    }
}

/// The bodies among `fs` that serde_json accepts, in order.
pub open spec fn json_bodies(fs: Seq<Seq<u8>>) -> Seq<Seq<u8>>
    decreases fs.len(),
{
    if fs.len() == 0 {
        Seq::empty()
    } else {
        (if is_json_text(fs[0]) { seq![fs[0]] } else { Seq::empty() }) + json_bodies(fs.drop_first())
    }
}

/// Every frame body has a length that fits a `usize`.
pub open spec fn lengths_fit(fs: Seq<Seq<u8>>) -> bool {
    forall|i: int| 0 <= i < fs.len() ==> #[trigger] fs[i].len() <= usize::MAX
}

// --- server to editor ---

/// What the proxy writes to the editor for the byte stream `buf` from the
/// downstream server, and how the stream ends: each JSON frame framed again,
/// in order; frames that are not JSON are skipped; a framing error ends it.
pub open spec fn relay_run(buf: Seq<u8>) -> (Seq<u8>, Result<(), FrameError>)
    decreases buf.len(),
{
    match decode_frame_spec(buf) {
        Ok(None) => (Seq::empty(), Ok(())),
        Err(e) => (Seq::empty(), Err(e)),
        Ok(Some((b, n))) => if n <= 0 || n > buf.len() {
            (Seq::empty(), Ok(()))
        } else {
            let (w, r) = relay_run(buf.subrange(n, buf.len() as int));
            ((if is_json_text(b) { encode_frame_spec(b) } else { Seq::empty() }) + w, r)
        },
    }
}

/// For a stream of well-formed frames, the editor receives exactly the JSON
/// frames, byte for byte and in order, and the stream ends cleanly.
pub proof fn lemma_relay_stream(fs: Seq<Seq<u8>>)
    requires
        lengths_fit(fs),
    ensures
        relay_run(concat_encoded(fs)) == (concat_encoded(json_bodies(fs)), Ok::<(), FrameError>(())),
    decreases fs.len(),
{
    if fs.len() == 0 {
        assert(concat_encoded(fs) =~= Seq::<u8>::empty());
        assert(json_bodies(fs) =~= Seq::<Seq<u8>>::empty());
    } else {
        let f = fs[0];
        let rest = fs.drop_first();
        assert(lengths_fit(rest)) by {
            assert forall|i: int| 0 <= i < rest.len() implies #[trigger] rest[i].len() <= usize::MAX by {
                assert(rest[i] == fs[i + 1]);
            }
        }
        lemma_relay_stream(rest);
        let buf = concat_encoded(fs);
        lemma_frame_round_trip(f, concat_encoded(rest));
        let n = encode_frame_spec(f).len() as int;
        assert(buf.subrange(n, buf.len() as int) =~= concat_encoded(rest));
        if is_json_text(f) {
            assert(json_bodies(fs) =~= seq![f] + json_bodies(rest));
            assert(concat_encoded(json_bodies(fs)) =~= encode_frame_spec(f) + concat_encoded(json_bodies(rest))) by {
                assert((seq![f] + json_bodies(rest))[0] == f);
                assert((seq![f] + json_bodies(rest)).drop_first() =~= json_bodies(rest));
            }
        } else {
            assert(json_bodies(fs) =~= json_bodies(rest));
        }
    }
}

// --- editor to server ---

/// What the caller supplies for one editor frame: the lockfile answer and the
/// synthesis (when asked for and produced).
pub struct EditorEnv {
    pub lockfile_at_root: bool,
    pub synthesis: Option<SynthesisView>,
}

pub open spec fn env_first(env: Seq<EditorEnv>) -> EditorEnv {
    if env.len() > 0 { env[0] } else { EditorEnv { lockfile_at_root: false, synthesis: None } }
}

pub open spec fn env_rest(env: Seq<EditorEnv>) -> Seq<EditorEnv> {
    if env.len() > 0 { env.drop_first() } else { env }
}

/// One editor frame body: skipped when it is not JSON, else one router step
/// on what it says. Each action comes with the body it belongs to.
pub open spec fn editor_frame_step(st: RouterView, body: Seq<u8>, e: EditorEnv) -> (RouterView, Seq<(OutgoingView, Seq<u8>)>) {
    if is_json_text(body) {
        let (next, sent) = step_spec(st, message_of_json(body), e.lockfile_at_root, e.synthesis);
        (next, sent.map_values(|o: OutgoingView| (o, body)))
    } else {
        (st, Seq::empty())
    }
}

/// The router run over the editor frame bodies `bodies`, with `env`
/// supplying one entry per frame.
pub open spec fn editor_run(st: RouterView, bodies: Seq<Seq<u8>>, env: Seq<EditorEnv>) -> (RouterView, Seq<(OutgoingView, Seq<u8>)>)
    decreases bodies.len(),
{
    if bodies.len() == 0 {
        (st, Seq::empty())
    } else {
        let (st1, out1) = editor_frame_step(st, bodies[0], env_first(env));
        let (st2, out2) = editor_run(st1, bodies.drop_first(), env_rest(env));
        (st2, out1 + out2)
    }
}

/// The router run over the editor's byte stream `buf`: frames are decoded in
/// turn until the stream ends or a frame cannot be read.
pub open spec fn editor_stream_run(st: RouterView, buf: Seq<u8>, env: Seq<EditorEnv>) -> (RouterView, Seq<(OutgoingView, Seq<u8>)>, Result<(), FrameError>)
    decreases buf.len(),
{
    match decode_frame_spec(buf) {
        Ok(None) => (st, Seq::empty(), Ok(())),
        Err(e) => (st, Seq::empty(), Err(e)),
        Ok(Some((b, n))) => if n <= 0 || n > buf.len() {
            (st, Seq::empty(), Ok(()))
        } else {
            let (st1, out1) = editor_frame_step(st, b, env_first(env));
            let (st2, out2, r) = editor_stream_run(st1, buf.subrange(n, buf.len() as int), env_rest(env));
            (st2, out1 + out2, r)
        },
    }
}

/// Decoding the editor's stream of well-formed frames and running the
/// router over their bodies are the same, and the stream ends cleanly.
pub proof fn lemma_editor_stream_decodes_frames(st: RouterView, fs: Seq<Seq<u8>>, env: Seq<EditorEnv>)
    requires
        lengths_fit(fs),
    ensures
        editor_stream_run(st, concat_encoded(fs), env) == (
            editor_run(st, fs, env).0,
            editor_run(st, fs, env).1,
            Ok::<(), FrameError>(()),
        ),
    decreases fs.len(),
{
    if fs.len() == 0 {
        assert(concat_encoded(fs) =~= Seq::<u8>::empty());
    } else {
        let f = fs[0];
        let rest = fs.drop_first();
        assert(lengths_fit(rest)) by {
            assert forall|i: int| 0 <= i < rest.len() implies #[trigger] rest[i].len() <= usize::MAX by {
                assert(rest[i] == fs[i + 1]);
            }
        }
        let (st1, out1) = editor_frame_step(st, f, env_first(env));
        lemma_editor_stream_decodes_frames(st1, rest, env_rest(env));
        let buf = concat_encoded(fs);
        lemma_frame_round_trip(f, concat_encoded(rest));
        let n = encode_frame_spec(f).len() as int;
        assert(buf.subrange(n, buf.len() as int) =~= concat_encoded(rest));
    }
}

/// The bodies of the messages forwarded downstream, in order.
pub open spec fn forwarded_bodies(out: Seq<(OutgoingView, Seq<u8>)>) -> Seq<Seq<u8>>
    decreases out.len(),
{
    if out.len() == 0 {
        Seq::empty()
    } else {
        (if out[0].0 is ForwardFrame { seq![out[0].1] } else { Seq::empty() }) + forwarded_bodies(out.drop_first())
    }
}

proof fn lemma_forwarded_bodies_concat(a: Seq<(OutgoingView, Seq<u8>)>, b: Seq<(OutgoingView, Seq<u8>)>)
    ensures
        forwarded_bodies(a + b) == forwarded_bodies(a) + forwarded_bodies(b),
    decreases a.len(),
{
    if a.len() == 0 {
        assert(a + b =~= b);
        assert(forwarded_bodies(a) =~= Seq::<Seq<u8>>::empty());
        assert(forwarded_bodies(a) + forwarded_bodies(b) =~= forwarded_bodies(b));
    } else {
        assert((a + b).drop_first() =~= a.drop_first() + b);
        assert((a + b)[0] == a[0]);
        lemma_forwarded_bodies_concat(a.drop_first(), b);
        let h: Seq<Seq<u8>> = if a[0].0 is ForwardFrame { seq![a[0].1] } else { Seq::empty() };
        assert(h + (forwarded_bodies(a.drop_first()) + forwarded_bodies(b)) =~= (h + forwarded_bodies(a.drop_first())) + forwarded_bodies(b));
    }
}

proof fn lemma_forwarded_bodies_of_step(sent: Seq<OutgoingView>, body: Seq<u8>)
    requires
        1 <= sent.len() <= 2,
        sent.last() is ForwardFrame,
        forall|i: int| 0 <= i < sent.len() - 1 ==> sent[i] is Configuration,
    ensures
        forwarded_bodies(sent.map_values(|o: OutgoingView| (o, body))) == seq![body],
{
    let out = sent.map_values(|o: OutgoingView| (o, body));
    let none = Seq::<(OutgoingView, Seq<u8>)>::empty();
    assert(forwarded_bodies(none) =~= Seq::<Seq<u8>>::empty());
    if sent.len() == 1 {
        assert(out[0] == (sent[0], body));
        assert(out.drop_first() =~= none);
        assert(forwarded_bodies(out) =~= seq![body]);
    } else {
        assert(sent[0] is Configuration);
        assert(out[0] == (sent[0], body));
        assert(out[1] == (sent[1], body));
        let tail = out.drop_first();
        assert(tail[0] == out[1]);
        assert(tail.drop_first() =~= none);
        assert(forwarded_bodies(tail) =~= seq![body]);
        assert(forwarded_bodies(out) =~= seq![body]);
    }
}

proof fn lemma_frame_step_forwards_once(st: RouterView, body: Seq<u8>, e: EditorEnv)
    ensures
        forwarded_bodies(editor_frame_step(st, body, e).1) == (if is_json_text(body) { seq![body] } else { Seq::<Seq<u8>>::empty() }),
{
    if is_json_text(body) {
        let sent = step_spec(st, message_of_json(body), e.lockfile_at_root, e.synthesis).1;
        lemma_message_forwarded_last(st, message_of_json(body), e.lockfile_at_root, e.synthesis);
        lemma_forwarded_bodies_of_step(sent, body);
    } else {
        assert(forwarded_bodies(Seq::<(OutgoingView, Seq<u8>)>::empty()) =~= Seq::<Seq<u8>>::empty());
    }
}

/// Leaving out what the proxy injects, the editor's JSON frames reach the
/// downstream server each exactly once, in order, as they were; frames that
/// are not JSON are dropped.
pub proof fn lemma_editor_frames_forwarded_in_order(st: RouterView, fs: Seq<Seq<u8>>, env: Seq<EditorEnv>)
    ensures
        forwarded_bodies(editor_run(st, fs, env).1) == json_bodies(fs),
    decreases fs.len(),
{
    if fs.len() == 0 {
        assert(forwarded_bodies(Seq::<(OutgoingView, Seq<u8>)>::empty()) =~= Seq::<Seq<u8>>::empty());
    } else {
        let (st1, out1) = editor_frame_step(st, fs[0], env_first(env));
        lemma_editor_frames_forwarded_in_order(st1, fs.drop_first(), env_rest(env));
        lemma_forwarded_bodies_concat(out1, editor_run(st1, fs.drop_first(), env_rest(env)).1);
        lemma_frame_step_forwards_once(st, fs[0], env_first(env));
    }
}

/// Each injected configuration is directly followed by the message it was
/// injected for, an `initialized` or a `textDocument/didOpen`.
pub open spec fn injections_precede_their_message(out: Seq<(OutgoingView, Seq<u8>)>) -> bool {
    forall|i: int| 0 <= i < out.len() && (#[trigger] out[i]).0 is Configuration ==> {
        &&& i + 1 < out.len()
        &&& out[i + 1].0 is ForwardFrame
        &&& out[i + 1].1 == out[i].1
        &&& (message_kind_spec(message_of_json(out[i].1).method) == MessageKind::Initialized
            || message_kind_spec(message_of_json(out[i].1).method) == MessageKind::DidOpen)
    }
}

proof fn lemma_frame_step_injections(st: RouterView, body: Seq<u8>, e: EditorEnv)
    ensures
        injections_precede_their_message(editor_frame_step(st, body, e).1),
        editor_frame_step(st, body, e).1.len() > 0 ==> editor_frame_step(st, body, e).1.last().0 is ForwardFrame,
{
    if is_json_text(body) {
        let m = message_of_json(body);
        lemma_message_forwarded_last(st, m, e.lockfile_at_root, e.synthesis);
        let out = editor_frame_step(st, body, e).1;
        assert forall|i: int| 0 <= i < out.len() && (#[trigger] out[i]).0 is Configuration implies {
            &&& i + 1 < out.len()
            &&& out[i + 1].0 is ForwardFrame
            &&& out[i + 1].1 == out[i].1
            &&& (message_kind_spec(message_of_json(out[i].1).method) == MessageKind::Initialized
                || message_kind_spec(message_of_json(out[i].1).method) == MessageKind::DidOpen)
        } by {
            assert(out[i].1 == body);
        }
    }
}

/// Every run keeps injections directly before the message they serve.
#[verifier::rlimit(40)]
#[verifier::spinoff_prover]
pub proof fn lemma_editor_injections_precede_their_message(st: RouterView, fs: Seq<Seq<u8>>, env: Seq<EditorEnv>)
    ensures
        injections_precede_their_message(editor_run(st, fs, env).1),
    decreases fs.len(),
{
    if fs.len() > 0 {
        let (st1, a) = editor_frame_step(st, fs[0], env_first(env));
        let b = editor_run(st1, fs.drop_first(), env_rest(env)).1;
        lemma_frame_step_injections(st, fs[0], env_first(env));
        lemma_editor_injections_precede_their_message(st1, fs.drop_first(), env_rest(env));
        let out = a + b;
        assert forall|i: int| 0 <= i < out.len() && (#[trigger] out[i]).0 is Configuration implies {
            &&& i + 1 < out.len()
            &&& out[i + 1].0 is ForwardFrame
            &&& out[i + 1].1 == out[i].1
            &&& (message_kind_spec(message_of_json(out[i].1).method) == MessageKind::Initialized
                || message_kind_spec(message_of_json(out[i].1).method) == MessageKind::DidOpen)
        } by {
            if i < a.len() {
                assert(out[i] == a[i]);
                assert(a[i].0 is Configuration);
                assert(i + 1 < a.len());
                assert(out[i + 1] == a[i + 1]);
            } else {
                assert(out[i] == b[i - a.len()]);
                assert(b[i - a.len()].0 is Configuration);
                assert(out[i + 1] == b[i - a.len() + 1]);
            }
        }
    }
}

} // verus!
