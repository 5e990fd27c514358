//! The protocol between extensions and the frontend: operations, envelopes,
//! replies, and the capabilities a frontend declares for each kind of
//! operation.

use vstd::prelude::*;
use crate::text::push_str;

verus! {

#[derive(Clone, Copy, Debug, PartialEq, Eq, PartialOrd, Ord, Structural)]
pub struct UiProtocolVersion {
    pub major: u16,
    pub minor: u16,
}

/// The protocol version this crate speaks: 1.0.
pub open spec fn current_version() -> UiProtocolVersion {
    UiProtocolVersion { major: 1, minor: 0 }
}

impl UiProtocolVersion {
    /// The protocol version this crate speaks.
    pub fn current() -> (r: Self)
        ensures
            r == current_version(),
    {
        UiProtocolVersion { major: 1, minor: 0 }
    }
}

#[derive(Clone, Copy, Debug, PartialEq, Eq, PartialOrd, Ord, Hash, Structural)]
pub struct RequestId(pub u64);

#[derive(Clone, Copy, Debug, PartialEq, Eq, PartialOrd, Ord, Hash, Structural)]
pub struct Generation(pub u64);

#[derive(Debug, PartialEq, Eq, PartialOrd, Ord, Hash)]
pub struct ExtensionId(pub String);

impl Clone for ExtensionId {
    fn clone(&self) -> (r: Self)
        ensures
            r == *self,
    {
        ExtensionId(self.0.clone())
    }
}

#[derive(Clone, Copy, Debug, PartialEq, Eq, PartialOrd, Ord, Hash, Structural)]
pub struct ComponentId(pub u64);

#[derive(Clone, Copy, Debug, PartialEq, Eq, PartialOrd, Ord, Hash, Structural)]
pub struct OverlayId(pub u64);

#[derive(Debug, PartialEq, Eq)]
pub enum SupportLevel {
    Native,
    Adapted,
    Degraded(String),
    Unsupported(String),
}

impl Clone for SupportLevel {
    fn clone(&self) -> (r: Self)
        ensures
            r == *self,
    {
        match self {
            SupportLevel::Native => SupportLevel::Native,
            SupportLevel::Adapted => SupportLevel::Adapted,
            SupportLevel::Degraded(s) => SupportLevel::Degraded(s.clone()),
            SupportLevel::Unsupported(s) => SupportLevel::Unsupported(s.clone()),
        }
    }
}

/// The level is `Unsupported` with the given reason.
pub open spec fn unsupported_for(l: SupportLevel, reason: Seq<char>) -> bool {
    l matches SupportLevel::Unsupported(s) && s@ == reason
}

#[derive(Clone, Copy, Debug, PartialEq, Eq, PartialOrd, Ord, Hash, Structural)]
pub enum UiOperationKind {
    Dialog,
    Notification,
    Contribution,
    Editor,
    Overlay,
    Theme,
    Keybindings,
    TerminalInput,
    Clipboard,
    Render,
    Capabilities,
    Unknown,
}

/// The kinds a frontend can declare, in declaration order (all but `Unknown`).
pub open spec fn all_kinds() -> Seq<UiOperationKind> {
    seq![
        UiOperationKind::Dialog,
        UiOperationKind::Notification,
        UiOperationKind::Contribution,
        UiOperationKind::Editor,
        UiOperationKind::Overlay,
        UiOperationKind::Theme,
        UiOperationKind::Keybindings,
        UiOperationKind::TerminalInput,
        UiOperationKind::Clipboard,
        UiOperationKind::Render,
        UiOperationKind::Capabilities,
    ]
}

impl UiOperationKind {
    /// Every kind but `Unknown`.
    pub fn all() -> (r: Vec<UiOperationKind>)
        ensures
            r@ == all_kinds(),
    {
        let r = vec![
            UiOperationKind::Dialog,
            UiOperationKind::Notification,
            UiOperationKind::Contribution,
            UiOperationKind::Editor,
            UiOperationKind::Overlay,
            UiOperationKind::Theme,
            UiOperationKind::Keybindings,
            UiOperationKind::TerminalInput,
            UiOperationKind::Clipboard,
            UiOperationKind::Render,
            UiOperationKind::Capabilities,
        ];
        assert(r@ =~= all_kinds());
        r
    }
}

/// The support level recorded for `kind`, if any.
pub open spec fn lookup(ops: Seq<(UiOperationKind, SupportLevel)>, kind: UiOperationKind) -> Option<
    SupportLevel,
>
    decreases ops.len(),
{
    if ops.len() == 0 {
        None
    } else if ops.last().0 == kind {
        Some(ops.last().1)
    } else {
        lookup(ops.drop_last(), kind)
    }
}

proof fn lemma_lookup_update(
    ops: Seq<(UiOperationKind, SupportLevel)>,
    i: int,
    kind: UiOperationKind,
    level: SupportLevel,
    other: UiOperationKind,
)
    requires
        0 <= i < ops.len(),
        ops[i].0 == kind,
        forall|a: int, b: int| 0 <= a < b < ops.len() ==> ops[a].0 != ops[b].0,
    ensures
        lookup(ops.update(i, (kind, level)), other) == if other == kind {
            Some(level)
        } else {
            lookup(ops, other)
        },
    decreases ops.len(),
{
    if i < ops.len() - 1 {
        assert(ops.update(i, (kind, level)).drop_last() =~= ops.drop_last().update(i, (kind, level)));
        lemma_lookup_update(ops.drop_last(), i, kind, level, other);
    } else {
        assert(ops.update(i, (kind, level)).drop_last() =~= ops.drop_last());
        if other == kind {
        } else {
        }
    }
}

proof fn lemma_lookup_absent(ops: Seq<(UiOperationKind, SupportLevel)>, kind: UiOperationKind)
    requires
        forall|a: int| 0 <= a < ops.len() ==> ops[a].0 != kind,
    ensures
        lookup(ops, kind) is None,
    decreases ops.len(),
{
    if ops.len() > 0 {
        lemma_lookup_absent(ops.drop_last(), kind);
    }
}

/// What a frontend supports: one level per kind of operation it lists.
#[derive(Debug, PartialEq, Eq)]
pub struct UiCapabilities {
    pub protocol: UiProtocolVersion,
    operations: Vec<(UiOperationKind, SupportLevel)>,
}

pub open spec fn distinct_kinds(ops: Seq<(UiOperationKind, SupportLevel)>) -> bool {
    forall|a: int, b: int| 0 <= a < b < ops.len() ==> ops[a].0 != ops[b].0
}

impl UiCapabilities {
    pub closed spec fn protocol_view(&self) -> UiProtocolVersion {
        self.protocol
    }

    pub fn protocol(&self) -> (r: UiProtocolVersion)
        ensures
            r == self.protocol_view(),
    {
        self.protocol
    }

    pub closed spec fn level(&self, kind: UiOperationKind) -> Option<SupportLevel> {
        lookup(self.operations@, kind)
    }

    pub closed spec fn well_formed(&self) -> bool {
        distinct_kinds(self.operations@)
    }

    /// A copy with the same protocol and levels.
    pub fn copy(&self) -> (r: Self)
        ensures
            r.protocol_view() == self.protocol_view(),
            r.well_formed() == self.well_formed(),
            forall|k: UiOperationKind| r.level(k) == self.level(k),
    {
        let mut operations: Vec<(UiOperationKind, SupportLevel)> = Vec::new();
        let mut i: usize = 0;
        while i < self.operations.len()
            invariant
                i <= self.operations@.len(),
                operations@ == self.operations@.take(i as int),
            decreases self.operations@.len() - i,
        {
            let entry = (self.operations[i].0, self.operations[i].1.clone());
            operations.push(entry);
            assert(self.operations@.take(i + 1) =~= self.operations@.take(i as int).push(self.operations@[i as int]));
            i += 1;
        }
        assert(self.operations@.take(self.operations@.len() as int) =~= self.operations@);
        UiCapabilities { protocol: self.protocol, operations }
    }

    /// Every listed kind unsupported, as not enabled by this frontend.
    pub fn new() -> (r: Self)
        ensures
            r.well_formed(),
            r.protocol_view() == current_version(),
            forall|k: UiOperationKind| #![trigger r.level(k)] all_kinds().contains(k) ==> (r.level(k) matches Some(l)
                && unsupported_for(l, "not enabled by this frontend"@)),
            r.level(UiOperationKind::Unknown) is None,
    {
        let mut r = UiCapabilities::empty(UiProtocolVersion::current());
        let kinds = UiOperationKind::all();
        let mut i: usize = 0;
        while i < kinds.len()
            invariant
                i <= kinds@.len(),
                kinds@ == all_kinds(),
                r.well_formed(),
                r.protocol_view() == current_version(),
                forall|j: int| 0 <= j < i ==> (#[trigger] r.level(kinds@[j]) matches Some(l)
                    && unsupported_for(l, "not enabled by this frontend"@)),
                forall|k: UiOperationKind| (forall|j: int| 0 <= j < i ==> kinds@[j] != k) ==> #[trigger] r.level(k) is None,
            decreases kinds@.len() - i,
        {
            let reason = String::from_str("not enabled by this frontend");
            r.set(kinds[i], SupportLevel::Unsupported(reason));
            i += 1;
        }
        proof {
            assert forall|k: UiOperationKind| #![trigger r.level(k)] all_kinds().contains(k) implies (r.level(k) matches Some(l)
                && unsupported_for(l, "not enabled by this frontend"@)) by {
                let j = choose|j: int| 0 <= j < all_kinds().len() && all_kinds()[j] == k;
                assert(r.level(kinds@[j]) matches Some(_));
            }
            assert forall|j: int| 0 <= j < kinds@.len() implies kinds@[j] != UiOperationKind::Unknown by {
                assert(all_kinds()[j] != UiOperationKind::Unknown);
            }
        }
        r
    }

    /// Capabilities that list no operation.
    pub fn empty(protocol: UiProtocolVersion) -> (r: Self)
        ensures
            r.well_formed(),
            r.protocol_view() == protocol,
            forall|k: UiOperationKind| r.level(k) is None,
    {
        UiCapabilities { protocol, operations: Vec::new() }
    }

    /// Records `level` for `kind`, replacing what was there.
    pub fn set(&mut self, kind: UiOperationKind, level: SupportLevel)
        requires
            old(self).well_formed(),
        ensures
            final(self).well_formed(),
            final(self).protocol_view() == old(self).protocol_view(),
            final(self).level(kind) == Some(level),
            forall|k: UiOperationKind| k != kind ==> final(self).level(k) == old(self).level(k),
    {
        let mut i: usize = 0;
        while i < self.operations.len()
            invariant
                i <= self.operations@.len(),
                forall|a: int| 0 <= a < i ==> self.operations@[a].0 != kind,
                distinct_kinds(self.operations@),
                self.operations@ == old(self).operations@,
                self.protocol == old(self).protocol,
            decreases self.operations@.len() - i,
        {
            if self.operations[i].0 == kind {
                let ghost before = self.operations@;
                self.operations.set(i, (kind, level));
                proof {
                    assert(distinct_kinds(self.operations@));
                    assert forall|k: UiOperationKind| #[trigger] lookup(self.operations@, k) == if k
                        == kind {
                        Some(level)
                    } else {
                        lookup(before, k)
                    } by {
                        lemma_lookup_update(before, i as int, kind, level, k);
                    }
                }
                return;
            }
            i += 1;
        }
        let ghost before = self.operations@;
        self.operations.push((kind, level));
        proof {
            lemma_lookup_absent(before, kind);
            assert(self.operations@.drop_last() =~= before);
        }
    }

    /// The level for `kind`; an operation the capabilities do not list is
    /// unsupported as unknown.
    pub fn support(&self, kind: UiOperationKind) -> (r: SupportLevel)
        ensures
            self.level(kind) matches Some(l) ==> r == l,
            self.level(kind) is None ==> unsupported_for(r, "unknown operation"@),
    {
        let mut i = self.operations.len();
        assert(self.operations@.take(i as int) =~= self.operations@);
        while i > 0
            invariant
                i <= self.operations@.len(),
                lookup(self.operations@, kind) == lookup(self.operations@.take(i as int), kind),
            decreases i,
        {
            assert(self.operations@.take(i as int).drop_last() =~= self.operations@.take(i - 1));
            if self.operations[i - 1].0 == kind {
                return self.operations[i - 1].1.clone();
            }
            i -= 1;
        }
        SupportLevel::Unsupported(String::from_str("unknown operation"))
    }
}

impl Default for UiCapabilities {
    /// Every listed kind unsupported, as not enabled by this frontend.
    fn default() -> (r: Self)
        ensures
            r.well_formed(),
            r.protocol_view() == current_version(),
            forall|k: UiOperationKind| #![trigger r.level(k)] all_kinds().contains(k) ==> (r.level(k) matches Some(l)
                && unsupported_for(l, "not enabled by this frontend"@)),
            r.level(UiOperationKind::Unknown) is None,
    {
        UiCapabilities::new()
    }
}

#[derive(Clone, Debug, PartialEq, Eq)]
pub enum DialogRequest {
    Select { title: String, options: Vec<String> },
    Confirm { title: String, message: String },
    Input { title: String, placeholder: String },
    Editor { title: String, prefill: String },
}

#[derive(Clone, Debug, PartialEq, Eq)]
pub enum DialogResult {
    Selected(Option<String>),
    Confirmed(bool),
    Input(Option<String>),
    Edited(Option<String>),
}

#[derive(Clone, Copy, Debug, PartialEq, Eq, Structural)]
pub enum NotificationLevel {
    Info,
    Warning,
    Error,
}

#[derive(Clone, Debug, PartialEq, Eq)]
pub struct Notification {
    pub message: String,
    pub level: NotificationLevel,
}

#[derive(Clone, Debug, PartialEq, Eq)]
pub enum Contribution {
    Put { slot: String, key: String, content: String },
    Remove { slot: String, key: String },
}

#[derive(Clone, Debug, PartialEq, Eq)]
pub enum OverlayAction {
    Show { content: String, capturing: bool },
    Hide,
    SetHidden(bool),
    Focus,
    Unfocus,
}

#[derive(Clone, Debug, PartialEq, Eq)]
#[allow(inconsistent_fields)]
pub enum UiOperation {
    Dialog(DialogRequest),
    Notify(Notification),
    Contribution(Contribution),
    Editor { text: Option<String> },
    Paste { text: String },
    CustomEditor { content: Option<String> },
    Overlay { id: OverlayId, generation: Generation, action: OverlayAction },
    Theme { generation: u64 },
    Keybindings { entries: Vec<(String, String)> },
    TerminalInput { subscription: u64, enabled: bool },
    Clipboard { text: String },
    Render { key: String, content: String },
    Frame {
        key: String,
        frame: crate::render::SemanticFrame,
        cursor: Option<crate::component::CursorAnchor>,
    },
    Capabilities,
    Unknown(String),
}

pub open spec fn spec_kind(op: UiOperation) -> UiOperationKind {
    match op {
        UiOperation::Dialog(_) => UiOperationKind::Dialog,
        UiOperation::Notify(_) => UiOperationKind::Notification,
        UiOperation::Contribution(_) => UiOperationKind::Contribution,
        UiOperation::Editor { .. } | UiOperation::Paste { .. } | UiOperation::CustomEditor {
            ..
        } => UiOperationKind::Editor,
        UiOperation::Overlay { .. } => UiOperationKind::Overlay,
        UiOperation::Theme { .. } => UiOperationKind::Theme,
        UiOperation::Keybindings { .. } => UiOperationKind::Keybindings,
        UiOperation::TerminalInput { .. } => UiOperationKind::TerminalInput,
        UiOperation::Clipboard { .. } => UiOperationKind::Clipboard,
        UiOperation::Render { .. } | UiOperation::Frame { .. } => UiOperationKind::Render,
        UiOperation::Capabilities => UiOperationKind::Capabilities,
        UiOperation::Unknown(_) => UiOperationKind::Unknown,
    }
}

/// The key under which a newer operation replaces a pending older one:
/// `contribution:slot:key`, `render:key`, `editor`, `custom-editor`, `theme`.
pub open spec fn spec_coalesce_key(op: UiOperation) -> Option<Seq<char>> {
    match op {
        UiOperation::Contribution(Contribution::Put { slot, key, .. }) => Some(
            "contribution:"@ + slot@ + ":"@ + key@,
        ),
        UiOperation::Contribution(Contribution::Remove { slot, key }) => Some(
            "contribution:"@ + slot@ + ":"@ + key@,
        ),
        UiOperation::Render { key, .. } => Some("render:"@ + key@),
        UiOperation::Frame { key, .. } => Some("render:"@ + key@),
        UiOperation::Editor { .. } => Some("editor"@),
        UiOperation::CustomEditor { .. } => Some("custom-editor"@),
        UiOperation::Theme { .. } => Some("theme"@),
        _ => None,
    }
}

fn contribution_key(slot: &String, key: &String) -> (r: String)
    ensures
        r@ == "contribution:"@ + slot@ + ":"@ + key@,
{
    let mut r = String::from_str("contribution:");
    push_str(&mut r, slot.as_str());
    push_str(&mut r, ":");
    push_str(&mut r, key.as_str());
    r
}

fn render_key(key: &String) -> (r: String)
    ensures
        r@ == "render:"@ + key@,
{
    let mut r = String::from_str("render:");
    push_str(&mut r, key.as_str());
    r
}

impl UiOperation {
    pub fn kind(&self) -> (r: UiOperationKind)
        ensures
            r == spec_kind(*self),
    {
        match self {
            UiOperation::Dialog(_) => UiOperationKind::Dialog,
            UiOperation::Notify(_) => UiOperationKind::Notification,
            UiOperation::Contribution(_) => UiOperationKind::Contribution,
            UiOperation::Editor { .. } | UiOperation::Paste { .. } | UiOperation::CustomEditor {
                ..
            } => UiOperationKind::Editor,
            UiOperation::Overlay { .. } => UiOperationKind::Overlay,
            UiOperation::Theme { .. } => UiOperationKind::Theme,
            UiOperation::Keybindings { .. } => UiOperationKind::Keybindings,
            UiOperation::TerminalInput { .. } => UiOperationKind::TerminalInput,
            UiOperation::Clipboard { .. } => UiOperationKind::Clipboard,
            UiOperation::Render { .. } | UiOperation::Frame { .. } => UiOperationKind::Render,
            UiOperation::Capabilities => UiOperationKind::Capabilities,
            UiOperation::Unknown(_) => UiOperationKind::Unknown,
        }
    }

    pub fn coalesce_key(&self) -> (r: Option<String>)
        ensures
            crate::text::opt_string_view(r) == spec_coalesce_key(*self),
    {
        match self {
            UiOperation::Contribution(Contribution::Put { slot, key, .. }) => Some(
                contribution_key(slot, key),
            ),
            UiOperation::Contribution(Contribution::Remove { slot, key }) => Some(
                contribution_key(slot, key),
            ),
            UiOperation::Render { key, .. } => Some(render_key(key)),
            UiOperation::Frame { key, .. } => Some(render_key(key)),
            UiOperation::Editor { .. } => Some(String::from_str("editor")),
            UiOperation::CustomEditor { .. } => Some(String::from_str("custom-editor")),
            UiOperation::Theme { .. } => Some(String::from_str("theme")),
            _ => None,
        }
    }
}

#[verifier::external_type_specification]
#[verifier::external_body]
pub struct ExInstant(std::time::Instant);

#[derive(Clone, Debug, PartialEq, Eq)]
pub struct UiEnvelope {
    pub version: UiProtocolVersion,
    pub extension: ExtensionId,
    pub request: RequestId,
    pub generation: Generation,
    pub deadline: Option<std::time::Instant>,
    pub operation: UiOperation,
}

#[derive(Debug, PartialEq, Eq)]
pub enum UiReply {
    Dialog(DialogResult),
    Input(crate::input::InputEvent),
    Value(String),
    Ack,
    Capabilities(UiCapabilities),
    Unsupported { operation: UiOperationKind, reason: String },
    Busy,
    Cancelled,
    StaleHandle,
    Failed(String),
}

/// The levels of the terminal frontend: native for dialogs, notifications,
/// contributions, the editor, overlays, themes, keybindings, terminal input
/// and rendering; degraded clipboard; capabilities queries not enabled.
pub fn native_capabilities() -> (r: UiCapabilities)
    ensures
        r.well_formed(),
        r.protocol_view() == current_version(),
        forall|k: UiOperationKind| #![trigger r.level(k)] native_kinds().contains(k) ==> r.level(k) == Some(SupportLevel::Native),
        r.level(UiOperationKind::Clipboard) matches Some(SupportLevel::Degraded(s)) && s@ == "paste is native; copy depends on terminal selection"@,
        r.level(UiOperationKind::Capabilities) matches Some(l) && unsupported_for(l, "not enabled by this frontend"@),
        r.level(UiOperationKind::Unknown) is None,
{
    let mut capabilities = UiCapabilities::new();
    let kinds = vec![
        UiOperationKind::Dialog,
        UiOperationKind::Notification,
        UiOperationKind::Contribution,
        UiOperationKind::Editor,
        UiOperationKind::Overlay,
        UiOperationKind::Theme,
        UiOperationKind::Keybindings,
        UiOperationKind::TerminalInput,
        UiOperationKind::Render,
    ];
    assert(kinds@ =~= native_kinds());
    assert(all_kinds().contains(UiOperationKind::Capabilities)) by {
        assert(all_kinds()[10] == UiOperationKind::Capabilities);
    }
    let mut i: usize = 0;
    while i < kinds.len()
        invariant
            i <= kinds@.len(),
            kinds@ == native_kinds(),
            capabilities.well_formed(),
            capabilities.protocol_view() == current_version(),
            forall|j: int| 0 <= j < i ==> #[trigger] capabilities.level(kinds@[j]) == Some(SupportLevel::Native),
            capabilities.level(UiOperationKind::Capabilities) matches Some(l) && unsupported_for(l, "not enabled by this frontend"@),
            capabilities.level(UiOperationKind::Unknown) is None,
        decreases kinds@.len() - i,
    {
        capabilities.set(kinds[i], SupportLevel::Native);
        i += 1;
    }
    let reason = String::from_str("paste is native; copy depends on terminal selection");
    capabilities.set(UiOperationKind::Clipboard, SupportLevel::Degraded(reason));
    proof {
        assert forall|k: UiOperationKind| #![trigger capabilities.level(k)] native_kinds().contains(k) implies capabilities.level(k) == Some(SupportLevel::Native) by {
            let j = choose|j: int| 0 <= j < native_kinds().len() && native_kinds()[j] == k;
            assert(capabilities.level(kinds@[j]) == Some(SupportLevel::Native));
        }
    }
    capabilities
}

/// The kinds the terminal frontend handles natively.
pub open spec fn native_kinds() -> Seq<UiOperationKind> {
    seq![
        UiOperationKind::Dialog,
        UiOperationKind::Notification,
        UiOperationKind::Contribution,
        UiOperationKind::Editor,
        UiOperationKind::Overlay,
        UiOperationKind::Theme,
        UiOperationKind::Keybindings,
        UiOperationKind::TerminalInput,
        UiOperationKind::Render,
    ]
}

/// `Ok` unless the capabilities leave `operation` unsupported, in which case
/// the reply says so with the recorded reason.
pub fn supported(capabilities: &UiCapabilities, operation: UiOperationKind) -> (r: Result<(), UiReply>)
    ensures
        match capabilities.level(operation) {
            Some(SupportLevel::Unsupported(reason)) => r == Err::<(), UiReply>(UiReply::Unsupported { operation, reason }),
            Some(_) => r is Ok,
            None => r matches Err(UiReply::Unsupported { operation: o, reason }) && o == operation && reason@ == "unknown operation"@,
        },
{
    match capabilities.support(operation) {
        SupportLevel::Unsupported(reason) => Err(UiReply::Unsupported { operation, reason }),
        _ => Ok(()),
    }
}

} // verus!
