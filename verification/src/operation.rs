//! Versioned, UUID-addressed page and block operations and the rules every one of them
//! must meet before it is applied.

use vstd::prelude::*;
use crate::model::{AttachmentOwner, JournalDate, ObjectKind, PageKind};
use crate::text::{blank, chars_of, is_blank, is_control, is_control_char, str_lt, text_lt};

verus! {

/// The domain format of operations and snapshots this build writes.
pub const FORMAT_VERSION: u32 = 7;

/// The storage format of persisted operation envelopes this build writes.
pub const PERSISTED_ENVELOPE_VERSION: u32 = 2;

/// Where an operation comes from: authored here, or received from the sync server.
#[derive(Debug, Clone, Copy, PartialEq, Eq, Structural)]
pub enum Origin {
    Local,
    Remote,
}

/// A handwriting publication: the page it publishes and the version it creates.
/// `well_formed` records whether the drawing passed the handwriting format's own checks.
#[derive(Debug, Clone, Copy, PartialEq, Eq, Structural)]
pub struct InkPublish {
    pub page_uuid: u128,
    pub version_uuid: u128,
    pub well_formed: bool,
}

#[derive(Debug, Clone)]
pub struct PageCreate {
    pub uuid: u128,
    pub kind: PageKind,
    pub title: Option<String>,
    pub layout: String,
    pub created_at: i64,
}

/// Sets the presence of one explicit page alias using the operation's clock; a title is
/// an implicit alias and does not use this operation.
#[derive(Debug, Clone)]
pub struct PageAliasSet {
    pub uuid: u128,
    pub alias: String,
    pub present: bool,
}

#[derive(Debug, Clone)]
pub struct PageSetTitle {
    pub uuid: u128,
    pub title: Option<String>,
}

#[derive(Debug, Clone)]
pub struct PageSetLayout {
    pub uuid: u128,
    pub layout: String,
}

#[derive(Debug, Clone)]
pub struct PageDelete {
    pub uuid: u128,
}

#[derive(Debug, Clone)]
pub struct BlockCreate {
    pub uuid: u128,
    pub page_uuid: u128,
    pub parent_uuid: Option<u128>,
    pub order_key: String,
    pub style: String,
    pub markdown: String,
    pub created_at: i64,
}

#[derive(Debug, Clone)]
pub struct BlockSetMarkdown {
    pub uuid: u128,
    pub markdown: String,
}

#[derive(Debug, Clone)]
pub struct BlockSetStyle {
    pub uuid: u128,
    pub style: String,
}

#[derive(Debug, Clone)]
pub struct BlockMove {
    pub uuid: u128,
    pub page_uuid: u128,
    pub parent_uuid: Option<u128>,
    pub order_key: String,
}

#[derive(Debug, Clone)]
pub struct BlockDelete {
    pub uuid: u128,
    pub page_uuid: u128,
}

#[derive(Debug, Clone)]
pub struct AttachmentAdd {
    pub owner: AttachmentOwner,
    pub blob_hash: [u8; 32],
    pub filename: String,
    pub mime: String,
    pub size: u64,
}

#[derive(Debug, Clone)]
pub struct AttachmentRemove {
    pub owner: AttachmentOwner,
    pub blob_hash: [u8; 32],
}

#[derive(Debug, Clone)]
pub enum OpKind {
    InkPublish(InkPublish),
    PageCreate(PageCreate),
    PageAliasSet(PageAliasSet),
    PageSetTitle(PageSetTitle),
    PageSetLayout(PageSetLayout),
    PageDelete(PageDelete),
    BlockCreate(BlockCreate),
    BlockSetMarkdown(BlockSetMarkdown),
    BlockSetStyle(BlockSetStyle),
    BlockMove(BlockMove),
    BlockDelete(BlockDelete),
    AttachmentAdd(AttachmentAdd),
    AttachmentRemove(AttachmentRemove),
}

/// One operation: who authored it, when (its hybrid logical clock, as text), and what it does.
#[derive(Debug, Clone)]
pub struct Op {
    pub op_id: u128,
    pub workspace_uuid: u128,
    pub device_id: u128,
    pub hlc: String,
    pub format_version: u32,
    pub kind: OpKind,
}

/// Why an operation or one of its parts was refused.
#[derive(Debug, Clone, Copy, PartialEq, Eq, Structural)]
pub enum OperationError {
    /// The operation's workspace UUID is nil.
    NilWorkspace,
    /// The format version is not one this build reads, or version 6 carries handwriting.
    UnsupportedFormatVersion(u32),
    /// A page title is blank.
    BlankTitle,
    /// A journal page was given a stored title.
    JournalTitle,
    /// A block names itself as its parent.
    OwnParent,
    /// An attachment filename is not a portable basename.
    NonPortableFilename,
    /// An attachment has no MIME type.
    MissingMime,
    /// An attachment's size does not fit a signed 64-bit integer.
    AttachmentTooLarge,
    /// A handwriting publication failed its format's checks.
    MalformedInk,
}

/// A filename that is blank, `.`, `..`, or holds a path separator, NUL or control
/// character is not a portable basename.
pub open spec fn filename_ok(f: Seq<char>) -> bool {
    &&& !is_blank(f)
    &&& f != seq!['.']
    &&& f != seq!['.', '.']
    &&& forall|i: int|
        0 <= i < f.len() ==> !(#[trigger] f[i] == '/' || f[i] == '\\' || f[i] == '\0'
            || is_control_char(f[i]))
}

pub fn validate_attachment_filename(filename: &str) -> (r: Result<(), OperationError>)
    ensures
        r is Ok <==> filename_ok(filename@),
        r is Err ==> r == Err::<(), OperationError>(OperationError::NonPortableFilename),
{
    if blank(filename) {
        return Err(OperationError::NonPortableFilename);
    }
    let v = chars_of(filename);
    if v.len() == 1 && v[0] == '.' {
        assert(filename@ =~= seq!['.']);
        return Err(OperationError::NonPortableFilename);
    }
    if v.len() == 2 && v[0] == '.' && v[1] == '.' {
        assert(filename@ =~= seq!['.', '.']);
        return Err(OperationError::NonPortableFilename);
    }
    let mut i: usize = 0;
    while i < v.len()
        invariant
            v@ == filename@,
            i <= v@.len(),
            forall|j: int|
                0 <= j < i ==> !(#[trigger] v@[j] == '/' || v@[j] == '\\' || v@[j] == '\0'
                    || is_control_char(v@[j])),
        decreases v@.len() - i,
    {
        let c = v[i];
        if c == '/' || c == '\\' || c == '\0' || is_control(c) {
            return Err(OperationError::NonPortableFilename);
        }
        i = i + 1;
    }
    assert(filename@.len() != 1 || filename@ != seq!['.']);
    Ok(())
}

pub open spec fn title_problem(title: Option<Seq<char>>) -> Option<OperationError> {
    match title {
        Some(t) => if is_blank(t) {
            Some(OperationError::BlankTitle)
        } else {
            None
        },
        None => None,
    }
}

pub open spec fn opt_view(t: Option<String>) -> Option<Seq<char>> {
    match t {
        Some(s) => Some(s@),
        None => None,
    }
}

/// A title may be absent, but not blank.
pub fn validate_title(title: Option<&str>) -> (r: Result<(), OperationError>)
    ensures
        r == match title_problem(
            match title {
                Some(t) => Some(t@),
                None => None,
            },
        ) {
            Some(e) => Err(e),
            None => Ok(()),
        },
{
    match title {
        Some(t) => if blank(t) {
            Err(OperationError::BlankTitle)
        } else {
            Ok(())
        },
        None => Ok(()),
    }
}

/// The first rule the payload of an operation breaks, if any.
pub open spec fn kind_problem(kind: OpKind) -> Option<OperationError> {
    match kind {
        OpKind::InkPublish(p) => if p.well_formed {
            None
        } else {
            Some(OperationError::MalformedInk)
        },
        OpKind::PageCreate(p) => if title_problem(opt_view(p.title)) is Some {
            title_problem(opt_view(p.title))
        } else if p.kind is Journal && p.title is Some {
            Some(OperationError::JournalTitle)
        } else {
            None
        },
        OpKind::PageSetTitle(p) => title_problem(opt_view(p.title)),
        OpKind::BlockCreate(p) => if p.parent_uuid == Some(p.uuid) {
            Some(OperationError::OwnParent)
        } else {
            None
        },
        OpKind::BlockMove(p) => if p.parent_uuid == Some(p.uuid) {
            Some(OperationError::OwnParent)
        } else {
            None
        },
        OpKind::AttachmentAdd(p) => if !filename_ok(p.filename@) {
            Some(OperationError::NonPortableFilename)
        } else if is_blank(p.mime@) {
            Some(OperationError::MissingMime)
        } else if p.size > i64::MAX {
            Some(OperationError::AttachmentTooLarge)
        } else {
            None
        },
        _ => None,
    }
}

pub open spec fn as_result(p: Option<OperationError>) -> Result<(), OperationError> {
    match p {
        Some(e) => Err(e),
        None => Ok(()),
    }
}

/// The payload rules, each by what it refuses: a block that is its own parent; a
/// handwriting publication that failed its format's checks; a journal page with a stored
/// title; an attachment filename holding a path separator, NUL or control character, or
/// one that is `.` or `..`; a present attachment without a MIME type; an attachment larger
/// than a signed 64-bit size.
pub proof fn lemma_payload_rules(kind: OpKind)
    ensures
        kind is BlockCreate && kind->BlockCreate_0.parent_uuid == Some(kind->BlockCreate_0.uuid)
            ==> kind_problem(kind) == Some(OperationError::OwnParent),
        kind is BlockMove && kind->BlockMove_0.parent_uuid == Some(kind->BlockMove_0.uuid)
            ==> kind_problem(kind) == Some(OperationError::OwnParent),
        kind is InkPublish && !kind->InkPublish_0.well_formed ==> kind_problem(kind) == Some(
            OperationError::MalformedInk,
        ),
        kind is PageCreate && kind->PageCreate_0.kind is Journal && kind->PageCreate_0.title is Some
            ==> kind_problem(kind) is Some,
        kind is AttachmentAdd && (exists|i: int|
            0 <= i < kind->AttachmentAdd_0.filename@.len() && (#[trigger] kind->AttachmentAdd_0.filename@[i]
                == '/' || kind->AttachmentAdd_0.filename@[i] == '\\' || kind->AttachmentAdd_0.filename@[i]
                == '\0')) ==> kind_problem(kind) == Some(OperationError::NonPortableFilename),
        kind is AttachmentAdd && (kind->AttachmentAdd_0.filename@ == seq!['.']
            || kind->AttachmentAdd_0.filename@ == seq!['.', '.']) ==> kind_problem(kind) == Some(
            OperationError::NonPortableFilename,
        ),
        kind is AttachmentAdd && filename_ok(kind->AttachmentAdd_0.filename@)
            && kind->AttachmentAdd_0.mime@.len() == 0 ==> kind_problem(kind) == Some(
            OperationError::MissingMime,
        ),
        kind is AttachmentAdd && filename_ok(kind->AttachmentAdd_0.filename@) && !is_blank(
            kind->AttachmentAdd_0.mime@,
        ) && kind->AttachmentAdd_0.size > 0x7fff_ffff_ffff_ffff ==> kind_problem(kind) == Some(
            OperationError::AttachmentTooLarge,
        ),
        kind is BlockDelete || kind is PageDelete || kind is BlockSetMarkdown || kind is BlockSetStyle
            || kind is PageSetLayout || kind is AttachmentRemove || kind is PageAliasSet ==> kind_problem(
            kind,
        ) is None,
{
}

pub fn validate_kind(kind: &OpKind) -> (r: Result<(), OperationError>)
    ensures
        r == as_result(kind_problem(*kind)),
{
    match kind {
        OpKind::InkPublish(p) => if p.well_formed {
            Ok(())
        } else {
            Err(OperationError::MalformedInk)
        },
        OpKind::PageCreate(p) => {
            validate_title(
                match &p.title {
                    Some(t) => Some(t.as_str()),
                    None => None,
                },
            )?;
            if p.kind.is_journal() && p.title.is_some() {
                return Err(OperationError::JournalTitle);
            }
            Ok(())
        },
        OpKind::PageSetTitle(p) => validate_title(
            match &p.title {
                Some(t) => Some(t.as_str()),
                None => None,
            },
        ),
        OpKind::BlockCreate(p) => if p.parent_uuid == Some(p.uuid) {
            Err(OperationError::OwnParent)
        } else {
            Ok(())
        },
        OpKind::BlockMove(p) => if p.parent_uuid == Some(p.uuid) {
            Err(OperationError::OwnParent)
        } else {
            Ok(())
        },
        OpKind::AttachmentAdd(p) => {
            validate_attachment_filename(p.filename.as_str())?;
            if blank(p.mime.as_str()) {
                return Err(OperationError::MissingMime);
            }
            if p.size > 0x7fff_ffff_ffff_ffffu64 {
                return Err(OperationError::AttachmentTooLarge);
            }
            Ok(())
        },
        _ => Ok(()),
    }
}

/// Format version 6 predates handwriting: it can carry neither a publication nor a
/// handwriting page.
pub open spec fn carries_handwriting(kind: OpKind) -> bool {
    ||| kind is InkPublish
    ||| (kind is PageCreate && kind->PageCreate_0.kind == PageKind::Handwriting)
}

/// The first rule an operation breaks, if any: a real workspace, a readable format
/// version, and a valid payload.
pub open spec fn op_problem(op: Op) -> Option<OperationError> {
    if op.workspace_uuid == 0 {
        Some(OperationError::NilWorkspace)
    } else if !(op.format_version == 6 || op.format_version == FORMAT_VERSION) || (
    op.format_version == 6 && carries_handwriting(op.kind)) {
        Some(OperationError::UnsupportedFormatVersion(op.format_version))
    } else {
        kind_problem(op.kind)
    }
}

pub fn validate(operation: &Op) -> (r: Result<(), OperationError>)
    ensures
        r == as_result(op_problem(*operation)),
{
    if operation.workspace_uuid == 0 {
        return Err(OperationError::NilWorkspace);
    }
    let handwriting = match &operation.kind {
        OpKind::InkPublish(_) => true,
        OpKind::PageCreate(p) => match p.kind {
            PageKind::Handwriting => true,
            _ => false,
        },
        _ => false,
    };
    if !(operation.format_version == 6 || operation.format_version == FORMAT_VERSION) || (
    operation.format_version == 6 && handwriting) {
        return Err(OperationError::UnsupportedFormatVersion(operation.format_version));
    }
    validate_kind(&operation.kind)
}

/// How a replica reaches the durable operation stream it authors into.
///
/// Every replica materializes the same stream, but they do not all reach it the same way,
/// and an operation that never reaches it is not durable.
#[derive(Debug, Clone, Copy, PartialEq, Eq, Structural)]
pub enum ReplicaRole {
    /// Reaches the stream by pushing authored operations to an upstream server.
    Client,
    /// Owns the stream: authored operations reach it through the local oplog.
    Server,
}

pub open spec fn role_name(role: ReplicaRole) -> Seq<char> {
    match role {
        ReplicaRole::Client => "client"@,
        ReplicaRole::Server => "server"@,
    }
}

impl ReplicaRole {
    /// The value stored for this role.
    pub fn as_stored(self) -> (r: &'static str)
        ensures
            r@ == role_name(self),
    {
        match self {
            ReplicaRole::Client => "client",
            ReplicaRole::Server => "server",
        }
    }

    /// The role a stored value names, if any.
    pub fn from_stored(value: &str) -> (r: Option<Self>)
        ensures
            match r {
                Some(role) => role_name(role) == value@,
                None => forall|role: ReplicaRole| role_name(role) != value@,
            },
    {
        let v = chars_of(value);
        let client = chars_of("client");
        let server = chars_of("server");
        let n = v.len();
        assert(v@.subrange(0, n as int) =~= v@);
        if crate::text::range_eq(v.as_slice(), 0, n, client.as_slice()) {
            Some(ReplicaRole::Client)
        } else if crate::text::range_eq(v.as_slice(), 0, n, server.as_slice()) {
            Some(ReplicaRole::Server)
        } else {
            assert forall|role: ReplicaRole| role_name(role) != value@ by {
                match role {
                    ReplicaRole::Client => {},
                    ReplicaRole::Server => {},
                }
            }
            None
        }
    }
}

/// The role a replica has when its stored role is `stored`: an unknown or missing value
/// means a client.
pub open spec fn role_or_client(stored: Option<Seq<char>>) -> ReplicaRole {
    match stored {
        Some(v) => if v == role_name(ReplicaRole::Server) {
            ReplicaRole::Server
        } else {
            ReplicaRole::Client
        },
        None => ReplicaRole::Client,
    }
}

pub fn replica_role(stored: Option<&str>) -> (r: ReplicaRole)
    ensures
        r == role_or_client(
            match stored {
                Some(s) => Some(s@),
                None => None,
            },
        ),
{
    proof {
        reveal_strlit("client");
        reveal_strlit("server");
    }
    match stored {
        Some(value) => match ReplicaRole::from_stored(value) {
            Some(role) => {
                assert(role_name(ReplicaRole::Client)[0] != role_name(ReplicaRole::Server)[0]);
                role
            },
            None => {
                assert(role_name(ReplicaRole::Server) != value@);
                ReplicaRole::Client
            },
        },
        None => ReplicaRole::Client,
    }
}

/// Whether operations authored on this replica are queued for publication: a server owns
/// the stream and always publishes; a client publishes once an upstream URL is configured.
pub fn publishes_authored_ops(role: ReplicaRole, server_url: Option<&str>) -> (r: bool)
    ensures
        r == (role == ReplicaRole::Server || match server_url {
            Some(u) => !is_blank(u@),
            None => false,
        }),
{
    if role == ReplicaRole::Server {
        return true;
    }
    match server_url {
        Some(u) => !blank(u),
        None => false,
    }
}

/// Last-writer-wins: an incoming clock wins over no clock and over any earlier one.
pub fn hlc_wins(current: Option<&str>, incoming: &str) -> (r: bool)
    ensures
        r == match current {
            Some(c) => text_lt(c@, incoming@),
            None => true,
        },
{
    match current {
        Some(c) => str_lt(c, incoming),
        None => true,
    }
}

/// The first rule that one of the operation payloads breaks, in order.
pub open spec fn first_kind_problem(kinds: Seq<OpKind>) -> Option<OperationError>
    decreases kinds.len(),
{
    if kinds.len() == 0 {
        None
    } else if kind_problem(kinds[0]) is Some {
        kind_problem(kinds[0])
    } else {
        first_kind_problem(kinds.drop_first())
    }
}

/// Checks a whole batch of payloads before any of it is applied, so that a malformed item
/// late in a batch leaves the replica untouched.
pub fn validate_kinds(kinds: &[OpKind]) -> (r: Result<(), OperationError>)
    ensures
        r == as_result(first_kind_problem(kinds@)),
{
    let mut i: usize = 0;
    assert(kinds@.skip(0) =~= kinds@);
    while i < kinds.len()
        invariant
            i <= kinds@.len(),
            first_kind_problem(kinds@) == first_kind_problem(kinds@.skip(i as int)),
        decreases kinds@.len() - i,
    {
        assert(kinds@.skip(i as int)[0] == kinds@[i as int]);
        assert(kinds@.skip(i as int).drop_first() =~= kinds@.skip(i + 1));
        validate_kind(&kinds[i])?;
        i = i + 1;
    }
    assert(kinds@.skip(i as int).len() == 0);
    Ok(())
}

/// The first rule that one of the operations breaks, in order.
pub open spec fn first_op_problem(ops: Seq<Op>) -> Option<OperationError>
    decreases ops.len(),
{
    if ops.len() == 0 {
        None
    } else if op_problem(ops[0]) is Some {
        op_problem(ops[0])
    } else {
        first_op_problem(ops.drop_first())
    }
}

/// Checks a whole batch of operations before any of it is applied.
pub fn validate_all(operations: &[Op]) -> (r: Result<(), OperationError>)
    ensures
        r == as_result(first_op_problem(operations@)),
{
    let mut i: usize = 0;
    assert(operations@.skip(0) =~= operations@);
    while i < operations.len()
        invariant
            i <= operations@.len(),
            first_op_problem(operations@) == first_op_problem(operations@.skip(i as int)),
        decreases operations@.len() - i,
    {
        assert(operations@.skip(i as int)[0] == operations@[i as int]);
        assert(operations@.skip(i as int).drop_first() =~= operations@.skip(i + 1));
        validate(&operations[i])?;
        i = i + 1;
    }
    assert(operations@.skip(i as int).len() == 0);
    Ok(())
}

/// What a batch does with one operation.
#[derive(Debug, Clone, Copy, PartialEq, Eq, Structural)]
pub enum BatchStep {
    /// The operation was applied here before: nothing to do.
    Skip,
    /// The operation is applied; `publish` queues it for the server, `observe_clock`
    /// advances the local clock past it.
    Apply { publish: bool, observe_clock: bool },
}

pub open spec fn step_of(origin: Origin, publishes: bool, already_applied: bool) -> BatchStep {
    if already_applied {
        BatchStep::Skip
    } else {
        BatchStep::Apply {
            publish: origin == Origin::Local && publishes,
            observe_clock: origin == Origin::Remote,
        }
    }
}

/// A batch applies each operation once. Local operations are queued for publication when
/// the replica publishes what it authors; remote ones advance the local clock.
pub fn batch_step(origin: Origin, publishes: bool, already_applied: bool) -> (r: BatchStep)
    ensures
        r == step_of(origin, publishes, already_applied),
{
    if already_applied {
        BatchStep::Skip
    } else {
        BatchStep::Apply {
            publish: origin == Origin::Local && publishes,
            observe_clock: origin == Origin::Remote,
        }
    }
}

/// What applying one operation did: whether it was applied here for the first time, the
/// objects it touched, and whether it changed the reference graph.
#[derive(Debug, Clone, PartialEq, Eq)]
pub struct ApplyOutcome {
    pub applied: bool,
    pub affected_uuids: Vec<u128>,
    pub graph_changed: bool,
}

impl Default for ApplyOutcome {
    /// The outcome of an operation that was applied before: nothing happened.
    fn default() -> (r: Self)
        ensures
            !r.applied,
            r.affected_uuids@ == Seq::<u128>::empty(),
            !r.graph_changed,
    {
        ApplyOutcome { applied: false, affected_uuids: Vec::new(), graph_changed: false }
    }
}

/// A stored role reads back as itself: the two roles have different names.
pub proof fn lemma_role_names_distinct(a: ReplicaRole, b: ReplicaRole)
    ensures
        role_name(a) == role_name(b) ==> a == b,
{
    reveal_strlit("client");
    reveal_strlit("server");
    if role_name(a) == role_name(b) && a != b {
        assert(role_name(a)[0] != role_name(b)[0]);
    }
}

/// What a batch leaves recorded: the operations applied, and those queued for the server,
/// after `ops` are taken in order with `batch_step`; and the step of each.
pub open spec fn batch_run(
    origin: Origin,
    publishes: bool,
    applied: Set<u128>,
    outbox: Set<u128>,
    ops: Seq<u128>,
) -> (Set<u128>, Set<u128>, Seq<BatchStep>)
    decreases ops.len(),
{
    if ops.len() == 0 {
        (applied, outbox, Seq::empty())
    } else {
        let step = step_of(origin, publishes, applied.contains(ops[0]));
        let (a1, o1) = match step {
            BatchStep::Skip => (applied, outbox),
            BatchStep::Apply { publish, .. } => (
                applied.insert(ops[0]),
                if publish {
                    outbox.insert(ops[0])
                } else {
                    outbox
                },
            ),
        };
        let rest = batch_run(origin, publishes, a1, o1, ops.drop_first());
        (rest.0, rest.1, seq![step] + rest.2)
    }
}

proof fn lemma_batch_run(origin: Origin, publishes: bool, applied: Set<u128>, outbox: Set<u128>, ops: Seq<u128>)
    ensures
        ({
            let (a2, o2, steps) = batch_run(origin, publishes, applied, outbox, ops);
            &&& steps.len() == ops.len()
            &&& forall|x: u128| #[trigger] a2.contains(x) <==> applied.contains(x) || ops.contains(x)
            &&& forall|x: u128|
                #[trigger] o2.contains(x) <==> outbox.contains(x) || (origin == Origin::Local
                    && publishes && ops.contains(x) && !applied.contains(x))
            &&& forall|i: int|
                0 <= i < ops.len() ==> (#[trigger] steps[i] is Apply <==> (!applied.contains(ops[i])
                    && forall|j: int| 0 <= j < i ==> ops[j] != ops[i]))
            &&& forall|i: int|
                0 <= i < ops.len() ==> (#[trigger] steps[i] is Apply ==> steps[i] == step_of(
                    origin,
                    publishes,
                    false,
                ))
        }),
    decreases ops.len(),
{
    if ops.len() > 0 {
        let x0 = ops[0];
        let rest = ops.drop_first();
        let step = step_of(origin, publishes, applied.contains(x0));
        let a1 = applied.insert(x0);
        let o1 = if !applied.contains(x0) && origin == Origin::Local && publishes {
            outbox.insert(x0)
        } else {
            outbox
        };
        assert(batch_run(origin, publishes, applied, outbox, ops) == {
            let r = batch_run(origin, publishes, a1, o1, rest);
            (r.0, r.1, seq![step] + r.2)
        }) by {
            if applied.contains(x0) {
                assert(a1 =~= applied);
            }
        }
        lemma_batch_run(origin, publishes, a1, o1, rest);
        let (a2, o2, steps) = batch_run(origin, publishes, applied, outbox, ops);
        let tail = batch_run(origin, publishes, a1, o1, rest).2;
        assert(steps == seq![step] + tail);
        assert forall|x: u128| ops.contains(x) <==> (x == x0 || rest.contains(x)) by {
            if ops.contains(x) {
                let k = choose|k: int| 0 <= k < ops.len() && ops[k] == x;
                if k > 0 {
                    assert(rest[k - 1] == x);
                }
            }
            if rest.contains(x) {
                let k = choose|k: int| 0 <= k < rest.len() && rest[k] == x;
                assert(ops[k + 1] == x);
            }
            if x == x0 {
                assert(ops[0] == x);
            }
        }
        assert forall|x: u128| #[trigger] a2.contains(x) <==> applied.contains(x) || ops.contains(x) by {
        }
        assert forall|x: u128|
            #[trigger] o2.contains(x) <==> outbox.contains(x) || (origin == Origin::Local && publishes
                && ops.contains(x) && !applied.contains(x)) by {
        }
        assert forall|i: int|
            0 <= i < ops.len() implies (#[trigger] steps[i] is Apply <==> (!applied.contains(ops[i])
                && forall|j: int| 0 <= j < i ==> ops[j] != ops[i])) by {
            if i > 0 {
                assert(ops[i] == rest[i - 1]);
                assert(steps[i] == tail[i - 1]);
                assert((forall|j: int| 0 <= j < i ==> #[trigger] ops[j] != ops[i]) <==> (ops[0] != ops[i] && forall|j: int|
                    0 <= j < i - 1 ==> #[trigger] rest[j] != rest[i - 1])) by {
                    if forall|j: int| 0 <= j < i - 1 ==> #[trigger] rest[j] != rest[i - 1] {
                        assert forall|j: int| 0 < j < i implies #[trigger] ops[j] != ops[i] by {
                            assert(ops[j] == rest[j - 1]);
                        }
                    }
                    if forall|j: int| 0 <= j < i ==> #[trigger] ops[j] != ops[i] {
                        assert forall|j: int| 0 <= j < i - 1 implies #[trigger] rest[j] != rest[i - 1] by {
                            assert(ops[j + 1] == rest[j]);
                        }
                    }
                }
            }
        }
        assert forall|i: int|
            0 <= i < ops.len() implies (#[trigger] steps[i] is Apply ==> steps[i] == step_of(
                origin,
                publishes,
                false,
            )) by {
            if i > 0 {
                assert(steps[i] == tail[i - 1]);
            }
        }
    } else {
        assert(batch_run(origin, publishes, applied, outbox, ops).2 =~= Seq::<BatchStep>::empty());
    }
}

proof fn lemma_batch_replay(origin: Origin, publishes: bool, applied: Set<u128>, outbox: Set<u128>, ops: Seq<u128>)
    requires
        forall|i: int| 0 <= i < ops.len() ==> applied.contains(#[trigger] ops[i]),
    ensures
        batch_run(origin, publishes, applied, outbox, ops) == (
        applied,
        outbox,
        Seq::new(ops.len(), |i: int| BatchStep::Skip),
        ),
    decreases ops.len(),
{
    if ops.len() > 0 {
        let rest = ops.drop_first();
        assert forall|i: int| 0 <= i < rest.len() implies applied.contains(#[trigger] rest[i]) by {
            assert(rest[i] == ops[i + 1]);
        }
        assert(applied.contains(ops[0]));
        lemma_batch_replay(origin, publishes, applied, outbox, rest);
        assert(seq![BatchStep::Skip] + Seq::new(rest.len(), |i: int| BatchStep::Skip) =~= Seq::new(
            ops.len(),
            |i: int| BatchStep::Skip,
        ));
    } else {
        assert(Seq::new(0, |i: int| BatchStep::Skip) =~= Seq::<BatchStep>::empty());
    }
}

/// A batch applies each operation once: one step per operation; an operation is applied
/// exactly when neither the replica nor an earlier item of the batch applied it; every
/// operation ends up applied; only a local batch on a replica that publishes queues
/// anything, and then exactly the operations it applied. The same batch again skips every
/// operation and changes nothing.
pub proof fn lemma_batch_applies_once(
    origin: Origin,
    publishes: bool,
    applied: Set<u128>,
    outbox: Set<u128>,
    ops: Seq<u128>,
)
    ensures
        ({
            let (a2, o2, steps) = batch_run(origin, publishes, applied, outbox, ops);
            &&& steps.len() == ops.len()
            &&& forall|i: int|
                0 <= i < ops.len() ==> (#[trigger] steps[i] is Apply <==> (!applied.contains(ops[i])
                    && forall|j: int| 0 <= j < i ==> ops[j] != ops[i]))
            &&& forall|x: u128| #[trigger] a2.contains(x) <==> applied.contains(x) || ops.contains(x)
            &&& forall|x: u128|
                #[trigger] o2.contains(x) <==> outbox.contains(x) || (origin == Origin::Local
                    && publishes && ops.contains(x) && !applied.contains(x))
            &&& batch_run(origin, publishes, a2, o2, ops) == (
            a2,
            o2,
            Seq::new(ops.len(), |i: int| BatchStep::Skip),
            )
        }),
{
    lemma_batch_run(origin, publishes, applied, outbox, ops);
    let (a2, o2, steps) = batch_run(origin, publishes, applied, outbox, ops);
    assert forall|i: int| 0 <= i < ops.len() implies a2.contains(#[trigger] ops[i]) by {
        assert(ops.contains(ops[i]));
    }
    lemma_batch_replay(origin, publishes, a2, o2, ops);
}

} // verus!