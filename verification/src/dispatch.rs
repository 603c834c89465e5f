//! Method dispatch and lock planning.
//!
//! Every handler declares, as data, which shared server fields it
//! reads or writes. The dispatcher resolves the handler for each
//! inbound message in arrival order, acquires the declared leases in
//! one fixed field order, and only then moves to the next message.
//! This module holds the registry, the per-field reader-writer grant
//! rules, and the dispatch decision function, all as pure verified
//! logic; the surrounding event loop performs the waiting.

use crate::rpc::RpcId;
use crate::rpc::RpcMessage;
use vstd::prelude::*;
use vstd::string::*;

verus! {

/// What a handler needs of one shared field.
#[derive(Debug, Clone, Copy, PartialEq, Eq, Structural)]
pub enum Access {
    Unused,
    Read,
    Write,
}

/// A handler's declared needs over the shared server state, one slot
/// per field.
#[derive(Debug, Clone, Copy, PartialEq, Eq, Structural)]
pub struct LockPlan {
    pub project_root: Access,
    pub open_buffers: Access,
    pub capabilities: Access,
    pub settings: Access,
    pub checks: Access,
}

/// A plan touching nothing.
pub open spec fn empty_plan() -> LockPlan {
    LockPlan {
        project_root: Access::Unused,
        open_buffers: Access::Unused,
        capabilities: Access::Unused,
        settings: Access::Unused,
        checks: Access::Unused,
    }
}

/// The handlers this server registers.
#[derive(Debug, Clone, Copy, PartialEq, Eq, Structural)]
pub enum HandlerId {
    Initialized,
    DidOpen,
    DidChange,
    CodeAction,
    PublishDiagnostics,
}

/// The lock plan each handler declares: document edits write the
/// open buffers; action lookup reads the check registries; the
/// diagnostic run reads the buffers and replaces its document's
/// checks.
pub open spec fn spec_plan_for(h: HandlerId) -> LockPlan {
    match h {
        HandlerId::Initialized => empty_plan(),
        HandlerId::DidOpen => LockPlan { open_buffers: Access::Write, ..empty_plan() },
        HandlerId::DidChange => LockPlan { open_buffers: Access::Write, ..empty_plan() },
        HandlerId::CodeAction => LockPlan { checks: Access::Read, ..empty_plan() },
        HandlerId::PublishDiagnostics => LockPlan {
            open_buffers: Access::Read,
            checks: Access::Write,
            ..empty_plan()
        },
    }
}

pub fn plan_for(h: HandlerId) -> (p: LockPlan)
    ensures
        p == spec_plan_for(h),
{
    let empty = LockPlan {
        project_root: Access::Unused,
        open_buffers: Access::Unused,
        capabilities: Access::Unused,
        settings: Access::Unused,
        checks: Access::Unused,
    };
    match h {
        HandlerId::Initialized => empty,
        HandlerId::DidOpen => LockPlan { open_buffers: Access::Write, ..empty },
        HandlerId::DidChange => LockPlan { open_buffers: Access::Write, ..empty },
        HandlerId::CodeAction => LockPlan { checks: Access::Read, ..empty },
        HandlerId::PublishDiagnostics => LockPlan {
            open_buffers: Access::Read,
            checks: Access::Write,
            ..empty
        },
    }
}

/// The notification registry: method name to handler.
pub fn lookup_notification(method: &String) -> (r: Option<HandlerId>)
    ensures
        method@ == "initialized"@ ==> r == Some(HandlerId::Initialized),
        method@ == "textDocument/didOpen"@ ==> r == Some(HandlerId::DidOpen),
        method@ == "textDocument/didChange"@ ==> r == Some(HandlerId::DidChange),
        method@ != "initialized"@ && method@ != "textDocument/didOpen"@ && method@
            != "textDocument/didChange"@ ==> r is None,
{
    proof {
        reveal_strlit("initialized");
        reveal_strlit("textDocument/didOpen");
        reveal_strlit("textDocument/didChange");
        assert("initialized"@.len() == 11);
        assert("textDocument/didOpen"@.len() == 20);
        assert("textDocument/didChange"@.len() == 22);
    }
    if method.eq(&String::from_str("initialized")) {
        Some(HandlerId::Initialized)
    } else if method.eq(&String::from_str("textDocument/didOpen")) {
        Some(HandlerId::DidOpen)
    } else if method.eq(&String::from_str("textDocument/didChange")) {
        Some(HandlerId::DidChange)
    } else {
        None
    }
}

/// The request registry: method name to handler.
pub fn lookup_request(method: &String) -> (r: Option<HandlerId>)
    ensures
        method@ == "textDocument/codeAction"@ ==> r == Some(HandlerId::CodeAction),
        method@ != "textDocument/codeAction"@ ==> r is None,
{
    if method.eq(&String::from_str("textDocument/codeAction")) {
        Some(HandlerId::CodeAction)
    } else {
        None
    }
}

/// Live grants over one shared field: how many readers hold it and
/// whether a writer does.
#[derive(Debug, Clone, Copy, PartialEq, Eq, Structural)]
pub struct FieldLockState {
    pub readers: usize,
    pub writer: bool,
}

/// Whether a fresh lease can be granted alongside the current
/// holders: reads exclude only a writer; a write excludes everyone.
pub open spec fn compatible(s: FieldLockState, a: Access) -> bool {
    match a {
        Access::Unused => true,
        Access::Read => !s.writer,
        Access::Write => !s.writer && s.readers == 0,
    }
}

/// A field holding a write lease admits no further lease of either
/// kind: two handlers that both write a field can never hold it at
/// once, which keeps their bodies apart.
pub proof fn lemma_writer_excludes(s: FieldLockState)
    requires
        s.writer,
    ensures
        !compatible(s, Access::Read),
        !compatible(s, Access::Write),
{
}

/// A field with no writer admits any number of readers: two handlers
/// that only read a field may run at once.
pub proof fn lemma_readers_share(s: FieldLockState)
    requires
        !s.writer,
    ensures
        compatible(s, Access::Read),
{
}

/// One lock state per shared server field.
#[derive(Debug, Clone, Copy, PartialEq, Eq, Structural)]
pub struct ServerLocks {
    pub project_root: FieldLockState,
    pub open_buffers: FieldLockState,
    pub capabilities: FieldLockState,
    pub settings: FieldLockState,
    pub checks: FieldLockState,
}

/// Whether a whole plan can be granted now.
pub open spec fn plan_compatible(s: ServerLocks, p: LockPlan) -> bool {
    &&& compatible(s.project_root, p.project_root)
    &&& compatible(s.open_buffers, p.open_buffers)
    &&& compatible(s.capabilities, p.capabilities)
    &&& compatible(s.settings, p.settings)
    &&& compatible(s.checks, p.checks)
}

/// One field's state after granting a lease.
pub open spec fn granted(s: FieldLockState, a: Access) -> FieldLockState {
    match a {
        Access::Unused => s,
        Access::Read => FieldLockState { readers: (s.readers + 1) as usize, ..s },
        Access::Write => FieldLockState { writer: true, ..s },
    }
}

/// The lock table after granting a whole plan.
pub open spec fn plan_granted(s: ServerLocks, p: LockPlan) -> ServerLocks {
    ServerLocks {
        project_root: granted(s.project_root, p.project_root),
        open_buffers: granted(s.open_buffers, p.open_buffers),
        capabilities: granted(s.capabilities, p.capabilities),
        settings: granted(s.settings, p.settings),
        checks: granted(s.checks, p.checks),
    }
}

/// Two plans that both write the open-buffer table can never both be
/// granted: once the first holds its leases, the second stays
/// incompatible until the first releases. Two plans that only read
/// it stay compatible.
pub proof fn lemma_buffer_writers_exclude(s: ServerLocks, first: LockPlan, second: LockPlan)
    requires
        first.open_buffers == Access::Write,
        second.open_buffers == Access::Write,
        plan_compatible(s, first),
    ensures
        !plan_compatible(plan_granted(s, first), second),
{
}

/// Granting a read of a field leaves further reads of it possible.
pub proof fn lemma_buffer_readers_coexist(s: ServerLocks, first: LockPlan, second: LockPlan)
    requires
        first.open_buffers == Access::Read,
        second.open_buffers == Access::Read,
        plan_compatible(s, first),
    ensures
        compatible(plan_granted(s, first).open_buffers, second.open_buffers),
{
}

pub fn can_grant_field(s: &FieldLockState, a: Access) -> (r: bool)
    ensures
        r == compatible(*s, a),
{
    match a {
        Access::Unused => true,
        Access::Read => !s.writer,
        Access::Write => !s.writer && s.readers == 0,
    }
}

/// Whether the dispatcher may hand out every lease of `p` now.
pub fn can_grant(s: &ServerLocks, p: &LockPlan) -> (r: bool)
    ensures
        r == plan_compatible(*s, *p),
{
    can_grant_field(&s.project_root, p.project_root) && can_grant_field(
        &s.open_buffers,
        p.open_buffers,
    ) && can_grant_field(&s.capabilities, p.capabilities) && can_grant_field(
        &s.settings,
        p.settings,
    ) && can_grant_field(&s.checks, p.checks)
}

fn grant_field(s: &mut FieldLockState, a: Access)
    requires
        compatible(*old(s), a),
        old(s).readers < usize::MAX,
    ensures
        *final(s) == granted(*old(s), a),
{
    match a {
        Access::Unused => {},
        Access::Read => {
            s.readers = s.readers + 1;
        },
        Access::Write => {
            s.writer = true;
        },
    }
}

/// Hands out every lease of `p`, in the fixed field order.
pub fn grant(s: &mut ServerLocks, p: &LockPlan)
    requires
        plan_compatible(*old(s), *p),
        old(s).project_root.readers < usize::MAX,
        old(s).open_buffers.readers < usize::MAX,
        old(s).capabilities.readers < usize::MAX,
        old(s).settings.readers < usize::MAX,
        old(s).checks.readers < usize::MAX,
    ensures
        *final(s) == plan_granted(*old(s), *p),
{
    grant_field(&mut s.project_root, p.project_root);
    grant_field(&mut s.open_buffers, p.open_buffers);
    grant_field(&mut s.capabilities, p.capabilities);
    grant_field(&mut s.settings, p.settings);
    grant_field(&mut s.checks, p.checks);
}

/// One field's state after a lease comes back.
pub open spec fn released(s: FieldLockState, a: Access) -> FieldLockState {
    match a {
        Access::Unused => s,
        Access::Read => FieldLockState { readers: (s.readers - 1) as usize, ..s },
        Access::Write => FieldLockState { writer: false, ..s },
    }
}

fn release_field(s: &mut FieldLockState, a: Access)
    requires
        a == Access::Read ==> old(s).readers >= 1,
    ensures
        *final(s) == released(*old(s), a),
{
    match a {
        Access::Unused => {},
        Access::Read => {
            s.readers = s.readers - 1;
        },
        Access::Write => {
            s.writer = false;
        },
    }
}

/// Returns every lease of `p` when its handler body finishes.
pub fn release(s: &mut ServerLocks, p: &LockPlan)
    requires
        p.project_root == Access::Read ==> old(s).project_root.readers >= 1,
        p.open_buffers == Access::Read ==> old(s).open_buffers.readers >= 1,
        p.capabilities == Access::Read ==> old(s).capabilities.readers >= 1,
        p.settings == Access::Read ==> old(s).settings.readers >= 1,
        p.checks == Access::Read ==> old(s).checks.readers >= 1,
    ensures
        final(s).project_root == released(old(s).project_root, p.project_root),
        final(s).open_buffers == released(old(s).open_buffers, p.open_buffers),
        final(s).capabilities == released(old(s).capabilities, p.capabilities),
        final(s).settings == released(old(s).settings, p.settings),
        final(s).checks == released(old(s).checks, p.checks),
{
    release_field(&mut s.project_root, p.project_root);
    release_field(&mut s.open_buffers, p.open_buffers);
    release_field(&mut s.capabilities, p.capabilities);
    release_field(&mut s.settings, p.settings);
    release_field(&mut s.checks, p.checks);
}

/// The server's lifecycle: nothing is served before a valid
/// `initialize` exchange.
#[derive(Debug, Clone, Copy, PartialEq, Eq, Structural)]
pub enum ServerStage {
    Uninitialised,
    Initialised,
}

/// What the dispatcher does with one inbound message.
#[allow(inconsistent_fields)]
pub enum DispatchDecision {
    /// Run the initialise exchange and answer with the capabilities.
    RespondInitialize { id: RpcId },
    /// Spawn a request handler and record its task under the id for
    /// later cancellation.
    SpawnRequest { handler: HandlerId, id: RpcId },
    /// Spawn a notification handler; nothing is recorded.
    SpawnNotification { handler: HandlerId },
    /// Answer with a protocol error, addressed to the id when the
    /// offending message had one.
    RespondError { id: Option<RpcId>, code: i64 },
    /// Silently drop the message.
    Ignore,
}

/// The dispatch rule for one inbound message in one server stage:
/// invalid envelopes are refused with `InvalidRequest` at the null
/// id; before initialisation only `initialize` is served and
/// everything else earns `ServerNotInitialized`; afterwards requests
/// resolve through the request registry (unknown ones earn
/// `MethodNotFound`), notifications through the notification
/// registry (unknown ones are dropped), and stray responses are
/// ignored.
pub open spec fn spec_dispatch(stage: ServerStage, msg: RpcMessage) -> (ServerStage,
    DispatchDecision) {
    if msg.version() != "2.0"@ {
        (stage, DispatchDecision::RespondError { id: None, code: -32600i64 })
    } else {
        match stage {
            ServerStage::Uninitialised => match msg {
                RpcMessage::Request(r) => {
                    if r.method@ == "initialize"@ {
                        (ServerStage::Initialised, DispatchDecision::RespondInitialize {
                            id: r.id,
                        })
                    } else {
                        (stage, DispatchDecision::RespondError { id: Some(r.id), code: -32002i64 })
                    }
                },
                RpcMessage::Notification(_) => (stage, DispatchDecision::RespondError {
                    id: None,
                    code: -32002i64,
                }),
                RpcMessage::Response(_) => (stage, DispatchDecision::Ignore),
            },
            ServerStage::Initialised => match msg {
                RpcMessage::Request(r) => {
                    if r.method@ == "textDocument/codeAction"@ {
                        (stage, DispatchDecision::SpawnRequest {
                            handler: HandlerId::CodeAction,
                            id: r.id,
                        })
                    } else {
                        (stage, DispatchDecision::RespondError { id: Some(r.id), code: -32601i64 })
                    }
                },
                RpcMessage::Notification(nf) => {
                    if nf.method@ == "initialized"@ {
                        (stage, DispatchDecision::SpawnNotification {
                            handler: HandlerId::Initialized,
                        })
                    } else if nf.method@ == "textDocument/didOpen"@ {
                        (stage, DispatchDecision::SpawnNotification { handler: HandlerId::DidOpen })
                    } else if nf.method@ == "textDocument/didChange"@ {
                        (stage, DispatchDecision::SpawnNotification {
                            handler: HandlerId::DidChange,
                        })
                    } else {
                        (stage, DispatchDecision::Ignore)
                    }
                },
                RpcMessage::Response(_) => (stage, DispatchDecision::Ignore),
            },
        }
    }
}

/// Decides one message, returning the stage that the decision leaves
/// the server in.
pub fn dispatch_message(stage: ServerStage, msg: RpcMessage) -> (r: (
    ServerStage,
    DispatchDecision,
))
    ensures
        r == spec_dispatch(stage, msg),
{
    if !msg.validate() {
        return (stage, DispatchDecision::RespondError { id: None, code: -32600i64 });
    }
    match stage {
        ServerStage::Uninitialised => match msg {
            RpcMessage::Request(r) => {
                if r.method.eq(&String::from_str("initialize")) {
                    (ServerStage::Initialised, DispatchDecision::RespondInitialize { id: r.id })
                } else {
                    (stage, DispatchDecision::RespondError { id: Some(r.id), code: -32002i64 })
                }
            },
            RpcMessage::Notification(_) => (stage, DispatchDecision::RespondError {
                id: None,
                code: -32002i64,
            }),
            RpcMessage::Response(_) => (stage, DispatchDecision::Ignore),
        },
        ServerStage::Initialised => match msg {
            RpcMessage::Request(r) => {
                match lookup_request(&r.method) {
                    Some(h) => (stage, DispatchDecision::SpawnRequest { handler: h, id: r.id }),
                    None => (stage, DispatchDecision::RespondError {
                        id: Some(r.id),
                        code: -32601i64,
                    }),
                }
            },
            RpcMessage::Notification(nf) => {
                match lookup_notification(&nf.method) {
                    Some(h) => (stage, DispatchDecision::SpawnNotification { handler: h }),
                    None => (stage, DispatchDecision::Ignore),
                }
            },
            RpcMessage::Response(_) => (stage, DispatchDecision::Ignore),
        },
    }
}

/// The decisions for a whole inbound sequence, each made in the
/// stage that the previous message left behind.
pub open spec fn spec_dispatch_seq(stage: ServerStage, msgs: Seq<RpcMessage>) -> (Seq<
    DispatchDecision,
>, ServerStage)
    decreases msgs.len(),
{
    if msgs.len() == 0 {
        (Seq::empty(), stage)
    } else {
        let first = spec_dispatch(stage, msgs[0]);
        let rest = spec_dispatch_seq(first.0, msgs.drop_first());
        (seq![first.1] + rest.0, rest.1)
    }
}

/// Dispatch is deterministic in message order: the messages are
/// decided one at a time, in arrival order, and each decision
/// depends only on the messages before it. The i-th decision is
/// complete before the (i+1)-th message is looked at.
pub fn dispatch_in_order(stage: ServerStage, msgs: Vec<RpcMessage>) -> (r: (
    Vec<DispatchDecision>,
    ServerStage,
))
    ensures
        ({
            let s = spec_dispatch_seq(stage, msgs@);
            r.0@ == s.0 && r.1 == s.1
        }),
{
    let ghost stage0 = stage;
    let ghost msgs0 = msgs@;
    let mut msgs = msgs;
    let mut stage = stage;
    let mut out: Vec<DispatchDecision> = Vec::new();
    proof {
        assert(Seq::<DispatchDecision>::empty() + spec_dispatch_seq(stage, msgs@).0
            =~= spec_dispatch_seq(stage0, msgs0).0);
    }
    while msgs.len() > 0
        invariant
            out@ + spec_dispatch_seq(stage, msgs@).0 == spec_dispatch_seq(stage0, msgs0).0,
            spec_dispatch_seq(stage, msgs@).1 == spec_dispatch_seq(stage0, msgs0).1,
        decreases msgs.len(),
    {
        let ghost before = msgs@;
        let m = msgs.remove(0);
        proof {
            assert(before.subrange(1, before.len() as int) =~= before.drop_first());
        }
        let (next_stage, decision) = dispatch_message(stage, m);
        stage = next_stage;
        out.push(decision);
        proof {
            assert(out@ + spec_dispatch_seq(stage, msgs@).0 =~= spec_dispatch_seq(
                stage0,
                msgs0,
            ).0);
        }
    }
    (out, stage)
}

} // verus!
