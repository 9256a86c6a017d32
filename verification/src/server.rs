//! The coordinator: participant registry, barrier engine, and the
//! per-connection session state machine.
//!
//! A real deployment accepts one TCP connection per participant and drives
//! one [`Session`] per connection: it reads the header, calls
//! [`Server::open_session`], then calls [`Server::advance_session`] until a
//! [`Response`] comes back, sleeping one second whenever a step asks it to
//! wait, and finally calls [`Server::close_session`].  Every decision along
//! that path is made here; the caller only moves bytes and sleeps.

use vstd::prelude::*;

pub mod client_status;
pub mod registry;

use crate::messages::{spec_action_of_name, Action, Response};
use crate::server::client_status::{ClientStatus, Operation};
use crate::server::registry::Registry;
use crate::text::{spec_is_prefix, str_is_prefix};
use crate::wire::{spec_field, spec_parse_document, FieldValue, FieldValueV};

verus! {

/// The three barriers a session can wait at, in the order they are passed.
#[derive(Clone, Copy, Debug, PartialEq, Eq, Structural)]
pub enum BarrierKind {
    /// Every dependency has an active, connected session.
    Connection,
    /// Every dependency has passed its own connection barrier.
    Readiness,
    /// Every dependency has materialized its local checkpoint (or has
    /// already completed and been removed).
    LocalCheckpoint,
}

/// Progress of one barrier wait: the dependency currently polled and how
/// many one-second retries it has left.
#[derive(Clone, Copy, Debug, PartialEq, Eq, Structural)]
pub struct BarrierState {
    pub dep_index: usize,
    pub retries_left: u16,
}

/// The outcome of one barrier poll.
#[derive(Clone, Copy, Debug, PartialEq, Eq, Structural)]
pub enum BarrierStep {
    /// Every dependency satisfied the barrier.
    Passed,
    /// The current dependency is not there yet: sleep one second, then poll
    /// again from this state.
    Wait(BarrierState),
    /// A dependency exhausted its retries.
    TimedOut,
}

/// Does `dep` satisfy barrier `kind` under registry `reg`?  Empty names are
/// ignored, and a missing entry counts as completed for the
/// local-checkpoint barrier only: its own terminal post-dump removed it.
pub open spec fn dep_satisfied(
    reg: Map<Seq<char>, ClientStatus>,
    kind: BarrierKind,
    dep: Seq<char>,
) -> bool {
    dep.len() == 0 || match kind {
        BarrierKind::Connection => reg.contains_key(dep) && reg[dep].connected,
        BarrierKind::Readiness => reg.contains_key(dep) && reg[dep].ready,
        BarrierKind::LocalCheckpoint => !reg.contains_key(dep) || reg[dep].local_checkpoint,
    }
}

/// All dependencies from index `from` on satisfy the barrier.
pub open spec fn deps_satisfied_from(
    reg: Map<Seq<char>, ClientStatus>,
    kind: BarrierKind,
    deps: Seq<Seq<char>>,
    from: int,
) -> bool {
    forall|j: int| from <= j < deps.len() ==> dep_satisfied(reg, kind, deps[j])
}

/// The first dependency index at or after `from` that does not satisfy the
/// barrier, or `deps.len()` if all do.
pub open spec fn first_unsatisfied(
    reg: Map<Seq<char>, ClientStatus>,
    kind: BarrierKind,
    deps: Seq<Seq<char>>,
    from: int,
) -> int
    decreases deps.len() - from,
{
    if from < 0 || from >= deps.len() {
        deps.len() as int
    } else if dep_satisfied(reg, kind, deps[from]) {
        first_unsatisfied(reg, kind, deps, from + 1)
    } else {
        from
    }
}

pub proof fn lemma_first_unsatisfied_props(
    reg: Map<Seq<char>, ClientStatus>,
    kind: BarrierKind,
    deps: Seq<Seq<char>>,
    from: int,
)
    requires
        0 <= from <= deps.len(),
    ensures
        from <= first_unsatisfied(reg, kind, deps, from) <= deps.len(),
        first_unsatisfied(reg, kind, deps, from) < deps.len() ==> !dep_satisfied(
            reg,
            kind,
            deps[first_unsatisfied(reg, kind, deps, from)],
        ),
        forall|j: int|
            from <= j < first_unsatisfied(reg, kind, deps, from) ==> dep_satisfied(
                reg,
                kind,
                deps[j],
            ),
        first_unsatisfied(reg, kind, deps, from) == deps.len() <==> deps_satisfied_from(
            reg,
            kind,
            deps,
            from,
        ),
    decreases deps.len() - from,
{
    if from < deps.len() && dep_satisfied(reg, kind, deps[from]) {
        lemma_first_unsatisfied_props(reg, kind, deps, from + 1);
    }
}

/// If a participant's readiness barrier is satisfied, then every one of its
/// dependencies had already connected: readiness cannot overtake the
/// connection barrier.
pub proof fn lemma_readiness_implies_connection(
    reg: Map<Seq<char>, ClientStatus>,
    deps: Seq<Seq<char>>,
)
    requires
        forall|id: Seq<char>| #[trigger]
            reg.contains_key(id) ==> reg[id].ready ==> reg[id].connected,
        deps_satisfied_from(reg, BarrierKind::Readiness, deps, 0),
    ensures
        deps_satisfied_from(reg, BarrierKind::Connection, deps, 0),
{
    assert forall|j: int| 0 <= j < deps.len() implies dep_satisfied(
        reg,
        BarrierKind::Connection,
        deps[j],
    ) by {
        assert(dep_satisfied(reg, BarrierKind::Readiness, deps[j]));
    }
}

/// Removing a completed participant never unsatisfies the local-checkpoint
/// barrier: the barrier is monotonic with respect to removals.
pub proof fn lemma_checkpoint_barrier_monotonic_under_removal(
    reg: Map<Seq<char>, ClientStatus>,
    removed: Seq<char>,
    deps: Seq<Seq<char>>,
)
    requires
        deps_satisfied_from(reg, BarrierKind::LocalCheckpoint, deps, 0),
    ensures
        deps_satisfied_from(reg.remove(removed), BarrierKind::LocalCheckpoint, deps, 0),
{
    assert forall|j: int| 0 <= j < deps.len() implies dep_satisfied(
        reg.remove(removed),
        BarrierKind::LocalCheckpoint,
        deps[j],
    ) by {
        assert(dep_satisfied(reg, BarrierKind::LocalCheckpoint, deps[j]));
    }
}

/// How many polls a barrier wait can still take: a bound that every
/// `Wait` step strictly decreases.
pub open spec fn barrier_rank(state: BarrierState, deps_len: int, max_retries: int) -> int {
    (deps_len - state.dep_index) * (max_retries + 1) + state.retries_left
}

/// Liveness of a barrier wait: each poll either passes, times out, or
/// strictly decreases the rank, so a session waits at most
/// `|deps| * (max_retries + 1)` polls — one poll per second — before it
/// is answered.
pub proof fn lemma_barrier_wait_bounded(srv: Server, dv: Seq<Seq<char>>, state: BarrierState, kind: BarrierKind)
    requires
        dv.len() <= usize::MAX,
        state.dep_index <= dv.len(),
        state.retries_left <= srv.max_retries,
    ensures
        match srv.spec_barrier_poll(dv, kind, state) {
            BarrierStep::Wait(st2) => barrier_rank(st2, dv.len() as int, srv.max_retries as int)
                < barrier_rank(state, dv.len() as int, srv.max_retries as int)
                && barrier_rank(st2, dv.len() as int, srv.max_retries as int) >= 0
                && st2.retries_left <= srv.max_retries,
            _ => true,
        },
{
    lemma_first_unsatisfied_props(srv.clients@, kind, dv, state.dep_index as int);
    let f = first_unsatisfied(srv.clients@, kind, dv, state.dep_index as int);
    let i = state.dep_index as int;
    let l = dv.len() as int;
    let m = srv.max_retries as int;
    match srv.spec_barrier_poll(dv, kind, state) {
        BarrierStep::Wait(st2) => {
            assert((l - f) * (m + 1) >= 0) by (nonlinear_arith)
                requires
                    f <= l,
                    m >= 0,
            ;
            if f == i {
                assert(barrier_rank(st2, l, m) == barrier_rank(state, l, m) - 1);
            } else {
                assert(st2.dep_index as int == f);
                assert(st2.retries_left as int == m - 1);
                assert((l - f) * (m + 1) <= (l - i - 1) * (m + 1)) by (nonlinear_arith)
                    requires
                        i + 1 <= f,
                        m >= 0,
                ;
                assert((l - i - 1) * (m + 1) == (l - i) * (m + 1) - (m + 1)) by (nonlinear_arith);
                assert(barrier_rank(st2, l, m) == (l - f) * (m + 1) + m - 1);
                assert(barrier_rank(st2, l, m) <= (l - i) * (m + 1) - 2);
            }
        },
        _ => {},
    }
}

/// The operation a session belongs to, inferred from its first action.
pub open spec fn spec_operation_of(a: Action) -> Operation {
    if a.spec_is_dump() {
        Operation::Dump
    } else {
        Operation::Restore
    }
}

/// The session record created when an action's first connection is
/// accepted.
pub open spec fn spec_fresh_status(a: Action) -> ClientStatus {
    ClientStatus {
        connected: true,
        active: true,
        ready: false,
        local_checkpoint: false,
        network_locked: false,
        network_unlocked: false,
        operation: spec_operation_of(a),
    }
}

/// The registry after the session for `id` (if any) is marked ready.
pub open spec fn spec_mark_ready(
    reg: Map<Seq<char>, ClientStatus>,
    id: Seq<char>,
) -> Map<Seq<char>, ClientStatus> {
    if reg.contains_key(id) {
        reg.insert(id, ClientStatus { ready: true, ..reg[id] })
    } else {
        reg
    }
}

/// The registry after the local checkpoint of the session for `id` is
/// recorded; a checkpoint is only ever recorded for a dump session.
pub open spec fn spec_mark_checkpoint(
    reg: Map<Seq<char>, ClientStatus>,
    id: Seq<char>,
) -> Map<Seq<char>, ClientStatus> {
    if reg.contains_key(id) && reg[id].operation == Operation::Dump {
        reg.insert(id, ClientStatus { local_checkpoint: true, ..reg[id] })
    } else {
        reg
    }
}

/// The registry after a session's reply was sent and its connection is
/// closed: the entry is removed exactly when an accepted session completed
/// a terminal action; after a non-terminal action the entry stays, idle,
/// so a later hook of the same operation can pick it up.  A rejected
/// duplicate changes nothing.
pub open spec fn spec_close(
    reg: Map<Seq<char>, ClientStatus>,
    action: Action,
    accepted: bool,
    id: Seq<char>,
) -> Map<Seq<char>, ClientStatus> {
    if action.spec_is_terminal() && accepted {
        reg.remove(id)
    } else if accepted && reg.contains_key(id) {
        reg.insert(id, ClientStatus { active: false, ..reg[id] })
    } else {
        reg
    }
}

/// A rejected duplicate session never changes the registry, whatever its
/// action: the original session is left untouched.
pub proof fn lemma_rejected_close_is_noop(
    reg: Map<Seq<char>, ClientStatus>,
    action: Action,
    id: Seq<char>,
)
    ensures
        spec_close(reg, action, false, id) == reg,
{
}

/// Closing an accepted session removes exactly the entry of a terminal
/// action's participant and nothing else: other participants keep their
/// entries, and every flag but the connection's activity is kept.
pub proof fn lemma_close_removes_exactly_terminal(
    reg: Map<Seq<char>, ClientStatus>,
    action: Action,
    id: Seq<char>,
)
    ensures
        forall|k: Seq<char>|
            spec_close(reg, action, true, id).contains_key(k) <==> (reg.contains_key(k) && !(
            action.spec_is_terminal() && k == id)),
        forall|k: Seq<char>| #[trigger]
            spec_close(reg, action, true, id).contains_key(k) && k != id ==> spec_close(
                reg,
                action,
                true,
                id,
            )[k] == reg[k],
        spec_close(reg, action, true, id).contains_key(id) ==> {
            let st = spec_close(reg, action, true, id)[id];
            st == ClientStatus { active: false, ..reg[id] }
        },
{
}

/// The readiness barrier cannot pass for a participant until every one of
/// its dependencies has connected: under the registry's invariant, deps
/// that are ready were connected first.
pub proof fn lemma_registry_readiness_implies_connection(r: &Registry, deps: Seq<Seq<char>>)
    requires
        r.inv(),
        deps_satisfied_from(r@, BarrierKind::Readiness, deps, 0),
    ensures
        deps_satisfied_from(r@, BarrierKind::Connection, deps, 0),
{
    assert forall|id: Seq<char>| #[trigger]
        r@.contains_key(id) implies r@[id].ready ==> r@[id].connected by {
        r.lemma_statuses_wf(id);
    }
    lemma_readiness_implies_connection(r@, deps);
}

/// For every active session: ready implies connected.
pub proof fn lemma_ready_implies_connected(r: &Registry, id: Seq<char>)
    requires
        r.inv(),
        r@.contains_key(id),
    ensures
        r@[id].ready ==> r@[id].connected,
{
    r.lemma_statuses_wf(id);
}

/// For every active session: a local checkpoint exists only during a dump,
/// never during a restore.
pub proof fn lemma_checkpoint_only_during_dump(r: &Registry, id: Seq<char>)
    requires
        r.inv(),
        r@.contains_key(id),
    ensures
        r@[id].local_checkpoint ==> r@[id].operation == Operation::Dump,
{
    r.lemma_statuses_wf(id);
}

/// `vals` without the occurrences of `key`: a participant is never its own
/// dependency.
pub open spec fn spec_filter_ne(vals: Seq<Seq<char>>, key: Seq<char>) -> Seq<Seq<char>>
    decreases vals.len(),
{
    if vals.len() == 0 {
        Seq::empty()
    } else if vals.last() == key {
        spec_filter_ne(vals.drop_last(), key)
    } else {
        spec_filter_ne(vals.drop_last(), key).push(vals.last())
    }
}

/// The bulk dependency table after one entry is installed: the first entry
/// with the same key is overwritten, otherwise the entry is appended.
pub open spec fn spec_bulk_put(
    m: Seq<(Seq<char>, Seq<Seq<char>>)>,
    key: Seq<char>,
    vals: Seq<Seq<char>>,
) -> Seq<(Seq<char>, Seq<Seq<char>>)>
    decreases m.len(),
{
    if m.len() == 0 {
        seq![(key, vals)]
    } else if m[0].0 == key {
        seq![(key, vals)] + m.drop_first()
    } else {
        seq![m[0]] + spec_bulk_put(m.drop_first(), key, vals)
    }
}

/// The bulk dependency table after a whole map is installed, entry by
/// entry in order, each entry's values cleared of the entry's own key.
pub open spec fn spec_bulk_install(
    m: Seq<(Seq<char>, Seq<Seq<char>>)>,
    table: Seq<(Seq<char>, Seq<Seq<char>>)>,
) -> Seq<(Seq<char>, Seq<Seq<char>>)>
    decreases table.len(),
{
    if table.len() == 0 {
        m
    } else {
        spec_bulk_put(
            spec_bulk_install(m, table.drop_last()),
            table.last().0,
            spec_filter_ne(table.last().1, table.last().0),
        )
    }
}

/// The value of the first entry whose key is a prefix of `id`, if any:
/// bulk clients may use short ids, and the first match in table order wins.
pub open spec fn spec_lookup_prefix(
    m: Seq<(Seq<char>, Seq<Seq<char>>)>,
    id: Seq<char>,
) -> Option<Seq<Seq<char>>>
    decreases m.len(),
{
    if m.len() == 0 {
        None
    } else if spec_is_prefix(m[0].0, id) {
        Some(m[0].1)
    } else {
        spec_lookup_prefix(m.drop_first(), id)
    }
}

proof fn lemma_bulk_put_update(
    m: Seq<(Seq<char>, Seq<Seq<char>>)>,
    i: int,
    key: Seq<char>,
    vals: Seq<Seq<char>>,
)
    requires
        0 <= i < m.len(),
        m[i].0 == key,
        forall|j: int| 0 <= j < i ==> m[j].0 != key,
    ensures
        spec_bulk_put(m, key, vals) == m.update(i, (key, vals)),
    decreases m.len(),
{
    if i == 0 {
        assert(spec_bulk_put(m, key, vals) =~= m.update(0, (key, vals)));
    } else {
        assert(m[0].0 != key);
        assert(m.drop_first()[i - 1].0 == key);
        assert(forall|j: int| 0 <= j < i - 1 ==> m.drop_first()[j].0 != key);
        lemma_bulk_put_update(m.drop_first(), i - 1, key, vals);
        assert(spec_bulk_put(m, key, vals) =~= m.update(i, (key, vals)));
    }
}

proof fn lemma_bulk_put_append(
    m: Seq<(Seq<char>, Seq<Seq<char>>)>,
    key: Seq<char>,
    vals: Seq<Seq<char>>,
)
    requires
        forall|j: int| 0 <= j < m.len() ==> m[j].0 != key,
    ensures
        spec_bulk_put(m, key, vals) == m.push((key, vals)),
    decreases m.len(),
{
    if m.len() == 0 {
        assert(spec_bulk_put(m, key, vals) =~= m.push((key, vals)));
    } else {
        assert(m[0].0 != key);
        assert(forall|j: int| 0 <= j < m.drop_first().len() ==> m.drop_first()[j].0 != key);
        lemma_bulk_put_append(m.drop_first(), key, vals);
        assert(spec_bulk_put(m, key, vals) =~= m.push((key, vals)));
    }
}

/// One client message, after the header is parsed and the dependency list
/// resolved.
pub struct ClientMessage {
    pub id: String,
    pub action: Action,
    /// The resolved dependency ids of this participant.
    pub dependencies: Vec<String>,
    /// The raw dependency table, used only by the bulk-deps client.
    pub dependency_map: Vec<(String, Vec<String>)>,
}

/// Where a session stands in the coordinator's per-connection state
/// machine.
#[derive(Clone, Copy, Debug, PartialEq, Eq, Structural)]
pub enum Phase {
    /// Waiting for every dependency to connect.
    Connect(BarrierState),
    /// Ready; waiting for every dependency to become ready.
    Ready(BarrierState),
    /// Post-dump: waiting for every dependency's local checkpoint.
    Checkpoint(BarrierState),
    /// The reply has been determined; only closing remains.
    Done,
}

/// One coordinated session, owned by one connection handler.
pub struct Session {
    pub id: String,
    pub action: Action,
    pub deps: Vec<String>,
    /// Whether this session owns the registry entry for its id.  A
    /// duplicate connection is rejected and never touches the original
    /// session's entry.
    pub accepted: bool,
    pub phase: Phase,
}

impl Session {
    pub open spec fn wf(&self) -> bool {
        match self.phase {
            Phase::Connect(st) => st.dep_index <= self.deps@.len(),
            Phase::Ready(st) => st.dep_index <= self.deps@.len(),
            Phase::Checkpoint(st) => st.dep_index <= self.deps@.len(),
            Phase::Done => true,
        }
    }
}

/// What the caller of `advance_session` should do next.
#[derive(Clone, Copy, Debug, PartialEq, Eq, Structural)]
pub enum SessionStep {
    /// The session advanced; step again without sleeping.
    Progress,
    /// A dependency is not there yet; sleep one second, then step again.
    Wait,
    /// Send this verdict to the client, then close the session.
    Reply(Response),
}

/// The dependency ids resolved for `id`: a non-empty supplied list wins;
/// otherwise the bulk map is consulted with the prefix rule.
pub open spec fn spec_deps_lookup(
    bulk: Seq<(Seq<char>, Seq<Seq<char>>)>,
    id: Seq<char>,
    supplied: Seq<char>,
) -> Seq<Seq<char>> {
    if supplied.len() > 0 {
        crate::text::spec_split(supplied, ':')
    } else {
        match spec_lookup_prefix(bulk, id) {
            Some(vals) => vals,
            None => Seq::empty(),
        }
    }
}

/// What one received header means: the participant id, its action, its
/// resolved dependencies, and (for the bulk-deps client) the dependency
/// table.  `None` is a protocol error and closes the connection.
pub open spec fn spec_read_message(bulk: Seq<(Seq<char>, Seq<Seq<char>>)>, s: Seq<char>) -> Option<
    (Seq<char>, Action, Seq<Seq<char>>, Seq<(Seq<char>, Seq<Seq<char>>)>),
> {
    match spec_parse_document(s) {
        None => None,
        Some(doc) => match (spec_field(doc, "id"@), spec_field(doc, "action"@)) {
            (Some(FieldValueV::Text(id)), Some(FieldValueV::Text(act_name))) => match
                spec_action_of_name(act_name) {
                None => None,
                Some(action) => {
                    let is_bulk = id == "bulk-deps-client"@ && action == Action::AddDependencies;
                    match spec_field(doc, "dependencies"@) {
                        Some(FieldValueV::Table(t)) => if is_bulk {
                            Some((id, action, Seq::empty(), t))
                        } else {
                            None
                        },
                        Some(FieldValueV::Text(d)) => if is_bulk {
                            None
                        } else {
                            Some((id, action, spec_deps_lookup(bulk, id, d), Seq::empty()))
                        },
                        Some(FieldValueV::Number(_)) => None,
                        None => if is_bulk {
                            None
                        } else {
                            Some(
                                (
                                    id,
                                    action,
                                    spec_deps_lookup(bulk, id, Seq::empty()),
                                    Seq::empty(),
                                ),
                            )
                        },
                    }
                },
            },
            _ => None,
        },
    }
}

/// What one chunk received during a pre-stream transfer asks the server to
/// do (mathematical form).
pub enum StreamDirectiveV {
    /// The transfer is complete.
    Finished,
    /// Receive this many raw bytes into this image file, then acknowledge.
    Receive(Seq<char>, u64),
    /// The chunk is neither the final token nor an image descriptor.
    Malformed,
}

/// What one chunk received during a pre-stream transfer asks the server to
/// do.
pub enum StreamDirective {
    Finished,
    Receive(String, u64),
    Malformed,
}

impl View for StreamDirective {
    type V = StreamDirectiveV;

    open spec fn view(&self) -> StreamDirectiveV {
        match self {
            StreamDirective::Finished => StreamDirectiveV::Finished,
            StreamDirective::Receive(name, size) => StreamDirectiveV::Receive(name@, *size),
            StreamDirective::Malformed => StreamDirectiveV::Malformed,
        }
    }
}

/// The directive carried by one pre-stream chunk: the `SYN` token ends the
/// transfer; an image descriptor asks for that image's bytes; anything
/// else is malformed and ends the loop.
pub open spec fn spec_stream_directive(s: Seq<char>) -> StreamDirectiveV {
    if s == "SYN"@ {
        StreamDirectiveV::Finished
    } else {
        match spec_parse_document(s) {
            None => StreamDirectiveV::Malformed,
            Some(doc) => match (spec_field(doc, "img_name"@), spec_field(doc, "img_size"@)) {
                (Some(FieldValueV::Text(name)), Some(FieldValueV::Number(size))) =>
                    StreamDirectiveV::Receive(name, size),
                _ => StreamDirectiveV::Malformed,
            },
        }
    }
}

/// Reads one pre-stream chunk: the transfer ends on `SYN`, and an image
/// descriptor names the image file and how many raw bytes follow.
pub fn stream_receiver_step(input: &str) -> (r: StreamDirective)
    ensures
        r@ == spec_stream_directive(input@),
{
    if crate::messages::is_syn(input) {
        return StreamDirective::Finished;
    }
    match crate::wire::parse_document(input) {
        None => StreamDirective::Malformed,
        Some(doc) => {
            let name = match crate::wire::get_field(&doc, "img_name") {
                Some(FieldValue::Text(t)) => Some(t.clone()),
                _ => None,
            };
            let size = match crate::wire::get_field(&doc, "img_size") {
                Some(FieldValue::Number(z)) => Some(*z),
                _ => None,
            };
            match (name, size) {
                (Some(n), Some(z)) => StreamDirective::Receive(n, z),
                _ => StreamDirective::Malformed,
            }
        },
    }
}

/// Copies a dependency table; the copy reads back exactly the same.
pub(crate) fn clone_table(t: &Vec<(String, Vec<String>)>) -> (r: Vec<(String, Vec<String>)>)
    ensures
        r.deep_view() == t.deep_view(),
{
    let n: usize = t.len();
    let mut out: Vec<(String, Vec<String>)> = Vec::new();
    let mut i: usize = 0;
    proof {
        assert(out.deep_view() =~~= t.deep_view().take(0));
    }
    while i < n
        invariant
            i <= n,
            n == t@.len(),
            out.deep_view() == t.deep_view().take(i as int),
        decreases n - i,
    {
        let ghost out0 = out.deep_view();
        let key = t[i].0.clone();
        let vals = crate::text::clone_string_vec(&t[i].1);
        out.push((key, vals));
        proof {
            let dv = t.deep_view();
            assert(dv.len() == t@.len());
            assert(out0.len() == i as int);
            assert(out@.len() == i + 1);
            assert(vals.deep_view() =~= dv[i as int].1);
            assert(out.deep_view().len() == i + 1);
            assert forall|k: int| 0 <= k < i + 1 implies out.deep_view()[k] == dv.take(i + 1)[k] by {
                if k < i {
                    assert(out.deep_view()[k] == out0[k]);
                    assert(out0[k] == dv.take(i as int)[k]);
                } else {
                    assert(out.deep_view()[k] == (key@, vals.deep_view()));
                    assert(dv.take(i + 1)[k] == dv[i as int]);
                }
            }
            assert(out.deep_view() =~= dv.take(i + 1));
        }
        i = i + 1;
    }
    proof {
        assert(t.deep_view().take(n as int) =~= t.deep_view());
    }
    out
}

/// `vals` without the occurrences of `key`, as owned strings.
fn filter_deps(vals: &Vec<String>, key: &str) -> (r: Vec<String>)
    ensures
        r.deep_view() == spec_filter_ne(vals.deep_view(), key@),
{
    let ghost dv = vals.deep_view();
    let n: usize = vals.len();
    let mut out: Vec<String> = Vec::new();
    let mut i: usize = 0;
    proof {
        assert(out.deep_view() =~= spec_filter_ne(dv.take(0), key@));
    }
    while i < n
        invariant
            i <= n,
            n == vals@.len(),
            dv == vals.deep_view(),
            out.deep_view() == spec_filter_ne(dv.take(i as int), key@),
        decreases n - i,
    {
        let ghost out0 = out.deep_view();
        if !crate::text::str_eq(vals[i].as_str(), key) {
            out.push(vals[i].clone());
            proof {
                assert(cloned::<String>(vals@[i as int], out@[out@.len() - 1]));
                assert(out.deep_view() =~= out0.push(dv[i as int]));
            }
        }
        proof {
            assert(dv.take(i + 1).drop_last() =~= dv.take(i as int));
            assert(dv.take(i + 1).last() == dv[i as int]);
        }
        i = i + 1;
    }
    proof {
        assert(dv.take(n as int) =~= dv);
    }
    out
}

/// The coordinator's shared state: where it listens, how long barriers may
/// wait, and the registry and bulk dependency map behind it.
pub struct Server {
    pub address: String,
    pub port: u16,
    /// The wait-timeout in whole seconds: barriers poll once per second and
    /// give a dependency this many retries.
    pub max_retries: u16,
    /// Where pre-stream image files are persisted.
    pub images_directory: String,
    pub clients: Registry,
    /// The bulk dependency map, installed by a bulk-deps client: id prefix
    /// to list of dependency ids.
    pub container_dependencies: Vec<(String, Vec<String>)>,
}

impl Server {
    /// All registry well-formedness carried by a server value.
    pub open spec fn inv(&self) -> bool {
        self.clients.inv()
    }

    pub fn new(address: &str, port: u16, max_retries: u16) -> (r: Server)
        ensures
            r.address@ == address@,
            r.port == port,
            r.max_retries == max_retries,
            r.images_directory@ == "/tmp/server-images"@,
            r.clients@ == Map::<Seq<char>, ClientStatus>::empty(),
            r.container_dependencies@ == Seq::<(String, Vec<String>)>::empty(),
            r.inv(),
    {
        Server {
            address: String::from_str(address),
            port,
            max_retries,
            images_directory: String::from_str("/tmp/server-images"),
            clients: Registry::new(),
            container_dependencies: Vec::new(),
        }
    }

    /// Does `dep` satisfy barrier `kind` right now?
    fn dep_check(&self, kind: BarrierKind, dep: &String) -> (r: bool)
        requires
            self.inv(),
        ensures
            r == dep_satisfied(self.clients@, kind, dep@),
    {
        if dep.as_str().unicode_len() == 0 {
            return true;
        }
        match self.clients.get(dep.as_str()) {
            Some(st) => match kind {
                BarrierKind::Connection => st.is_connected(),
                BarrierKind::Readiness => st.is_ready(),
                BarrierKind::LocalCheckpoint => st.has_local_checkpoint(),
            },
            None => match kind {
                BarrierKind::LocalCheckpoint => true,
                _ => false,
            },
        }
    }

    /// One poll of a barrier: skips dependencies that already satisfy it;
    /// at the first one that does not, either asks the caller to sleep and
    /// poll again (spending one retry) or reports a timeout.  A dependency
    /// reached for the first time gets a fresh budget of `max_retries`
    /// retries, so a full wait is bounded by `|deps| * max_retries` seconds.
    pub fn barrier_poll(&self, deps: &Vec<String>, kind: BarrierKind, state: BarrierState) -> (r:
        BarrierStep)
        requires
            self.inv(),
            state.dep_index <= deps@.len(),
        ensures
            ({
                let dv = deps.deep_view();
                let f = first_unsatisfied(self.clients@, kind, dv, state.dep_index as int);
                let budget: int = if f == state.dep_index as int {
                    state.retries_left as int
                } else {
                    self.max_retries as int
                };
                match r {
                    BarrierStep::Passed => f == dv.len() && deps_satisfied_from(
                        self.clients@,
                        kind,
                        dv,
                        state.dep_index as int,
                    ),
                    BarrierStep::TimedOut => f < dv.len() && budget == 0,
                    BarrierStep::Wait(st2) => f < dv.len() && budget > 0 && st2.dep_index == f
                        && st2.retries_left == budget - 1,
                }
            }),
    {
        let ghost dv = deps.deep_view();
        let ghost from0 = state.dep_index as int;
        let n: usize = deps.len();
        let mut i: usize = state.dep_index;
        proof {
            assert(dv.len() == deps@.len());
        }
        while i < n
            invariant
                self.inv(),
                state.dep_index <= i <= n,
                n == dv.len(),
                dv.len() == deps@.len(),
                dv == deps.deep_view(),
                from0 == state.dep_index as int,
                first_unsatisfied(self.clients@, kind, dv, from0) == first_unsatisfied(
                    self.clients@,
                    kind,
                    dv,
                    i as int,
                ),
            decreases n - i,
        {
            if !self.dep_check(kind, &deps[i]) {
                proof {
                    assert(dv[i as int] == deps@[i as int]@);
                    assert(first_unsatisfied(self.clients@, kind, dv, i as int) == i as int);
                }
                let budget: u16 = if i == state.dep_index {
                    state.retries_left
                } else {
                    self.max_retries
                };
                if budget > 0 {
                    return BarrierStep::Wait(
                        BarrierState { dep_index: i, retries_left: budget - 1 },
                    );
                }
                return BarrierStep::TimedOut;
            }
            proof {
                assert(dv[i as int] == deps@[i as int]@);
                assert(first_unsatisfied(self.clients@, kind, dv, i as int)
                    == first_unsatisfied(self.clients@, kind, dv, i as int + 1));
            }
            i = i + 1;
        }
        proof {
            assert(first_unsatisfied(self.clients@, kind, dv, n as int) == n as int);
            lemma_first_unsatisfied_props(self.clients@, kind, dv, from0);
        }
        BarrierStep::Passed
    }

    /// One poll of the connection barrier: are the dependencies connected?
    pub fn wait_for_dependencies_connection(
        &self,
        deps: &Vec<String>,
        state: BarrierState,
    ) -> (r: BarrierStep)
        requires
            self.inv(),
            state.dep_index <= deps@.len(),
        ensures
            r == self.spec_barrier_poll(deps.deep_view(), BarrierKind::Connection, state),
            r == BarrierStep::Passed ==> deps_satisfied_from(
                self.clients@,
                BarrierKind::Connection,
                deps.deep_view(),
                state.dep_index as int,
            ),
    {
        let r = self.barrier_poll(deps, BarrierKind::Connection, state);
        proof {
            self.lemma_barrier_poll_shape(deps.deep_view(), BarrierKind::Connection, state, r);
        }
        r
    }

    /// One poll of the readiness barrier: have the dependencies seen their
    /// own dependencies connect?
    pub fn wait_for_dependencies_readiness(&self, deps: &Vec<String>, state: BarrierState) -> (r:
        BarrierStep)
        requires
            self.inv(),
            state.dep_index <= deps@.len(),
        ensures
            r == self.spec_barrier_poll(deps.deep_view(), BarrierKind::Readiness, state),
            r == BarrierStep::Passed ==> deps_satisfied_from(
                self.clients@,
                BarrierKind::Readiness,
                deps.deep_view(),
                state.dep_index as int,
            ),
    {
        let r = self.barrier_poll(deps, BarrierKind::Readiness, state);
        proof {
            self.lemma_barrier_poll_shape(deps.deep_view(), BarrierKind::Readiness, state, r);
        }
        r
    }

    /// One poll of the local-checkpoint barrier: has every dependency
    /// materialized its checkpoint (or already completed and left)?
    pub fn wait_for_local_checkpoints(&self, deps: &Vec<String>, state: BarrierState) -> (r:
        BarrierStep)
        requires
            self.inv(),
            state.dep_index <= deps@.len(),
        ensures
            r == self.spec_barrier_poll(deps.deep_view(), BarrierKind::LocalCheckpoint, state),
            r == BarrierStep::Passed ==> deps_satisfied_from(
                self.clients@,
                BarrierKind::LocalCheckpoint,
                deps.deep_view(),
                state.dep_index as int,
            ),
    {
        let r = self.barrier_poll(deps, BarrierKind::LocalCheckpoint, state);
        proof {
            self.lemma_barrier_poll_shape(deps.deep_view(), BarrierKind::LocalCheckpoint, state, r);
        }
        r
    }

    /// What one barrier poll returns, as a function of the registry.
    pub open spec fn spec_barrier_poll(
        &self,
        dv: Seq<Seq<char>>,
        kind: BarrierKind,
        state: BarrierState,
    ) -> BarrierStep {
        let f = first_unsatisfied(self.clients@, kind, dv, state.dep_index as int);
        let budget: int = if f == state.dep_index as int {
            state.retries_left as int
        } else {
            self.max_retries as int
        };
        if f == dv.len() {
            BarrierStep::Passed
        } else if budget == 0 {
            BarrierStep::TimedOut
        } else {
            BarrierStep::Wait(
                BarrierState { dep_index: f as usize, retries_left: (budget - 1) as u16 },
            )
        }
    }

    /// Registers the connection for `client_id` and acknowledges: a fresh
    /// session record is inserted, or the idle entry of an earlier hook of
    /// the same operation is picked up again.  A concurrent duplicate — an
    /// id whose connection is still open — is turned away, and the
    /// original session is left untouched.
    pub fn get_response_message(&mut self, client_id: &str, action: Action) -> (r: Response)
        requires
            old(self).inv(),
        ensures
            final(self).inv(),
            r == if old(self).clients@.contains_key(client_id@)
                && old(self).clients@[client_id@].active {
                Response::AlreadyConnected
            } else {
                Response::Ack
            },
            final(self).clients@ == if !old(self).clients@.contains_key(client_id@) {
                old(self).clients@.insert(client_id@, spec_fresh_status(action))
            } else if old(self).clients@[client_id@].active {
                old(self).clients@
            } else {
                old(self).clients@.insert(
                    client_id@,
                    ClientStatus { active: true, ..old(self).clients@[client_id@] },
                )
            },
            final(self).address == old(self).address,
            final(self).port == old(self).port,
            final(self).max_retries == old(self).max_retries,
            final(self).images_directory == old(self).images_directory,
            final(self).container_dependencies == old(self).container_dependencies,
    {
        let operation = if action.is_dump() {
            Operation::Dump
        } else {
            Operation::Restore
        };
        let existing_active = match self.clients.get(client_id) {
            Some(st) => Some(st.active),
            None => None,
        };
        match existing_active {
            None => {
                let inserted = self.clients.try_insert(client_id, ClientStatus::new(operation));
                proof {
                    assert(inserted);
                }
                Response::Ack
            },
            Some(true) => Response::AlreadyConnected,
            Some(false) => {
                self.clients.mark_active(client_id);
                Response::Ack
            },
        }
    }

    /// Marks the local checkpoint of the active session for `id`, if it
    /// belongs to a dump.
    pub fn mark_local_checkpoint(&mut self, id: &str)
        requires
            old(self).inv(),
        ensures
            final(self).inv(),
            final(self).clients@ == spec_mark_checkpoint(old(self).clients@, id@),
            final(self).address == old(self).address,
            final(self).port == old(self).port,
            final(self).max_retries == old(self).max_retries,
            final(self).images_directory == old(self).images_directory,
            final(self).container_dependencies == old(self).container_dependencies,
    {
        self.clients.mark_local_checkpoint(id);
    }

    /// The registration half of a post-dump: a participant that never
    /// connected is turned away; a second post-dump for a session whose
    /// checkpoint already exists is answered so, at most one checkpoint is
    /// recorded per dump session; otherwise the local checkpoint is
    /// recorded and the local-checkpoint barrier may start.
    pub fn begin_post_dump(&mut self, id: &str) -> (r: Response)
        requires
            old(self).inv(),
        ensures
            final(self).inv(),
            r == if !old(self).clients@.contains_key(id@) {
                Response::NotConnected
            } else if old(self).clients@[id@].local_checkpoint {
                Response::CheckpointExists
            } else {
                Response::Ack
            },
            final(self).clients@ == if r == Response::Ack {
                spec_mark_checkpoint(old(self).clients@, id@)
            } else {
                old(self).clients@
            },
            final(self).address == old(self).address,
            final(self).port == old(self).port,
            final(self).max_retries == old(self).max_retries,
            final(self).images_directory == old(self).images_directory,
            final(self).container_dependencies == old(self).container_dependencies,
    {
        let status = match self.clients.get(id) {
            Some(st) => Some(*st),
            None => None,
        };
        match status {
            None => Response::NotConnected,
            Some(st) => {
                if st.has_local_checkpoint() {
                    Response::CheckpointExists
                } else {
                    self.clients.mark_local_checkpoint(id);
                    Response::Ack
                }
            },
        }
    }

    /// Dispatches one freshly read client message, as the connection
    /// handler does: the bulk-deps client installs the dependency map;
    /// post-restore is acknowledged at once; post-dump registers the local
    /// checkpoint and waits for its peers' checkpoints; every other action
    /// registers the session and enters the connection barrier.
    pub fn open_session(&mut self, msg: ClientMessage) -> (r: (Session, Option<Response>))
        requires
            old(self).inv(),
        ensures
            final(self).inv(),
            r.0.wf(),
            r.0.id@ == msg.id@,
            r.0.action == msg.action,
            r.0.deps == msg.dependencies,
            r.1 is Some <==> r.0.phase is Done,
            final(self).address == old(self).address,
            final(self).port == old(self).port,
            final(self).max_retries == old(self).max_retries,
            final(self).images_directory == old(self).images_directory,
            ({
                let reg = old(self).clients@;
                let id = msg.id@;
                if msg.action == Action::AddDependencies && id == "bulk-deps-client"@ {
                    &&& r.1 == Some(Response::Ack)
                    &&& r.0.accepted
                    &&& final(self).clients@ == reg
                    &&& final(self).container_dependencies.deep_view() == spec_bulk_install(
                        old(self).container_dependencies.deep_view(),
                        msg.dependency_map.deep_view(),
                    )
                } else {
                    &&& final(self).container_dependencies == old(self).container_dependencies
                    &&& if msg.action == Action::PostRestore {
                        &&& r.1 == Some(Response::Ack)
                        &&& r.0.accepted
                        &&& final(self).clients@ == reg
                    } else if msg.action == Action::PostDump {
                        &&& r.0.accepted
                        &&& if !reg.contains_key(id) {
                            &&& r.1 == Some(Response::NotConnected)
                            &&& final(self).clients@ == reg
                        } else if reg[id].local_checkpoint {
                            &&& r.1 == Some(Response::CheckpointExists)
                            &&& final(self).clients@ == reg
                        } else {
                            &&& r.1 is None
                            &&& r.0.phase == Phase::Checkpoint(
                                BarrierState {
                                    dep_index: 0,
                                    retries_left: old(self).max_retries,
                                },
                            )
                            &&& final(self).clients@ == spec_mark_checkpoint(reg, id)
                        }
                    } else {
                        if reg.contains_key(id) && reg[id].active {
                            &&& r.1 == Some(Response::AlreadyConnected)
                            &&& !r.0.accepted
                            &&& final(self).clients@ == reg
                        } else {
                            &&& r.1 is None
                            &&& r.0.accepted
                            &&& r.0.phase == Phase::Connect(
                                BarrierState {
                                    dep_index: 0,
                                    retries_left: old(self).max_retries,
                                },
                            )
                            &&& final(self).clients@ == if !reg.contains_key(id) {
                                reg.insert(id, spec_fresh_status(msg.action))
                            } else {
                                reg.insert(id, ClientStatus { active: true, ..reg[id] })
                            }
                        }
                    }
                }
            }),
    {
        let ClientMessage { id, action, dependencies, dependency_map } = msg;
        if action == Action::AddDependencies && crate::text::str_eq(
            id.as_str(),
            "bulk-deps-client",
        ) {
            self.install_bulk_dependencies(&dependency_map);
            let session = Session { id, action, deps: dependencies, accepted: true, phase: Phase::Done };
            return (session, Some(Response::Ack));
        }
        if action == Action::PostRestore {
            let session = Session { id, action, deps: dependencies, accepted: true, phase: Phase::Done };
            return (session, Some(Response::Ack));
        }
        if action == Action::PostDump {
            let verdict = self.begin_post_dump(id.as_str());
            if verdict == Response::Ack {
                let session = Session {
                    id,
                    action,
                    deps: dependencies,
                    accepted: true,
                    phase: Phase::Checkpoint(
                        BarrierState { dep_index: 0, retries_left: self.max_retries },
                    ),
                };
                return (session, None);
            }
            let session = Session { id, action, deps: dependencies, accepted: true, phase: Phase::Done };
            return (session, Some(verdict));
        }
        let verdict = self.get_response_message(id.as_str(), action);
        if verdict == Response::Ack {
            let session = Session {
                id,
                action,
                deps: dependencies,
                accepted: true,
                phase: Phase::Connect(
                    BarrierState { dep_index: 0, retries_left: self.max_retries },
                ),
            };
            (session, None)
        } else {
            let session = Session { id, action, deps: dependencies, accepted: false, phase: Phase::Done };
            (session, Some(verdict))
        }
    }

    /// One step of an open session: polls the barrier the session waits at
    /// and advances its phase.  `Wait` asks the caller to sleep one second
    /// and step again; `Progress` asks it to step again at once; `Reply`
    /// carries the verdict to send, after which only `close_session`
    /// remains.
    pub fn advance_session(&mut self, s: &mut Session) -> (r: SessionStep)
        requires
            old(self).inv(),
            old(s).wf(),
            !(old(s).phase is Done),
        ensures
            final(self).inv(),
            final(s).wf(),
            final(s).id == old(s).id,
            final(s).action == old(s).action,
            final(s).deps == old(s).deps,
            final(s).accepted == old(s).accepted,
            final(self).address == old(self).address,
            final(self).port == old(self).port,
            final(self).max_retries == old(self).max_retries,
            final(self).images_directory == old(self).images_directory,
            final(self).container_dependencies == old(self).container_dependencies,
            ({
                let dv = old(s).deps.deep_view();
                let reg = old(self).clients@;
                match old(s).phase {
                    Phase::Connect(st) => match old(self).spec_barrier_poll(
                        dv,
                        BarrierKind::Connection,
                        st,
                    ) {
                        BarrierStep::Passed => {
                            &&& r == SessionStep::Progress
                            &&& final(s).phase == Phase::Ready(
                                BarrierState {
                                    dep_index: 0,
                                    retries_left: old(self).max_retries,
                                },
                            )
                            &&& final(self).clients@ == spec_mark_ready(reg, old(s).id@)
                            &&& deps_satisfied_from(
                                reg,
                                BarrierKind::Connection,
                                dv,
                                st.dep_index as int,
                            )
                        },
                        BarrierStep::Wait(st2) => {
                            &&& r == SessionStep::Wait
                            &&& final(s).phase == Phase::Connect(st2)
                            &&& final(self).clients@ == reg
                        },
                        BarrierStep::TimedOut => {
                            &&& r == SessionStep::Reply(Response::Timeout)
                            &&& final(s).phase == Phase::Done
                            &&& final(self).clients@ == reg
                        },
                    },
                    Phase::Ready(st) => match old(self).spec_barrier_poll(
                        dv,
                        BarrierKind::Readiness,
                        st,
                    ) {
                        BarrierStep::Passed => {
                            &&& r == SessionStep::Reply(Response::Ack)
                            &&& final(s).phase == Phase::Done
                            &&& final(self).clients@ == reg
                            &&& deps_satisfied_from(
                                reg,
                                BarrierKind::Readiness,
                                dv,
                                st.dep_index as int,
                            )
                        },
                        BarrierStep::Wait(st2) => {
                            &&& r == SessionStep::Wait
                            &&& final(s).phase == Phase::Ready(st2)
                            &&& final(self).clients@ == reg
                        },
                        BarrierStep::TimedOut => {
                            &&& r == SessionStep::Reply(Response::Timeout)
                            &&& final(s).phase == Phase::Done
                            &&& final(self).clients@ == reg
                        },
                    },
                    Phase::Checkpoint(st) => match old(self).spec_barrier_poll(
                        dv,
                        BarrierKind::LocalCheckpoint,
                        st,
                    ) {
                        BarrierStep::Passed => {
                            &&& r == SessionStep::Reply(Response::Ack)
                            &&& final(s).phase == Phase::Done
                            &&& final(self).clients@ == reg
                            &&& deps_satisfied_from(
                                reg,
                                BarrierKind::LocalCheckpoint,
                                dv,
                                st.dep_index as int,
                            )
                        },
                        BarrierStep::Wait(st2) => {
                            &&& r == SessionStep::Wait
                            &&& final(s).phase == Phase::Checkpoint(st2)
                            &&& final(self).clients@ == reg
                        },
                        BarrierStep::TimedOut => {
                            &&& r == SessionStep::Reply(Response::Timeout)
                            &&& final(s).phase == Phase::Done
                            &&& final(self).clients@ == reg
                        },
                    },
                    Phase::Done => false,
                }
            }),
    {
        match s.phase {
            Phase::Connect(st) => {
                proof {
                    lemma_first_unsatisfied_props(
                        self.clients@,
                        BarrierKind::Connection,
                        s.deps.deep_view(),
                        st.dep_index as int,
                    );
                }
                match self.wait_for_dependencies_connection(&s.deps, st) {
                    BarrierStep::Passed => {
                        self.clients.mark_ready(s.id.as_str());
                        s.phase = Phase::Ready(
                            BarrierState { dep_index: 0, retries_left: self.max_retries },
                        );
                        SessionStep::Progress
                    },
                    BarrierStep::Wait(st2) => {
                        s.phase = Phase::Connect(st2);
                        SessionStep::Wait
                    },
                    BarrierStep::TimedOut => {
                        s.phase = Phase::Done;
                        SessionStep::Reply(Response::Timeout)
                    },
                }
            },
            Phase::Ready(st) => {
                proof {
                    lemma_first_unsatisfied_props(
                        self.clients@,
                        BarrierKind::Readiness,
                        s.deps.deep_view(),
                        st.dep_index as int,
                    );
                }
                match self.wait_for_dependencies_readiness(&s.deps, st) {
                    BarrierStep::Passed => {
                        s.phase = Phase::Done;
                        SessionStep::Reply(Response::Ack)
                    },
                    BarrierStep::Wait(st2) => {
                        s.phase = Phase::Ready(st2);
                        SessionStep::Wait
                    },
                    BarrierStep::TimedOut => {
                        s.phase = Phase::Done;
                        SessionStep::Reply(Response::Timeout)
                    },
                }
            },
            Phase::Checkpoint(st) => {
                proof {
                    lemma_first_unsatisfied_props(
                        self.clients@,
                        BarrierKind::LocalCheckpoint,
                        s.deps.deep_view(),
                        st.dep_index as int,
                    );
                }
                match self.wait_for_local_checkpoints(&s.deps, st) {
                    BarrierStep::Passed => {
                        s.phase = Phase::Done;
                        SessionStep::Reply(Response::Ack)
                    },
                    BarrierStep::Wait(st2) => {
                        s.phase = Phase::Checkpoint(st2);
                        SessionStep::Wait
                    },
                    BarrierStep::TimedOut => {
                        s.phase = Phase::Done;
                        SessionStep::Reply(Response::Timeout)
                    },
                }
            },
            Phase::Done => {
                proof {
                    assert(false);
                }
                SessionStep::Wait
            },
        }
    }

    /// Ends a session after its reply was sent: exactly when the session
    /// was accepted and its action is terminal, the participant's entry is
    /// dropped; a rejected duplicate leaves the original session untouched.
    pub fn close_session(&mut self, s: &Session)
        requires
            old(self).inv(),
        ensures
            final(self).inv(),
            final(self).clients@ == spec_close(old(self).clients@, s.action, s.accepted, s.id@),
            final(self).address == old(self).address,
            final(self).port == old(self).port,
            final(self).max_retries == old(self).max_retries,
            final(self).images_directory == old(self).images_directory,
            final(self).container_dependencies == old(self).container_dependencies,
    {
        if s.accepted && s.action.is_terminal() {
            self.clients.remove(s.id.as_str());
        } else if s.accepted {
            self.clients.mark_inactive(s.id.as_str());
        }
    }

    /// Installs or overwrites one bulk dependency entry.
    fn bulk_put(&mut self, key: String, vals: Vec<String>)
        requires
            old(self).inv(),
        ensures
            final(self).inv(),
            final(self).container_dependencies.deep_view() == spec_bulk_put(
                old(self).container_dependencies.deep_view(),
                key@,
                vals.deep_view(),
            ),
            final(self).clients == old(self).clients,
            final(self).address == old(self).address,
            final(self).port == old(self).port,
            final(self).max_retries == old(self).max_retries,
            final(self).images_directory == old(self).images_directory,
    {
        let ghost m = self.container_dependencies.deep_view();
        let n: usize = self.container_dependencies.len();
        let mut i: usize = 0;
        while i < n
            invariant
                i <= n,
                *self == *old(self),
                self.inv(),
                n == self.container_dependencies@.len(),
                m == self.container_dependencies.deep_view(),
                forall|j: int| 0 <= j < i ==> m[j].0 != key@,
            decreases n - i,
        {
            if crate::text::str_eq(self.container_dependencies[i].0.as_str(), key.as_str()) {
                proof {
                    assert(m[i as int].0 == key@);
                    lemma_bulk_put_update(m, i as int, key@, vals.deep_view());
                }
                self.container_dependencies.set(i, (key, vals));
                proof {
                    assert(self.container_dependencies.deep_view() =~= m.update(
                        i as int,
                        (key@, vals.deep_view()),
                    ));
                }
                return ;
            }
            i = i + 1;
        }
        proof {
            lemma_bulk_put_append(m, key@, vals.deep_view());
        }
        self.container_dependencies.push((key, vals));
        proof {
            assert(self.container_dependencies.deep_view() =~= m.push((key@, vals.deep_view())));
        }
    }

    /// Installs a whole dependency table handed in by the bulk-deps client,
    /// clearing each entry's values of the entry's own key.
    pub fn install_bulk_dependencies(&mut self, table: &Vec<(String, Vec<String>)>)
        requires
            old(self).inv(),
        ensures
            final(self).inv(),
            final(self).container_dependencies.deep_view() == spec_bulk_install(
                old(self).container_dependencies.deep_view(),
                table.deep_view(),
            ),
            final(self).clients == old(self).clients,
            final(self).address == old(self).address,
            final(self).port == old(self).port,
            final(self).max_retries == old(self).max_retries,
            final(self).images_directory == old(self).images_directory,
    {
        let ghost m0 = old(self).container_dependencies.deep_view();
        let ghost tdv = table.deep_view();
        let n: usize = table.len();
        let mut i: usize = 0;
        while i < n
            invariant
                i <= n,
                n == table@.len(),
                tdv == table.deep_view(),
                self.inv(),
                self.container_dependencies.deep_view() == spec_bulk_install(
                    m0,
                    tdv.take(i as int),
                ),
                self.clients == old(self).clients,
                self.address == old(self).address,
                self.port == old(self).port,
                self.max_retries == old(self).max_retries,
                self.images_directory == old(self).images_directory,
            decreases n - i,
        {
            let key = table[i].0.clone();
            let vals = filter_deps(&table[i].1, table[i].0.as_str());
            proof {
                assert(key@ == tdv[i as int].0);
                assert(vals.deep_view() == spec_filter_ne(tdv[i as int].1, tdv[i as int].0));
            }
            self.bulk_put(key, vals);
            proof {
                assert(tdv.take(i + 1).drop_last() =~= tdv.take(i as int));
                assert(tdv.take(i + 1).last() == tdv[i as int]);
            }
            i = i + 1;
        }
        proof {
            assert(tdv.take(n as int) =~= tdv);
        }
    }

    /// The dependency ids of `id`: a non-empty colon-separated list
    /// supplied with the request wins; otherwise the installed bulk map is
    /// consulted, taking the first entry whose key is a prefix of `id`.
    pub fn dependency_lookup(&self, id: &str, supplied: &str) -> (r: Vec<String>)
        ensures
            r.deep_view() == spec_deps_lookup(
                self.container_dependencies.deep_view(),
                id@,
                supplied@,
            ),
    {
        if supplied.unicode_len() > 0 {
            return crate::text::split_str(supplied, ':');
        }
        let ghost m = self.container_dependencies.deep_view();
        let n: usize = self.container_dependencies.len();
        let mut i: usize = 0;
        proof {
            assert(m.skip(0) =~= m);
        }
        while i < n
            invariant
                i <= n,
                supplied@.len() == 0,
                n == self.container_dependencies@.len(),
                m == self.container_dependencies.deep_view(),
                spec_lookup_prefix(m, id@) == spec_lookup_prefix(m.skip(i as int), id@),
            decreases n - i,
        {
            proof {
                assert(m.skip(i as int)[0] == m[i as int]);
            }
            if str_is_prefix(self.container_dependencies[i].0.as_str(), id) {
                let r = crate::text::clone_string_vec(&self.container_dependencies[i].1);
                proof {
                    assert(spec_lookup_prefix(m.skip(i as int), id@) == Some(m[i as int].1));
                    assert(r.deep_view() =~= m[i as int].1);
                }
                return r;
            }
            proof {
                assert(m.skip(i as int).drop_first() =~= m.skip(i as int + 1));
            }
            i = i + 1;
        }
        proof {
            assert(m.skip(n as int) =~= Seq::<(Seq<char>, Seq<Seq<char>>)>::empty());
        }
        Vec::new()
    }

    /// Reads one header message: parses the object, resolves the action
    /// name, and resolves the dependency list (a supplied list, or the bulk
    /// map by the prefix rule).  `None` is a protocol error; the connection
    /// is then closed without a session.
    pub fn read_message(&self, input: &str) -> (r: Option<ClientMessage>)
        ensures
            match r {
                Some(msg) => spec_read_message(self.container_dependencies.deep_view(), input@)
                    == Some(
                    (
                        msg.id@,
                        msg.action,
                        msg.dependencies.deep_view(),
                        msg.dependency_map.deep_view(),
                    ),
                ),
                None => spec_read_message(self.container_dependencies.deep_view(), input@)
                    is None,
            },
    {
        let doc = match crate::wire::parse_document(input) {
            None => {
                return None;
            },
            Some(d) => d,
        };
        let id = match crate::wire::get_field(&doc, "id") {
            Some(FieldValue::Text(t)) => t.clone(),
            _ => {
                return None;
            },
        };
        let action = match crate::wire::get_field(&doc, "action") {
            Some(FieldValue::Text(t)) => match Action::from_name(t.as_str()) {
                Some(a) => a,
                None => {
                    return None;
                },
            },
            _ => {
                return None;
            },
        };
        let is_bulk = crate::text::str_eq(id.as_str(), "bulk-deps-client") && action
            == Action::AddDependencies;
        match crate::wire::get_field(&doc, "dependencies") {
            Some(FieldValue::Table(t)) => {
                if is_bulk {
                    let table = clone_table(t);
                    Some(
                        ClientMessage {
                            id,
                            action,
                            dependencies: Vec::new(),
                            dependency_map: table,
                        },
                    )
                } else {
                    None
                }
            },
            Some(FieldValue::Text(d)) => {
                if is_bulk {
                    None
                } else {
                    let deps = self.dependency_lookup(id.as_str(), d.as_str());
                    Some(
                        ClientMessage {
                            id,
                            action,
                            dependencies: deps,
                            dependency_map: Vec::new(),
                        },
                    )
                }
            },
            Some(FieldValue::Number(_)) => None,
            None => {
                if is_bulk {
                    None
                } else {
                    proof {
                        reveal_strlit("");
                        assert(""@ =~= Seq::<char>::empty());
                    }
                    let deps = self.dependency_lookup(id.as_str(), "");
                    Some(
                        ClientMessage {
                            id,
                            action,
                            dependencies: deps,
                            dependency_map: Vec::new(),
                        },
                    )
                }
            },
        }
    }

    /// `barrier_poll`'s contract pins the step down to `spec_barrier_poll`.
    proof fn lemma_barrier_poll_shape(
        &self,
        dv: Seq<Seq<char>>,
        kind: BarrierKind,
        state: BarrierState,
        r: BarrierStep,
    )
        requires
            state.dep_index <= dv.len(),
            ({
                let f = first_unsatisfied(self.clients@, kind, dv, state.dep_index as int);
                let budget: int = if f == state.dep_index as int {
                    state.retries_left as int
                } else {
                    self.max_retries as int
                };
                match r {
                    BarrierStep::Passed => f == dv.len() && deps_satisfied_from(
                        self.clients@,
                        kind,
                        dv,
                        state.dep_index as int,
                    ),
                    BarrierStep::TimedOut => f < dv.len() && budget == 0,
                    BarrierStep::Wait(st2) => f < dv.len() && budget > 0 && st2.dep_index == f
                        && st2.retries_left == budget - 1,
                }
            }),
        ensures
            r == self.spec_barrier_poll(dv, kind, state),
    {
        lemma_first_unsatisfied_props(self.clients@, kind, dv, state.dep_index as int);
    }
}

} // verus!
