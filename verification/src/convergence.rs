//! The accounting discipline of one value slot, as a two-sided
//! transition system: each side keeps a mirror and a pending-write
//! counter, every delivered value is acknowledged, and an inbound
//! value reaches a mirror only while nothing of its own is pending.
//!
//! The proofs here state what the discipline buys: the counters always
//! equal the traffic still in flight, so they are never negative and
//! return to zero in quiescence; and while only one side writes, the
//! two mirrors agree again as soon as the wire is quiet.  With writes
//! from both sides at once quiescent mirrors can differ — each side
//! keeps its own write and discards the other's echo — until the next
//! write; that trace is outside the one-sided premise.

use vstd::prelude::*;

verus! {

/// One frame in flight: a value update, or its acknowledgement.
pub enum NetMsg {
    Val(u64),
    Ack,
}

/// The two mirrors, the two pending counters, and the frames in
/// flight in each direction.
pub struct PairState {
    /// The server's mirror.
    pub sm: u64,
    /// The client's mirror.
    pub cm: u64,
    /// The server's pending-write counter.
    pub sp: nat,
    /// The client's pending-write counter.
    pub cp: nat,
    /// Frames in flight from server to client, oldest first.
    pub sc: Seq<NetMsg>,
    /// Frames in flight from client to server, oldest first.
    pub cs: Seq<NetMsg>,
}

/// One step of the protocol.
pub enum PairEvent {
    /// The server writes locally and sends the value.
    ServerSet(u64),
    /// The client writes locally and sends the value.
    ClientSet(u64),
    /// The client takes the oldest frame off the wire.
    DeliverToClient,
    /// The server takes the oldest frame off the wire.
    DeliverToServer,
}

/// The state both sides start a session in, after the sync sweep has
/// settled: equal mirrors, no pending writes, a quiet wire.
pub open spec fn initial(s: PairState) -> bool {
    &&& s.sm == s.cm
    &&& s.sp == 0
    &&& s.cp == 0
    &&& s.sc.len() == 0
    &&& s.cs.len() == 0
}

/// The transition relation: `None` when the event is not enabled (a
/// delivery from an empty wire, or an acknowledgement nobody owes).
pub open spec fn step(s: PairState, e: PairEvent) -> Option<PairState> {
    match e {
        PairEvent::ServerSet(v) => Some(
            PairState { sm: v, sp: s.sp + 1, sc: s.sc.push(NetMsg::Val(v)), ..s },
        ),
        PairEvent::ClientSet(v) => Some(
            PairState { cm: v, cp: s.cp + 1, cs: s.cs.push(NetMsg::Val(v)), ..s },
        ),
        PairEvent::DeliverToClient => if s.sc.len() == 0 {
            None
        } else {
            match s.sc[0] {
                NetMsg::Val(v) => Some(
                    PairState {
                        cm: if s.cp == 0 {
                            v
                        } else {
                            s.cm
                        },
                        sc: s.sc.drop_first(),
                        cs: s.cs.push(NetMsg::Ack),
                        ..s
                    },
                ),
                NetMsg::Ack => if s.cp == 0 {
                    None
                } else {
                    Some(PairState { cp: (s.cp - 1) as nat, sc: s.sc.drop_first(), ..s })
                },
            }
        },
        PairEvent::DeliverToServer => if s.cs.len() == 0 {
            None
        } else {
            match s.cs[0] {
                NetMsg::Val(v) => Some(
                    PairState {
                        sm: if s.sp == 0 {
                            v
                        } else {
                            s.sm
                        },
                        cs: s.cs.drop_first(),
                        sc: s.sc.push(NetMsg::Ack),
                        ..s
                    },
                ),
                NetMsg::Ack => if s.sp == 0 {
                    None
                } else {
                    Some(PairState { sp: (s.sp - 1) as nat, cs: s.cs.drop_first(), ..s })
                },
            }
        },
    }
}

/// How many value frames a queue holds.
pub open spec fn vals_in(q: Seq<NetMsg>) -> int
    decreases q.len(),
{
    if q.len() == 0 {
        0
    } else {
        (match q[0] {
            NetMsg::Val(_) => 1int,
            NetMsg::Ack => 0int,
        }) + vals_in(q.drop_first())
    }
}

/// How many acknowledgements a queue holds.
pub open spec fn acks_in(q: Seq<NetMsg>) -> int
    decreases q.len(),
{
    if q.len() == 0 {
        0
    } else {
        (match q[0] {
            NetMsg::Val(_) => 0int,
            NetMsg::Ack => 1int,
        }) + acks_in(q.drop_first())
    }
}

/// The accounting invariant: each side's pending counter equals its
/// writes still on the wire plus the acknowledgements still owed to
/// it.  This is the exact sense in which the counter tracks traffic.
pub open spec fn accounted(s: PairState) -> bool {
    &&& s.sp == vals_in(s.sc) + acks_in(s.cs)
    &&& s.cp == vals_in(s.cs) + acks_in(s.sc)
}

/// Both counts of a queue are non-negative and no larger than the
/// queue.
pub proof fn lemma_counts_bounds(q: Seq<NetMsg>)
    ensures
        0 <= vals_in(q) <= q.len(),
        0 <= acks_in(q) <= q.len(),
        vals_in(q) + acks_in(q) == q.len(),
    decreases q.len(),
{
    if q.len() > 0 {
        lemma_counts_bounds(q.drop_first());
    }
}

/// Appending one frame adds it to the right count.
pub proof fn lemma_counts_push(q: Seq<NetMsg>, m: NetMsg)
    ensures
        vals_in(q.push(m)) == vals_in(q) + (match m {
            NetMsg::Val(_) => 1int,
            NetMsg::Ack => 0int,
        }),
        acks_in(q.push(m)) == acks_in(q) + (match m {
            NetMsg::Val(_) => 0int,
            NetMsg::Ack => 1int,
        }),
    decreases q.len(),
{
    if q.len() == 0 {
        assert(q.push(m)[0] == m);
        assert(q.push(m).drop_first() =~= Seq::<NetMsg>::empty());
        assert(vals_in(q.push(m).drop_first()) == 0);
        assert(acks_in(q.push(m).drop_first()) == 0);
    } else {
        assert(q.push(m).drop_first() =~= q.drop_first().push(m));
        assert(q.push(m)[0] == q[0]);
        lemma_counts_push(q.drop_first(), m);
    }
}

/// A fresh session is accounted for.
pub proof fn lemma_initial_accounted(s: PairState)
    requires
        initial(s),
    ensures
        accounted(s),
{
}

/// Every enabled step preserves the accounting invariant: the
/// pending-write counters never drift from the traffic they track,
/// and in particular never go below zero.
pub proof fn lemma_step_accounted(s: PairState, e: PairEvent)
    requires
        accounted(s),
        step(s, e) is Some,
    ensures
        accounted(step(s, e).unwrap()),
{
    let n = step(s, e).unwrap();
    match e {
        PairEvent::ServerSet(v) => {
            lemma_counts_push(s.sc, NetMsg::Val(v));
        },
        PairEvent::ClientSet(v) => {
            lemma_counts_push(s.cs, NetMsg::Val(v));
        },
        PairEvent::DeliverToClient => {
            match s.sc[0] {
                NetMsg::Val(v) => {
                    lemma_counts_push(s.cs, NetMsg::Ack);
                },
                NetMsg::Ack => {},
            }
        },
        PairEvent::DeliverToServer => {
            match s.cs[0] {
                NetMsg::Val(v) => {
                    lemma_counts_push(s.sc, NetMsg::Ack);
                },
                NetMsg::Ack => {},
            }
        },
    }
}

/// In quiescence the accounting invariant pins both counters at zero:
/// once the wire is quiet, nothing is pending on either side.
pub proof fn lemma_quiescent_counters(s: PairState)
    requires
        accounted(s),
        s.sc.len() == 0,
        s.cs.len() == 0,
    ensures
        s.sp == 0,
        s.cp == 0,
{
    lemma_counts_bounds(s.sc);
    lemma_counts_bounds(s.cs);
}

/// The convergence invariant for sessions where only the server
/// writes: the client owes nothing, and the server's mirror is what
/// the last value frame on the wire carries — or what the client
/// already mirrors when none is in flight.
pub open spec fn server_led(s: PairState) -> bool {
    &&& accounted(s)
    &&& s.cp == 0
    &&& vals_in(s.cs) == 0
    &&& (vals_in(s.sc) == 0 ==> s.cm == s.sm)
    &&& (forall|i: int|
        0 <= i < s.sc.len() && (forall|j: int| i < j < s.sc.len() ==> !((#[trigger] s.sc[j])
            is Val)) && s.sc[i] is Val ==> s.sc[i] == NetMsg::Val(s.sm))
}

/// While only the server writes, every enabled step preserves the
/// convergence invariant.
pub proof fn lemma_step_server_led(s: PairState, e: PairEvent)
    requires
        server_led(s),
        !(e is ClientSet),
        step(s, e) is Some,
    ensures
        server_led(step(s, e).unwrap()),
{
    lemma_step_accounted(s, e);
    let n = step(s, e).unwrap();
    lemma_counts_bounds(s.sc);
    lemma_counts_bounds(s.cs);
    match e {
        PairEvent::ServerSet(v) => {
            lemma_counts_push(s.sc, NetMsg::Val(v));
            assert(n.sc[n.sc.len() - 1] == NetMsg::Val(v));
            assert forall|i: int|
                0 <= i < n.sc.len() && (forall|j: int| i < j < n.sc.len() ==> !((
                #[trigger] n.sc[j]) is Val)) && n.sc[i] is Val implies n.sc[i] == NetMsg::Val(
                n.sm,
            ) by {
                assert(n.sc[n.sc.len() - 1] is Val);
                if i < n.sc.len() - 1 {
                    assert(!(n.sc[n.sc.len() - 1] is Val));
                    assert(false);
                }
            }
        },
        PairEvent::ClientSet(_) => {},
        PairEvent::DeliverToClient => {
            lemma_vals_drop(s.sc);
            match s.sc[0] {
                NetMsg::Val(v) => {
                    lemma_counts_push(s.cs, NetMsg::Ack);
                    assert(n.sc =~= s.sc.drop_first());
                    if vals_in(n.sc) == 0 {
                        assert forall|j: int| 0 < j < s.sc.len() implies !((#[trigger] s.sc[j])
                            is Val) by {
                            lemma_no_vals_anywhere(n.sc, j - 1);
                        }
                        assert(s.sc[0] == NetMsg::Val(s.sm));
                        assert(n.cm == s.sm);
                    }
                    assert forall|i: int|
                        0 <= i < n.sc.len() && (forall|j: int| i < j < n.sc.len() ==> !((
                        #[trigger] n.sc[j]) is Val)) && n.sc[i] is Val implies n.sc[i]
                        == NetMsg::Val(n.sm) by {
                        assert(n.sc[i] == s.sc[i + 1]);
                        assert forall|j: int| i + 1 < j < s.sc.len() implies !((
                        #[trigger] s.sc[j]) is Val) by {
                            assert(s.sc[j] == n.sc[j - 1]);
                        }
                    }
                },
                NetMsg::Ack => {
                    assert(false);
                },
            }
        },
        PairEvent::DeliverToServer => {
            lemma_vals_drop(s.cs);
            match s.cs[0] {
                NetMsg::Val(v) => {
                    lemma_counts_bounds(s.cs.drop_first());
                    assert(vals_in(s.cs) >= 1);
                    assert(false);
                },
                NetMsg::Ack => {
                    assert(n.sc =~= s.sc);
                    assert forall|i: int|
                        0 <= i < n.sc.len() && (forall|j: int| i < j < n.sc.len() ==> !((
                        #[trigger] n.sc[j]) is Val)) && n.sc[i] is Val implies n.sc[i]
                        == NetMsg::Val(n.sm) by {}
                },
            }
        },
    }
}

/// Dropping the first frame keeps the rest's counts.
proof fn lemma_vals_drop(q: Seq<NetMsg>)
    requires
        q.len() > 0,
    ensures
        vals_in(q) == vals_in(q.drop_first()) + (match q[0] {
            NetMsg::Val(_) => 1int,
            NetMsg::Ack => 0int,
        }),
        acks_in(q) == acks_in(q.drop_first()) + (match q[0] {
            NetMsg::Val(_) => 0int,
            NetMsg::Ack => 1int,
        }),
{
}

/// A queue with no value frames has none at any position.
proof fn lemma_no_vals_anywhere(q: Seq<NetMsg>, i: int)
    requires
        vals_in(q) == 0,
        0 <= i < q.len(),
    ensures
        !(q[i] is Val),
    decreases i,
{
    lemma_counts_bounds(q.drop_first());
    if i == 0 {
        if q[0] is Val {
            assert(vals_in(q) >= 1);
        }
    } else {
        lemma_no_vals_anywhere(q.drop_first(), i - 1);
        assert(q.drop_first()[i - 1] == q[i]);
    }
}

/// A fresh session led by the server satisfies the convergence
/// invariant.
pub proof fn lemma_initial_server_led(s: PairState)
    requires
        initial(s),
    ensures
        server_led(s),
{
}

/// Convergence: in a session where only the server wrote, mirrors are
/// equal again as soon as the wire is quiet.  A session with writes
/// from both sides at once is not covered, and its quiescent mirrors
/// can indeed differ until the next write.
pub proof fn lemma_quiescent_converged(s: PairState)
    requires
        server_led(s),
        s.sc.len() == 0,
        s.cs.len() == 0,
    ensures
        s.cm == s.sm,
        s.sp == 0,
        s.cp == 0,
{
    lemma_counts_bounds(s.sc);
    lemma_counts_bounds(s.cs);
}

/// The convergence invariant for sessions where only the client
/// writes, the mirror image of `server_led`.
pub open spec fn client_led(s: PairState) -> bool {
    &&& accounted(s)
    &&& s.sp == 0
    &&& vals_in(s.sc) == 0
    &&& (vals_in(s.cs) == 0 ==> s.sm == s.cm)
    &&& (forall|i: int|
        0 <= i < s.cs.len() && (forall|j: int| i < j < s.cs.len() ==> !((#[trigger] s.cs[j])
            is Val)) && s.cs[i] is Val ==> s.cs[i] == NetMsg::Val(s.cm))
}

/// While only the client writes, every enabled step preserves the
/// convergence invariant.
pub proof fn lemma_step_client_led(s: PairState, e: PairEvent)
    requires
        client_led(s),
        !(e is ServerSet),
        step(s, e) is Some,
    ensures
        client_led(step(s, e).unwrap()),
{
    lemma_step_accounted(s, e);
    let n = step(s, e).unwrap();
    lemma_counts_bounds(s.sc);
    lemma_counts_bounds(s.cs);
    match e {
        PairEvent::ClientSet(v) => {
            lemma_counts_push(s.cs, NetMsg::Val(v));
            assert(n.cs[n.cs.len() - 1] == NetMsg::Val(v));
            assert forall|i: int|
                0 <= i < n.cs.len() && (forall|j: int| i < j < n.cs.len() ==> !((
                #[trigger] n.cs[j]) is Val)) && n.cs[i] is Val implies n.cs[i] == NetMsg::Val(
                n.cm,
            ) by {
                assert(n.cs[n.cs.len() - 1] is Val);
                if i < n.cs.len() - 1 {
                    assert(!(n.cs[n.cs.len() - 1] is Val));
                    assert(false);
                }
            }
        },
        PairEvent::ServerSet(_) => {},
        PairEvent::DeliverToServer => {
            lemma_vals_drop(s.cs);
            match s.cs[0] {
                NetMsg::Val(v) => {
                    lemma_counts_push(s.sc, NetMsg::Ack);
                    assert(n.cs =~= s.cs.drop_first());
                    if vals_in(n.cs) == 0 {
                        assert forall|j: int| 0 < j < s.cs.len() implies !((#[trigger] s.cs[j])
                            is Val) by {
                            lemma_no_vals_anywhere(n.cs, j - 1);
                        }
                        assert(s.cs[0] == NetMsg::Val(s.cm));
                        assert(n.sm == s.cm);
                    }
                    assert forall|i: int|
                        0 <= i < n.cs.len() && (forall|j: int| i < j < n.cs.len() ==> !((
                        #[trigger] n.cs[j]) is Val)) && n.cs[i] is Val implies n.cs[i]
                        == NetMsg::Val(n.cm) by {
                        assert(n.cs[i] == s.cs[i + 1]);
                        assert forall|j: int| i + 1 < j < s.cs.len() implies !((
                        #[trigger] s.cs[j]) is Val) by {
                            assert(s.cs[j] == n.cs[j - 1]);
                        }
                    }
                },
                NetMsg::Ack => {
                    assert(false);
                },
            }
        },
        PairEvent::DeliverToClient => {
            lemma_vals_drop(s.sc);
            match s.sc[0] {
                NetMsg::Val(v) => {
                    lemma_counts_bounds(s.sc.drop_first());
                    assert(vals_in(s.sc) >= 1);
                    assert(false);
                },
                NetMsg::Ack => {
                    assert(n.cs =~= s.cs);
                    assert forall|i: int|
                        0 <= i < n.cs.len() && (forall|j: int| i < j < n.cs.len() ==> !((
                        #[trigger] n.cs[j]) is Val)) && n.cs[i] is Val implies n.cs[i]
                        == NetMsg::Val(n.cm) by {}
                },
            }
        },
    }
}

/// A fresh session led by the client satisfies the convergence
/// invariant.
pub proof fn lemma_initial_client_led(s: PairState)
    requires
        initial(s),
    ensures
        client_led(s),
{
}

/// Convergence for client-led sessions: once the wire is quiet, the
/// server mirrors the client's last write.
pub proof fn lemma_quiescent_converged_client(s: PairState)
    requires
        client_led(s),
        s.sc.len() == 0,
        s.cs.len() == 0,
    ensures
        s.sm == s.cm,
        s.sp == 0,
        s.cp == 0,
{
    lemma_counts_bounds(s.sc);
    lemma_counts_bounds(s.cs);
}

/// The state a run of events reaches from `s`, or `None` when some
/// event along the way is not enabled.
pub open spec fn run(s: PairState, events: Seq<PairEvent>) -> Option<PairState>
    decreases events.len(),
{
    if events.len() == 0 {
        Some(s)
    } else {
        match step(s, events[0]) {
            Some(n) => run(n, events.drop_first()),
            None => None,
        }
    }
}

/// Over any run from a fresh session, the pending-write counters
/// track the traffic exactly; in particular they are never negative,
/// and they are zero whenever the wire is quiet.
pub proof fn lemma_run_accounted(s: PairState, events: Seq<PairEvent>)
    requires
        accounted(s),
        run(s, events) is Some,
    ensures
        accounted(run(s, events).unwrap()),
    decreases events.len(),
{
    if events.len() > 0 {
        lemma_step_accounted(s, events[0]);
        lemma_run_accounted(step(s, events[0]).unwrap(), events.drop_first());
    }
}

/// No event in the run is a local write of the client.
pub open spec fn server_only(events: Seq<PairEvent>) -> bool {
    forall|i: int| 0 <= i < events.len() ==> !((#[trigger] events[i]) is ClientSet)
}

/// No event in the run is a local write of the server.
pub open spec fn client_only(events: Seq<PairEvent>) -> bool {
    forall|i: int| 0 <= i < events.len() ==> !((#[trigger] events[i]) is ServerSet)
}

/// Convergence over whole runs: start a session fresh, let any run of
/// events follow in which only the server writes, and whenever that
/// run reaches a quiet wire the two mirrors are equal — and nothing is
/// pending on either side.
pub proof fn lemma_run_converged_server_only(s: PairState, events: Seq<PairEvent>)
    requires
        initial(s),
        server_only(events),
        run(s, events) is Some,
    ensures
        server_led(run(s, events).unwrap()),
        ({
            let f = run(s, events).unwrap();
            f.sc.len() == 0 && f.cs.len() == 0 ==> f.cm == f.sm && f.sp == 0 && f.cp == 0
        }),
{
    lemma_initial_server_led(s);
    lemma_run_preserves_server_led(s, events);
    let f = run(s, events).unwrap();
    if f.sc.len() == 0 && f.cs.len() == 0 {
        lemma_quiescent_converged(f);
    }
}

/// The one-sided invariant survives a whole run.
proof fn lemma_run_preserves_server_led(s: PairState, events: Seq<PairEvent>)
    requires
        server_led(s),
        server_only(events),
        run(s, events) is Some,
    ensures
        server_led(run(s, events).unwrap()),
    decreases events.len(),
{
    if events.len() > 0 {
        lemma_step_server_led(s, events[0]);
        assert forall|i: int| 0 <= i < events.drop_first().len() implies !((
        #[trigger] events.drop_first()[i]) is ClientSet) by {
            assert(events.drop_first()[i] == events[i + 1]);
        }
        lemma_run_preserves_server_led(step(s, events[0]).unwrap(), events.drop_first());
    }
}

/// Convergence over whole runs led by the client, the mirror image of
/// the server-led statement.
pub proof fn lemma_run_converged_client_only(s: PairState, events: Seq<PairEvent>)
    requires
        initial(s),
        client_only(events),
        run(s, events) is Some,
    ensures
        client_led(run(s, events).unwrap()),
        ({
            let f = run(s, events).unwrap();
            f.sc.len() == 0 && f.cs.len() == 0 ==> f.sm == f.cm && f.sp == 0 && f.cp == 0
        }),
{
    lemma_initial_client_led(s);
    lemma_run_preserves_client_led(s, events);
    let f = run(s, events).unwrap();
    if f.sc.len() == 0 && f.cs.len() == 0 {
        lemma_quiescent_converged_client(f);
    }
}

/// The one-sided invariant survives a whole run.
proof fn lemma_run_preserves_client_led(s: PairState, events: Seq<PairEvent>)
    requires
        client_led(s),
        client_only(events),
        run(s, events) is Some,
    ensures
        client_led(run(s, events).unwrap()),
    decreases events.len(),
{
    if events.len() > 0 {
        lemma_step_client_led(s, events[0]);
        assert forall|i: int| 0 <= i < events.drop_first().len() implies !((
        #[trigger] events.drop_first()[i]) is ServerSet) by {
            assert(events.drop_first()[i] == events[i + 1]);
        }
        lemma_run_preserves_client_led(step(s, events[0]).unwrap(), events.drop_first());
    }
}

} // verus!
