//! The server engine's decisions: listener enablement, handshake
//! validation, connection hand-over and the reader's dispatch.  The
//! sockets and threads that carry these decisions out live outside the
//! crate; every decision here is a pure function of state and event.

use vstd::prelude::*;

use crate::commands::{CommandMessage, CommandMessageView};
use crate::states_creator::{contains_id, registered, ValuesList};
use crate::transport::{ReadMessage, ReadMessageView};

verus! {

/// The outcome of validating a client's opening frame.
pub enum HandshakeOutcome {
    /// The client presented the right version and an accepted token.
    Accept,
    /// The frame was refused; the report goes to the change notifier
    /// under slot id zero and the socket is closed.
    Reject(String),
}

/// What the reader thread must do with one inbound frame.
pub enum ServerStep {
    /// Decrement the pending counter of the value slot with this id.
    Acknowledge(u32),
    /// Forward a report from the peer to the change notifier.
    NotifyError(Vec<u8>),
    /// Hand the frame's deferred bytes to the value slot with this id;
    /// `true` marks a signal delivery.
    DispatchValue(u32, bool, Vec<u8>, Option<Vec<u8>>),
    /// Surface a protocol error under slot id zero and keep reading.
    ProtocolError(String),
}

/// The server engine's control state: whether the listener accepts and
/// whether a client is attached, with the configured version and token
/// allow-list.
pub struct ServerCore {
    enabled: bool,
    connected: bool,
    version: u64,
    handshake: Option<Vec<u64>>,
}

impl ServerCore {
    /// Whether the listener is running.
    pub closed spec fn spec_enabled(&self) -> bool {
        self.enabled
    }

    /// Whether a client is attached.
    pub closed spec fn spec_connected(&self) -> bool {
        self.connected
    }

    /// The protocol version the server demands.
    pub closed spec fn spec_version(&self) -> u64 {
        self.version
    }

    /// The accepted tokens, or none to accept all.
    pub closed spec fn spec_tokens(&self) -> Option<Seq<u64>> {
        match self.handshake {
            Some(ref h) => Some(h@),
            None => None,
        }
    }

    /// A fresh engine: idle, with no client, demanding exactly the
    /// given version and token allow-list.
    pub fn new(version: u64, handshake: Option<Vec<u64>>) -> (r: ServerCore)
        ensures
            !r.spec_enabled(),
            !r.spec_connected(),
            r.spec_version() == version,
            r.spec_tokens() == (match handshake {
                Some(h) => Some(h@),
                None => None::<Seq<u64>>,
            }),
    {
        ServerCore { enabled: false, connected: false, version, handshake }
    }

    /// Whether the listener is running, as a runtime value.
    pub fn is_running(&self) -> (r: bool)
        ensures
            r == self.spec_enabled(),
    {
        self.enabled
    }

    /// Whether a client is attached, as a runtime value.
    pub fn is_connected(&self) -> (r: bool)
        ensures
            r == self.spec_connected(),
    {
        self.connected
    }

    /// Starts the listener; starting twice changes nothing.  The
    /// caller raises the start event exactly when `true` comes back.
    pub fn start(&mut self) -> (r: bool)
        ensures
            final(self).spec_enabled(),
            final(self).spec_connected() == old(self).spec_connected(),
            final(self).spec_version() == old(self).spec_version(),
            final(self).spec_tokens() == old(self).spec_tokens(),
            r == !old(self).spec_enabled(),
    {
        if self.enabled {
            return false;
        }
        self.enabled = true;
        true
    }

    /// Stops the listener; stopping twice changes nothing.  When
    /// `true` comes back the caller clears the start event, sends
    /// `Terminate` if a client was attached, and pokes the listener
    /// socket to unblock a pending accept.
    pub fn stop(&mut self) -> (r: (bool, bool))
        ensures
            r.0 == old(self).spec_enabled(),
            r.0 ==> !final(self).spec_enabled() && !final(self).spec_connected(),
            !r.0 ==> *final(self) == *old(self),
            r.1 == (old(self).spec_enabled() && old(self).spec_connected()),
            final(self).spec_version() == old(self).spec_version(),
            final(self).spec_tokens() == old(self).spec_tokens(),
    {
        if !self.enabled {
            return (false, false);
        }
        self.enabled = false;
        let was_connected = self.disconnect_client();
        (true, was_connected)
    }

    /// Detaches the client, if one is attached.  When `true` comes
    /// back the caller enqueues `Terminate` for the writer thread.
    pub fn disconnect_client(&mut self) -> (r: bool)
        ensures
            !final(self).spec_connected(),
            final(self).spec_enabled() == old(self).spec_enabled(),
            final(self).spec_version() == old(self).spec_version(),
            final(self).spec_tokens() == old(self).spec_tokens(),
            r == old(self).spec_connected(),
    {
        let was = self.connected;
        self.connected = false;
        was
    }

    /// Validates a client's opening frame: it must be a handshake with
    /// exactly the configured version, and with a listed token when an
    /// allow-list is configured.  On a version mismatch the report
    /// names the different version; the engine's state never changes
    /// here, so a refused client leaves the server listening.
    pub fn check_handshake(&self, message: &ReadMessage) -> (r: HandshakeOutcome)
        ensures
            r is Accept <==> (match message@ {
                ReadMessageView::Command(CommandMessageView::Handshake(v, t)) => v
                    == self.spec_version() && (match self.spec_tokens() {
                    Some(tokens) => tokens.contains(t),
                    None => true,
                }),
                _ => false,
            }),
            (match message@ {
                ReadMessageView::Command(CommandMessageView::Handshake(v, t)) => v
                    != self.spec_version(),
                _ => false,
            }) ==> (r matches HandshakeOutcome::Reject(e) && e@
                == "Attempted to connect with a different version."@),
    {
        match message {
            ReadMessage::Command(CommandMessage::Handshake(v, t)) => {
                if *v != self.version {
                    return HandshakeOutcome::Reject(
                        "Attempted to connect with a different version.".to_owned(),
                    );
                }
                match &self.handshake {
                    Some(tokens) => {
                        let n = tokens.len();
                        let ghost msg = message@;
                        let mut i: usize = 0;
                        while i < n
                            invariant
                                i <= n,
                                n == tokens@.len(),
                                self.spec_tokens() == Some(tokens@),
                                self.spec_version() == *v,
                                msg == message@,
                                msg == ReadMessageView::Command(
                                    CommandMessageView::Handshake(*v, *t),
                                ),
                                forall|j: int| 0 <= j < i ==> tokens@[j] != *t,
                            decreases n - i,
                        {
                            if tokens[i] == *t {
                                proof {
                                    assert(tokens@[i as int] == *t);
                                    assert(tokens@.contains(*t));
                                }
                                return HandshakeOutcome::Accept;
                            }
                            i += 1;
                        }
                        proof {
                            assert(!tokens@.contains(*t));
                        }
                        HandshakeOutcome::Reject(
                            "Attempted to connect with a wrong token.".to_owned(),
                        )
                    },
                    None => HandshakeOutcome::Accept,
                }
            },
            _ => HandshakeOutcome::Reject(
                "The opening frame was not a handshake.".to_owned(),
            ),
        }
    }

    /// Attaches a freshly validated client.  Before this the caller
    /// must detach any previous client, drain the leftover outbound
    /// queue, and run the sync sweep: leftovers never reach the new
    /// session, and the sweep runs exactly once per attachment.
    pub fn attach_client(&mut self)
        requires
            !old(self).spec_connected(),
        ensures
            final(self).spec_connected(),
            final(self).spec_enabled() == old(self).spec_enabled(),
            final(self).spec_version() == old(self).spec_version(),
            final(self).spec_tokens() == old(self).spec_tokens(),
    {
        self.connected = true;
    }
}

/// The reader thread's dispatch of one inbound frame, as the server
/// does it: acknowledgements reach value slots, reports reach the
/// notifier, values and signals reach their slots, and everything else
/// is a protocol error surfaced under slot id zero.
pub fn server_handle_message(message: ReadMessage, vals: &ValuesList) -> (r: ServerStep)
    ensures
        (match message@ {
            ReadMessageView::Command(CommandMessageView::Ack(id)) => if registered(
                vals.values@,
                id,
            ) {
                r == ServerStep::Acknowledge(id)
            } else {
                r is ProtocolError
            },
            ReadMessageView::Command(CommandMessageView::Error(e)) => r matches
                ServerStep::NotifyError(b) && b@ == e,
            ReadMessageView::Command(_) => r is ProtocolError,
            ReadMessageView::Value(id, signal, h, d) => if registered(vals.values@, id as u32) {
                r matches ServerStep::DispatchValue(rid, s, rh, rd) && rid == id && s == signal
                    && rh@ == h && crate::values::opt_view(rd) == d
            } else {
                r is ProtocolError
            },
            ReadMessageView::Signal(id, h, d) => if registered(vals.values@, id as u32) {
                r matches ServerStep::DispatchValue(rid, s, rh, rd) && rid == id && s == true
                    && rh@ == h && crate::values::opt_view(rd) == d
            } else {
                r is ProtocolError
            },
            _ => r is ProtocolError,
        }),
{
    match message {
        ReadMessage::Command(command) => match command {
            CommandMessage::Ack(id) => {
                if contains_id(&vals.values, id) {
                    ServerStep::Acknowledge(id)
                } else {
                    ServerStep::ProtocolError(
                        "No value slot with this id for the acknowledgement.".to_owned(),
                    )
                }
            },
            CommandMessage::Error(e) => ServerStep::NotifyError(e),
            _ => ServerStep::ProtocolError(
                "This command should not be processed here.".to_owned(),
            ),
        },
        ReadMessage::Value(id, signal, head, data) => {
            if contains_id(&vals.values, id) {
                ServerStep::DispatchValue(id, signal, head, data)
            } else {
                ServerStep::ProtocolError("No value slot with this id.".to_owned())
            }
        },
        ReadMessage::Signal(id, head, data) => {
            if contains_id(&vals.values, id) {
                ServerStep::DispatchValue(id, true, head, data)
            } else {
                ServerStep::ProtocolError("No value slot with this id.".to_owned())
            }
        },
        _ => ServerStep::ProtocolError(
            "This message should not be processed here.".to_owned(),
        ),
    }
}

} // verus!
