//! The client engine's decisions: the connection life cycle reported
//! to the UI, the opening handshake, and the reader's dispatch of
//! inbound frames into the slot mirrors.  The socket and the two
//! threads that carry these decisions out live outside the crate.

use vstd::prelude::*;

use crate::commands::{CommandMessage, CommandMessageView};
use crate::states_creator::{contains_id, registered, ValuesList};
use crate::transport::{ReadMessage, ReadMessageView, WriteMessage, WriteMessageView};

verus! {

/// What the UI is told about the session.
#[derive(Clone, Copy, Debug, PartialEq, Eq, Structural)]
pub enum ConnectionState {
    NotConnected,
    Connected,
    Disconnected,
}

/// What the reader thread must do with one inbound frame.  Every
/// adopted value is acknowledged back to the server; the repaint
/// delta travels as the bit pattern of an `f32`.
pub enum ClientStep {
    /// Drive a repaint with the given delta.
    Repaint(u32),
    /// Ignore the frame: a command with nothing for the client.
    Ignore,
    /// Hand the deferred bytes to the value slot with this id, then
    /// acknowledge; repaint afterwards when the flag is set.
    DispatchValue(u32, bool, Vec<u8>, Option<Vec<u8>>),
    /// Hand the deferred bytes to the static slot with this id.
    DispatchStatic(u32, bool, Vec<u8>, Option<Vec<u8>>),
    /// Hand the parsed image to the image slot with this id.
    DispatchImage(u32, bool, crate::image::ImageMessage),
    /// Hand the parsed histogram to the image slot with this id.
    DispatchHistogram(u32, bool, crate::image::HistogramMessage),
    /// Hand the deferred bytes to the dictionary mirror with this id.
    DispatchDict(u32, bool, Vec<u8>, Option<Vec<u8>>),
    /// Hand the deferred bytes to the list mirror with this id.
    DispatchList(u32, bool, Vec<u8>, Option<Vec<u8>>),
    /// Hand the deferred bytes to the graph mirror with this id.
    DispatchGraph(u32, bool, Vec<u8>, Option<Vec<u8>>),
}

/// The client engine's control state: what the UI is told, and the
/// version and token it opens sessions with.
pub struct ClientCore {
    state: ConnectionState,
    version: u64,
    handshake: u64,
}

impl ClientCore {
    /// The session state reported to the UI.
    pub closed spec fn spec_state(&self) -> ConnectionState {
        self.state
    }

    /// The protocol version sent in the handshake.
    pub closed spec fn spec_version(&self) -> u64 {
        self.version
    }

    /// The token sent in the handshake.
    pub closed spec fn spec_token(&self) -> u64 {
        self.handshake
    }

    /// A fresh engine, before any attempt.
    pub fn new(version: u64, handshake: u64) -> (r: ClientCore)
        ensures
            r.spec_state() == ConnectionState::NotConnected,
            r.spec_version() == version,
            r.spec_token() == handshake,
    {
        ClientCore { state: ConnectionState::NotConnected, version, handshake }
    }

    /// The session state, as a runtime value.
    pub fn state(&self) -> (r: ConnectionState)
        ensures
            r == self.spec_state(),
    {
        self.state
    }

    /// A connection attempt finished: on success the engine is
    /// connected and the caller first drains the leftover outbound
    /// queue, then spawns the reader and the writer; on failure it
    /// goes back to waiting.
    pub fn connect_attempt(&mut self, success: bool)
        ensures
            final(self).spec_version() == old(self).spec_version(),
            final(self).spec_token() == old(self).spec_token(),
            success ==> final(self).spec_state() == ConnectionState::Connected,
            !success ==> final(self).spec_state() == ConnectionState::NotConnected,
    {
        self.state = if success {
            ConnectionState::Connected
        } else {
            ConnectionState::NotConnected
        };
    }

    /// The session ended: the UI learns of the disconnection and the
    /// caller joins the threads.
    pub fn disconnected(&mut self)
        ensures
            final(self).spec_version() == old(self).spec_version(),
            final(self).spec_token() == old(self).spec_token(),
            final(self).spec_state() == ConnectionState::Disconnected,
    {
        self.state = ConnectionState::Disconnected;
    }

    /// The frame the writer sends first on every fresh session.
    pub fn handshake_message(&self) -> (r: WriteMessage)
        ensures
            r@ == WriteMessageView::Command(
                CommandMessageView::Handshake(self.spec_version(), self.spec_token()),
            ),
    {
        WriteMessage::Command(CommandMessage::Handshake(self.version, self.handshake))
    }
}

/// The reader thread's dispatch of one inbound frame, as the client
/// does it: repaint hints reach the UI, other commands are ignored,
/// every slot kind reaches its registered mirror, and a signal frame
/// or an unknown id is an error handed back to the server.
pub fn handle_message(message: ReadMessage, vals: &ValuesList) -> (r: Result<ClientStep, String>)
    ensures
        (match message@ {
            ReadMessageView::Command(CommandMessageView::Update(delta)) => r == Ok::<
                ClientStep,
                String,
            >(ClientStep::Repaint(delta)),
            ReadMessageView::Command(_) => r == Ok::<ClientStep, String>(ClientStep::Ignore),
            ReadMessageView::Value(id, u, h, d) => if registered(vals.values@, id as u32) {
                r matches Ok(ClientStep::DispatchValue(rid, ru, rh, rd)) && rid == id && ru == u
                    && rh@ == h && crate::values::opt_view(rd) == d
            } else {
                r is Err
            },
            ReadMessageView::Static(id, u, h, d) => if registered(vals.static_values@, id as u32) {
                r matches Ok(ClientStep::DispatchStatic(rid, ru, rh, rd)) && rid == id && ru == u
                    && rh@ == h && crate::values::opt_view(rd) == d
            } else {
                r is Err
            },
            ReadMessageView::Image(id, u, m) => if registered(vals.images@, id as u32) {
                r matches Ok(ClientStep::DispatchImage(rid, ru, rm)) && rid == id && ru == u
                    && rm@ == m
            } else {
                r is Err
            },
            ReadMessageView::Histogram(id, u, m) => if registered(vals.images@, id as u32) {
                r matches Ok(ClientStep::DispatchHistogram(rid, ru, rm)) && rid == id && ru == u
                    && rm@ == m
            } else {
                r is Err
            },
            ReadMessageView::Dict(id, u, h, d) => if registered(vals.dicts@, id as u32) {
                r matches Ok(ClientStep::DispatchDict(rid, ru, rh, rd)) && rid == id && ru == u
                    && rh@ == h && crate::values::opt_view(rd) == d
            } else {
                r is Err
            },
            ReadMessageView::List(id, u, h, d) => if registered(vals.lists@, id as u32) {
                r matches Ok(ClientStep::DispatchList(rid, ru, rh, rd)) && rid == id && ru == u
                    && rh@ == h && crate::values::opt_view(rd) == d
            } else {
                r is Err
            },
            ReadMessageView::Graph(id, u, h, d) => if registered(vals.graphs@, id as u32) {
                r matches Ok(ClientStep::DispatchGraph(rid, ru, rh, rd)) && rid == id && ru == u
                    && rh@ == h && crate::values::opt_view(rd) == d
            } else {
                r is Err
            },
            ReadMessageView::Signal(_, _, _) => r is Err,
        }),
{
    match message {
        ReadMessage::Command(command) => match command {
            CommandMessage::Update(delta) => Ok(ClientStep::Repaint(delta)),
            _ => Ok(ClientStep::Ignore),
        },
        ReadMessage::Value(id, update, head, data) => {
            if contains_id(&vals.values, id) {
                Ok(ClientStep::DispatchValue(id, update, head, data))
            } else {
                Err("Value with this id not found.".to_owned())
            }
        },
        ReadMessage::Static(id, update, head, data) => {
            if contains_id(&vals.static_values, id) {
                Ok(ClientStep::DispatchStatic(id, update, head, data))
            } else {
                Err("Static with this id not found.".to_owned())
            }
        },
        ReadMessage::Image(id, update, m) => {
            if contains_id(&vals.images, id) {
                Ok(ClientStep::DispatchImage(id, update, m))
            } else {
                Err("Image with this id not found.".to_owned())
            }
        },
        ReadMessage::Histogram(id, update, m) => {
            if contains_id(&vals.images, id) {
                Ok(ClientStep::DispatchHistogram(id, update, m))
            } else {
                Err("Image with this id not found.".to_owned())
            }
        },
        ReadMessage::Dict(id, update, head, data) => {
            if contains_id(&vals.dicts, id) {
                Ok(ClientStep::DispatchDict(id, update, head, data))
            } else {
                Err("Dict with this id not found.".to_owned())
            }
        },
        ReadMessage::List(id, update, head, data) => {
            if contains_id(&vals.lists, id) {
                Ok(ClientStep::DispatchList(id, update, head, data))
            } else {
                Err("List with this id not found.".to_owned())
            }
        },
        ReadMessage::Graph(id, update, head, data) => {
            if contains_id(&vals.graphs, id) {
                Ok(ClientStep::DispatchGraph(id, update, head, data))
            } else {
                Err("Graph with this id not found.".to_owned())
            }
        },
        ReadMessage::Signal(_, _, _) => Err(
            "Signal messages are not handled in the client.".to_owned(),
        ),
    }
}

} // verus!
