//! The command sub-protocol: handshake, acknowledgement, repaint hint
//! and error transport.  Commands use the header region behind the kind
//! byte; only `Error` carries a payload, the UTF-8 bytes of its text.

use vstd::prelude::*;

use crate::transport::{zeros, pad_to};
use crate::values::opt_view;

verus! {

/// Length of the command sub-header region (bytes 1..28 of the frame).
pub const CMD_SIZE: usize = 27;

pub const COMMAND_HANDSHAKE: u8 = 1;
pub const COMMAND_ACK: u8 = 2;
pub const COMMAND_UPDATE: u8 = 3;
pub const COMMAND_ERROR: u8 = 4;

/// A control command.  `Handshake` opens a session with a protocol
/// version and a token; `Ack` confirms one value update of the given
/// slot; `Update` carries the repaint delta as the bit pattern of an
/// `f32`; `Error` carries the UTF-8 bytes of a report.
pub enum CommandMessage {
    Handshake(u64, u64),
    Ack(u32),
    Update(u32),
    Error(Vec<u8>),
}

/// Mathematical shadow of [`CommandMessage`].
pub enum CommandMessageView {
    Handshake(u64, u64),
    Ack(u32),
    Update(u32),
    Error(Seq<u8>),
}

impl View for CommandMessage {
    type V = CommandMessageView;

    open spec fn view(&self) -> CommandMessageView {
        match self {
            CommandMessage::Handshake(v, t) => CommandMessageView::Handshake(*v, *t),
            CommandMessage::Ack(id) => CommandMessageView::Ack(*id),
            CommandMessage::Update(b) => CommandMessageView::Update(*b),
            CommandMessage::Error(e) => CommandMessageView::Error(e@),
        }
    }
}

/// The 27-byte command sub-header: a command tag, then the in-header
/// parameters, zero-padded.
pub open spec fn command_head(m: CommandMessageView) -> Seq<u8> {
    match m {
        CommandMessageView::Handshake(v, t) => seq![COMMAND_HANDSHAKE]
            + vstd::bytes::spec_u64_to_le_bytes(v) + vstd::bytes::spec_u64_to_le_bytes(t) + zeros(
            10,
        ),
        CommandMessageView::Ack(id) => seq![COMMAND_ACK] + vstd::bytes::spec_u32_to_le_bytes(id)
            + zeros(22),
        CommandMessageView::Update(b) => seq![COMMAND_UPDATE] + vstd::bytes::spec_u32_to_le_bytes(
            b,
        ) + zeros(22),
        CommandMessageView::Error(e) => seq![COMMAND_ERROR] + zeros(26),
    }
}

/// The payload of a command: only `Error` carries one.
pub open spec fn command_data(m: CommandMessageView) -> Option<Seq<u8>> {
    match m {
        CommandMessageView::Error(e) => Some(e),
        _ => None,
    }
}

/// The mathematical decoder of a command: `Some` exactly on the byte
/// shapes `command_head` and `command_data` produce together.
pub open spec fn command_dec(head: Seq<u8>, data: Option<Seq<u8>>) -> Option<CommandMessageView> {
    if head.len() != CMD_SIZE {
        None
    } else if head[0] == COMMAND_HANDSHAKE && data is None {
        Some(
            CommandMessageView::Handshake(
                vstd::bytes::spec_u64_from_le_bytes(head.subrange(1, 9)),
                vstd::bytes::spec_u64_from_le_bytes(head.subrange(9, 17)),
            ),
        )
    } else if head[0] == COMMAND_ACK && data is None {
        Some(CommandMessageView::Ack(vstd::bytes::spec_u32_from_le_bytes(head.subrange(1, 5))))
    } else if head[0] == COMMAND_UPDATE && data is None {
        Some(CommandMessageView::Update(vstd::bytes::spec_u32_from_le_bytes(head.subrange(1, 5))))
    } else if head[0] == COMMAND_ERROR && data is Some {
        Some(CommandMessageView::Error(data.unwrap()))
    } else {
        None
    }
}

impl CommandMessage {
    /// A short name of the command, for reports.
    pub fn as_str(&self) -> &'static str {
        match self {
            CommandMessage::Handshake(_, _) => "Handshake",
            CommandMessage::Ack(_) => "Ack",
            CommandMessage::Update(_) => "Update",
            CommandMessage::Error(_) => "Error",
        }
    }

    /// Fills the command sub-header and hands back the payload, if any.
    pub fn write_message(&self) -> (r: (Vec<u8>, Option<Vec<u8>>))
        ensures
            r.0@.len() == CMD_SIZE,
            r.0@ == command_head(self@),
            opt_view(r.1) == command_data(self@),
    {
        let mut head: Vec<u8> = Vec::new();
        match self {
            CommandMessage::Handshake(v, t) => {
                head.push(COMMAND_HANDSHAKE);
                let mut bytes = vstd::bytes::u64_to_le_bytes(*v);
                head.append(&mut bytes);
                let mut bytes = vstd::bytes::u64_to_le_bytes(*t);
                head.append(&mut bytes);
                pad_to(&mut head, CMD_SIZE);
                proof {
                    assert(head@ =~= command_head(self@));
                }
                (head, None)
            },
            CommandMessage::Ack(id) => {
                head.push(COMMAND_ACK);
                let mut bytes = vstd::bytes::u32_to_le_bytes(*id);
                head.append(&mut bytes);
                pad_to(&mut head, CMD_SIZE);
                proof {
                    assert(head@ =~= command_head(self@));
                }
                (head, None)
            },
            CommandMessage::Update(b) => {
                head.push(COMMAND_UPDATE);
                let mut bytes = vstd::bytes::u32_to_le_bytes(*b);
                head.append(&mut bytes);
                pad_to(&mut head, CMD_SIZE);
                proof {
                    assert(head@ =~= command_head(self@));
                }
                (head, None)
            },
            CommandMessage::Error(e) => {
                head.push(COMMAND_ERROR);
                pad_to(&mut head, CMD_SIZE);
                let data = vstd::slice::slice_to_vec(e.as_slice());
                proof {
                    assert(head@ =~= command_head(self@));
                }
                (head, Some(data))
            },
        }
    }

    /// Parses a command sub-header and payload; the exact inverse of
    /// `write_message`, failing on every other byte shape.
    pub fn read_message(head: &[u8], data: Option<Vec<u8>>) -> (r: Result<CommandMessage, String>)
        ensures
            r is Ok <==> command_dec(head@, opt_view(data)) is Some,
            r matches Ok(m) ==> command_dec(head@, opt_view(data)) == Some(m@),
    {
        if head.len() != CMD_SIZE {
            return Err("Wrong command head length.".to_owned());
        }
        let tag = *vstd::slice::slice_index_get(head, 0);
        if tag == COMMAND_HANDSHAKE {
            match data {
                None => {
                    let v = vstd::bytes::u64_from_le_bytes(vstd::slice::slice_subrange(head, 1, 9));
                    let t = vstd::bytes::u64_from_le_bytes(
                        vstd::slice::slice_subrange(head, 9, 17),
                    );
                    Ok(CommandMessage::Handshake(v, t))
                },
                Some(_) => Err("Unexpected command data.".to_owned()),
            }
        } else if tag == COMMAND_ACK {
            match data {
                None => {
                    let id = vstd::bytes::u32_from_le_bytes(vstd::slice::slice_subrange(head, 1, 5));
                    Ok(CommandMessage::Ack(id))
                },
                Some(_) => Err("Unexpected command data.".to_owned()),
            }
        } else if tag == COMMAND_UPDATE {
            match data {
                None => {
                    let b = vstd::bytes::u32_from_le_bytes(vstd::slice::slice_subrange(head, 1, 5));
                    Ok(CommandMessage::Update(b))
                },
                Some(_) => Err("Unexpected command data.".to_owned()),
            }
        } else if tag == COMMAND_ERROR {
            match data {
                Some(d) => Ok(CommandMessage::Error(d)),
                None => Err("Missing command data.".to_owned()),
            }
        } else {
            Err("Unknown command message type.".to_owned())
        }
    }
}

/// Writing a command and reading it back yields the command that was
/// written.
pub proof fn lemma_command_round_trip(m: CommandMessageView)
    ensures
        command_dec(command_head(m), command_data(m)) == Some(m),
{
    vstd::bytes::lemma_auto_spec_u64_to_from_le_bytes();
    vstd::bytes::lemma_auto_spec_u32_to_from_le_bytes();
    match m {
        CommandMessageView::Handshake(v, t) => {
            let enc = command_head(m);
            assert(enc.subrange(1, 9) =~= vstd::bytes::spec_u64_to_le_bytes(v));
            assert(enc.subrange(9, 17) =~= vstd::bytes::spec_u64_to_le_bytes(t));
        },
        CommandMessageView::Ack(id) => {
            let enc = command_head(m);
            assert(enc.subrange(1, 5) =~= vstd::bytes::spec_u32_to_le_bytes(id));
        },
        CommandMessageView::Update(b) => {
            let enc = command_head(m);
            assert(enc.subrange(1, 5) =~= vstd::bytes::spec_u32_to_le_bytes(b));
        },
        CommandMessageView::Error(e) => {},
    }
}

} // verus!
