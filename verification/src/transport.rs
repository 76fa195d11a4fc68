//! The on-wire frame: a fixed 32-byte header followed by an optional
//! payload.  Byte 0 is a signed kind tag whose sign says whether a
//! payload follows; bytes 1..5 are the slot id, byte 5 a flag, bytes
//! 6..32 the kind-specific sub-header, and, when a payload follows,
//! bytes 28..32 its length as a little-endian `u32`.

use vstd::prelude::*;

verus! {

/// Length of the fixed frame header.
pub const HEAD_SIZE: usize = 32;

/// Length of the kind-specific sub-header region (bytes 6..32).
pub const MESS_SIZE: usize = 26;

/// Offset of the payload-size field within the frame header.
pub const SIZE_START: usize = 28;

pub const TYPE_VALUE: i8 = 16;
pub const TYPE_STATIC: i8 = 32;
pub const TYPE_SIGNAL: i8 = 12;
pub const TYPE_COMMAND: i8 = 64;
pub const TYPE_IMAGE: i8 = 4;
pub const TYPE_HISTOGRAM: i8 = 24;
pub const TYPE_DICT: i8 = 48;
pub const TYPE_LIST: i8 = 96;
pub const TYPE_GRAPH: i8 = 8;

/// A sequence of `n` zero bytes, the padding of a sub-header.
pub open spec fn zeros(n: int) -> Seq<u8> {
    Seq::new(n as nat, |i: int| 0u8)
}

/// Appends zero bytes until `v` has length `n`.
pub fn pad_to(v: &mut Vec<u8>, n: usize)
    requires
        old(v)@.len() <= n,
    ensures
        final(v)@ == old(v)@ + zeros(n - old(v)@.len()),
{
    let start: usize = v.len();
    while v.len() < n
        invariant
            start <= v@.len() <= n,
            v@ == old(v)@ + zeros(v@.len() - start),
        decreases n - v@.len(),
    {
        let ghost pre = v@;
        v.push(0u8);
        proof {
            assert(v@ =~= old(v)@ + zeros(v@.len() - start));
        }
    }
    proof {
        assert(v@ =~= old(v)@ + zeros(n - old(v)@.len()));
    }
}

/// Why an inbound frame could not be delivered: the transport failed
/// under the reader (the report carries the I/O error's text), or the
/// bytes did not parse.
pub enum ParseError {
    Connection(String),
    Parse(String),
}

impl ParseError {
    /// The report's text.
    pub fn message(self) -> String {
        match self {
            ParseError::Connection(e) => e,
            ParseError::Parse(e) => e,
        }
    }
}

/// A typed message already erased to its wire form: the 26-byte
/// sub-header and the payload, as a dictionary, list or graph encoder
/// produced them.
pub struct SubFrame {
    pub head: Vec<u8>,
    pub data: Option<Vec<u8>>,
}

/// Mathematical shadow of [`SubFrame`].
pub struct SubFrameView {
    pub head: Seq<u8>,
    pub data: Option<Seq<u8>>,
}

impl View for SubFrame {
    type V = SubFrameView;

    open spec fn view(&self) -> SubFrameView {
        SubFrameView { head: self.head@, data: crate::values::opt_view(self.data) }
    }
}

/// A sub-frame carries a full sub-header.
pub open spec fn sub_frame_wf(sf: SubFrameView) -> bool {
    &&& sf.head.len() == MESS_SIZE
    &&& (sf.data matches Some(d) ==> d.len() <= 0xFFFF_FFFF)
}

/// An outbound protocol unit.  Dictionaries, lists and graphs stand
/// here already encoded, behind their write traits; `Terminate` is a
/// control token for the writer thread and never reaches the wire.
pub enum WriteMessage {
    Value(u32, bool, crate::values::ValueMessage),
    Static(u32, bool, crate::values::ValueMessage),
    Signal(u32, crate::values::ValueMessage),
    Image(u32, bool, crate::image::ImageMessage),
    Histogram(u32, bool, crate::image::HistogramMessage),
    Dict(u32, bool, SubFrame),
    List(u32, bool, SubFrame),
    Graph(u32, bool, SubFrame),
    Command(crate::commands::CommandMessage),
    Terminate,
}

/// Mathematical shadow of [`WriteMessage`].
pub enum WriteMessageView {
    Value(int, bool, crate::values::ValueMessageView),
    Static(int, bool, crate::values::ValueMessageView),
    Signal(int, crate::values::ValueMessageView),
    Image(int, bool, crate::image::ImageMessageView),
    Histogram(int, bool, Option<Seq<u32>>),
    Dict(int, bool, SubFrameView),
    List(int, bool, SubFrameView),
    Graph(int, bool, SubFrameView),
    Command(crate::commands::CommandMessageView),
    Terminate,
}

impl View for WriteMessage {
    type V = WriteMessageView;

    open spec fn view(&self) -> WriteMessageView {
        match self {
            WriteMessage::Value(id, f, m) => WriteMessageView::Value(*id as int, *f, m@),
            WriteMessage::Static(id, f, m) => WriteMessageView::Static(*id as int, *f, m@),
            WriteMessage::Signal(id, m) => WriteMessageView::Signal(*id as int, m@),
            WriteMessage::Image(id, f, m) => WriteMessageView::Image(*id as int, *f, m@),
            WriteMessage::Histogram(id, f, m) => WriteMessageView::Histogram(*id as int, *f, m@),
            WriteMessage::Dict(id, f, sf) => WriteMessageView::Dict(*id as int, *f, sf@),
            WriteMessage::List(id, f, sf) => WriteMessageView::List(*id as int, *f, sf@),
            WriteMessage::Graph(id, f, sf) => WriteMessageView::Graph(*id as int, *f, sf@),
            WriteMessage::Command(c) => WriteMessageView::Command(c@),
            WriteMessage::Terminate => WriteMessageView::Terminate,
        }
    }
}

/// The kind tag of an outbound message.
pub open spec fn wm_kind(m: WriteMessageView) -> i8 {
    match m {
        WriteMessageView::Value(_, _, _) => TYPE_VALUE,
        WriteMessageView::Static(_, _, _) => TYPE_STATIC,
        WriteMessageView::Signal(_, _) => TYPE_SIGNAL,
        WriteMessageView::Image(_, _, _) => TYPE_IMAGE,
        WriteMessageView::Histogram(_, _, _) => TYPE_HISTOGRAM,
        WriteMessageView::Dict(_, _, _) => TYPE_DICT,
        WriteMessageView::List(_, _, _) => TYPE_LIST,
        WriteMessageView::Graph(_, _, _) => TYPE_GRAPH,
        WriteMessageView::Command(_) => TYPE_COMMAND,
        WriteMessageView::Terminate => 0,
    }
}

/// The slot id of an outbound message; commands have none.
pub open spec fn wm_id(m: WriteMessageView) -> int {
    match m {
        WriteMessageView::Value(id, _, _) => id,
        WriteMessageView::Static(id, _, _) => id,
        WriteMessageView::Signal(id, _) => id,
        WriteMessageView::Image(id, _, _) => id,
        WriteMessageView::Histogram(id, _, _) => id,
        WriteMessageView::Dict(id, _, _) => id,
        WriteMessageView::List(id, _, _) => id,
        WriteMessageView::Graph(id, _, _) => id,
        WriteMessageView::Command(_) => 0,
        WriteMessageView::Terminate => 0,
    }
}

/// The update/signal flag of an outbound message.
pub open spec fn wm_flag(m: WriteMessageView) -> bool {
    match m {
        WriteMessageView::Value(_, f, _) => f,
        WriteMessageView::Static(_, f, _) => f,
        WriteMessageView::Signal(_, _) => false,
        WriteMessageView::Image(_, f, _) => f,
        WriteMessageView::Histogram(_, f, _) => f,
        WriteMessageView::Dict(_, f, _) => f,
        WriteMessageView::List(_, f, _) => f,
        WriteMessageView::Graph(_, f, _) => f,
        WriteMessageView::Command(_) => false,
        WriteMessageView::Terminate => false,
    }
}

/// The 26-byte sub-header of a non-command outbound message.
pub open spec fn wm_sub(m: WriteMessageView) -> Seq<u8> {
    match m {
        WriteMessageView::Value(_, _, vm) => crate::values::value_head(vm),
        WriteMessageView::Static(_, _, vm) => crate::values::value_head(vm),
        WriteMessageView::Signal(_, vm) => crate::values::value_head(vm),
        WriteMessageView::Image(_, _, im) => crate::image::image_head(im),
        WriteMessageView::Histogram(_, _, h) => crate::image::image_head(
            crate::image::ImageMessageView::Histogram(h),
        ),
        WriteMessageView::Dict(_, _, sf) => sf.head,
        WriteMessageView::List(_, _, sf) => sf.head,
        WriteMessageView::Graph(_, _, sf) => sf.head,
        WriteMessageView::Command(_) => Seq::empty(),
        WriteMessageView::Terminate => Seq::empty(),
    }
}

/// The payload of an outbound message, if any.
pub open spec fn wm_data(m: WriteMessageView) -> Option<Seq<u8>> {
    match m {
        WriteMessageView::Value(_, _, vm) => crate::values::value_data(vm),
        WriteMessageView::Static(_, _, vm) => crate::values::value_data(vm),
        WriteMessageView::Signal(_, vm) => crate::values::value_data(vm),
        WriteMessageView::Image(_, _, im) => crate::image::image_data(im),
        WriteMessageView::Histogram(_, _, h) => crate::image::image_data(
            crate::image::ImageMessageView::Histogram(h),
        ),
        WriteMessageView::Dict(_, _, sf) => sf.data,
        WriteMessageView::List(_, _, sf) => sf.data,
        WriteMessageView::Graph(_, _, sf) => sf.data,
        WriteMessageView::Command(c) => crate::commands::command_data(c),
        WriteMessageView::Terminate => None,
    }
}

/// The wire constraints on an outbound message: its parts well-formed,
/// its id a `u32`, its payload short enough for the size field.
pub open spec fn wm_wf(m: WriteMessageView) -> bool {
    &&& !(m is Terminate)
    &&& 0 <= wm_id(m) <= 0xFFFF_FFFF
    &&& (wm_data(m) matches Some(d) ==> d.len() <= 0xFFFF_FFFF)
    &&& match m {
        WriteMessageView::Image(_, _, im) => crate::image::image_wf(im),
        WriteMessageView::Histogram(_, _, h) => crate::image::image_wf(
            crate::image::ImageMessageView::Histogram(h),
        ),
        WriteMessageView::Dict(_, _, sf) => sub_frame_wf(sf),
        WriteMessageView::List(_, _, sf) => sub_frame_wf(sf),
        WriteMessageView::Graph(_, _, sf) => sub_frame_wf(sf),
        _ => true,
    }
}

/// The first header byte: the kind tag, sign-flipped when a payload
/// follows.
pub open spec fn tag_byte(t: i8, has_data: bool) -> u8 {
    if has_data {
        (-t) as u8
    } else {
        t as u8
    }
}

/// The 32-byte frame header of an outbound message.  For commands the
/// command sub-header follows the tag directly; for the rest the slot
/// id and flag come first, and when a payload follows its length
/// overwrites the last four bytes.
pub open spec fn frame_head(m: WriteMessageView) -> Seq<u8> {
    match m {
        WriteMessageView::Command(c) => seq![
            tag_byte(TYPE_COMMAND, wm_data(m) is Some),
        ] + crate::commands::command_head(c) + (match wm_data(m) {
            Some(d) => vstd::bytes::spec_u32_to_le_bytes(d.len() as u32),
            None => zeros(4),
        }),
        _ => seq![tag_byte(wm_kind(m), wm_data(m) is Some)] + vstd::bytes::spec_u32_to_le_bytes(
            wm_id(m) as u32,
        ) + seq![if wm_flag(m) { 1u8 } else { 0u8 }] + (match wm_data(m) {
            Some(d) => wm_sub(m).take(22) + vstd::bytes::spec_u32_to_le_bytes(d.len() as u32),
            None => wm_sub(m),
        }),
    }
}

/// Assembles the final frame header from its parts.
fn assemble_frame(kind: i8, id: u32, flag: bool, sub: Vec<u8>, data: Option<Vec<u8>>) -> (r: (
    Vec<u8>,
    Option<Vec<u8>>,
))
    requires
        0 < kind,
        sub@.len() == MESS_SIZE,
        (data matches Some(d) ==> d@.len() <= 0xFFFF_FFFF),
    ensures
        r.0@.len() == HEAD_SIZE,
        r.0@ == seq![tag_byte(kind, data is Some)] + vstd::bytes::spec_u32_to_le_bytes(id) + seq![
            if flag {
                1u8
            } else {
                0u8
            },
        ] + (match crate::values::opt_view(data) {
            Some(d) => sub@.take(22) + vstd::bytes::spec_u32_to_le_bytes(d.len() as u32),
            None => sub@,
        }),
        r.1 == data,
{
    let mut head: Vec<u8> = Vec::new();
    let tag: u8 = match data {
        Some(_) => #[verifier::truncate] ((-kind) as u8),
        None => #[verifier::truncate] (kind as u8),
    };
    head.push(tag);
    let mut b = vstd::bytes::u32_to_le_bytes(id);
    head.append(&mut b);
    head.push(if flag { 1u8 } else { 0u8 });
    match &data {
        Some(d) => {
            let front = vstd::slice::slice_subrange(sub.as_slice(), 0, 22);
            let mut fv = vstd::slice::slice_to_vec(front);
            head.append(&mut fv);
            let mut sz = vstd::bytes::u32_to_le_bytes(d.len() as u32);
            head.append(&mut sz);
        },
        None => {
            let mut sv = sub;
            head.append(&mut sv);
        },
    }
    proof {
        assert(head@ =~= seq![tag_byte(kind, data is Some)] + vstd::bytes::spec_u32_to_le_bytes(
            id,
        ) + seq![if flag { 1u8 } else { 0u8 }] + (match crate::values::opt_view(data) {
            Some(d) => sub@.take(22) + vstd::bytes::spec_u32_to_le_bytes(d.len() as u32),
            None => sub@,
        }));
    }
    (head, data)
}

impl WriteMessage {
    /// An acknowledgement of one value update of slot `id`.
    pub fn ack(id: u32) -> (r: WriteMessage)
        ensures
            r@ == WriteMessageView::Command(crate::commands::CommandMessageView::Ack(id)),
    {
        WriteMessage::Command(crate::commands::CommandMessage::Ack(id))
    }

    /// Erases a typed dictionary message into an outbound frame.
    pub fn dict<D: crate::dict::WriteDictMessage>(id: u32, update: bool, dict: D) -> (r:
        WriteMessage)
        requires
            dict.spec_wf(),
            (dict.spec_data() matches Some(d) ==> d.len() <= 0xFFFF_FFFF),
        ensures
            r@ == WriteMessageView::Dict(
                id as int,
                update,
                SubFrameView { head: dict.spec_head(), data: dict.spec_data() },
            ),
            wm_wf(r@),
    {
        let (head, data) = dict.write_message();
        WriteMessage::Dict(id, update, SubFrame { head, data })
    }

    /// Erases a typed list message into an outbound frame.
    pub fn list<L: crate::list::WriteListMessage>(id: u32, update: bool, list: L) -> (r:
        WriteMessage)
        requires
            list.spec_wf(),
            (list.spec_data() matches Some(d) ==> d.len() <= 0xFFFF_FFFF),
        ensures
            r@ == WriteMessageView::List(
                id as int,
                update,
                SubFrameView { head: list.spec_head(), data: list.spec_data() },
            ),
            wm_wf(r@),
    {
        let (head, data) = list.write_message();
        WriteMessage::List(id, update, SubFrame { head, data })
    }

    /// Erases a typed graph message into an outbound frame.
    pub fn graph<G: crate::graphs::WriteGraphMessage>(id: u32, update: bool, graph: G) -> (r:
        WriteMessage)
        requires
            graph.spec_wf(),
            (graph.spec_data() matches Some(d) ==> d.len() <= 0xFFFF_FFFF),
        ensures
            r@ == WriteMessageView::Graph(
                id as int,
                update,
                SubFrameView { head: graph.spec_head(), data: graph.spec_data() },
            ),
            wm_wf(r@),
    {
        let (head, data) = graph.write_message();
        WriteMessage::Graph(id, update, SubFrame { head, data })
    }

    /// Produces the 32-byte frame header and the payload of the
    /// message.  After encoding, the first byte is negative exactly
    /// when a payload was produced, and then the size field holds the
    /// payload's length: the header discipline of the protocol.
    #[verifier::rlimit(100)]
    #[verifier::spinoff_prover]
    pub fn parse(self) -> (r: (Vec<u8>, Option<Vec<u8>>))
        requires
            wm_wf(self@),
        ensures
            r.0@.len() == HEAD_SIZE,
            r.0@ == frame_head(self@),
            crate::values::opt_view(r.1) == wm_data(self@),
            r.1 is Some <==> (r.0@[0] as i8) < 0,
            r.1 matches Some(d) ==> vstd::bytes::spec_u32_from_le_bytes(
                r.0@.subrange(SIZE_START as int, HEAD_SIZE as int),
            ) == d@.len(),
    {
        proof {
            vstd::bytes::lemma_auto_spec_u32_to_from_le_bytes();
        }
        let r = match self {
            WriteMessage::Command(command) => {
                let (chead, data) = command.write_message();
                let mut head: Vec<u8> = Vec::new();
                let tag: u8 = match data {
                    Some(_) => #[verifier::truncate] ((-TYPE_COMMAND) as u8),
                    None => TYPE_COMMAND as u8,
                };
                head.push(tag);
                let mut cv = chead;
                head.append(&mut cv);
                match &data {
                    Some(d) => {
                        let mut sz = vstd::bytes::u32_to_le_bytes(d.len() as u32);
                        head.append(&mut sz);
                    },
                    None => {
                        pad_to(&mut head, HEAD_SIZE);
                    },
                }
                proof {
                    assert(head@ =~= frame_head(self@));
                }
                (head, data)
            },
            WriteMessage::Value(id, flag, message) => {
                let (sub, data) = message.write_message();
                assemble_frame(TYPE_VALUE, id, flag, sub, data)
            },
            WriteMessage::Static(id, flag, message) => {
                let (sub, data) = message.write_message();
                assemble_frame(TYPE_STATIC, id, flag, sub, data)
            },
            WriteMessage::Signal(id, message) => {
                let (sub, data) = message.write_message();
                assemble_frame(TYPE_SIGNAL, id, false, sub, data)
            },
            WriteMessage::Image(id, flag, message) => {
                let (sub, data) = message.write_message();
                assemble_frame(TYPE_IMAGE, id, flag, sub, data)
            },
            WriteMessage::Histogram(id, flag, message) => {
                let (sub, data) = message.write_message();
                assemble_frame(TYPE_HISTOGRAM, id, flag, sub, data)
            },
            WriteMessage::Dict(id, flag, sf) => {
                assemble_frame(TYPE_DICT, id, flag, sf.head, sf.data)
            },
            WriteMessage::List(id, flag, sf) => {
                assemble_frame(TYPE_LIST, id, flag, sf.head, sf.data)
            },
            WriteMessage::Graph(id, flag, sf) => {
                assemble_frame(TYPE_GRAPH, id, flag, sf.head, sf.data)
            },
            WriteMessage::Terminate => {
                proof {
                    assert(false);
                }
                (Vec::new(), None)
            },
        };
        proof {
            lemma_tag_sign(wm_kind(self@), wm_data(self@) is Some);
            assert(r.0@[0] == tag_byte(wm_kind(self@), wm_data(self@) is Some));
            if r.1 is Some {
                assert(r.0@.subrange(SIZE_START as int, HEAD_SIZE as int)
                    =~= vstd::bytes::spec_u32_to_le_bytes(wm_data(self@).unwrap().len() as u32));
            }
        }
        r
    }
}

/// The sign of the first header byte says whether a payload follows.
proof fn lemma_tag_sign(t: i8, has_data: bool)
    requires
        0 < t,
    ensures
        (tag_byte(t, has_data) as i8) < 0 <==> has_data,
        has_data ==> (tag_byte(t, has_data) as i8) == -t,
        !has_data ==> (tag_byte(t, has_data) as i8) == t,
{
    assert(0 < t ==> (((t as u8) as i8) == t && (((-t) as u8) as i8) == -t)) by (bit_vector);
}

/// An inbound protocol unit.  Value, dictionary, list and graph frames
/// keep their sub-header and payload raw: the typed slot that owns the
/// id parses them; images, histograms and commands are parsed here.
pub enum ReadMessage {
    Value(u32, bool, Vec<u8>, Option<Vec<u8>>),
    Static(u32, bool, Vec<u8>, Option<Vec<u8>>),
    Signal(u32, Vec<u8>, Option<Vec<u8>>),
    Image(u32, bool, crate::image::ImageMessage),
    Histogram(u32, bool, crate::image::HistogramMessage),
    Dict(u32, bool, Vec<u8>, Option<Vec<u8>>),
    List(u32, bool, Vec<u8>, Option<Vec<u8>>),
    Graph(u32, bool, Vec<u8>, Option<Vec<u8>>),
    Command(crate::commands::CommandMessage),
}

/// Mathematical shadow of [`ReadMessage`].
pub enum ReadMessageView {
    Value(int, bool, Seq<u8>, Option<Seq<u8>>),
    Static(int, bool, Seq<u8>, Option<Seq<u8>>),
    Signal(int, Seq<u8>, Option<Seq<u8>>),
    Image(int, bool, crate::image::ImageMessageView),
    Histogram(int, bool, Option<Seq<u32>>),
    Dict(int, bool, Seq<u8>, Option<Seq<u8>>),
    List(int, bool, Seq<u8>, Option<Seq<u8>>),
    Graph(int, bool, Seq<u8>, Option<Seq<u8>>),
    Command(crate::commands::CommandMessageView),
}

impl View for ReadMessage {
    type V = ReadMessageView;

    open spec fn view(&self) -> ReadMessageView {
        match self {
            ReadMessage::Value(id, f, h, d) => ReadMessageView::Value(
                *id as int,
                *f,
                h@,
                crate::values::opt_view(*d),
            ),
            ReadMessage::Static(id, f, h, d) => ReadMessageView::Static(
                *id as int,
                *f,
                h@,
                crate::values::opt_view(*d),
            ),
            ReadMessage::Signal(id, h, d) => ReadMessageView::Signal(
                *id as int,
                h@,
                crate::values::opt_view(*d),
            ),
            ReadMessage::Image(id, f, m) => ReadMessageView::Image(*id as int, *f, m@),
            ReadMessage::Histogram(id, f, m) => ReadMessageView::Histogram(*id as int, *f, m@),
            ReadMessage::Dict(id, f, h, d) => ReadMessageView::Dict(
                *id as int,
                *f,
                h@,
                crate::values::opt_view(*d),
            ),
            ReadMessage::List(id, f, h, d) => ReadMessageView::List(
                *id as int,
                *f,
                h@,
                crate::values::opt_view(*d),
            ),
            ReadMessage::Graph(id, f, h, d) => ReadMessageView::Graph(
                *id as int,
                *f,
                h@,
                crate::values::opt_view(*d),
            ),
            ReadMessage::Command(c) => ReadMessageView::Command(c@),
        }
    }
}

/// The mathematical decoder of a frame already split by the reader into
/// its header, its unsigned kind tag and its payload: `Some` exactly
/// when the frame dispatches.
pub open spec fn read_dec(head: Seq<u8>, message_type: i8, data: Option<Seq<u8>>) -> Option<
    ReadMessageView,
> {
    if head.len() != HEAD_SIZE {
        None
    } else if message_type == TYPE_COMMAND {
        match crate::commands::command_dec(head.subrange(1, 1 + crate::commands::CMD_SIZE as int), data) {
            Some(c) => Some(ReadMessageView::Command(c)),
            None => None,
        }
    } else {
        let id = vstd::bytes::spec_u32_from_le_bytes(head.subrange(1, 5)) as int;
        let update = head[5] != 0;
        let sub = head.subrange(6, HEAD_SIZE as int);
        if message_type == TYPE_VALUE {
            Some(ReadMessageView::Value(id, update, sub, data))
        } else if message_type == TYPE_STATIC {
            Some(ReadMessageView::Static(id, update, sub, data))
        } else if message_type == TYPE_SIGNAL {
            Some(ReadMessageView::Signal(id, sub, data))
        } else if message_type == TYPE_IMAGE {
            match crate::image::image_dec(sub, data) {
                Some(m) => Some(ReadMessageView::Image(id, update, m)),
                None => None,
            }
        } else if message_type == TYPE_HISTOGRAM {
            match crate::image::image_dec(sub, data) {
                Some(crate::image::ImageMessageView::Histogram(h)) => Some(
                    ReadMessageView::Histogram(id, update, h),
                ),
                _ => None,
            }
        } else if message_type == TYPE_DICT {
            Some(ReadMessageView::Dict(id, update, sub, data))
        } else if message_type == TYPE_LIST {
            Some(ReadMessageView::List(id, update, sub, data))
        } else if message_type == TYPE_GRAPH {
            Some(ReadMessageView::Graph(id, update, sub, data))
        } else {
            None
        }
    }
}

impl ReadMessage {
    /// A short name of the message kind, for reports.
    pub fn to_str(&self) -> &'static str {
        match self {
            ReadMessage::Value(_, _, _, _) => "Value",
            ReadMessage::Static(_, _, _, _) => "Static",
            ReadMessage::Signal(_, _, _) => "Signal",
            ReadMessage::Image(_, _, _) => "Image",
            ReadMessage::Histogram(_, _, _) => "Histogram",
            ReadMessage::Dict(_, _, _, _) => "Dict",
            ReadMessage::List(_, _, _, _) => "List",
            ReadMessage::Graph(_, _, _, _) => "Graph",
            ReadMessage::Command(_) => "Command",
        }
    }

    /// Dispatches a frame by its kind tag; the exact inverse of the
    /// write path, failing on every byte shape the writer cannot have
    /// produced.
    pub fn parse(head: &[u8], message_type: i8, data: Option<Vec<u8>>) -> (r: Result<
        ReadMessage,
        String,
    >)
        ensures
            r is Ok <==> read_dec(head@, message_type, crate::values::opt_view(data)) is Some,
            r matches Ok(m) ==> read_dec(head@, message_type, crate::values::opt_view(data))
                == Some(m@),
    {
        if head.len() != HEAD_SIZE {
            return Err("Wrong frame head length.".to_owned());
        }
        if message_type == TYPE_COMMAND {
            let cmd_head = vstd::slice::slice_subrange(head, 1, 1 + crate::commands::CMD_SIZE);
            return match crate::commands::CommandMessage::read_message(cmd_head, data) {
                Ok(c) => Ok(ReadMessage::Command(c)),
                Err(e) => Err(e),
            };
        }
        let id = vstd::bytes::u32_from_le_bytes(vstd::slice::slice_subrange(head, 1, 5));
        let update = *vstd::slice::slice_index_get(head, 5) != 0;
        let sub_slice = vstd::slice::slice_subrange(head, 6, HEAD_SIZE);
        let sub = vstd::slice::slice_to_vec(sub_slice);
        if message_type == TYPE_VALUE {
            Ok(ReadMessage::Value(id, update, sub, data))
        } else if message_type == TYPE_STATIC {
            Ok(ReadMessage::Static(id, update, sub, data))
        } else if message_type == TYPE_SIGNAL {
            Ok(ReadMessage::Signal(id, sub, data))
        } else if message_type == TYPE_IMAGE {
            match crate::image::ImageMessage::read_message(sub_slice, data) {
                Ok(m) => Ok(ReadMessage::Image(id, update, m)),
                Err(e) => Err(e),
            }
        } else if message_type == TYPE_HISTOGRAM {
            match crate::image::ImageMessage::read_message(sub_slice, data) {
                Ok(crate::image::ImageMessage::Histogram(h)) => Ok(
                    ReadMessage::Histogram(id, update, h),
                ),
                Ok(_) => Err("Expected a histogram message.".to_owned()),
                Err(e) => Err(e),
            }
        } else if message_type == TYPE_DICT {
            Ok(ReadMessage::Dict(id, update, sub, data))
        } else if message_type == TYPE_LIST {
            Ok(ReadMessage::List(id, update, sub, data))
        } else if message_type == TYPE_GRAPH {
            Ok(ReadMessage::Graph(id, update, sub, data))
        } else {
            Err("Unknown message type.".to_owned())
        }
    }
}

/// The sub-header as the read side sees it: when a payload follows,
/// its length has been stamped over the last four bytes.
pub open spec fn stamped(sub: Seq<u8>, data: Option<Seq<u8>>) -> Seq<u8> {
    match data {
        Some(d) => sub.take(22) + vstd::bytes::spec_u32_to_le_bytes(d.len() as u32),
        None => sub,
    }
}

/// What the read side hands the dispatcher when given the frame the
/// write side produced for `m`.
pub open spec fn read_of(m: WriteMessageView) -> ReadMessageView {
    match m {
        WriteMessageView::Value(id, f, vm) => ReadMessageView::Value(
            id,
            f,
            stamped(crate::values::value_head(vm), crate::values::value_data(vm)),
            crate::values::value_data(vm),
        ),
        WriteMessageView::Static(id, f, vm) => ReadMessageView::Static(
            id,
            f,
            stamped(crate::values::value_head(vm), crate::values::value_data(vm)),
            crate::values::value_data(vm),
        ),
        WriteMessageView::Signal(id, vm) => ReadMessageView::Signal(
            id,
            stamped(crate::values::value_head(vm), crate::values::value_data(vm)),
            crate::values::value_data(vm),
        ),
        WriteMessageView::Image(id, f, im) => ReadMessageView::Image(id, f, im),
        WriteMessageView::Histogram(id, f, h) => ReadMessageView::Histogram(id, f, h),
        WriteMessageView::Dict(id, f, sf) => ReadMessageView::Dict(
            id,
            f,
            stamped(sf.head, sf.data),
            sf.data,
        ),
        WriteMessageView::List(id, f, sf) => ReadMessageView::List(
            id,
            f,
            stamped(sf.head, sf.data),
            sf.data,
        ),
        WriteMessageView::Graph(id, f, sf) => ReadMessageView::Graph(
            id,
            f,
            stamped(sf.head, sf.data),
            sf.data,
        ),
        WriteMessageView::Command(c) => ReadMessageView::Command(c),
        WriteMessageView::Terminate => ReadMessageView::Command(
            crate::commands::CommandMessageView::Ack(0),
        ),
    }
}

/// Framing loses nothing: reading back the frame the write side
/// produced for any well-formed message dispatches to the same id,
/// flag and content that were written.
pub proof fn lemma_frame_round_trip(m: WriteMessageView)
    requires
        wm_wf(m),
    ensures
        ({
            let head = frame_head(m);
            let t0 = head[0] as i8;
            let t = if t0 < 0 { (-t0) as i8 } else { t0 };
            read_dec(head, t, wm_data(m)) == Some(read_of(m))
        }),
{
    vstd::bytes::lemma_auto_spec_u16_to_from_le_bytes();
    vstd::bytes::lemma_auto_spec_u32_to_from_le_bytes();
    vstd::bytes::lemma_auto_spec_u64_to_from_le_bytes();
    let head = frame_head(m);
    let kind = wm_kind(m);
    let has = wm_data(m) is Some;
    lemma_tag_sign(kind, has);
    assert(head[0] == tag_byte(kind, has));
    let t0 = head[0] as i8;
    let t = if t0 < 0 { (-t0) as i8 } else { t0 };
    assert(t == kind) by {
        if has {
            assert(t0 == -kind);
            assert((-(-kind)) as i8 == kind) by (bit_vector)
                requires 0 < kind;
        }
    }
    match m {
        WriteMessageView::Command(c) => {
            assert(head.len() == HEAD_SIZE);
            assert(head.subrange(1, 1 + crate::commands::CMD_SIZE as int) =~= crate::commands::command_head(c));
            crate::commands::lemma_command_round_trip(c);
        },
        WriteMessageView::Terminate => {},
        _ => {
            assert(head.len() == HEAD_SIZE);
            assert(head.subrange(1, 5) =~= vstd::bytes::spec_u32_to_le_bytes(wm_id(m) as u32));
            assert(head[5] == (if wm_flag(m) { 1u8 } else { 0u8 }));
            let sub = head.subrange(6, HEAD_SIZE as int);
            match wm_data(m) {
                Some(d) => {
                    assert(sub =~= wm_sub(m).take(22) + vstd::bytes::spec_u32_to_le_bytes(
                        d.len() as u32,
                    ));
                },
                None => {
                    assert(sub =~= wm_sub(m));
                },
            }
            assert(sub =~= stamped(wm_sub(m), wm_data(m)));
            match m {
                WriteMessageView::Image(_, _, im) => {
                    crate::image::lemma_image_round_trip(im);
                    lemma_image_dec_stamped(im);
                },
                WriteMessageView::Histogram(_, _, h) => {
                    let im = crate::image::ImageMessageView::Histogram(h);
                    crate::image::lemma_image_round_trip(im);
                    lemma_image_dec_stamped(im);
                },
                _ => {},
            }
        },
    }
}

/// The last four sub-header bytes never matter to a decoder once a
/// payload is present: stamping the size there leaves an image message
/// decoding unchanged.
proof fn lemma_image_dec_stamped(im: crate::image::ImageMessageView)
    requires
        crate::image::image_wf(im),
    ensures
        crate::image::image_dec(
            stamped(crate::image::image_head(im), crate::image::image_data(im)),
            crate::image::image_data(im),
        ) == crate::image::image_dec(
            crate::image::image_head(im),
            crate::image::image_data(im),
        ),
{
    vstd::bytes::lemma_auto_spec_u16_to_from_le_bytes();
    vstd::bytes::lemma_auto_spec_u32_to_from_le_bytes();
    let h = crate::image::image_head(im);
    let d = crate::image::image_data(im);
    match d {
        None => {},
        Some(dd) => {
            let st = stamped(h, d);
            assert(h.len() == MESS_SIZE);
            assert(st.len() == MESS_SIZE);
            assert forall|i: int| 0 <= i < 22 implies #[trigger] st[i] == h[i] by {}
            assert(st[0] == h[0]);
            assert(st[1] == h[1]);
            assert(st[2] == h[2]);
            assert(st[6] == h[6]);
            assert(st.subrange(2, 4) =~= h.subrange(2, 4));
            assert(st.subrange(4, 6) =~= h.subrange(4, 6));
            assert(st.subrange(7, 9) =~= h.subrange(7, 9));
            assert(st.subrange(9, 11) =~= h.subrange(9, 11));
            assert(st.subrange(11, 13) =~= h.subrange(11, 13));
            assert(st.subrange(13, 15) =~= h.subrange(13, 15));
            assert(st.subrange(15, 19) =~= h.subrange(15, 19));
            assert(st.subrange(19, 21) =~= h.subrange(19, 21));
            assert(st.subrange(1, 3) =~= h.subrange(1, 3));
        },
    }
}

/// Reading back the deferred bytes of a framed value message yields the
/// value that was written, size stamp and all.
pub proof fn lemma_value_stamped_round_trip(vm: crate::values::ValueMessageView)
    ensures
        crate::values::value_dec(
            stamped(crate::values::value_head(vm), crate::values::value_data(vm)),
            crate::values::value_data(vm),
        ) == Some(vm),
{
    crate::values::lemma_value_round_trip(vm);
    let h = crate::values::value_head(vm);
    let d = crate::values::value_data(vm);
    match d {
        None => {},
        Some(dd) => {
            let st = stamped(h, d);
            vstd::bytes::lemma_auto_spec_u32_to_from_le_bytes();
            assert(st.len() == MESS_SIZE);
            assert(st[0] == h[0]);
        },
    }
}

/// Reading back the deferred bytes of a framed dictionary message
/// yields the message that was written, size stamp and all.
pub proof fn lemma_dict_stamped_round_trip<
    K: crate::collections::CollectionItem,
    V: crate::collections::CollectionItem,
>(m: crate::dict::DictMessageView<K::V, V::V>)
    requires
        crate::dict::dict_wf::<K, V>(m),
        m matches crate::dict::DictMessageView::All(pairs) ==> pairs.len() <= u64::MAX,
    ensures
        crate::dict::dict_dec::<K, V>(
            stamped(crate::dict::dict_head::<K, V>(m), crate::dict::dict_data::<K, V>(m)),
            crate::dict::dict_data::<K, V>(m),
        ) == Some(m),
{
    crate::dict::lemma_dict_round_trip::<K, V>(m);
    let h = crate::dict::dict_head::<K, V>(m);
    let d = crate::dict::dict_data::<K, V>(m);
    match d {
        None => {},
        Some(dd) => {
            let st = stamped(h, d);
            vstd::bytes::lemma_auto_spec_u32_to_from_le_bytes();
            assert(st.len() == MESS_SIZE);
            assert(st[0] == h[0]);
            assert(st.subrange(1, 9) =~= h.subrange(1, 9));
        },
    }
}

/// Reading back the deferred bytes of a framed list message yields the
/// message that was written, size stamp and all.
pub proof fn lemma_list_stamped_round_trip<T: crate::collections::CollectionItem>(
    m: crate::list::ListMessageView<T::V>,
)
    requires
        crate::list::list_wf::<T>(m),
        m matches crate::list::ListMessageView::All(items) ==> items.len() <= u64::MAX,
    ensures
        crate::list::list_dec::<T>(
            stamped(crate::list::list_head::<T>(m), crate::list::list_data::<T>(m)),
            crate::list::list_data::<T>(m),
        ) == Some(m),
{
    crate::list::lemma_list_round_trip::<T>(m);
    let h = crate::list::list_head::<T>(m);
    let d = crate::list::list_data::<T>(m);
    match d {
        None => {},
        Some(dd) => {
            let st = stamped(h, d);
            vstd::bytes::lemma_auto_spec_u32_to_from_le_bytes();
            assert(st.len() == MESS_SIZE);
            assert(st[0] == h[0]);
            assert(st.subrange(1, 9) =~= h.subrange(1, 9));
        },
    }
}

/// Reading back the deferred bytes of a framed graph message yields the
/// message that was written, size stamp and all.
pub proof fn lemma_graph_stamped_round_trip<T: crate::graphs::GraphElement>(
    m: crate::graphs::GraphMessageView,
)
    requires
        crate::graphs::graph_msg_wf::<T>(m),
    ensures
        crate::graphs::graph_dec::<T>(
            stamped(crate::graphs::graph_head::<T>(m), crate::graphs::graph_data_of(m)),
            crate::graphs::graph_data_of(m),
        ) == Some(m),
{
    crate::graphs::lemma_graph_round_trip::<T>(m);
    let h = crate::graphs::graph_head::<T>(m);
    let d = crate::graphs::graph_data_of(m);
    match d {
        None => {},
        Some(dd) => {
            let st = stamped(h, d);
            vstd::bytes::lemma_auto_spec_u32_to_from_le_bytes();
            assert(st.len() == MESS_SIZE);
            assert(st[0] == h[0]);
            assert(st[1] == h[1]);
            assert(st[2] == h[2]);
            assert(st.subrange(3, 7) =~= h.subrange(3, 7));
            assert(st.subrange(7, 9) =~= h.subrange(7, 9));
        },
    }
}

/// End to end for a dictionary: frame any well-formed dictionary
/// message, read the frame back, and the typed decode of the deferred
/// bytes is the message that was framed — entries, order and all.
pub proof fn lemma_dict_end_to_end<
    K: crate::collections::CollectionItem,
    V: crate::collections::CollectionItem,
>(id: u32, update: bool, m: crate::dict::DictMessageView<K::V, V::V>)
    requires
        crate::dict::dict_wf::<K, V>(m),
        m matches crate::dict::DictMessageView::All(pairs) ==> pairs.len() <= u64::MAX,
        (crate::dict::dict_data::<K, V>(m) matches Some(d) ==> d.len() <= 0xFFFF_FFFF),
    ensures
        ({
            let sf = SubFrameView {
                head: crate::dict::dict_head::<K, V>(m),
                data: crate::dict::dict_data::<K, V>(m),
            };
            let w = WriteMessageView::Dict(id as int, update, sf);
            let head = frame_head(w);
            let t0 = head[0] as i8;
            let t = if t0 < 0 { (-t0) as i8 } else { t0 };
            &&& read_dec(head, t, wm_data(w)) == Some(
                ReadMessageView::Dict(id as int, update, stamped(sf.head, sf.data), sf.data),
            )
            &&& crate::dict::dict_dec::<K, V>(stamped(sf.head, sf.data), sf.data) == Some(m)
        }),
{
    let sf = SubFrameView {
        head: crate::dict::dict_head::<K, V>(m),
        data: crate::dict::dict_data::<K, V>(m),
    };
    let w = WriteMessageView::Dict(id as int, update, sf);
    assert(sf.head.len() == MESS_SIZE) by {
        vstd::bytes::lemma_auto_spec_u64_to_from_le_bytes();
        crate::dict::lemma_dict_round_trip::<K, V>(m);
    }
    lemma_frame_round_trip(w);
    lemma_dict_stamped_round_trip::<K, V>(m);
}

} // verus!
