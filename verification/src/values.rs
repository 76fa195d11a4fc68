//! Value messages: the wire form of a scalar, boolean or byte-string
//! slot update.
//!
//! A value travels either inline in the 26-byte sub-header (scalars,
//! booleans) or as a payload (byte strings).  Doubles are carried as the
//! bit pattern of their IEEE-754 representation, so the codec stays on
//! plain integers.

use vstd::prelude::*;

use crate::transport::{zeros, pad_to, MESS_SIZE};

verus! {

pub const VALUE_I64: u8 = 1;
pub const VALUE_U64: u8 = 2;
pub const VALUE_DOUBLE: u8 = 3;
pub const VALUE_BOOL: u8 = 4;
pub const VALUE_BYTES: u8 = 5;

/// One scalar-shaped slot value as it travels on the wire.
pub enum ValueMessage {
    I64(i64),
    U64(u64),
    Double(u64),
    Bool(bool),
    Bytes(Vec<u8>),
}

/// Mathematical shadow of [`ValueMessage`]: byte strings become
/// sequences, so contracts can speak of the contents alone.
pub enum ValueMessageView {
    I64(i64),
    U64(u64),
    Double(u64),
    Bool(bool),
    Bytes(Seq<u8>),
}

impl View for ValueMessage {
    type V = ValueMessageView;

    open spec fn view(&self) -> ValueMessageView {
        match self {
            ValueMessage::I64(x) => ValueMessageView::I64(*x),
            ValueMessage::U64(x) => ValueMessageView::U64(*x),
            ValueMessage::Double(b) => ValueMessageView::Double(*b),
            ValueMessage::Bool(b) => ValueMessageView::Bool(*b),
            ValueMessage::Bytes(v) => ValueMessageView::Bytes(v@),
        }
    }
}

/// The 26-byte sub-header a value message fills: a one-byte shape tag,
/// then the fixed-width little-endian scalar, zero-padded.
pub open spec fn value_head(m: ValueMessageView) -> Seq<u8> {
    match m {
        ValueMessageView::I64(x) => seq![VALUE_I64] + vstd::bytes::spec_u64_to_le_bytes(
            x as u64,
        ) + zeros(17),
        ValueMessageView::U64(x) => seq![VALUE_U64] + vstd::bytes::spec_u64_to_le_bytes(x) + zeros(
            17,
        ),
        ValueMessageView::Double(b) => seq![VALUE_DOUBLE] + vstd::bytes::spec_u64_to_le_bytes(
            b,
        ) + zeros(17),
        ValueMessageView::Bool(b) => seq![VALUE_BOOL, if b { 1u8 } else { 0u8 }] + zeros(24),
        ValueMessageView::Bytes(v) => seq![VALUE_BYTES] + zeros(25),
    }
}

/// The payload of a value message: only byte strings carry one.
pub open spec fn value_data(m: ValueMessageView) -> Option<Seq<u8>> {
    match m {
        ValueMessageView::Bytes(v) => Some(v),
        _ => None,
    }
}

/// View of an optional payload buffer.
pub open spec fn opt_view(data: Option<Vec<u8>>) -> Option<Seq<u8>> {
    match data {
        Some(d) => Some(d@),
        None => None,
    }
}

/// The mathematical decoder of a value message: `Some` exactly on the
/// byte shapes that `value_head` and `value_data` produce together.
pub open spec fn value_dec(head: Seq<u8>, data: Option<Seq<u8>>) -> Option<ValueMessageView> {
    if head.len() != MESS_SIZE {
        None
    } else if head[0] == VALUE_I64 && data is None {
        Some(ValueMessageView::I64(vstd::bytes::spec_u64_from_le_bytes(head.subrange(1, 9)) as i64))
    } else if head[0] == VALUE_U64 && data is None {
        Some(ValueMessageView::U64(vstd::bytes::spec_u64_from_le_bytes(head.subrange(1, 9))))
    } else if head[0] == VALUE_DOUBLE && data is None {
        Some(ValueMessageView::Double(vstd::bytes::spec_u64_from_le_bytes(head.subrange(1, 9))))
    } else if head[0] == VALUE_BOOL && data is None {
        Some(ValueMessageView::Bool(head[1] != 0))
    } else if head[0] == VALUE_BYTES && data is Some {
        Some(ValueMessageView::Bytes(data.unwrap()))
    } else {
        None
    }
}

impl ValueMessage {
    /// Fills the value sub-header and hands back the payload, if any.
    pub fn write_message(&self) -> (r: (Vec<u8>, Option<Vec<u8>>))
        ensures
            r.0@.len() == MESS_SIZE,
            r.0@ == value_head(self@),
            opt_view(r.1) == value_data(self@),
    {
        let mut head: Vec<u8> = Vec::new();
        match self {
            ValueMessage::I64(x) => {
                head.push(VALUE_I64);
                let mut bytes = vstd::bytes::u64_to_le_bytes(*x as u64);
                head.append(&mut bytes);
                pad_to(&mut head, MESS_SIZE);
                proof {
                    assert(head@ =~= value_head(self@));
                }
                (head, None)
            },
            ValueMessage::U64(x) => {
                head.push(VALUE_U64);
                let mut bytes = vstd::bytes::u64_to_le_bytes(*x);
                head.append(&mut bytes);
                pad_to(&mut head, MESS_SIZE);
                proof {
                    assert(head@ =~= value_head(self@));
                }
                (head, None)
            },
            ValueMessage::Double(b) => {
                head.push(VALUE_DOUBLE);
                let mut bytes = vstd::bytes::u64_to_le_bytes(*b);
                head.append(&mut bytes);
                pad_to(&mut head, MESS_SIZE);
                proof {
                    assert(head@ =~= value_head(self@));
                }
                (head, None)
            },
            ValueMessage::Bool(b) => {
                head.push(VALUE_BOOL);
                head.push(if *b { 1u8 } else { 0u8 });
                pad_to(&mut head, MESS_SIZE);
                proof {
                    assert(head@ =~= value_head(self@));
                }
                (head, None)
            },
            ValueMessage::Bytes(v) => {
                head.push(VALUE_BYTES);
                pad_to(&mut head, MESS_SIZE);
                let data = vstd::slice::slice_to_vec(v.as_slice());
                proof {
                    assert(head@ =~= value_head(self@));
                }
                (head, Some(data))
            },
        }
    }

    /// Parses a value sub-header and payload; the exact inverse of
    /// `write_message`, failing on every other byte shape.
    pub fn read_message(head: &[u8], data: Option<Vec<u8>>) -> (r: Result<ValueMessage, String>)
        ensures
            r is Ok <==> value_dec(head@, opt_view(data)) is Some,
            r matches Ok(m) ==> value_dec(head@, opt_view(data)) == Some(m@),
    {
        if head.len() != MESS_SIZE {
            return Err("Wrong value head length.".to_owned());
        }
        let tag = *vstd::slice::slice_index_get(head, 0);
        if tag == VALUE_I64 {
            match data {
                None => {
                    let x = vstd::bytes::u64_from_le_bytes(vstd::slice::slice_subrange(head, 1, 9));
                    Ok(ValueMessage::I64(x as i64))
                },
                Some(_) => Err("Unexpected value data.".to_owned()),
            }
        } else if tag == VALUE_U64 {
            match data {
                None => {
                    let x = vstd::bytes::u64_from_le_bytes(vstd::slice::slice_subrange(head, 1, 9));
                    Ok(ValueMessage::U64(x))
                },
                Some(_) => Err("Unexpected value data.".to_owned()),
            }
        } else if tag == VALUE_DOUBLE {
            match data {
                None => {
                    let x = vstd::bytes::u64_from_le_bytes(vstd::slice::slice_subrange(head, 1, 9));
                    Ok(ValueMessage::Double(x))
                },
                Some(_) => Err("Unexpected value data.".to_owned()),
            }
        } else if tag == VALUE_BOOL {
            match data {
                None => {
                    let b = *vstd::slice::slice_index_get(head, 1);
                    Ok(ValueMessage::Bool(b != 0))
                },
                Some(_) => Err("Unexpected value data.".to_owned()),
            }
        } else if tag == VALUE_BYTES {
            match data {
                Some(d) => Ok(ValueMessage::Bytes(d)),
                None => Err("Missing value data.".to_owned()),
            }
        } else {
            Err("Unknown value message type.".to_owned())
        }
    }
}

/// Writing a value and reading it back yields the value that was
/// written: the codec loses nothing.
pub proof fn lemma_value_round_trip(m: ValueMessageView)
    ensures
        value_dec(value_head(m), value_data(m)) == Some(m),
{
    vstd::bytes::lemma_auto_spec_u64_to_from_le_bytes();
    match m {
        ValueMessageView::I64(x) => {
            let enc = value_head(m);
            assert(enc.subrange(1, 9) =~= vstd::bytes::spec_u64_to_le_bytes(x as u64));
            assert((x as u64) as i64 == x) by (bit_vector);
        },
        ValueMessageView::U64(x) => {
            let enc = value_head(m);
            assert(enc.subrange(1, 9) =~= vstd::bytes::spec_u64_to_le_bytes(x));
        },
        ValueMessageView::Double(b) => {
            let enc = value_head(m);
            assert(enc.subrange(1, 9) =~= vstd::bytes::spec_u64_to_le_bytes(b));
        },
        ValueMessageView::Bool(b) => {},
        ValueMessageView::Bytes(v) => {},
    }
}

/// A typed slot value that can leave as a value message.
pub trait WriteValue: View + Sized {
    /// The wire form of the value.
    spec fn spec_message(v: Self::V) -> ValueMessageView;

    /// Encodes the value as a message.
    fn into_message(&self) -> (r: ValueMessage)
        ensures
            r@ == Self::spec_message(self@),
    ;

    /// Compares two values; `==` over the views.
    fn eq_value(&self, other: &Self) -> (r: bool)
        ensures
            r == (self@ == other@),
    ;

    /// A copy of the value with the same view.
    fn clone_value(&self) -> (r: Self)
        ensures
            r@ == self@,
    ;
}

/// A typed slot value that can be recovered from a value message.
pub trait ReadValue: View + Sized {
    /// The value a wire message carries, when it is of this type.
    spec fn of_message(m: ValueMessageView) -> Option<Self::V>;

    /// Decodes a value sub-header and payload into this type.
    fn read_value(head: &[u8], data: Option<Vec<u8>>) -> (r: Result<Self, String>)
        ensures
            r is Ok <==> (value_dec(head@, opt_view(data)) matches Some(m) && Self::of_message(m)
                is Some),
            r matches Ok(v) ==> v@ == Self::of_message(
                value_dec(head@, opt_view(data)).unwrap(),
            ).unwrap(),
    ;
}

impl WriteValue for i64 {
    open spec fn spec_message(v: i64) -> ValueMessageView {
        ValueMessageView::I64(v)
    }

    fn into_message(&self) -> ValueMessage {
        ValueMessage::I64(*self)
    }

    fn eq_value(&self, other: &i64) -> bool {
        *self == *other
    }

    fn clone_value(&self) -> i64 {
        *self
    }
}

impl ReadValue for i64 {
    open spec fn of_message(m: ValueMessageView) -> Option<i64> {
        match m {
            ValueMessageView::I64(x) => Some(x),
            _ => None,
        }
    }

    fn read_value(head: &[u8], data: Option<Vec<u8>>) -> (r: Result<i64, String>) {
        match ValueMessage::read_message(head, data) {
            Ok(ValueMessage::I64(x)) => Ok(x),
            Ok(_) => Err("Wrong value shape.".to_owned()),
            Err(e) => Err(e),
        }
    }
}

impl WriteValue for u64 {
    open spec fn spec_message(v: u64) -> ValueMessageView {
        ValueMessageView::U64(v)
    }

    fn into_message(&self) -> ValueMessage {
        ValueMessage::U64(*self)
    }

    fn eq_value(&self, other: &u64) -> bool {
        *self == *other
    }

    fn clone_value(&self) -> u64 {
        *self
    }
}

impl ReadValue for u64 {
    open spec fn of_message(m: ValueMessageView) -> Option<u64> {
        match m {
            ValueMessageView::U64(x) => Some(x),
            _ => None,
        }
    }

    fn read_value(head: &[u8], data: Option<Vec<u8>>) -> (r: Result<u64, String>) {
        match ValueMessage::read_message(head, data) {
            Ok(ValueMessage::U64(x)) => Ok(x),
            Ok(_) => Err("Wrong value shape.".to_owned()),
            Err(e) => Err(e),
        }
    }
}

impl WriteValue for bool {
    open spec fn spec_message(v: bool) -> ValueMessageView {
        ValueMessageView::Bool(v)
    }

    fn into_message(&self) -> ValueMessage {
        ValueMessage::Bool(*self)
    }

    fn eq_value(&self, other: &bool) -> bool {
        *self == *other
    }

    fn clone_value(&self) -> bool {
        *self
    }
}

impl ReadValue for bool {
    open spec fn of_message(m: ValueMessageView) -> Option<bool> {
        match m {
            ValueMessageView::Bool(x) => Some(x),
            _ => None,
        }
    }

    fn read_value(head: &[u8], data: Option<Vec<u8>>) -> (r: Result<bool, String>) {
        match ValueMessage::read_message(head, data) {
            Ok(ValueMessage::Bool(x)) => Ok(x),
            Ok(_) => Err("Wrong value shape.".to_owned()),
            Err(e) => Err(e),
        }
    }
}

impl WriteValue for Vec<u8> {
    open spec fn spec_message(v: Seq<u8>) -> ValueMessageView {
        ValueMessageView::Bytes(v)
    }

    fn into_message(&self) -> ValueMessage {
        ValueMessage::Bytes(vstd::slice::slice_to_vec(self.as_slice()))
    }

    fn eq_value(&self, other: &Vec<u8>) -> (r: bool) {
        let n = self.len();
        if n != other.len() {
            return false;
        }
        let mut i: usize = 0;
        while i < n
            invariant
                i <= n,
                n == self@.len(),
                n == other@.len(),
                forall|j: int| 0 <= j < i ==> self@[j] == other@[j],
            decreases n - i,
        {
            if self[i] != other[i] {
                return false;
            }
            i += 1;
        }
        proof {
            assert(self@ =~= other@);
        }
        true
    }

    fn clone_value(&self) -> Vec<u8> {
        vstd::slice::slice_to_vec(self.as_slice())
    }
}

impl ReadValue for Vec<u8> {
    open spec fn of_message(m: ValueMessageView) -> Option<Seq<u8>> {
        match m {
            ValueMessageView::Bytes(v) => Some(v),
            _ => None,
        }
    }

    fn read_value(head: &[u8], data: Option<Vec<u8>>) -> (r: Result<Vec<u8>, String>) {
        match ValueMessage::read_message(head, data) {
            Ok(ValueMessage::Bytes(v)) => Ok(v),
            Ok(_) => Err("Wrong value shape.".to_owned()),
            Err(e) => Err(e),
        }
    }
}

/// A value-carrying slot with its pending-write counter: the mirror of
/// one scalar datum and the count of its own writes not yet echoed by
/// the peer.
pub struct Value<T> {
    id: u32,
    value: T,
    pending: u64,
}

impl<T: WriteValue + ReadValue> Value<T> {
    /// The slot id.
    pub closed spec fn spec_id(&self) -> u32 {
        self.id
    }

    /// The mirrored value.
    pub closed spec fn spec_value(&self) -> T::V {
        self.value@
    }

    /// The number of local writes awaiting acknowledgement; never
    /// negative, being a count.
    pub closed spec fn spec_pending(&self) -> int {
        self.pending as int
    }

    /// A fresh slot mirrors its initial value and owes nothing.
    pub fn new(id: u32, value: T) -> (r: Value<T>)
        ensures
            r.spec_id() == id,
            r.spec_value() == value@,
            r.spec_pending() == 0,
    {
        Value { id, value, pending: 0 }
    }

    /// The slot id, as a runtime value.
    pub fn id(&self) -> (r: u32)
        ensures
            r == self.spec_id(),
    {
        self.id
    }

    /// A look at the mirror.
    pub fn get(&self) -> (r: &T)
        ensures
            r@ == self.spec_value(),
    {
        &self.value
    }

    /// A local write: the mirror adopts the value at once; while
    /// connected, the write also counts as pending and leaves as a
    /// value frame for the peer.
    pub fn set(&mut self, value: T, signal: bool, connected: bool) -> (r: Option<
        crate::transport::WriteMessage,
    >)
        requires
            old(self).spec_pending() < u64::MAX,
        ensures
            final(self).spec_id() == old(self).spec_id(),
            final(self).spec_value() == value@,
            connected ==> final(self).spec_pending() == old(self).spec_pending() + 1,
            !connected ==> final(self).spec_pending() == old(self).spec_pending(),
            connected <==> r is Some,
            r matches Some(m) ==> m@ == crate::transport::WriteMessageView::Value(
                old(self).spec_id() as int,
                signal,
                T::spec_message(value@),
            ),
    {
        let message = if connected {
            self.pending = self.pending + 1;
            Some(
                crate::transport::WriteMessage::Value(self.id, signal, value.into_message()),
            )
        } else {
            None
        };
        self.value = value;
        message
    }

    /// An inbound value from the peer: it reaches the mirror only when
    /// no local write is pending; otherwise the mirror keeps the local
    /// value, which the peer will echo later.
    pub fn process_value(&mut self, head: &[u8], data: Option<Vec<u8>>) -> (r: Result<T, String>)
        ensures
            final(self).spec_id() == old(self).spec_id(),
            final(self).spec_pending() == old(self).spec_pending(),
            r is Ok <==> (value_dec(head@, opt_view(data)) matches Some(m) && T::of_message(m)
                is Some),
            r is Err ==> final(self).spec_value() == old(self).spec_value(),
            r matches Ok(v) ==> v@ == T::of_message(value_dec(head@, opt_view(data)).unwrap(),
            ).unwrap(),
            r is Ok && old(self).spec_pending() == 0 ==> final(self).spec_value()
                == T::of_message(value_dec(head@, opt_view(data)).unwrap()).unwrap(),
            r is Ok && old(self).spec_pending() > 0 ==> final(self).spec_value() == old(
                self,
            ).spec_value(),
    {
        let value = match T::read_value(head, data) {
            Ok(v) => v,
            Err(e) => {
                return Err(e);
            },
        };
        let out = value.clone_value();
        if self.pending == 0 {
            self.value = value;
        }
        Ok(out)
    }

    /// One acknowledgement from the peer: one less write pending.  An
    /// unexpected acknowledgement leaves the counter at zero rather
    /// than below it.
    pub fn acknowledge(&mut self)
        ensures
            final(self).spec_id() == old(self).spec_id(),
            final(self).spec_value() == old(self).spec_value(),
            final(self).spec_pending() == (if old(self).spec_pending() > 0 {
                old(self).spec_pending() - 1
            } else {
                0int
            }),
    {
        if self.pending > 0 {
            self.pending = self.pending - 1;
        }
    }

    /// The sync sweep on a fresh connection: the current value leaves
    /// for the peer as one owed write, so the peer adopts it.
    pub fn sync(&mut self) -> (r: crate::transport::WriteMessage)
        ensures
            final(self).spec_id() == old(self).spec_id(),
            final(self).spec_value() == old(self).spec_value(),
            final(self).spec_pending() == 1,
            r@ == crate::transport::WriteMessageView::Value(
                old(self).spec_id() as int,
                false,
                T::spec_message(old(self).spec_value()),
            ),
    {
        self.pending = 1;
        crate::transport::WriteMessage::Value(self.id, false, self.value.into_message())
    }
}

/// A slot the client cannot originate writes for: no pending counter,
/// every inbound value is adopted.
pub struct ValueStatic<T> {
    id: u32,
    value: T,
}

impl<T: WriteValue + ReadValue> ValueStatic<T> {
    /// The slot id.
    pub closed spec fn spec_id(&self) -> u32 {
        self.id
    }

    /// The mirrored value.
    pub closed spec fn spec_value(&self) -> T::V {
        self.value@
    }

    /// A fresh static slot mirrors its initial value.
    pub fn new(id: u32, value: T) -> (r: ValueStatic<T>)
        ensures
            r.spec_id() == id,
            r.spec_value() == value@,
    {
        ValueStatic { id, value }
    }

    /// A look at the mirror.
    pub fn get(&self) -> (r: &T)
        ensures
            r@ == self.spec_value(),
    {
        &self.value
    }

    /// An authoritative write: the mirror adopts the value, and while
    /// connected it leaves as a static frame for the peer.
    pub fn set(&mut self, value: T, update: bool, connected: bool) -> (r: Option<
        crate::transport::WriteMessage,
    >)
        ensures
            final(self).spec_id() == old(self).spec_id(),
            final(self).spec_value() == value@,
            connected <==> r is Some,
            r matches Some(m) ==> m@ == crate::transport::WriteMessageView::Static(
                old(self).spec_id() as int,
                update,
                T::spec_message(value@),
            ),
    {
        let message = if connected {
            Some(
                crate::transport::WriteMessage::Static(self.id, update, value.into_message()),
            )
        } else {
            None
        };
        self.value = value;
        message
    }

    /// An inbound static value: always adopted.
    pub fn update_value(&mut self, head: &[u8], data: Option<Vec<u8>>) -> (r: Result<(), String>)
        ensures
            final(self).spec_id() == old(self).spec_id(),
            r is Ok <==> (value_dec(head@, opt_view(data)) matches Some(m) && T::of_message(m)
                is Some),
            r is Err ==> final(self).spec_value() == old(self).spec_value(),
            r is Ok ==> final(self).spec_value() == T::of_message(
                value_dec(head@, opt_view(data)).unwrap(),
            ).unwrap(),
    {
        let value = match T::read_value(head, data) {
            Ok(v) => v,
            Err(e) => {
                return Err(e);
            },
        };
        self.value = value;
        Ok(())
    }

    /// The sync sweep: the current value leaves as a static frame.
    pub fn sync(&self) -> (r: crate::transport::WriteMessage)
        ensures
            r@ == crate::transport::WriteMessageView::Static(
                self.spec_id() as int,
                false,
                T::spec_message(self.spec_value()),
            ),
    {
        crate::transport::WriteMessage::Static(self.id, false, self.value.into_message())
    }
}

/// A fire-and-forget slot: values exist only in transit.
pub struct Signal<T> {
    id: u32,
    phantom: core::marker::PhantomData<T>,
}

impl<T: WriteValue> Signal<T> {
    /// The slot id.
    pub closed spec fn spec_id(&self) -> u32 {
        self.id
    }

    /// A fresh signal slot.
    pub fn new(id: u32) -> (r: Signal<T>)
        ensures
            r.spec_id() == id,
    {
        Signal { id, phantom: core::marker::PhantomData }
    }

    /// Fires the signal: the value leaves as a signal frame.
    pub fn set(&self, value: T) -> (r: crate::transport::WriteMessage)
        ensures
            r@ == crate::transport::WriteMessageView::Signal(
                self.spec_id() as int,
                T::spec_message(value@),
            ),
    {
        crate::transport::WriteMessage::Signal(self.id, value.into_message())
    }
}

/// A staged edit of a value slot: the change is sent only if the value
/// really differs from what the slot held when the edit began.
pub struct Diff<T> {
    pub v: T,
    original: T,
}

impl<T: WriteValue + ReadValue> Diff<T> {
    /// The staged value.
    pub closed spec fn spec_v(&self) -> T::V {
        self.v@
    }

    /// The value the edit began from.
    pub closed spec fn spec_original(&self) -> T::V {
        self.original@
    }

    /// Opens an edit of the slot's current value.
    pub fn new(value: &Value<T>) -> (r: Diff<T>)
        ensures
            r.spec_v() == value.spec_value(),
            r.spec_original() == value.spec_value(),
    {
        let v = value.get().clone_value();
        let original = value.get().clone_value();
        Diff { v, original }
    }

    /// Closes the edit: a changed value is written to the slot exactly
    /// as `Value::set` writes it — mirror, pending count and outbound
    /// frame — while an unchanged one leaves no trace.
    pub fn set(self, value: &mut Value<T>, signal: bool, connected: bool) -> (r: Option<
        crate::transport::WriteMessage,
    >)
        requires
            old(value).spec_pending() < u64::MAX,
        ensures
            final(value).spec_id() == old(value).spec_id(),
            self.spec_v() == self.spec_original() ==> *final(value) == *old(value) && r is None,
            r is Some <==> (self.spec_v() != self.spec_original() && connected),
            self.spec_v() != self.spec_original() ==> final(value).spec_value() == self.spec_v(),
            self.spec_v() != self.spec_original() ==> (if connected {
                final(value).spec_pending() == old(value).spec_pending() + 1
            } else {
                final(value).spec_pending() == old(value).spec_pending()
            }),
            r matches Some(m) ==> m@ == crate::transport::WriteMessageView::Value(
                old(value).spec_id() as int,
                signal,
                T::spec_message(self.spec_v()),
            ),
    {
        if !self.v.eq_value(&self.original) {
            value.set(self.v, signal, connected)
        } else {
            None
        }
    }
}

/// An enum-valued slot with its pending-write counter; the enum
/// travels as a `u64`.
pub struct ValueEnum<T> {
    id: u32,
    value: T,
    pending: u64,
}

impl<T: crate::EnumInt> ValueEnum<T> {
    /// The slot id.
    pub closed spec fn spec_id(&self) -> u32 {
        self.id
    }

    /// The mirrored value.
    pub closed spec fn spec_value(&self) -> T {
        self.value
    }

    /// The number of local writes awaiting acknowledgement.
    pub closed spec fn spec_pending(&self) -> int {
        self.pending as int
    }

    /// A fresh slot mirrors its initial value and owes nothing.
    pub fn new(id: u32, value: T) -> (r: ValueEnum<T>)
        ensures
            r.spec_id() == id,
            r.spec_value() == value,
            r.spec_pending() == 0,
    {
        ValueEnum { id, value, pending: 0 }
    }

    /// A look at the mirror.
    pub fn get(&self) -> (r: T)
        ensures
            r == self.spec_value(),
    {
        self.value
    }

    /// A local write, as on a value slot; the enum leaves as a `u64`
    /// value frame.
    pub fn set(&mut self, value: T, signal: bool, connected: bool) -> (r: Option<
        crate::transport::WriteMessage,
    >)
        requires
            old(self).spec_pending() < u64::MAX,
        ensures
            final(self).spec_id() == old(self).spec_id(),
            final(self).spec_value() == value,
            connected ==> final(self).spec_pending() == old(self).spec_pending() + 1,
            !connected ==> final(self).spec_pending() == old(self).spec_pending(),
            connected <==> r is Some,
            r matches Some(m) ==> m@ == crate::transport::WriteMessageView::Value(
                old(self).spec_id() as int,
                signal,
                ValueMessageView::U64(value.spec_int()),
            ),
    {
        let message = if connected {
            self.pending = self.pending + 1;
            Some(
                crate::transport::WriteMessage::Value(
                    self.id,
                    signal,
                    ValueMessage::U64(value.as_int()),
                ),
            )
        } else {
            None
        };
        self.value = value;
        message
    }

    /// An inbound enum value from the peer, applied only when no local
    /// write is pending; an integer naming no variant is refused.
    pub fn process_value(&mut self, head: &[u8], data: Option<Vec<u8>>) -> (r: Result<u64, String>)
        ensures
            final(self).spec_id() == old(self).spec_id(),
            final(self).spec_pending() == old(self).spec_pending(),
            r is Ok <==> (match value_dec(head@, opt_view(data)) {
                Some(ValueMessageView::U64(x)) => T::spec_of_int(x) is Some,
                _ => false,
            }),
            r is Err ==> final(self).spec_value() == old(self).spec_value(),
            r matches Ok(x) ==> Some(ValueMessageView::U64(x)) == value_dec(
                head@,
                opt_view(data),
            ),
            r matches Ok(x) ==> (old(self).spec_pending() == 0 ==> Some(
                final(self).spec_value(),
            ) == T::spec_of_int(x)),
            r is Ok && old(self).spec_pending() > 0 ==> final(self).spec_value() == old(
                self,
            ).spec_value(),
    {
        let int_val = match u64::read_value(head, data) {
            Ok(v) => v,
            Err(e) => {
                return Err(e);
            },
        };
        let value = match T::from_int(int_val) {
            Ok(v) => v,
            Err(_) => {
                return Err("Invalid enum format.".to_owned());
            },
        };
        if self.pending == 0 {
            self.value = value;
        }
        Ok(int_val)
    }

    /// One acknowledgement from the peer.
    pub fn acknowledge(&mut self)
        ensures
            final(self).spec_id() == old(self).spec_id(),
            final(self).spec_value() == old(self).spec_value(),
            final(self).spec_pending() == (if old(self).spec_pending() > 0 {
                old(self).spec_pending() - 1
            } else {
                0int
            }),
    {
        if self.pending > 0 {
            self.pending = self.pending - 1;
        }
    }

    /// The sync sweep: the current value leaves as one owed write.
    pub fn sync(&mut self) -> (r: crate::transport::WriteMessage)
        ensures
            final(self).spec_id() == old(self).spec_id(),
            final(self).spec_value() == old(self).spec_value(),
            final(self).spec_pending() == 1,
            r@ == crate::transport::WriteMessageView::Value(
                old(self).spec_id() as int,
                false,
                ValueMessageView::U64(old(self).spec_value().spec_int()),
            ),
    {
        self.pending = 1;
        crate::transport::WriteMessage::Value(
            self.id,
            false,
            ValueMessage::U64(self.value.as_int()),
        )
    }
}

/// A staged edit of an enum slot.
pub struct DiffEnum<T> {
    pub v: T,
    original: T,
}

impl<T: crate::EnumInt> DiffEnum<T> {
    /// The staged value.
    pub closed spec fn spec_v(&self) -> T {
        self.v
    }

    /// The value the edit began from.
    pub closed spec fn spec_original(&self) -> T {
        self.original
    }

    /// Opens an edit of the slot's current value.
    pub fn new(value: &ValueEnum<T>) -> (r: DiffEnum<T>)
        ensures
            r.spec_v() == value.spec_value(),
            r.spec_original() == value.spec_value(),
    {
        DiffEnum { v: value.get(), original: value.get() }
    }

    /// Closes the edit: a changed value is written to the slot exactly
    /// as `ValueEnum::set` writes it — mirror, pending count and
    /// outbound frame — while an unchanged one leaves no trace.
    pub fn set(self, value: &mut ValueEnum<T>, signal: bool, connected: bool) -> (r: Option<
        crate::transport::WriteMessage,
    >)
        requires
            old(value).spec_pending() < u64::MAX,
        ensures
            final(value).spec_id() == old(value).spec_id(),
            self.spec_v() == self.spec_original() ==> *final(value) == *old(value) && r is None,
            r is Some <==> (self.spec_v() != self.spec_original() && connected),
            self.spec_v() != self.spec_original() ==> final(value).spec_value() == self.spec_v(),
            self.spec_v() != self.spec_original() ==> (if connected {
                final(value).spec_pending() == old(value).spec_pending() + 1
            } else {
                final(value).spec_pending() == old(value).spec_pending()
            }),
            r matches Some(m) ==> m@ == crate::transport::WriteMessageView::Value(
                old(value).spec_id() as int,
                signal,
                ValueMessageView::U64(self.spec_v().spec_int()),
            ),
    {
        proof {
            self.v.lemma_enum_int();
            self.original.lemma_enum_int();
        }
        if self.v.as_int() != self.original.as_int() {
            value.set(self.v, signal, connected)
        } else {
            None
        }
    }
}

} // verus!
