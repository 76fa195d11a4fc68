//! List messages: a full replacement (`All`), a write at an index
//! (`Put`), an append (`Add`) and a removal (`Remove`), with their wire
//! codec.
//!
//! An `All` of fixed-size items packs them tightly; with dynamic items
//! their widths travel first as little-endian `u16`s, then the items.
//! A single item travels as the payload of `Put` and `Add`; indices
//! travel in the sub-header as little-endian `u64`.

use vstd::prelude::*;

use crate::collections::{
    append_encs, append_sizes, cat, lemma_cat_index_const, lemma_cat_len_const,
    lemma_cat_pointwise, lemma_prefix_subrange, lemma_sum_bounds, lemma_sum_lens_cat, lens_of,
    parse_sizes, piece_id, piece_size, sum, CollectionItem,
};
use crate::transport::{zeros, pad_to, MESS_SIZE};
use crate::values::opt_view;

verus! {

pub const LIST_ALL: u8 = 100;
pub const LIST_SET: u8 = 101;
pub const LIST_ADD: u8 = 102;
pub const LIST_REMOVE: u8 = 103;

/// One list update on the wire.
pub enum ListMessage<T> {
    All(Vec<T>),
    Put(usize, T),
    Add(T),
    Remove(usize),
}

/// Mathematical shadow of [`ListMessage`], over item views.
pub enum ListMessageView<TV> {
    All(Seq<TV>),
    Put(int, TV),
    Add(TV),
    Remove(int),
}

/// The views of a sequence of items.
pub open spec fn items_view<T: CollectionItem>(items: Seq<T>) -> Seq<T::V> {
    Seq::new(items.len(), |i: int| items[i]@)
}

impl<T: CollectionItem> View for ListMessage<T> {
    type V = ListMessageView<T::V>;

    open spec fn view(&self) -> ListMessageView<T::V> {
        match self {
            ListMessage::All(items) => ListMessageView::All(items_view(items@)),
            ListMessage::Put(i, t) => ListMessageView::Put(*i as int, t@),
            ListMessage::Add(t) => ListMessageView::Add(t@),
            ListMessage::Remove(i) => ListMessageView::Remove(*i as int),
        }
    }
}

/// The encoding of one item.
pub open spec fn elem_enc<T: CollectionItem>() -> spec_fn(T::V) -> Seq<u8> {
    |t: T::V| T::enc_of(t)
}

/// The `u16` width of one item's encoding.
pub open spec fn elem_size_enc<T: CollectionItem>() -> spec_fn(T::V) -> Seq<u8> {
    |t: T::V| vstd::bytes::spec_u16_to_le_bytes(T::enc_of(t).len() as u16)
}

/// Every item obeys the wire constraints of its type.
pub open spec fn all_items_wf<T: CollectionItem>(items: Seq<T::V>) -> bool {
    forall|i: int| #![trigger items[i]] 0 <= i < items.len() ==> T::wf_of(items[i])
}

/// Every item of the message obeys the wire constraints of its type.
pub open spec fn list_wf<T: CollectionItem>(m: ListMessageView<T::V>) -> bool {
    match m {
        ListMessageView::All(items) => all_items_wf::<T>(items),
        ListMessageView::Put(i, t) => T::wf_of(t) && 0 <= i <= usize::MAX,
        ListMessageView::Add(t) => T::wf_of(t),
        ListMessageView::Remove(i) => 0 <= i <= usize::MAX,
    }
}

/// The 26-byte list sub-header.
pub open spec fn list_head<T: CollectionItem>(m: ListMessageView<T::V>) -> Seq<u8> {
    match m {
        ListMessageView::All(items) => seq![LIST_ALL] + vstd::bytes::spec_u64_to_le_bytes(
            items.len() as u64,
        ) + zeros(17),
        ListMessageView::Put(i, t) => seq![LIST_SET] + vstd::bytes::spec_u64_to_le_bytes(
            i as u64,
        ) + zeros(17),
        ListMessageView::Add(t) => seq![LIST_ADD] + zeros(25),
        ListMessageView::Remove(i) => seq![LIST_REMOVE] + vstd::bytes::spec_u64_to_le_bytes(
            i as u64,
        ) + zeros(17),
    }
}

/// The payload of an `All` message with at least one item.
pub open spec fn list_all_data<T: CollectionItem>(items: Seq<T::V>) -> Seq<u8> {
    if T::fixed_size() > 0 {
        cat(items, elem_enc::<T>())
    } else {
        cat(items, elem_size_enc::<T>()) + cat(items, elem_enc::<T>())
    }
}

/// The payload of a list message, if any.
pub open spec fn list_data<T: CollectionItem>(m: ListMessageView<T::V>) -> Option<Seq<u8>> {
    match m {
        ListMessageView::All(items) => if items.len() == 0 {
            None
        } else {
            Some(list_all_data::<T>(items))
        },
        ListMessageView::Put(i, t) => Some(T::enc_of(t)),
        ListMessageView::Add(t) => Some(T::enc_of(t)),
        ListMessageView::Remove(i) => None,
    }
}

/// Decoded items of an `All` payload; `None` when the payload does not
/// have exactly the advertised shape.
pub open spec fn list_all_dec<T: CollectionItem>(d: Seq<u8>, count: int) -> Option<Seq<T::V>> {
    let w = T::fixed_size() as int;
    if w > 0 {
        if d.len() == count * w {
            Some(Seq::new(count as nat, |i: int| T::dec_to(d.subrange(i * w, (i + 1) * w))))
        } else {
            None
        }
    } else {
        if d.len() < 2 * count {
            None
        } else {
            let ss = parse_sizes(d, 0, count);
            if d.len() == 2 * count + sum(ss) {
                Some(
                    Seq::new(
                        count as nat,
                        |i: int| T::dec_to(crate::dict::dyn_piece(d, 2 * count, ss, i)),
                    ),
                )
            } else {
                None
            }
        }
    }
}

/// The mathematical decoder of a list message: `Some` exactly on the
/// byte shapes `list_head` and `list_data` produce together.
pub open spec fn list_dec<T: CollectionItem>(head: Seq<u8>, data: Option<Seq<u8>>) -> Option<
    ListMessageView<T::V>,
> {
    let w = T::fixed_size() as int;
    if head.len() != MESS_SIZE {
        None
    } else if head[0] == LIST_ALL {
        let count = vstd::bytes::spec_u64_from_le_bytes(head.subrange(1, 9)) as int;
        if count == 0 {
            if data is None {
                Some(ListMessageView::All(Seq::empty()))
            } else {
                None
            }
        } else if data is Some {
            match list_all_dec::<T>(data.unwrap(), count) {
                Some(items) => Some(ListMessageView::All(items)),
                None => None,
            }
        } else {
            None
        }
    } else if head[0] == LIST_SET || head[0] == LIST_ADD {
        if data is Some {
            let d = data.unwrap();
            let idx = vstd::bytes::spec_u64_from_le_bytes(head.subrange(1, 9)) as int;
            let item_ok = if w > 0 {
                d.len() == w
            } else {
                d.len() <= 0xFFFF
            };
            if !item_ok {
                None
            } else if head[0] == LIST_SET {
                if idx <= usize::MAX {
                    Some(ListMessageView::Put(idx, T::dec_to(d)))
                } else {
                    None
                }
            } else {
                Some(ListMessageView::Add(T::dec_to(d)))
            }
        } else {
            None
        }
    } else if head[0] == LIST_REMOVE {
        if data is None {
            let idx = vstd::bytes::spec_u64_from_le_bytes(head.subrange(1, 9)) as int;
            if idx <= usize::MAX {
                Some(ListMessageView::Remove(idx))
            } else {
                None
            }
        } else {
            None
        }
    } else {
        None
    }
}

/// Erasure of a typed list message to its wire form, the twin of
/// [`crate::dict::WriteDictMessage`].
pub trait WriteListMessage {
    /// The wire constraints on the message.
    spec fn spec_wf(&self) -> bool;

    /// The sub-header the message fills.
    spec fn spec_head(&self) -> Seq<u8>;

    /// The payload of the message, if any.
    spec fn spec_data(&self) -> Option<Seq<u8>>;

    /// Fills the sub-header and hands back the payload, if any.
    fn write_message(&self) -> (r: (Vec<u8>, Option<Vec<u8>>))
        requires
            self.spec_wf(),
        ensures
            r.0@.len() == MESS_SIZE,
            r.0@ == self.spec_head(),
            opt_view(r.1) == self.spec_data(),
    ;
}

impl<T: CollectionItem> WriteListMessage for ListMessage<T> {
    open spec fn spec_wf(&self) -> bool {
        list_wf::<T>(self@)
    }

    open spec fn spec_head(&self) -> Seq<u8> {
        list_head::<T>(self@)
    }

    open spec fn spec_data(&self) -> Option<Seq<u8>> {
        list_data::<T>(self@)
    }

    fn write_message(&self) -> (r: (Vec<u8>, Option<Vec<u8>>)) {
        match self {
            ListMessage::All(items) => {
                let ghost iv = items_view(items@);
                let count = items.len();
                let mut head: Vec<u8> = Vec::new();
                head.push(LIST_ALL);
                let mut cb = vstd::bytes::u64_to_le_bytes(count as u64);
                head.append(&mut cb);
                pad_to(&mut head, MESS_SIZE);
                proof {
                    assert(head@ =~= list_head::<T>(self@));
                }
                if count == 0 {
                    proof {
                        assert(iv.len() == 0);
                    }
                    return (head, None);
                }
                let encs = encode_items::<T>(items, Ghost(iv));
                proof {
                    lemma_items_bounded::<T>(iv, encs@);
                }
                let mut data: Vec<u8> = Vec::new();
                if T::size() == 0 {
                    append_sizes(&mut data, &encs);
                }
                append_encs(&mut data, &encs);
                proof {
                    let es = Seq::new(encs@.len(), |j: int| (encs@[j])@);
                    lemma_cat_pointwise(iv, es, piece_size(), elem_size_enc::<T>());
                    lemma_cat_pointwise(iv, es, piece_id(), elem_enc::<T>());
                    assert(data@ =~= list_all_data::<T>(iv));
                }
                (head, Some(data))
            },
            ListMessage::Put(i, t) => {
                let mut head: Vec<u8> = Vec::new();
                head.push(LIST_SET);
                let mut ib = vstd::bytes::u64_to_le_bytes(*i as u64);
                head.append(&mut ib);
                pad_to(&mut head, MESS_SIZE);
                let mut data: Vec<u8> = Vec::new();
                t.write_item(&mut data);
                proof {
                    assert(head@ =~= list_head::<T>(self@));
                    assert(data@ =~= T::enc_of(t@));
                }
                (head, Some(data))
            },
            ListMessage::Add(t) => {
                let mut head: Vec<u8> = Vec::new();
                head.push(LIST_ADD);
                pad_to(&mut head, MESS_SIZE);
                let mut data: Vec<u8> = Vec::new();
                t.write_item(&mut data);
                proof {
                    assert(head@ =~= list_head::<T>(self@));
                    assert(data@ =~= T::enc_of(t@));
                }
                (head, Some(data))
            },
            ListMessage::Remove(i) => {
                let mut head: Vec<u8> = Vec::new();
                head.push(LIST_REMOVE);
                let mut ib = vstd::bytes::u64_to_le_bytes(*i as u64);
                head.append(&mut ib);
                pad_to(&mut head, MESS_SIZE);
                proof {
                    assert(head@ =~= list_head::<T>(self@));
                }
                (head, None)
            },
        }
    }
}

/// Encodes each item of `items` on its own, in order.
fn encode_items<T: CollectionItem>(items: &Vec<T>, iv: Ghost<Seq<T::V>>) -> (r: Vec<Vec<u8>>)
    requires
        iv@ == items_view(items@),
        all_items_wf::<T>(iv@),
    ensures
        r@.len() == items@.len(),
        forall|j: int| 0 <= j < items@.len() ==> (#[trigger] r@[j])@ == T::enc_of(iv@[j]),
{
    let count = items.len();
    let mut encs: Vec<Vec<u8>> = Vec::new();
    let mut i: usize = 0;
    while i < count
        invariant
            i <= count,
            count == items@.len(),
            iv@ == items_view(items@),
            all_items_wf::<T>(iv@),
            encs@.len() == i,
            forall|j: int| 0 <= j < i ==> (#[trigger] encs@[j])@ == T::enc_of(iv@[j]),
        decreases count - i,
    {
        proof {
            assert(iv@[i as int] == items@[i as int]@);
            assert(T::wf_of(iv@[i as int]));
        }
        let mut e: Vec<u8> = Vec::new();
        items[i].write_item(&mut e);
        encs.push(e);
        i += 1;
    }
    encs
}

/// The encodings built by `encode_items` keep the item widths the wire
/// can carry, and match the spec closures pointwise.
proof fn lemma_items_bounded<T: CollectionItem>(iv: Seq<T::V>, es: Seq<Vec<u8>>)
    requires
        all_items_wf::<T>(iv),
        es.len() == iv.len(),
        forall|j: int| 0 <= j < iv.len() ==> (#[trigger] es[j])@ == T::enc_of(iv[j]),
    ensures
        forall|j: int| 0 <= j < es.len() ==> (#[trigger] es[j])@.len() <= 0xFFFF,
        forall|j: int| 0 <= j < iv.len() ==> piece_size()((#[trigger] es[j])@)
            == elem_size_enc::<T>()(iv[j]),
        forall|j: int| 0 <= j < iv.len() ==> piece_id()((#[trigger] es[j])@)
            == elem_enc::<T>()(iv[j]),
{
    assert forall|j: int| 0 <= j < iv.len() implies (#[trigger] es[j])@.len() <= 0xFFFF
        && piece_size()(es[j]@) == elem_size_enc::<T>()(iv[j]) && piece_id()(es[j]@)
        == elem_enc::<T>()(iv[j]) by {
        assert(T::wf_of(iv[j]));
        T::lemma_item(iv[j]);
    }
}

impl<T: CollectionItem> ListMessage<T> {
    /// Parses a list sub-header and payload; the exact inverse of
    /// `write_message`, failing on every other byte shape.
    pub fn read_message(head: &[u8], data: Option<Vec<u8>>) -> (r: Result<ListMessage<T>, String>)
        ensures
            r is Ok <==> list_dec::<T>(head@, opt_view(data)) is Some,
            r matches Ok(m) ==> list_dec::<T>(head@, opt_view(data)) == Some(m@),
            r matches Ok(m) ==> list_wf::<T>(m@),
    {
        if head.len() != MESS_SIZE {
            return Err("Wrong list head length.".to_owned());
        }
        let w = T::size();
        let tag = *vstd::slice::slice_index_get(head, 0);
        if tag == LIST_ALL {
            let count64 = vstd::bytes::u64_from_le_bytes(vstd::slice::slice_subrange(head, 1, 9));
            if count64 == 0 {
                match data {
                    None => {
                        let items: Vec<T> = Vec::new();
                        proof {
                            assert(items_view(items@) =~= Seq::<T::V>::empty());
                        }
                        Ok(ListMessage::All(items))
                    },
                    Some(_) => Err("List got data but should be empty.".to_owned()),
                }
            } else {
                match data {
                    None => Err("List data is missing.".to_owned()),
                    Some(d) => match decode_list_all::<T>(&d, count64) {
                        Ok(items) => Ok(ListMessage::All(items)),
                        Err(e) => Err(e),
                    },
                }
            }
        } else if tag == LIST_SET || tag == LIST_ADD {
            match data {
                None => Err("List item data is missing.".to_owned()),
                Some(d) => {
                    proof {
                        T::lemma_item(vstd::pervasive::arbitrary());
                    }
                    let dl = d.len();
                    let item_ok = if w > 0 {
                        dl == w
                    } else {
                        dl <= 0xFFFF
                    };
                    if !item_ok {
                        return Err("List item data is corrupted.".to_owned());
                    }
                    let item = T::read_item(d.as_slice(), 0, dl);
                    proof {
                        assert(d@.subrange(0, dl as int) =~= d@);
                    }
                    if tag == LIST_SET {
                        let idx64 = vstd::bytes::u64_from_le_bytes(
                            vstd::slice::slice_subrange(head, 1, 9),
                        );
                        if idx64 > usize::MAX as u64 {
                            return Err("List index out of range.".to_owned());
                        }
                        Ok(ListMessage::Put(idx64 as usize, item))
                    } else {
                        Ok(ListMessage::Add(item))
                    }
                },
            }
        } else if tag == LIST_REMOVE {
            match data {
                None => {
                    let idx64 = vstd::bytes::u64_from_le_bytes(
                        vstd::slice::slice_subrange(head, 1, 9),
                    );
                    if idx64 > usize::MAX as u64 {
                        return Err("List index out of range.".to_owned());
                    }
                    Ok(ListMessage::Remove(idx64 as usize))
                },
                Some(_) => Err("List remove got unexpected data.".to_owned()),
            }
        } else {
            Err("Unknown type of the list message.".to_owned())
        }
    }
}

/// Decodes an `All` payload of `count64` items.
fn decode_list_all<T: CollectionItem>(d: &Vec<u8>, count64: u64) -> (r: Result<Vec<T>, String>)
    requires
        count64 > 0,
    ensures
        r is Ok <==> list_all_dec::<T>(d@, count64 as int) is Some,
        r matches Ok(items) ==> list_all_dec::<T>(d@, count64 as int) == Some(items_view(items@)),
        r matches Ok(items) ==> all_items_wf::<T>(items_view(items@)),
{
    let w = T::size();
    let dl = d.len();
    let ghost cnt = count64 as int;
    if w > 0 {
        if count64 > dl as u64 || w as u128 > dl as u128 {
            proof {
                assert(cnt * T::fixed_size() != dl as int) by (nonlinear_arith)
                    requires
                        cnt >= 1,
                        T::fixed_size() >= 1,
                        (cnt > dl as int) || (T::fixed_size() > dl as int),
                        dl as int >= 0,
                ;
            }
            return Err("List data is corrupted.".to_owned());
        }
        let count = count64 as usize;
        proof {
            assert((count as u128) * (w as u128) <= 0xFFFF_FFFF_FFFF_FFFFu128
                * 0xFFFF_FFFF_FFFF_FFFFu128) by (nonlinear_arith)
                requires
                    count as u128 <= 0xFFFF_FFFF_FFFF_FFFFu128,
                    w as u128 <= 0xFFFF_FFFF_FFFF_FFFFu128,
            ;
        }
        if (count as u128) * (w as u128) != dl as u128 {
            proof {
                assert((count as u128) * (w as u128) == cnt * T::fixed_size())
                    by (nonlinear_arith)
                    requires
                        count as int == cnt,
                        w == T::fixed_size(),
                        cnt <= dl as int,
                        w as int <= dl as int,
                        dl <= u64::MAX,
                ;
            }
            return Err("List data is corrupted.".to_owned());
        }
        proof {
            assert((count as u128) * (w as u128) == cnt * T::fixed_size()) by (nonlinear_arith)
                requires
                    count as int == cnt,
                    w == T::fixed_size(),
                    cnt <= dl as int,
                    w as int <= dl as int,
                    dl <= u64::MAX,
            ;
        }
        let items = crate::dict::read_fixed_items::<T>(d.as_slice(), 0, count);
        proof {
            let expected = list_all_dec::<T>(d@, cnt).unwrap();
            assert forall|j: int| 0 <= j < cnt implies items_view(items@)[j] == #[trigger]
                expected[j] by {
                assert(items@[j]@ == T::dec_to(
                    d@.subrange(0 + j * T::fixed_size(), 0 + (j + 1) * T::fixed_size()),
                ));
                assert(d@.subrange(0 + j * T::fixed_size(), 0 + (j + 1) * T::fixed_size())
                    =~= d@.subrange(j * T::fixed_size(), (j + 1) * T::fixed_size()));
            }
            assert(items_view(items@) =~= expected);
        }
        Ok(items)
    } else {
        if 2u128 * count64 as u128 > dl as u128 {
            return Err("List data is corrupted.".to_owned());
        }
        let count = count64 as usize;
        let (ss, ssum) = crate::dict::read_sizes(d.as_slice(), 0, count);
        let ghost sss = parse_sizes(d@, 0, cnt);
        if 2 * count as u128 + ssum != dl as u128 {
            return Err("List data is corrupted.".to_owned());
        }
        proof {
            lemma_sum_bounds(sss, 0);
        }
        let items: Vec<T> = crate::dict::read_dyn_items::<T>(d.as_slice(), 2 * count, &ss, Ghost(sss));
        proof {
            let expected = list_all_dec::<T>(d@, cnt).unwrap();
            assert forall|j: int| 0 <= j < cnt implies items_view(items@)[j] == #[trigger]
                expected[j] by {
                assert(items@[j]@ == T::dec_to(crate::dict::dyn_piece(d@, 2 * cnt, sss, j)));
            }
            assert(items_view(items@) =~= expected);
        }
        Ok(items)
    }
}

/// Writing any well-formed list message and reading it back yields the
/// message that was written: the codec keeps both the items and their
/// order.
pub proof fn lemma_list_round_trip<T: CollectionItem>(m: ListMessageView<T::V>)
    requires
        list_wf::<T>(m),
        m matches ListMessageView::All(items) ==> items.len() <= u64::MAX,
    ensures
        list_dec::<T>(list_head::<T>(m), list_data::<T>(m)) == Some(m),
{
    vstd::bytes::lemma_auto_spec_u64_to_from_le_bytes();
    let head = list_head::<T>(m);
    let w = T::fixed_size() as int;
    match m {
        ListMessageView::All(items) => {
            let n = items.len() as int;
            assert(head.subrange(1, 9) =~= vstd::bytes::spec_u64_to_le_bytes(items.len() as u64));
            if n == 0 {
                assert(items =~= Seq::<T::V>::empty());
            } else {
                let d = list_all_data::<T>(items);
                assert forall|t: T::V| #[trigger] elem_size_enc::<T>()(t).len() == 2 by {
                    vstd::bytes::lemma_auto_spec_u16_to_from_le_bytes();
                }
                if w > 0 {
                    assert forall|t: T::V| #[trigger] elem_enc::<T>()(t).len() == w by {
                        T::lemma_item(t);
                    }
                    lemma_cat_len_const(items, elem_enc::<T>(), w);
                    let expected = list_all_dec::<T>(d, n).unwrap();
                    assert forall|i: int| 0 <= i < n implies #[trigger] expected[i]
                        == items[i] by {
                        lemma_cat_index_const(items, elem_enc::<T>(), w, i);
                        assert(i * w + w == (i + 1) * w) by (nonlinear_arith);
                        assert(T::wf_of(items[i]));
                        T::lemma_item(items[i]);
                    }
                    assert(expected =~= items);
                } else {
                    let sc = cat(items, elem_size_enc::<T>());
                    let ec = cat(items, elem_enc::<T>());
                    lemma_cat_len_const(items, elem_size_enc::<T>(), 2);
                    assert(d == sc + ec);
                    vstd::bytes::lemma_auto_spec_u16_to_from_le_bytes();
                    let ps = parse_sizes(d, 0, n);
                    assert forall|i: int| 0 <= i < n implies #[trigger] ps[i] == lens_of(
                        items,
                        elem_enc::<T>(),
                    )[i] by {
                        lemma_cat_index_const(items, elem_size_enc::<T>(), 2, i);
                        lemma_prefix_subrange(sc, ec, 2 * i, 2 * i + 2);
                        assert(d.subrange(2 * i, 2 * i + 2) == elem_size_enc::<T>()(items[i]));
                        assert(T::wf_of(items[i]));
                        T::lemma_item(items[i]);
                    }
                    assert(ps =~= lens_of(items, elem_enc::<T>()));
                    lemma_sum_lens_cat(items, elem_enc::<T>(), n);
                    assert(items.take(n) =~= items);
                    assert(ps.take(n) =~= ps);
                    assert(sum(ps) == ec.len());
                    assert(d.len() == 2 * n + sum(ps));
                    let expected = list_all_dec::<T>(d, n).unwrap();
                    assert forall|i: int| 0 <= i < n implies #[trigger] expected[i]
                        == items[i] by {
                        assert(d =~= sc + ec + Seq::empty());
                        crate::dict::lemma_dyn_piece_round(d, sc, ec, Seq::empty(), items, elem_enc::<
                            T,
                        >(), i);
                        assert(T::wf_of(items[i]));
                        T::lemma_item(items[i]);
                    }
                    assert(expected =~= items);
                }
            }
        },
        ListMessageView::Put(i, t) => {
            T::lemma_item(t);
            assert(head.subrange(1, 9) =~= vstd::bytes::spec_u64_to_le_bytes(i as u64));
            assert((i as u64) as int == i);
        },
        ListMessageView::Add(t) => {
            T::lemma_item(t);
        },
        ListMessageView::Remove(i) => {
            assert(head.subrange(1, 9) =~= vstd::bytes::spec_u64_to_le_bytes(i as u64));
            assert((i as u64) as int == i);
        },
    }
}

/// The mirror of one synchronised list: its slot id and its items, in
/// order.
pub struct ValueList<T> {
    id: u32,
    list: Vec<T>,
}

impl<T: CollectionItem> ValueList<T> {
    /// The slot id.
    pub closed spec fn spec_id(&self) -> u32 {
        self.id
    }

    /// The items of the mirror, in order.
    pub closed spec fn spec_items(&self) -> Seq<T::V> {
        items_view(self.list@)
    }

    /// A fresh, empty mirror.
    pub fn new(id: u32) -> (r: ValueList<T>)
        ensures
            r.spec_id() == id,
            r.spec_items() == Seq::<T::V>::empty(),
    {
        let r = ValueList { id, list: Vec::new() };
        proof {
            assert(r.spec_items() =~= Seq::<T::V>::empty());
        }
        r
    }

    /// The number of items.
    pub fn len(&self) -> (r: usize)
        ensures
            r == self.spec_items().len(),
    {
        self.list.len()
    }

    /// A copy of all items.
    pub fn get(&self) -> (r: Vec<T>)
        ensures
            items_view(r@) == self.spec_items(),
    {
        let n = self.list.len();
        let mut out: Vec<T> = Vec::new();
        let mut i: usize = 0;
        while i < n
            invariant
                i <= n,
                n == self.list@.len(),
                out@.len() == i,
                forall|j: int| 0 <= j < i ==> (#[trigger] out@[j])@ == self.list@[j]@,
            decreases n - i,
        {
            out.push(self.list[i].clone_item());
            i += 1;
        }
        proof {
            assert(items_view(out@) =~= self.spec_items());
        }
        out
    }

    /// Applies one inbound list frame to the mirror: an `All` replaces
    /// the items, a `Put` overwrites one in place, an `Add` appends,
    /// a `Remove` deletes one; a malformed frame or an index past the
    /// end changes nothing.
    pub fn update_list(&mut self, head: &[u8], data: Option<Vec<u8>>) -> (r: Result<(), String>)
        ensures
            final(self).spec_id() == old(self).spec_id(),
            r is Err ==> final(self).spec_items() == old(self).spec_items(),
            r is Ok <==> (match list_dec::<T>(head@, opt_view(data)) {
                Some(ListMessageView::All(items)) => true,
                Some(ListMessageView::Put(i, t)) => 0 <= i < old(self).spec_items().len(),
                Some(ListMessageView::Add(t)) => true,
                Some(ListMessageView::Remove(i)) => 0 <= i < old(self).spec_items().len(),
                None => false,
            }),
            r is Ok ==> final(self).spec_items() == (match list_dec::<T>(
                head@,
                opt_view(data),
            ).unwrap() {
                ListMessageView::All(items) => items,
                ListMessageView::Put(i, t) => old(self).spec_items().update(i, t),
                ListMessageView::Add(t) => old(self).spec_items().push(t),
                ListMessageView::Remove(i) => old(self).spec_items().remove(i),
            }),
    {
        let message = match ListMessage::<T>::read_message(head, data) {
            Ok(m) => m,
            Err(e) => {
                return Err(e);
            },
        };
        match message {
            ListMessage::All(items) => {
                self.list = items;
                Ok(())
            },
            ListMessage::Put(i, t) => {
                if i >= self.list.len() {
                    return Err("List index out of range.".to_owned());
                }
                self.list[i] = t;
                proof {
                    assert(self.spec_items() =~= old(self).spec_items().update(i as int, t@));
                }
                Ok(())
            },
            ListMessage::Add(t) => {
                self.list.push(t);
                proof {
                    assert(self.spec_items() =~= old(self).spec_items().push(t@));
                }
                Ok(())
            },
            ListMessage::Remove(i) => {
                if i >= self.list.len() {
                    return Err("List index out of range.".to_owned());
                }
                self.list.remove(i);
                proof {
                    assert(self.spec_items() =~= old(self).spec_items().remove(i as int));
                }
                Ok(())
            },
        }
    }

    /// The sync sweep: the whole mirror leaves for the peer as one
    /// `All` replacement.
    pub fn sync(&self) -> (r: crate::transport::WriteMessage)
        requires
            all_items_wf::<T>(self.spec_items()),
            self.spec_items().len() <= 0xFFFF_FFFF,
            (list_data::<T>(ListMessageView::All(self.spec_items())) matches Some(d) ==> d.len()
                <= 0xFFFF_FFFF),
        ensures
            r@ == crate::transport::WriteMessageView::List(
                self.spec_id() as int,
                false,
                crate::transport::SubFrameView {
                    head: list_head::<T>(ListMessageView::All(self.spec_items())),
                    data: list_data::<T>(ListMessageView::All(self.spec_items())),
                },
            ),
    {
        let items = self.get();
        crate::transport::WriteMessage::list(self.id, false, ListMessage::All(items))
    }
}

} // verus!
