//! Dictionary messages: a full replacement (`All`), a single insertion
//! (`Put`) and a single removal (`Remove`), with their wire codec.
//!
//! The `All` payload layout depends on whether keys and values are
//! fixed-size: fixed/fixed packs pairs tightly; when a side is dynamic
//! its widths travel first as little-endian `u16`s, then the fixed side
//! packed, then the dynamic bytes; when both sides are dynamic both
//! width tables come first, then all keys, then all values.  A small
//! fixed `Put` or `Remove` inlines into the sub-header.

use vstd::prelude::*;

use crate::collections::{
    cat, lemma_cat_extract, lemma_cat_index_const, lemma_cat_len_const, lemma_cat_take_all,
    lemma_cat_take_succ, lemma_mid_subrange, lemma_subrange_split, lemma_suffix_subrange,
    lemma_sum_bounds, lemma_sum_lens_cat, lemma_sum_take_succ, lens_of, parse_sizes, sum,
    append_encs, append_sizes, lemma_cat_pointwise, piece_id, piece_size, CollectionItem,
};
use crate::transport::{zeros, pad_to, MESS_SIZE};
use crate::values::opt_view;

verus! {

pub const DICT_ALL: u8 = 20;
pub const DICT_SET: u8 = 21;
pub const DICT_REMOVE: u8 = 22;

/// One dictionary update on the wire.  `All` carries the entries as a
/// sequence of pairs; the mirror that applies it decides how they meet
/// an existing map.
pub enum DictMessage<K, V> {
    All(Vec<(K, V)>),
    Put(K, V),
    Remove(K),
}

/// Mathematical shadow of [`DictMessage`], over item views.
pub enum DictMessageView<KV, VV> {
    All(Seq<(KV, VV)>),
    Put(KV, VV),
    Remove(KV),
}

/// The views of a sequence of entry pairs.
pub open spec fn pairs_view<K: CollectionItem, V: CollectionItem>(
    pairs: Seq<(K, V)>,
) -> Seq<(K::V, V::V)> {
    Seq::new(pairs.len(), |i: int| (pairs[i].0@, pairs[i].1@))
}

impl<K: CollectionItem, V: CollectionItem> View for DictMessage<K, V> {
    type V = DictMessageView<K::V, V::V>;

    open spec fn view(&self) -> DictMessageView<K::V, V::V> {
        match self {
            DictMessage::All(pairs) => DictMessageView::All(pairs_view(pairs@)),
            DictMessage::Put(k, v) => DictMessageView::Put(k@, v@),
            DictMessage::Remove(k) => DictMessageView::Remove(k@),
        }
    }
}

/// The encoding of one key of a pair.
pub open spec fn key_enc<K: CollectionItem, V: CollectionItem>() -> spec_fn(
    (K::V, V::V),
) -> Seq<u8> {
    |p: (K::V, V::V)| K::enc_of(p.0)
}

/// The encoding of one value of a pair.
pub open spec fn val_enc<K: CollectionItem, V: CollectionItem>() -> spec_fn(
    (K::V, V::V),
) -> Seq<u8> {
    |p: (K::V, V::V)| V::enc_of(p.1)
}

/// The encoding of one pair, key first.
pub open spec fn pair_enc<K: CollectionItem, V: CollectionItem>() -> spec_fn(
    (K::V, V::V),
) -> Seq<u8> {
    |p: (K::V, V::V)| K::enc_of(p.0) + V::enc_of(p.1)
}

/// The `u16` width of one key's encoding.
pub open spec fn key_size_enc<K: CollectionItem, V: CollectionItem>() -> spec_fn(
    (K::V, V::V),
) -> Seq<u8> {
    |p: (K::V, V::V)| vstd::bytes::spec_u16_to_le_bytes(K::enc_of(p.0).len() as u16)
}

/// The `u16` width of one value's encoding.
pub open spec fn val_size_enc<K: CollectionItem, V: CollectionItem>() -> spec_fn(
    (K::V, V::V),
) -> Seq<u8> {
    |p: (K::V, V::V)| vstd::bytes::spec_u16_to_le_bytes(V::enc_of(p.1).len() as u16)
}

/// Every pair holds items that obey the wire constraints of their
/// types.
pub open spec fn all_pairs_wf<K: CollectionItem, V: CollectionItem>(
    pairs: Seq<(K::V, V::V)>,
) -> bool {
    forall|i: int|
        #![trigger pairs[i]]
        0 <= i < pairs.len() ==> K::wf_of(pairs[i].0) && V::wf_of(pairs[i].1)
}

/// Every item of the message obeys the wire constraints of its type.
pub open spec fn dict_wf<K: CollectionItem, V: CollectionItem>(
    m: DictMessageView<K::V, V::V>,
) -> bool {
    match m {
        DictMessageView::All(pairs) => all_pairs_wf::<K, V>(pairs),
        DictMessageView::Put(k, v) => K::wf_of(k) && V::wf_of(v),
        DictMessageView::Remove(k) => K::wf_of(k),
    }
}

/// Whether a `Put` of these item types inlines into the sub-header.
pub open spec fn set_inline<K: CollectionItem, V: CollectionItem>() -> bool {
    K::fixed_size() > 0 && V::fixed_size() > 0 && K::fixed_size() + V::fixed_size() < MESS_SIZE
}

/// Whether a `Remove` of this key type inlines into the sub-header.
pub open spec fn remove_inline<K: CollectionItem>() -> bool {
    K::fixed_size() > 0 && K::fixed_size() < MESS_SIZE
}

/// The 26-byte dictionary sub-header.
pub open spec fn dict_head<K: CollectionItem, V: CollectionItem>(
    m: DictMessageView<K::V, V::V>,
) -> Seq<u8> {
    match m {
        DictMessageView::All(pairs) => seq![DICT_ALL] + vstd::bytes::spec_u64_to_le_bytes(
            pairs.len() as u64,
        ) + zeros(17),
        DictMessageView::Put(k, v) => if set_inline::<K, V>() {
            seq![DICT_SET] + K::enc_of(k) + V::enc_of(v) + zeros(
                25 - K::fixed_size() - V::fixed_size(),
            )
        } else {
            seq![DICT_SET] + zeros(25)
        },
        DictMessageView::Remove(k) => if remove_inline::<K>() {
            seq![DICT_REMOVE] + K::enc_of(k) + zeros(25 - K::fixed_size())
        } else {
            seq![DICT_REMOVE] + zeros(25)
        },
    }
}

/// The payload of an `All` message with at least one entry.
pub open spec fn dict_all_data<K: CollectionItem, V: CollectionItem>(
    pairs: Seq<(K::V, V::V)>,
) -> Seq<u8> {
    if K::fixed_size() > 0 && V::fixed_size() > 0 {
        cat(pairs, pair_enc::<K, V>())
    } else if K::fixed_size() == 0 && V::fixed_size() == 0 {
        cat(pairs, key_size_enc::<K, V>()) + cat(pairs, val_size_enc::<K, V>()) + cat(
            pairs,
            key_enc::<K, V>(),
        ) + cat(pairs, val_enc::<K, V>())
    } else if K::fixed_size() == 0 {
        cat(pairs, key_size_enc::<K, V>()) + cat(pairs, val_enc::<K, V>()) + cat(
            pairs,
            key_enc::<K, V>(),
        )
    } else {
        cat(pairs, val_size_enc::<K, V>()) + cat(pairs, key_enc::<K, V>()) + cat(
            pairs,
            val_enc::<K, V>(),
        )
    }
}

/// The payload of a dictionary message, if any.
pub open spec fn dict_data<K: CollectionItem, V: CollectionItem>(
    m: DictMessageView<K::V, V::V>,
) -> Option<Seq<u8>> {
    match m {
        DictMessageView::All(pairs) => if pairs.len() == 0 {
            None
        } else {
            Some(dict_all_data::<K, V>(pairs))
        },
        DictMessageView::Put(k, v) => if set_inline::<K, V>() {
            None
        } else if K::fixed_size() == 0 {
            Some(
                vstd::bytes::spec_u16_to_le_bytes(K::enc_of(k).len() as u16) + K::enc_of(k)
                    + V::enc_of(v),
            )
        } else {
            Some(K::enc_of(k) + V::enc_of(v))
        },
        DictMessageView::Remove(k) => if remove_inline::<K>() {
            None
        } else {
            Some(K::enc_of(k))
        },
    }
}

/// Decoded entries of a fixed/fixed payload of `count` pairs.
pub open spec fn dec_pairs_fixed<K: CollectionItem, V: CollectionItem>(
    d: Seq<u8>,
    count: int,
) -> Seq<(K::V, V::V)> {
    Seq::new(
        count as nat,
        |i: int|
            (
                K::dec_to(
                    d.subrange(
                        i * (K::fixed_size() + V::fixed_size()),
                        i * (K::fixed_size() + V::fixed_size()) + K::fixed_size(),
                    ),
                ),
                V::dec_to(
                    d.subrange(
                        i * (K::fixed_size() + V::fixed_size()) + K::fixed_size(),
                        (i + 1) * (K::fixed_size() + V::fixed_size()),
                    ),
                ),
            ),
    )
}

/// The piece of `d` at offset `base + sum(sizes.take(i))` of width
/// `sizes[i]`: entry `i` of a region of dynamic items.
pub open spec fn dyn_piece(d: Seq<u8>, base: int, sizes: Seq<int>, i: int) -> Seq<u8> {
    d.subrange(base + sum(sizes.take(i)), base + sum(sizes.take(i)) + sizes[i])
}

/// Decoded entries of an `All` payload, by the four layouts; `None`
/// when the payload does not have exactly the advertised shape.
pub open spec fn dict_all_dec<K: CollectionItem, V: CollectionItem>(
    d: Seq<u8>,
    count: int,
) -> Option<Seq<(K::V, V::V)>> {
    let kw = K::fixed_size() as int;
    let vw = V::fixed_size() as int;
    if kw > 0 && vw > 0 {
        if d.len() == count * (kw + vw) {
            Some(dec_pairs_fixed::<K, V>(d, count))
        } else {
            None
        }
    } else if kw == 0 && vw == 0 {
        if d.len() < 4 * count {
            None
        } else {
            let ks = parse_sizes(d, 0, count);
            let vs = parse_sizes(d, 2 * count, count);
            if d.len() == 4 * count + sum(ks) + sum(vs) {
                Some(
                    Seq::new(
                        count as nat,
                        |i: int|
                            (
                                K::dec_to(dyn_piece(d, 4 * count, ks, i)),
                                V::dec_to(dyn_piece(d, 4 * count + sum(ks), vs, i)),
                            ),
                    ),
                )
            } else {
                None
            }
        }
    } else if kw == 0 {
        if d.len() < 2 * count {
            None
        } else {
            let ks = parse_sizes(d, 0, count);
            if d.len() == 2 * count + count * vw + sum(ks) {
                Some(
                    Seq::new(
                        count as nat,
                        |i: int|
                            (
                                K::dec_to(dyn_piece(d, 2 * count + count * vw, ks, i)),
                                V::dec_to(
                                    d.subrange(2 * count + i * vw, 2 * count + (i + 1) * vw),
                                ),
                            ),
                    ),
                )
            } else {
                None
            }
        }
    } else {
        if d.len() < 2 * count {
            None
        } else {
            let vs = parse_sizes(d, 0, count);
            if d.len() == 2 * count + count * kw + sum(vs) {
                Some(
                    Seq::new(
                        count as nat,
                        |i: int|
                            (
                                K::dec_to(
                                    d.subrange(2 * count + i * kw, 2 * count + (i + 1) * kw),
                                ),
                                V::dec_to(dyn_piece(d, 2 * count + count * kw, vs, i)),
                            ),
                    ),
                )
            } else {
                None
            }
        }
    }
}

/// The mathematical decoder of a dictionary message: `Some` exactly on
/// the byte shapes `dict_head` and `dict_data` produce together.
pub open spec fn dict_dec<K: CollectionItem, V: CollectionItem>(
    head: Seq<u8>,
    data: Option<Seq<u8>>,
) -> Option<DictMessageView<K::V, V::V>> {
    let kw = K::fixed_size() as int;
    let vw = V::fixed_size() as int;
    if head.len() != MESS_SIZE {
        None
    } else if head[0] == DICT_ALL {
        let count = vstd::bytes::spec_u64_from_le_bytes(head.subrange(1, 9)) as int;
        if count == 0 {
            if data is None {
                Some(DictMessageView::All(Seq::empty()))
            } else {
                None
            }
        } else if data is Some {
            match dict_all_dec::<K, V>(data.unwrap(), count) {
                Some(pairs) => Some(DictMessageView::All(pairs)),
                None => None,
            }
        } else {
            None
        }
    } else if head[0] == DICT_SET {
        if set_inline::<K, V>() {
            if data is None {
                Some(
                    DictMessageView::Put(
                        K::dec_to(head.subrange(1, 1 + kw)),
                        V::dec_to(head.subrange(1 + kw, 1 + kw + vw)),
                    ),
                )
            } else {
                None
            }
        } else if data is Some {
            let d = data.unwrap();
            if kw == 0 {
                if d.len() < 2 {
                    None
                } else {
                    let klen = vstd::bytes::spec_u16_from_le_bytes(d.subrange(0, 2)) as int;
                    if vw > 0 {
                        if d.len() == 2 + klen + vw {
                            Some(
                                DictMessageView::Put(
                                    K::dec_to(d.subrange(2, 2 + klen)),
                                    V::dec_to(d.subrange(2 + klen, 2 + klen + vw)),
                                ),
                            )
                        } else {
                            None
                        }
                    } else {
                        if 2 + klen <= d.len() && d.len() - (2 + klen) <= 0xFFFF {
                            Some(
                                DictMessageView::Put(
                                    K::dec_to(d.subrange(2, 2 + klen)),
                                    V::dec_to(d.subrange(2 + klen, d.len() as int)),
                                ),
                            )
                        } else {
                            None
                        }
                    }
                }
            } else if vw == 0 {
                if d.len() >= kw && d.len() - kw <= 0xFFFF {
                    Some(
                        DictMessageView::Put(
                            K::dec_to(d.subrange(0, kw)),
                            V::dec_to(d.subrange(kw, d.len() as int)),
                        ),
                    )
                } else {
                    None
                }
            } else {
                if d.len() == kw + vw {
                    Some(
                        DictMessageView::Put(
                            K::dec_to(d.subrange(0, kw)),
                            V::dec_to(d.subrange(kw, kw + vw)),
                        ),
                    )
                } else {
                    None
                }
            }
        } else {
            None
        }
    } else if head[0] == DICT_REMOVE {
        if remove_inline::<K>() {
            if data is None {
                Some(DictMessageView::Remove(K::dec_to(head.subrange(1, 1 + kw))))
            } else {
                None
            }
        } else if data is Some {
            let d = data.unwrap();
            if kw > 0 {
                if d.len() == kw {
                    Some(DictMessageView::Remove(K::dec_to(d)))
                } else {
                    None
                }
            } else {
                if d.len() <= 0xFFFF {
                    Some(DictMessageView::Remove(K::dec_to(d)))
                } else {
                    None
                }
            }
        } else {
            None
        }
    } else {
        None
    }
}

/// Erasure of a typed dictionary message to its wire form.  The write
/// side of [`crate::transport::WriteMessage`] holds dictionaries and
/// lists through this trait, already encoded.
pub trait WriteDictMessage {
    /// The wire constraints on the message.
    spec fn spec_wf(&self) -> bool;

    /// The sub-header the message fills.
    spec fn spec_head(&self) -> Seq<u8>;

    /// The payload of the message, if any.
    spec fn spec_data(&self) -> Option<Seq<u8>>;

    /// Fills the sub-header and hands back the payload, if any.
    fn write_message(&self) -> (r: (Vec<u8>, Option<Vec<u8>>))
        requires
            self.spec_wf(),
        ensures
            r.0@.len() == MESS_SIZE,
            r.0@ == self.spec_head(),
            opt_view(r.1) == self.spec_data(),
    ;
}

impl<K: CollectionItem, V: CollectionItem> WriteDictMessage for DictMessage<K, V> {
    open spec fn spec_wf(&self) -> bool {
        dict_wf::<K, V>(self@)
    }

    open spec fn spec_head(&self) -> Seq<u8> {
        dict_head::<K, V>(self@)
    }

    open spec fn spec_data(&self) -> Option<Seq<u8>> {
        dict_data::<K, V>(self@)
    }

    fn write_message(&self) -> (r: (Vec<u8>, Option<Vec<u8>>)) {
        match self {
            DictMessage::All(pairs) => {
                let ghost pv = Seq::new(pairs@.len(), |i: int| (pairs@[i].0@, pairs@[i].1@));
                let count = pairs.len();
                let mut head: Vec<u8> = Vec::new();
                head.push(DICT_ALL);
                let mut cb = vstd::bytes::u64_to_le_bytes(count as u64);
                head.append(&mut cb);
                pad_to(&mut head, MESS_SIZE);
                proof {
                    assert(head@ =~= dict_head::<K, V>(self@));
                }
                if count == 0 {
                    proof {
                        assert(pv.len() == 0);
                    }
                    return (head, None);
                }
                let kw = K::size();
                let vw = V::size();
                if kw > 0 && vw > 0 {
                    let mut data: Vec<u8> = Vec::new();
                    let mut i: usize = 0;
                    while i < count
                        invariant
                            i <= count,
                            count == pairs@.len(),
                            pv == Seq::new(pairs@.len(), |j: int| (pairs@[j].0@, pairs@[j].1@)),
                            all_pairs_wf::<K, V>(pv),
                            data@ == cat(pv.take(i as int), pair_enc::<K, V>()),
                        decreases count - i,
                    {
                        let p = &pairs[i];
                        proof {
                            assert(pv[i as int] == (pairs@[i as int].0@, pairs@[i as int].1@));
                            assert(K::wf_of(pv[i as int].0));
                            assert(V::wf_of(pv[i as int].1));
                        }
                        p.0.write_item(&mut data);
                        p.1.write_item(&mut data);
                        proof {
                            lemma_cat_take_succ(pv, pair_enc::<K, V>(), i as int);
                            assert(pair_enc::<K, V>()(pv[i as int]) == K::enc_of(pv[i as int].0)
                                + V::enc_of(pv[i as int].1));
                            assert(data@ =~= cat(pv.take(i + 1), pair_enc::<K, V>()));
                        }
                        i += 1;
                    }
                    proof {
                        lemma_cat_take_all(pv, pair_enc::<K, V>());
                        assert(dict_data::<K, V>(self@) == Some(cat(pv, pair_enc::<K, V>())));
                    }
                    (head, Some(data))
                } else if kw == 0 && vw == 0 {
                    let data = encode_all_dynamic::<K, V>(pairs, Ghost(pv));
                    (head, Some(data))
                } else if kw == 0 {
                    let data = encode_key_dynamic::<K, V>(pairs, Ghost(pv));
                    (head, Some(data))
                } else {
                    let data = encode_val_dynamic::<K, V>(pairs, Ghost(pv));
                    (head, Some(data))
                }
            },
            DictMessage::Put(k, v) => {
                let kw = K::size();
                let vw = V::size();
                let mut head: Vec<u8> = Vec::new();
                if kw > 0 && vw > 0 && kw <= 25 && vw <= 25 && kw + vw < MESS_SIZE {
                    head.push(DICT_SET);
                    k.write_item(&mut head);
                    v.write_item(&mut head);
                    proof {
                        K::lemma_item(k@);
                        V::lemma_item(v@);
                    }
                    pad_to(&mut head, MESS_SIZE);
                    proof {
                        assert(set_inline::<K, V>());
                        assert(head@ =~= dict_head::<K, V>(self@));
                    }
                    (head, None)
                } else {
                    head.push(DICT_SET);
                    pad_to(&mut head, MESS_SIZE);
                    proof {
                        K::lemma_item(k@);
                        V::lemma_item(v@);
                        assert(!set_inline::<K, V>());
                        assert(head@ =~= dict_head::<K, V>(self@));
                    }
                    if kw == 0 {
                        let mut kenc: Vec<u8> = Vec::new();
                        k.write_item(&mut kenc);
                        proof {
                            assert(kenc@.len() <= 0xFFFF);
                        }
                        let mut data = vstd::bytes::u16_to_le_bytes(kenc.len() as u16);
                        data.append(&mut kenc);
                        v.write_item(&mut data);
                        proof {
                            assert(data@ =~= dict_data::<K, V>(self@).unwrap());
                        }
                        (head, Some(data))
                    } else {
                        let mut data: Vec<u8> = Vec::new();
                        k.write_item(&mut data);
                        v.write_item(&mut data);
                        (head, Some(data))
                    }
                }
            },
            DictMessage::Remove(k) => {
                let kw = K::size();
                let mut head: Vec<u8> = Vec::new();
                head.push(DICT_REMOVE);
                if kw > 0 && kw < MESS_SIZE {
                    k.write_item(&mut head);
                    proof {
                        K::lemma_item(k@);
                    }
                    pad_to(&mut head, MESS_SIZE);
                    proof {
                        assert(head@ =~= dict_head::<K, V>(self@));
                    }
                    (head, None)
                } else {
                    pad_to(&mut head, MESS_SIZE);
                    let mut data: Vec<u8> = Vec::new();
                    k.write_item(&mut data);
                    proof {
                        assert(head@ =~= dict_head::<K, V>(self@));
                    }
                    (head, Some(data))
                }
            },
        }
    }
}

/// Encodes each key of `pairs` on its own, in order.
fn encode_sides<K: CollectionItem, V: CollectionItem>(
    pairs: &Vec<(K, V)>,
    pv: Ghost<Seq<(K::V, V::V)>>,
) -> (r: (Vec<Vec<u8>>, Vec<Vec<u8>>))
    requires
        pv@ == Seq::new(pairs@.len(), |i: int| (pairs@[i].0@, pairs@[i].1@)),
        all_pairs_wf::<K, V>(pv@),
    ensures
        r.0@.len() == pairs@.len(),
        r.1@.len() == pairs@.len(),
        forall|j: int| 0 <= j < pairs@.len() ==> (#[trigger] r.0@[j])@ == K::enc_of(pv@[j].0),
        forall|j: int| 0 <= j < pairs@.len() ==> (#[trigger] r.1@[j])@ == V::enc_of(pv@[j].1),
{
    let count = pairs.len();
    let mut kencs: Vec<Vec<u8>> = Vec::new();
    let mut vencs: Vec<Vec<u8>> = Vec::new();
    let mut i: usize = 0;
    while i < count
        invariant
            i <= count,
            count == pairs@.len(),
            pv@ == Seq::new(pairs@.len(), |j: int| (pairs@[j].0@, pairs@[j].1@)),
            all_pairs_wf::<K, V>(pv@),
            kencs@.len() == i,
            vencs@.len() == i,
            forall|j: int| 0 <= j < i ==> (#[trigger] kencs@[j])@ == K::enc_of(pv@[j].0),
            forall|j: int| 0 <= j < i ==> (#[trigger] vencs@[j])@ == V::enc_of(pv@[j].1),
        decreases count - i,
    {
        let p = &pairs[i];
        proof {
            assert(pv@[i as int] == (pairs@[i as int].0@, pairs@[i as int].1@));
            assert(K::wf_of(pv@[i as int].0));
            assert(V::wf_of(pv@[i as int].1));
        }
        let mut ke: Vec<u8> = Vec::new();
        p.0.write_item(&mut ke);
        kencs.push(ke);
        let mut ve: Vec<u8> = Vec::new();
        p.1.write_item(&mut ve);
        vencs.push(ve);
        i += 1;
    }
    (kencs, vencs)
}

/// Payload of an `All` message whose keys and values are both dynamic.
fn encode_all_dynamic<K: CollectionItem, V: CollectionItem>(
    pairs: &Vec<(K, V)>,
    pv: Ghost<Seq<(K::V, V::V)>>,
) -> (r: Vec<u8>)
    requires
        K::fixed_size() == 0,
        V::fixed_size() == 0,
        pv@ == Seq::new(pairs@.len(), |i: int| (pairs@[i].0@, pairs@[i].1@)),
        all_pairs_wf::<K, V>(pv@),
    ensures
        r@ == dict_all_data::<K, V>(pv@),
{
    let (kencs, vencs) = encode_sides::<K, V>(pairs, pv);
    proof {
        lemma_encs_bounded::<K, V>(pv@, kencs@, vencs@);
    }
    let mut data: Vec<u8> = Vec::new();
    append_sizes(&mut data, &kencs);
    append_sizes(&mut data, &vencs);
    append_encs(&mut data, &kencs);
    append_encs(&mut data, &vencs);
    proof {
        let kes = Seq::new(kencs@.len(), |j: int| (kencs@[j])@);
        let ves = Seq::new(vencs@.len(), |j: int| (vencs@[j])@);
        lemma_cat_pointwise(pv@, kes, piece_size(), key_size_enc::<K, V>());
        lemma_cat_pointwise(pv@, ves, piece_size(), val_size_enc::<K, V>());
        lemma_cat_pointwise(pv@, kes, piece_id(), key_enc::<K, V>());
        lemma_cat_pointwise(pv@, ves, piece_id(), val_enc::<K, V>());
        assert(data@ =~= dict_all_data::<K, V>(pv@));
    }
    data
}

/// The encodings built by `encode_sides` keep the item widths the wire
/// can carry, and match the spec closures pointwise.
proof fn lemma_encs_bounded<K: CollectionItem, V: CollectionItem>(
    pv: Seq<(K::V, V::V)>,
    kes: Seq<Vec<u8>>,
    ves: Seq<Vec<u8>>,
)
    requires
        all_pairs_wf::<K, V>(pv),
        kes.len() == pv.len(),
        ves.len() == pv.len(),
        forall|j: int| 0 <= j < pv.len() ==> (#[trigger] kes[j])@ == K::enc_of(pv[j].0),
        forall|j: int| 0 <= j < pv.len() ==> (#[trigger] ves[j])@ == V::enc_of(pv[j].1),
    ensures
        forall|j: int| 0 <= j < kes.len() ==> (#[trigger] kes[j])@.len() <= 0xFFFF,
        forall|j: int| 0 <= j < ves.len() ==> (#[trigger] ves[j])@.len() <= 0xFFFF,
        forall|j: int| 0 <= j < pv.len() ==> piece_size()((#[trigger] kes[j])@)
            == key_size_enc::<K, V>()(pv[j]),
        forall|j: int| 0 <= j < pv.len() ==> piece_size()((#[trigger] ves[j])@)
            == val_size_enc::<K, V>()(pv[j]),
        forall|j: int| 0 <= j < pv.len() ==> piece_id()((#[trigger] kes[j])@)
            == key_enc::<K, V>()(pv[j]),
        forall|j: int| 0 <= j < pv.len() ==> piece_id()((#[trigger] ves[j])@)
            == val_enc::<K, V>()(pv[j]),
{
    assert forall|j: int| 0 <= j < pv.len() implies (#[trigger] kes[j])@.len() <= 0xFFFF
        && piece_size()(kes[j]@) == key_size_enc::<K, V>()(pv[j]) && piece_id()(kes[j]@)
        == key_enc::<K, V>()(pv[j]) by {
        assert(K::wf_of(pv[j].0) && V::wf_of(pv[j].1));
        K::lemma_item(pv[j].0);
    }
    assert forall|j: int| 0 <= j < pv.len() implies (#[trigger] ves[j])@.len() <= 0xFFFF
        && piece_size()(ves[j]@) == val_size_enc::<K, V>()(pv[j]) && piece_id()(ves[j]@)
        == val_enc::<K, V>()(pv[j]) by {
        assert(K::wf_of(pv[j].0) && V::wf_of(pv[j].1));
        V::lemma_item(pv[j].1);
    }
}

/// Payload of an `All` message whose keys are dynamic and values fixed.
fn encode_key_dynamic<K: CollectionItem, V: CollectionItem>(
    pairs: &Vec<(K, V)>,
    pv: Ghost<Seq<(K::V, V::V)>>,
) -> (r: Vec<u8>)
    requires
        K::fixed_size() == 0,
        V::fixed_size() > 0,
        pv@ == Seq::new(pairs@.len(), |i: int| (pairs@[i].0@, pairs@[i].1@)),
        all_pairs_wf::<K, V>(pv@),
    ensures
        r@ == dict_all_data::<K, V>(pv@),
{
    let (kencs, vencs) = encode_sides::<K, V>(pairs, pv);
    proof {
        lemma_encs_bounded::<K, V>(pv@, kencs@, vencs@);
    }
    let mut data: Vec<u8> = Vec::new();
    append_sizes(&mut data, &kencs);
    append_encs(&mut data, &vencs);
    append_encs(&mut data, &kencs);
    proof {
        let kes = Seq::new(kencs@.len(), |j: int| (kencs@[j])@);
        let ves = Seq::new(vencs@.len(), |j: int| (vencs@[j])@);
        lemma_cat_pointwise(pv@, kes, piece_size(), key_size_enc::<K, V>());
        lemma_cat_pointwise(pv@, kes, piece_id(), key_enc::<K, V>());
        lemma_cat_pointwise(pv@, ves, piece_id(), val_enc::<K, V>());
        assert(data@ =~= dict_all_data::<K, V>(pv@));
    }
    data
}

/// Payload of an `All` message whose values are dynamic and keys fixed.
fn encode_val_dynamic<K: CollectionItem, V: CollectionItem>(
    pairs: &Vec<(K, V)>,
    pv: Ghost<Seq<(K::V, V::V)>>,
) -> (r: Vec<u8>)
    requires
        K::fixed_size() > 0,
        V::fixed_size() == 0,
        pv@ == Seq::new(pairs@.len(), |i: int| (pairs@[i].0@, pairs@[i].1@)),
        all_pairs_wf::<K, V>(pv@),
    ensures
        r@ == dict_all_data::<K, V>(pv@),
{
    let (kencs, vencs) = encode_sides::<K, V>(pairs, pv);
    proof {
        lemma_encs_bounded::<K, V>(pv@, kencs@, vencs@);
    }
    let mut data: Vec<u8> = Vec::new();
    append_sizes(&mut data, &vencs);
    append_encs(&mut data, &kencs);
    append_encs(&mut data, &vencs);
    proof {
        let kes = Seq::new(kencs@.len(), |j: int| (kencs@[j])@);
        let ves = Seq::new(vencs@.len(), |j: int| (vencs@[j])@);
        lemma_cat_pointwise(pv@, ves, piece_size(), val_size_enc::<K, V>());
        lemma_cat_pointwise(pv@, kes, piece_id(), key_enc::<K, V>());
        lemma_cat_pointwise(pv@, ves, piece_id(), val_enc::<K, V>());
        assert(data@ =~= dict_all_data::<K, V>(pv@));
    }
    data
}

/// Reads `count` little-endian `u16` sizes at `off`, with their sum.
pub(crate) fn read_sizes(d: &[u8], off: usize, count: usize) -> (r: (Vec<u16>, u128))
    requires
        off + 2 * count <= d@.len(),
    ensures
        r.0@.len() == count,
        forall|j: int| 0 <= j < count ==> (#[trigger] r.0@[j]) as int == parse_sizes(
            d@,
            off as int,
            count as int,
        )[j],
        r.1 as int == sum(parse_sizes(d@, off as int, count as int)),
        r.1 <= count as u128 * 0xFFFF,
{
    let ghost ss = parse_sizes(d@, off as int, count as int);
    proof {
        assert forall|j: int| 0 <= j < count implies 0 <= #[trigger] ss[j] <= 0xFFFF by {
            assert(ss[j] == vstd::bytes::spec_u16_from_le_bytes(
                d@.subrange(off + 2 * j, off + 2 * j + 2),
            ) as int);
        }
    }
    // learning the slice's length bounds the positions below
    let _bound: usize = d.len();
    let mut sizes: Vec<u16> = Vec::new();
    let mut total: u128 = 0;
    let mut i: usize = 0;
    while i < count
        invariant
            i <= count,
            off + 2 * count <= d@.len(),
            d@.len() <= usize::MAX,
            ss == parse_sizes(d@, off as int, count as int),
            forall|j: int| 0 <= j < count ==> 0 <= #[trigger] ss[j] <= 0xFFFF,
            sizes@.len() == i,
            forall|j: int| 0 <= j < i ==> (#[trigger] sizes@[j]) as int == ss[j],
            total as int == sum(ss.take(i as int)),
            total <= i as u128 * 0xFFFF,
        decreases count - i,
    {
        let sz = vstd::bytes::u16_from_le_bytes(
            vstd::slice::slice_subrange(d, off + 2 * i, off + 2 * i + 2),
        );
        proof {
            assert(ss[i as int] == vstd::bytes::spec_u16_from_le_bytes(
                d@.subrange(off + 2 * i, off + 2 * i + 2),
            ) as int);
            lemma_sum_take_succ(ss, i as int);
            assert((i + 1) as u128 * 0xFFFF == i as u128 * 0xFFFF + 0xFFFF) by (nonlinear_arith);
        }
        sizes.push(sz);
        total = total + sz as u128;
        i += 1;
    }
    proof {
        assert(ss.take(count as int) =~= ss);
    }
    (sizes, total)
}

/// Reads a run of dynamic items whose widths are `sizes`, starting at
/// `base`.
pub(crate) fn read_dyn_items<T: CollectionItem>(d: &[u8], base: usize, sizes: &Vec<u16>, ss: Ghost<Seq<int>>)
    -> (r: Vec<T>)
    requires
        T::fixed_size() == 0,
        ss@.len() == sizes@.len(),
        forall|j: int| 0 <= j < sizes@.len() ==> (#[trigger] sizes@[j]) as int == ss@[j],
        base + sum(ss@) <= d@.len(),
    ensures
        r@.len() == sizes@.len(),
        forall|j: int| 0 <= j < sizes@.len() ==> (#[trigger] r@[j])@ == T::dec_to(
            dyn_piece(d@, base as int, ss@, j),
        ),
        forall|j: int| 0 <= j < sizes@.len() ==> T::wf_of((#[trigger] r@[j])@),
{
    let count = sizes.len();
    proof {
        assert forall|j: int| 0 <= j < count implies 0 <= #[trigger] ss@[j] <= 0xFFFF by {
            assert(sizes@[j] as int == ss@[j]);
        }
        lemma_sum_bounds(ss@, 0);
    }
    // learning the slice's length bounds the positions below
    let _bound: usize = d.len();
    let mut items: Vec<T> = Vec::new();
    let mut pos: usize = base;
    let mut i: usize = 0;
    while i < count
        invariant
            i <= count,
            T::fixed_size() == 0,
            count == sizes@.len(),
            ss@.len() == sizes@.len(),
            forall|j: int| 0 <= j < sizes@.len() ==> (#[trigger] sizes@[j]) as int == ss@[j],
            forall|j: int| 0 <= j < count ==> 0 <= #[trigger] ss@[j] <= 0xFFFF,
            base + sum(ss@) <= d@.len(),
            d@.len() <= usize::MAX,
            pos as int == base + sum(ss@.take(i as int)),
            items@.len() == i,
            forall|j: int| 0 <= j < i ==> (#[trigger] items@[j])@ == T::dec_to(
                dyn_piece(d@, base as int, ss@, j),
            ),
            forall|j: int| 0 <= j < i ==> T::wf_of((#[trigger] items@[j])@),
        decreases count - i,
    {
        proof {
            lemma_sum_take_succ(ss@, i as int);
            lemma_sum_bounds(ss@, i as int + 1);
        }
        let w = sizes[i] as usize;
        let item = T::read_item(d, pos, w);
        items.push(item);
        pos = pos + w;
        i += 1;
    }
    items
}

/// Reads a run of `count` fixed-size items starting at `base`.
pub(crate) fn read_fixed_items<T: CollectionItem>(d: &[u8], base: usize, count: usize) -> (r: Vec<T>)
    requires
        T::fixed_size() > 0,
        base + count * T::fixed_size() <= d@.len(),
    ensures
        r@.len() == count,
        forall|j: int| 0 <= j < count ==> (#[trigger] r@[j])@ == T::dec_to(
            d@.subrange(
                base + j * T::fixed_size(),
                base + (j + 1) * T::fixed_size(),
            ),
        ),
        forall|j: int| 0 <= j < count ==> T::wf_of((#[trigger] r@[j])@),
{
    let w = T::size();
    proof {
        T::lemma_item(vstd::pervasive::arbitrary());
        assert(T::fixed_size() <= 0xFFFF);
    }
    // learning the slice's length bounds the positions below
    let _bound: usize = d.len();
    let mut items: Vec<T> = Vec::new();
    let mut pos: usize = base;
    let mut i: usize = 0;
    while i < count
        invariant
            i <= count,
            w == T::fixed_size(),
            0 < w <= 0xFFFF,
            base + count * w <= d@.len(),
            d@.len() <= usize::MAX,
            pos as int == base + i * w,
            items@.len() == i,
            forall|j: int| 0 <= j < i ==> (#[trigger] items@[j])@ == T::dec_to(
                d@.subrange(base + j * w, base + (j + 1) * w),
            ),
            forall|j: int| 0 <= j < i ==> T::wf_of((#[trigger] items@[j])@),
        decreases count - i,
    {
        proof {
            assert((i + 1) * w <= count * w) by (nonlinear_arith)
                requires i < count, w > 0;
            assert(i * w + w == (i + 1) * w) by (nonlinear_arith);
        }
        let item = T::read_item(d, pos, w);
        items.push(item);
        pos = pos + w;
        i += 1;
    }
    items
}

/// Decodes a fixed/fixed `All` payload of `count64` entries.
fn decode_all_fixed<K: CollectionItem, V: CollectionItem>(d: &Vec<u8>, count64: u64) -> (r: Result<
    Vec<(K, V)>,
    String,
>)
    requires
        K::fixed_size() > 0,
        V::fixed_size() > 0,
        count64 > 0,
    ensures
        r is Ok <==> dict_all_dec::<K, V>(d@, count64 as int) is Some,
        r matches Ok(pairs) ==> dict_all_dec::<K, V>(d@, count64 as int) == Some(
            pairs_view(pairs@),
        ),
        r matches Ok(pairs) ==> all_pairs_wf::<K, V>(pairs_view(pairs@)),
{
    let kw = K::size();
    let vw = V::size();
    let dl = d.len();
    let ghost cnt = count64 as int;
    let ghost bwi = K::fixed_size() + V::fixed_size();
    if count64 > dl as u64 || kw as u128 + vw as u128 > dl as u128 {
        proof {
            assert(cnt * bwi != dl as int) by (nonlinear_arith)
                requires
                    cnt >= 1,
                    bwi >= 2,
                    (cnt > dl as int) || (bwi > dl as int),
                    dl as int >= 0,
            ;
        }
        return Err("Dict data is corrupted.".to_owned());
    }
    let count = count64 as usize;
    proof {
        assert((count as u128) * (kw as u128 + vw as u128) <= u128::MAX) by (nonlinear_arith)
            requires
                count as u128 <= 0xFFFF_FFFF_FFFF_FFFFu128,
                kw as u128 + vw as u128 <= 0xFFFF_FFFF_FFFF_FFFFu128,
        ;
    }
    if (count as u128) * (kw as u128 + vw as u128) != dl as u128 {
        proof {
            assert((count as u128) * (kw as u128 + vw as u128) == cnt * bwi) by (nonlinear_arith)
                requires
                    count as int == cnt,
                    kw as int + vw as int == bwi,
                    cnt <= dl as int,
                    bwi <= dl as int,
                    dl <= u64::MAX,
            ;
        }
        return Err("Dict data is corrupted.".to_owned());
    }
    proof {
        assert((count as u128) * (kw as u128 + vw as u128) == cnt * bwi) by (nonlinear_arith)
            requires
                count as int == cnt,
                kw as int + vw as int == bwi,
                cnt <= dl as int,
                bwi <= dl as int,
                dl <= u64::MAX,
        ;
    }
    let bw = kw + vw;
    proof {
        K::lemma_item(vstd::pervasive::arbitrary());
        V::lemma_item(vstd::pervasive::arbitrary());
    }
    // learning the slice's length bounds the positions below
    let _bound: usize = d.len();
    let mut pairs: Vec<(K, V)> = Vec::new();
    let mut pos: usize = 0;
    let mut i: usize = 0;
    while i < count
        invariant
            i <= count,
            kw == K::fixed_size(),
            vw == V::fixed_size(),
            0 < kw <= 0xFFFF,
            0 < vw <= 0xFFFF,
            bw == kw + vw,
            bwi == kw + vw,
            count * bw == d@.len(),
            d@.len() <= usize::MAX,
            pos as int == i * bwi,
            pairs@.len() == i,
            forall|j: int| 0 <= j < i ==> (#[trigger] pairs@[j]).0@ == K::dec_to(
                d@.subrange(j * bwi, j * bwi + K::fixed_size()),
            ) && pairs@[j].1@ == V::dec_to(d@.subrange(j * bwi + K::fixed_size(), (j + 1) * bwi)),
            forall|j: int| 0 <= j < i ==> K::wf_of((#[trigger] pairs@[j]).0@) && V::wf_of(
                pairs@[j].1@,
            ),
        decreases count - i,
    {
        proof {
            assert((i + 1) * bwi <= count * bwi) by (nonlinear_arith)
                requires i < count, bwi > 0;
            assert(i * bwi + bwi == (i + 1) * bwi) by (nonlinear_arith);
            assert(count * bwi == count * (kw + vw));
        }
        let k = K::read_item(d.as_slice(), pos, kw);
        let v = V::read_item(d.as_slice(), pos + kw, vw);
        pairs.push((k, v));
        pos = pos + bw;
        i += 1;
    }
    proof {
        assert(pairs_view(pairs@) =~= dec_pairs_fixed::<K, V>(d@, cnt));
    }
    Ok(pairs)
}

/// Decodes an `All` payload whose keys and values are both dynamic.
fn decode_all_dyn2<K: CollectionItem, V: CollectionItem>(d: &Vec<u8>, count64: u64) -> (r: Result<
    Vec<(K, V)>,
    String,
>)
    requires
        K::fixed_size() == 0,
        V::fixed_size() == 0,
        count64 > 0,
    ensures
        r is Ok <==> dict_all_dec::<K, V>(d@, count64 as int) is Some,
        r matches Ok(pairs) ==> dict_all_dec::<K, V>(d@, count64 as int) == Some(
            pairs_view(pairs@),
        ),
        r matches Ok(pairs) ==> all_pairs_wf::<K, V>(pairs_view(pairs@)),
{
    let dl = d.len();
    let ghost cnt = count64 as int;
    if 4u128 * count64 as u128 > dl as u128 {
        return Err("Dict data is corrupted.".to_owned());
    }
    let count = count64 as usize;
    let (ks, ksum) = read_sizes(d.as_slice(), 0, count);
    let (vs, vsum) = read_sizes(d.as_slice(), 2 * count, count);
    let ghost kss = parse_sizes(d@, 0, cnt);
    let ghost vss = parse_sizes(d@, 2 * cnt, cnt);
    if 4 * count as u128 + ksum + vsum != dl as u128 {
        return Err("Dict data is corrupted.".to_owned());
    }
    proof {
        lemma_sum_bounds(kss, 0);
        lemma_sum_bounds(vss, 0);
        assert(kss.take(0) =~= Seq::<int>::empty());
    }
    let keys: Vec<K> = read_dyn_items::<K>(d.as_slice(), 4 * count, &ks, Ghost(kss));
    let vals: Vec<V> = read_dyn_items::<V>(
        d.as_slice(),
        4 * count + ksum as usize,
        &vs,
        Ghost(vss),
    );
    let mut pairs: Vec<(K, V)> = Vec::new();
    let mut i: usize = 0;
    while i < count
        invariant
            i <= count,
            keys@.len() == count,
            vals@.len() == count,
            pairs@.len() == i,
            forall|j: int| 0 <= j < i ==> (#[trigger] pairs@[j]).0@ == keys@[j]@
                && pairs@[j].1@ == vals@[j]@,
        decreases count - i,
    {
        let k = keys[i].clone_item();
        let v = vals[i].clone_item();
        pairs.push((k, v));
        i += 1;
    }
    proof {
        let expected = dict_all_dec::<K, V>(d@, cnt).unwrap();
        assert forall|j: int| 0 <= j < cnt implies pairs_view(pairs@)[j] == #[trigger] expected[j]
            by {
            assert(pairs@[j].0@ == keys@[j]@);
            assert(keys@[j]@ == K::dec_to(dyn_piece(d@, 4 * cnt, kss, j)));
            assert(vals@[j]@ == V::dec_to(dyn_piece(d@, 4 * cnt + sum(kss), vss, j)));
        }
        assert(pairs_view(pairs@) =~= expected);
        assert forall|j: int| 0 <= j < cnt implies K::wf_of(
            #[trigger] pairs_view(pairs@)[j].0,
        ) && V::wf_of(pairs_view(pairs@)[j].1) by {
            assert(pairs@[j].0@ == keys@[j]@ && pairs@[j].1@ == vals@[j]@);
            assert(K::wf_of(keys@[j]@));
            assert(V::wf_of(vals@[j]@));
        }
    }
    Ok(pairs)
}

/// Decodes an `All` payload whose keys are dynamic and values fixed.
fn decode_all_kdyn<K: CollectionItem, V: CollectionItem>(d: &Vec<u8>, count64: u64) -> (r: Result<
    Vec<(K, V)>,
    String,
>)
    requires
        K::fixed_size() == 0,
        V::fixed_size() > 0,
        count64 > 0,
    ensures
        r is Ok <==> dict_all_dec::<K, V>(d@, count64 as int) is Some,
        r matches Ok(pairs) ==> dict_all_dec::<K, V>(d@, count64 as int) == Some(
            pairs_view(pairs@),
        ),
        r matches Ok(pairs) ==> all_pairs_wf::<K, V>(pairs_view(pairs@)),
{
    let vw = V::size();
    let dl = d.len();
    let ghost cnt = count64 as int;
    if 2u128 * count64 as u128 > dl as u128 {
        return Err("Dict data is corrupted.".to_owned());
    }
    let count = count64 as usize;
    let (ks, ksum) = read_sizes(d.as_slice(), 0, count);
    let ghost kss = parse_sizes(d@, 0, cnt);
    proof {
        assert((count as u128) * (vw as u128) <= 0x8000_0000_0000_0000u128
            * 0xFFFF_FFFF_FFFF_FFFFu128) by (nonlinear_arith)
            requires
                count as u128 <= 0x8000_0000_0000_0000u128,
                vw as u128 <= 0xFFFF_FFFF_FFFF_FFFFu128,
        ;
        lemma_sum_bounds(kss, 0);
    }
    let cv: u128 = (count as u128) * (vw as u128);
    if 2 * count as u128 + cv + ksum != dl as u128 {
        proof {
            assert(cv as int == cnt * V::fixed_size()) by (nonlinear_arith)
                requires
                    cv as int == (count as int) * (vw as int),
                    count as int == cnt,
                    vw as int == V::fixed_size() as int,
            ;
        }
        return Err("Dict data is corrupted.".to_owned());
    }
    proof {
        assert(cv as int == cnt * V::fixed_size()) by (nonlinear_arith)
            requires
                cv as int == (count as int) * (vw as int),
                count as int == cnt,
                vw as int == V::fixed_size() as int,
        ;
    }
    let vals: Vec<V> = read_fixed_items::<V>(d.as_slice(), 2 * count, count);
    let keys: Vec<K> = read_dyn_items::<K>(
        d.as_slice(),
        2 * count + cv as usize,
        &ks,
        Ghost(kss),
    );
    let mut pairs: Vec<(K, V)> = Vec::new();
    let mut i: usize = 0;
    while i < count
        invariant
            i <= count,
            keys@.len() == count,
            vals@.len() == count,
            pairs@.len() == i,
            forall|j: int| 0 <= j < i ==> (#[trigger] pairs@[j]).0@ == keys@[j]@
                && pairs@[j].1@ == vals@[j]@,
        decreases count - i,
    {
        let k = keys[i].clone_item();
        let v = vals[i].clone_item();
        pairs.push((k, v));
        i += 1;
    }
    proof {
        let expected = dict_all_dec::<K, V>(d@, cnt).unwrap();
        assert forall|j: int| 0 <= j < cnt implies pairs_view(pairs@)[j] == #[trigger] expected[j]
            by {
            assert(pairs@[j].0@ == keys@[j]@ && pairs@[j].1@ == vals@[j]@);
            assert(keys@[j]@ == K::dec_to(dyn_piece(d@, 2 * cnt + cnt * V::fixed_size(), kss, j)));
            assert(vals@[j]@ == V::dec_to(
                d@.subrange(2 * cnt + j * V::fixed_size(), 2 * cnt + (j + 1) * V::fixed_size()),
            ));
        }
        assert(pairs_view(pairs@) =~= expected);
        assert forall|j: int| 0 <= j < cnt implies K::wf_of(
            #[trigger] pairs_view(pairs@)[j].0,
        ) && V::wf_of(pairs_view(pairs@)[j].1) by {
            assert(pairs@[j].0@ == keys@[j]@ && pairs@[j].1@ == vals@[j]@);
            assert(K::wf_of(keys@[j]@));
            assert(V::wf_of(vals@[j]@));
        }
    }
    Ok(pairs)
}

/// Decodes an `All` payload whose values are dynamic and keys fixed.
fn decode_all_vdyn<K: CollectionItem, V: CollectionItem>(d: &Vec<u8>, count64: u64) -> (r: Result<
    Vec<(K, V)>,
    String,
>)
    requires
        K::fixed_size() > 0,
        V::fixed_size() == 0,
        count64 > 0,
    ensures
        r is Ok <==> dict_all_dec::<K, V>(d@, count64 as int) is Some,
        r matches Ok(pairs) ==> dict_all_dec::<K, V>(d@, count64 as int) == Some(
            pairs_view(pairs@),
        ),
        r matches Ok(pairs) ==> all_pairs_wf::<K, V>(pairs_view(pairs@)),
{
    let kw = K::size();
    let dl = d.len();
    let ghost cnt = count64 as int;
    if 2u128 * count64 as u128 > dl as u128 {
        return Err("Dict data is corrupted.".to_owned());
    }
    let count = count64 as usize;
    let (vs, vsum) = read_sizes(d.as_slice(), 0, count);
    let ghost vss = parse_sizes(d@, 0, cnt);
    proof {
        assert((count as u128) * (kw as u128) <= 0x8000_0000_0000_0000u128
            * 0xFFFF_FFFF_FFFF_FFFFu128) by (nonlinear_arith)
            requires
                count as u128 <= 0x8000_0000_0000_0000u128,
                kw as u128 <= 0xFFFF_FFFF_FFFF_FFFFu128,
        ;
        lemma_sum_bounds(vss, 0);
    }
    let ck: u128 = (count as u128) * (kw as u128);
    if 2 * count as u128 + ck + vsum != dl as u128 {
        proof {
            assert(ck as int == cnt * K::fixed_size()) by (nonlinear_arith)
                requires
                    ck as int == (count as int) * (kw as int),
                    count as int == cnt,
                    kw as int == K::fixed_size() as int,
            ;
        }
        return Err("Dict data is corrupted.".to_owned());
    }
    proof {
        assert(ck as int == cnt * K::fixed_size()) by (nonlinear_arith)
            requires
                ck as int == (count as int) * (kw as int),
                count as int == cnt,
                kw as int == K::fixed_size() as int,
        ;
    }
    let keys: Vec<K> = read_fixed_items::<K>(d.as_slice(), 2 * count, count);
    let vals: Vec<V> = read_dyn_items::<V>(
        d.as_slice(),
        2 * count + ck as usize,
        &vs,
        Ghost(vss),
    );
    let mut pairs: Vec<(K, V)> = Vec::new();
    let mut i: usize = 0;
    while i < count
        invariant
            i <= count,
            keys@.len() == count,
            vals@.len() == count,
            pairs@.len() == i,
            forall|j: int| 0 <= j < i ==> (#[trigger] pairs@[j]).0@ == keys@[j]@
                && pairs@[j].1@ == vals@[j]@,
        decreases count - i,
    {
        let k = keys[i].clone_item();
        let v = vals[i].clone_item();
        pairs.push((k, v));
        i += 1;
    }
    proof {
        let expected = dict_all_dec::<K, V>(d@, cnt).unwrap();
        assert forall|j: int| 0 <= j < cnt implies pairs_view(pairs@)[j] == #[trigger] expected[j]
            by {
            assert(pairs@[j].0@ == keys@[j]@ && pairs@[j].1@ == vals@[j]@);
            assert(vals@[j]@ == V::dec_to(dyn_piece(d@, 2 * cnt + cnt * K::fixed_size(), vss, j)));
            assert(keys@[j]@ == K::dec_to(
                d@.subrange(2 * cnt + j * K::fixed_size(), 2 * cnt + (j + 1) * K::fixed_size()),
            ));
        }
        assert(pairs_view(pairs@) =~= expected);
        assert forall|j: int| 0 <= j < cnt implies K::wf_of(
            #[trigger] pairs_view(pairs@)[j].0,
        ) && V::wf_of(pairs_view(pairs@)[j].1) by {
            assert(pairs@[j].0@ == keys@[j]@ && pairs@[j].1@ == vals@[j]@);
            assert(K::wf_of(keys@[j]@));
            assert(V::wf_of(vals@[j]@));
        }
    }
    Ok(pairs)
}

impl<K: CollectionItem, V: CollectionItem> DictMessage<K, V> {
    /// Parses a dictionary sub-header and payload; the exact inverse of
    /// `write_message`, failing on every other byte shape.
    pub fn read_message(head: &[u8], data: Option<Vec<u8>>) -> (r: Result<
        DictMessage<K, V>,
        String,
    >)
        ensures
            r is Ok <==> dict_dec::<K, V>(head@, opt_view(data)) is Some,
            r matches Ok(m) ==> dict_dec::<K, V>(head@, opt_view(data)) == Some(m@),
            r matches Ok(m) ==> dict_wf::<K, V>(m@),
    {
        if head.len() != MESS_SIZE {
            return Err("Wrong dict head length.".to_owned());
        }
        let kw = K::size();
        let vw = V::size();
        let tag = *vstd::slice::slice_index_get(head, 0);
        if tag == DICT_ALL {
            let count64 = vstd::bytes::u64_from_le_bytes(vstd::slice::slice_subrange(head, 1, 9));
            if count64 == 0 {
                match data {
                    None => {
                        let pairs: Vec<(K, V)> = Vec::new();
                        proof {
                            assert(pairs_view(pairs@) =~= Seq::<(K::V, V::V)>::empty());
                        }
                        Ok(DictMessage::All(pairs))
                    },
                    Some(_) => Err("Dict got data but should be empty.".to_owned()),
                }
            } else {
                match data {
                    None => Err("Dict data is missing.".to_owned()),
                    Some(d) => {
                        let pairs = if kw > 0 && vw > 0 {
                            decode_all_fixed::<K, V>(&d, count64)
                        } else if kw == 0 && vw == 0 {
                            decode_all_dyn2::<K, V>(&d, count64)
                        } else if kw == 0 {
                            decode_all_kdyn::<K, V>(&d, count64)
                        } else {
                            decode_all_vdyn::<K, V>(&d, count64)
                        };
                        match pairs {
                            Ok(pairs) => Ok(DictMessage::All(pairs)),
                            Err(e) => Err(e),
                        }
                    },
                }
            }
        } else if tag == DICT_SET {
            if kw > 0 && vw > 0 && kw <= 25 && vw <= 25 && kw + vw < MESS_SIZE {
                match data {
                    None => {
                        proof {
                            K::lemma_item(vstd::pervasive::arbitrary());
                            V::lemma_item(vstd::pervasive::arbitrary());
                        }
                        let k = K::read_item(head, 1, kw);
                        let v = V::read_item(head, 1 + kw, vw);
                        Ok(DictMessage::Put(k, v))
                    },
                    Some(_) => Err("Dict set got unexpected data.".to_owned()),
                }
            } else {
                match data {
                    None => Err("Dict set data is missing.".to_owned()),
                    Some(d) => {
                        proof {
                            K::lemma_item(vstd::pervasive::arbitrary());
                            V::lemma_item(vstd::pervasive::arbitrary());
                        }
                        let dl = d.len();
                        if kw == 0 {
                            if dl < 2 {
                                return Err("Dict set data is corrupted.".to_owned());
                            }
                            let klen = vstd::bytes::u16_from_le_bytes(
                                vstd::slice::slice_subrange(d.as_slice(), 0, 2),
                            ) as usize;
                            if vw > 0 {
                                if dl as u128 != 2 + klen as u128 + vw as u128 {
                                    return Err("Dict set data is corrupted.".to_owned());
                                }
                                let k = K::read_item(d.as_slice(), 2, klen);
                                let v = V::read_item(d.as_slice(), 2 + klen, vw);
                                Ok(DictMessage::Put(k, v))
                            } else {
                                if 2 + klen > dl || dl - (2 + klen) > 0xFFFF {
                                    return Err("Dict set data is corrupted.".to_owned());
                                }
                                let k = K::read_item(d.as_slice(), 2, klen);
                                let v = V::read_item(d.as_slice(), 2 + klen, dl - (2 + klen));
                                Ok(DictMessage::Put(k, v))
                            }
                        } else if vw == 0 {
                            if dl < kw || dl - kw > 0xFFFF {
                                return Err("Dict set data is corrupted.".to_owned());
                            }
                            let k = K::read_item(d.as_slice(), 0, kw);
                            let v = V::read_item(d.as_slice(), kw, dl - kw);
                            Ok(DictMessage::Put(k, v))
                        } else {
                            if dl as u128 != kw as u128 + vw as u128 {
                                return Err("Dict set data is corrupted.".to_owned());
                            }
                            let k = K::read_item(d.as_slice(), 0, kw);
                            let v = V::read_item(d.as_slice(), kw, vw);
                            Ok(DictMessage::Put(k, v))
                        }
                    },
                }
            }
        } else if tag == DICT_REMOVE {
            if kw > 0 && kw < MESS_SIZE {
                match data {
                    None => {
                        proof {
                            K::lemma_item(vstd::pervasive::arbitrary());
                        }
                        let k = K::read_item(head, 1, kw);
                        proof {
                            assert(head@.subrange(1, 1 + kw as int) == head@.subrange(
                                1 as int,
                                1 + kw,
                            ));
                        }
                        Ok(DictMessage::Remove(k))
                    },
                    Some(_) => Err("Dict remove got unexpected data.".to_owned()),
                }
            } else {
                match data {
                    None => Err("Dict remove data is missing.".to_owned()),
                    Some(d) => {
                        proof {
                            K::lemma_item(vstd::pervasive::arbitrary());
                        }
                        let dl = d.len();
                        if kw > 0 {
                            if dl != kw {
                                return Err("Dict remove data is corrupted.".to_owned());
                            }
                            let k = K::read_item(d.as_slice(), 0, kw);
                            proof {
                                assert(d@.subrange(0, dl as int) =~= d@);
                            }
                            Ok(DictMessage::Remove(k))
                        } else {
                            if dl > 0xFFFF {
                                return Err("Dict remove data is corrupted.".to_owned());
                            }
                            let k = K::read_item(d.as_slice(), 0, dl);
                            proof {
                                assert(d@.subrange(0, dl as int) =~= d@);
                            }
                            Ok(DictMessage::Remove(k))
                        }
                    },
                }
            }
        } else {
            Err("Unknown type of the dict message.".to_owned())
        }
    }
}

/// Every encoding of a fixed-size pair has the same width, and every
/// width encoding is two bytes.
proof fn lemma_enc_widths<K: CollectionItem, V: CollectionItem>(pairs: Seq<(K::V, V::V)>)
    requires
        all_pairs_wf::<K, V>(pairs),
    ensures
        forall|p: (K::V, V::V)| #[trigger] key_size_enc::<K, V>()(p).len() == 2,
        forall|p: (K::V, V::V)| #[trigger] val_size_enc::<K, V>()(p).len() == 2,
        forall|p: (K::V, V::V)| #[trigger]
            pair_enc::<K, V>()(p).len() == K::fixed_size() + V::fixed_size()
            || K::fixed_size() == 0 || V::fixed_size() == 0,
        K::fixed_size() > 0 ==> forall|p: (K::V, V::V)| #[trigger]
            key_enc::<K, V>()(p).len() == K::fixed_size(),
        V::fixed_size() > 0 ==> forall|p: (K::V, V::V)| #[trigger]
            val_enc::<K, V>()(p).len() == V::fixed_size(),
        forall|i: int| 0 <= i < pairs.len() ==> #[trigger] key_enc::<K, V>()(pairs[i]).len()
            <= 0xFFFF,
        forall|i: int| 0 <= i < pairs.len() ==> #[trigger] val_enc::<K, V>()(pairs[i]).len()
            <= 0xFFFF,
{
    vstd::bytes::lemma_auto_spec_u16_to_from_le_bytes();
    assert forall|p: (K::V, V::V)| #[trigger] key_size_enc::<K, V>()(p).len() == 2 by {}
    assert forall|p: (K::V, V::V)| #[trigger] val_size_enc::<K, V>()(p).len() == 2 by {}
    assert forall|p: (K::V, V::V)| #[trigger]
        pair_enc::<K, V>()(p).len() == K::fixed_size() + V::fixed_size()
        || K::fixed_size() == 0 || V::fixed_size() == 0 by {
        if K::fixed_size() > 0 && V::fixed_size() > 0 {
            K::lemma_item(p.0);
            V::lemma_item(p.1);
        }
    }
    if K::fixed_size() > 0 {
        assert forall|p: (K::V, V::V)| #[trigger] key_enc::<K, V>()(p).len() == K::fixed_size()
            by {
            K::lemma_item(p.0);
        }
    }
    if V::fixed_size() > 0 {
        assert forall|p: (K::V, V::V)| #[trigger] val_enc::<K, V>()(p).len() == V::fixed_size()
            by {
            V::lemma_item(p.1);
        }
    }
    assert forall|i: int| 0 <= i < pairs.len() implies #[trigger]
        key_enc::<K, V>()(pairs[i]).len() <= 0xFFFF by {
        assert(K::wf_of(pairs[i].0) && V::wf_of(pairs[i].1));
        K::lemma_item(pairs[i].0);
    }
    assert forall|i: int| 0 <= i < pairs.len() implies #[trigger]
        val_enc::<K, V>()(pairs[i]).len() <= 0xFFFF by {
        assert(K::wf_of(pairs[i].0) && V::wf_of(pairs[i].1));
        V::lemma_item(pairs[i].1);
    }
}

/// Decoding a fixed/fixed `All` payload yields the entries that were
/// encoded.
proof fn lemma_all_round_fixed<K: CollectionItem, V: CollectionItem>(pairs: Seq<(K::V, V::V)>)
    requires
        all_pairs_wf::<K, V>(pairs),
        K::fixed_size() > 0,
        V::fixed_size() > 0,
        pairs.len() > 0,
    ensures
        dict_all_dec::<K, V>(dict_all_data::<K, V>(pairs), pairs.len() as int) == Some(pairs),
{
    let kw = K::fixed_size() as int;
    let vw = V::fixed_size() as int;
    let bw = kw + vw;
    let n = pairs.len() as int;
    let d = dict_all_data::<K, V>(pairs);
    lemma_enc_widths::<K, V>(pairs);
    lemma_cat_len_const(pairs, pair_enc::<K, V>(), bw);
    assert(d.len() == n * bw);
    let dec = dec_pairs_fixed::<K, V>(d, n);
    assert forall|i: int| 0 <= i < n implies #[trigger] dec[i] == pairs[i] by {
        lemma_cat_index_const(pairs, pair_enc::<K, V>(), bw, i);
        assert(d.subrange(i * bw, i * bw + bw) == K::enc_of(pairs[i].0) + V::enc_of(pairs[i].1));
        assert(K::wf_of(pairs[i].0) && V::wf_of(pairs[i].1));
        K::lemma_item(pairs[i].0);
        V::lemma_item(pairs[i].1);
        assert(i * bw + bw == (i + 1) * bw && (i + 1) * bw <= n * bw) by (nonlinear_arith)
            requires 0 <= i < n, bw > 0;
        lemma_subrange_split(d, i * bw, K::enc_of(pairs[i].0), V::enc_of(pairs[i].1));
        assert(d.subrange(i * bw, i * bw + kw) == K::enc_of(pairs[i].0));
        assert(d.subrange(i * bw + kw, (i + 1) * bw) == V::enc_of(pairs[i].1));
    }
    assert(dec =~= pairs);
}

/// The width table sitting behind `pre` in a payload parses back to
/// the widths of the encodings it was written from.
proof fn lemma_parse_sizes_at<K: CollectionItem, V: CollectionItem>(
    pairs: Seq<(K::V, V::V)>,
    pre: Seq<u8>,
    sizes_cat: Seq<u8>,
    rest: Seq<u8>,
    keys: bool,
)
    requires
        all_pairs_wf::<K, V>(pairs),
        keys ==> sizes_cat == cat(pairs, key_size_enc::<K, V>()),
        !keys ==> sizes_cat == cat(pairs, val_size_enc::<K, V>()),
    ensures
        keys ==> parse_sizes(pre + sizes_cat + rest, pre.len() as int, pairs.len() as int)
            == lens_of(pairs, key_enc::<K, V>()),
        !keys ==> parse_sizes(pre + sizes_cat + rest, pre.len() as int, pairs.len() as int)
            == lens_of(pairs, val_enc::<K, V>()),
{
    let n = pairs.len() as int;
    lemma_enc_widths::<K, V>(pairs);
    vstd::bytes::lemma_auto_spec_u16_to_from_le_bytes();
    let f = if keys { key_size_enc::<K, V>() } else { val_size_enc::<K, V>() };
    let g = if keys { key_enc::<K, V>() } else { val_enc::<K, V>() };
    lemma_cat_len_const(pairs, f, 2);
    let ps = parse_sizes(pre + sizes_cat + rest, pre.len() as int, n);
    assert forall|i: int| 0 <= i < n implies #[trigger] ps[i] == lens_of(pairs, g)[i] by {
        lemma_cat_index_const(pairs, f, 2, i);
        lemma_mid_subrange(pre, sizes_cat, rest, 2 * i, 2 * i + 2);
        assert((pre + sizes_cat + rest).subrange(
            pre.len() + 2 * i,
            pre.len() + 2 * i + 2,
        ) == f(pairs[i]));
        assert(f(pairs[i]) == vstd::bytes::spec_u16_to_le_bytes(g(pairs[i]).len() as u16));
        assert(g(pairs[i]).len() <= 0xFFFF);
    }
    assert(ps =~= lens_of(pairs, g));
}

/// The concatenated encodings of one side occupy exactly the stretch
/// between the neighbouring prefix lengths; sums of the width table
/// walk that stretch.
pub(crate) proof fn lemma_dyn_piece_round<A>(d: Seq<u8>, pre: Seq<u8>, body: Seq<u8>, rest: Seq<u8>, s: Seq<
    A,
>, g: spec_fn(A) -> Seq<u8>, i: int)
    requires
        0 <= i < s.len(),
        body == cat(s, g),
        d == pre + body + rest,
    ensures
        dyn_piece(d, pre.len() as int, lens_of(s, g), i) == g(s[i]),
{
    let ls = lens_of(s, g);
    lemma_sum_lens_cat(s, g, i);
    lemma_sum_lens_cat(s, g, i + 1);
    lemma_cat_extract(s, g, i);
    lemma_mid_subrange(pre, body, rest, cat(s.take(i), g).len() as int, cat(
        s.take(i + 1),
        g,
    ).len() as int);
    lemma_cat_take_succ(s, g, i);
    assert(sum(ls.take(i)) + ls[i] == sum(ls.take(i + 1)));
}

/// Decoding an all-dynamic `All` payload yields the entries that were
/// encoded.
#[verifier::rlimit(100)]
#[verifier::spinoff_prover]
proof fn lemma_all_round_dyn2<K: CollectionItem, V: CollectionItem>(pairs: Seq<(K::V, V::V)>)
    requires
        all_pairs_wf::<K, V>(pairs),
        K::fixed_size() == 0,
        V::fixed_size() == 0,
        pairs.len() > 0,
    ensures
        dict_all_dec::<K, V>(dict_all_data::<K, V>(pairs), pairs.len() as int) == Some(pairs),
{
    let n = pairs.len() as int;
    let d = dict_all_data::<K, V>(pairs);
    let ksc = cat(pairs, key_size_enc::<K, V>());
    let vsc = cat(pairs, val_size_enc::<K, V>());
    let kc = cat(pairs, key_enc::<K, V>());
    let vc = cat(pairs, val_enc::<K, V>());
    lemma_enc_widths::<K, V>(pairs);
    lemma_cat_len_const(pairs, key_size_enc::<K, V>(), 2);
    lemma_cat_len_const(pairs, val_size_enc::<K, V>(), 2);
    assert(d == ksc + vsc + kc + vc);
    assert(d =~= Seq::empty() + ksc + (vsc + kc + vc));
    lemma_parse_sizes_at::<K, V>(pairs, Seq::empty(), ksc, vsc + kc + vc, true);
    assert(d =~= ksc + vsc + (kc + vc));
    lemma_parse_sizes_at::<K, V>(pairs, ksc, vsc, kc + vc, false);
    let ks = parse_sizes(d, 0, n);
    let vs = parse_sizes(d, 2 * n, n);
    assert(ks == lens_of(pairs, key_enc::<K, V>()));
    assert(vs == lens_of(pairs, val_enc::<K, V>()));
    lemma_sum_lens_cat(pairs, key_enc::<K, V>(), n);
    lemma_sum_lens_cat(pairs, val_enc::<K, V>(), n);
    assert(pairs.take(n) =~= pairs);
    assert(ks.take(n) =~= ks);
    assert(vs.take(n) =~= vs);
    assert(sum(ks) == kc.len());
    assert(sum(vs) == vc.len());
    assert(d.len() == 4 * n + sum(ks) + sum(vs));
    let expected = dict_all_dec::<K, V>(d, n).unwrap();
    assert forall|i: int| 0 <= i < n implies #[trigger] expected[i] == pairs[i] by {
        assert(d =~= (ksc + vsc) + kc + vc);
        lemma_dyn_piece_round(d, ksc + vsc, kc, vc, pairs, key_enc::<K, V>(), i);
        assert(d =~= (ksc + vsc + kc) + vc + Seq::empty());
        lemma_dyn_piece_round(d, ksc + vsc + kc, vc, Seq::empty(), pairs, val_enc::<K, V>(), i);
        assert(K::wf_of(pairs[i].0) && V::wf_of(pairs[i].1));
        K::lemma_item(pairs[i].0);
        V::lemma_item(pairs[i].1);
    }
    assert(expected =~= pairs);
}

/// Decoding a key-dynamic `All` payload yields the entries that were
/// encoded.
#[verifier::rlimit(100)]
#[verifier::spinoff_prover]
proof fn lemma_all_round_kdyn<K: CollectionItem, V: CollectionItem>(pairs: Seq<(K::V, V::V)>)
    requires
        all_pairs_wf::<K, V>(pairs),
        K::fixed_size() == 0,
        V::fixed_size() > 0,
        pairs.len() > 0,
    ensures
        dict_all_dec::<K, V>(dict_all_data::<K, V>(pairs), pairs.len() as int) == Some(pairs),
{
    let n = pairs.len() as int;
    let vw = V::fixed_size() as int;
    let d = dict_all_data::<K, V>(pairs);
    let ksc = cat(pairs, key_size_enc::<K, V>());
    let vcf = cat(pairs, val_enc::<K, V>());
    let kc = cat(pairs, key_enc::<K, V>());
    lemma_enc_widths::<K, V>(pairs);
    lemma_cat_len_const(pairs, key_size_enc::<K, V>(), 2);
    lemma_cat_len_const(pairs, val_enc::<K, V>(), vw);
    assert(d == ksc + vcf + kc);
    assert(d =~= Seq::empty() + ksc + (vcf + kc));
    lemma_parse_sizes_at::<K, V>(pairs, Seq::empty(), ksc, vcf + kc, true);
    let ks = parse_sizes(d, 0, n);
    assert(ks == lens_of(pairs, key_enc::<K, V>()));
    lemma_sum_lens_cat(pairs, key_enc::<K, V>(), n);
    assert(pairs.take(n) =~= pairs);
    assert(ks.take(n) =~= ks);
    assert(sum(ks) == kc.len());
    assert(d.len() == 2 * n + n * vw + sum(ks));
    let expected = dict_all_dec::<K, V>(d, n).unwrap();
    assert forall|i: int| 0 <= i < n implies #[trigger] expected[i] == pairs[i] by {
        assert(d =~= (ksc + vcf) + kc + Seq::empty());
        lemma_dyn_piece_round(d, ksc + vcf, kc, Seq::empty(), pairs, key_enc::<K, V>(), i);
        lemma_cat_index_const(pairs, val_enc::<K, V>(), vw, i);
        assert(0 <= i * vw && (i + 1) * vw <= n * vw && i * vw + vw == (i + 1) * vw)
            by (nonlinear_arith)
            requires 0 <= i < n, vw > 0;
        lemma_mid_subrange(ksc, vcf, kc, i * vw, (i + 1) * vw);
        assert(d.subrange(2 * n + i * vw, 2 * n + (i + 1) * vw) == val_enc::<K, V>()(pairs[i]));
        assert(K::wf_of(pairs[i].0) && V::wf_of(pairs[i].1));
        K::lemma_item(pairs[i].0);
        V::lemma_item(pairs[i].1);
    }
    assert(expected =~= pairs);
}

/// Decoding a value-dynamic `All` payload yields the entries that were
/// encoded.
#[verifier::rlimit(100)]
#[verifier::spinoff_prover]
proof fn lemma_all_round_vdyn<K: CollectionItem, V: CollectionItem>(pairs: Seq<(K::V, V::V)>)
    requires
        all_pairs_wf::<K, V>(pairs),
        K::fixed_size() > 0,
        V::fixed_size() == 0,
        pairs.len() > 0,
    ensures
        dict_all_dec::<K, V>(dict_all_data::<K, V>(pairs), pairs.len() as int) == Some(pairs),
{
    let n = pairs.len() as int;
    let kw = K::fixed_size() as int;
    let d = dict_all_data::<K, V>(pairs);
    let vsc = cat(pairs, val_size_enc::<K, V>());
    let kcf = cat(pairs, key_enc::<K, V>());
    let vc = cat(pairs, val_enc::<K, V>());
    lemma_enc_widths::<K, V>(pairs);
    lemma_cat_len_const(pairs, val_size_enc::<K, V>(), 2);
    lemma_cat_len_const(pairs, key_enc::<K, V>(), kw);
    assert(d == vsc + kcf + vc);
    assert(d =~= Seq::empty() + vsc + (kcf + vc));
    lemma_parse_sizes_at::<K, V>(pairs, Seq::empty(), vsc, kcf + vc, false);
    let vs = parse_sizes(d, 0, n);
    assert(vs == lens_of(pairs, val_enc::<K, V>()));
    lemma_sum_lens_cat(pairs, val_enc::<K, V>(), n);
    assert(pairs.take(n) =~= pairs);
    assert(vs.take(n) =~= vs);
    assert(sum(vs) == vc.len());
    assert(d.len() == 2 * n + n * kw + sum(vs));
    let expected = dict_all_dec::<K, V>(d, n).unwrap();
    assert forall|i: int| 0 <= i < n implies #[trigger] expected[i] == pairs[i] by {
        assert(d =~= (vsc + kcf) + vc + Seq::empty());
        lemma_dyn_piece_round(d, vsc + kcf, vc, Seq::empty(), pairs, val_enc::<K, V>(), i);
        lemma_cat_index_const(pairs, key_enc::<K, V>(), kw, i);
        assert(0 <= i * kw && (i + 1) * kw <= n * kw && i * kw + kw == (i + 1) * kw)
            by (nonlinear_arith)
            requires 0 <= i < n, kw > 0;
        lemma_mid_subrange(vsc, kcf, vc, i * kw, (i + 1) * kw);
        assert(d.subrange(2 * n + i * kw, 2 * n + (i + 1) * kw) == key_enc::<K, V>()(pairs[i]));
        assert(K::wf_of(pairs[i].0) && V::wf_of(pairs[i].1));
        K::lemma_item(pairs[i].0);
        V::lemma_item(pairs[i].1);
    }
    assert(expected =~= pairs);
}

/// Writing any well-formed dictionary message and reading it back
/// yields the message that was written: the codec loses nothing, and
/// an `All` keeps its entries in order.
pub proof fn lemma_dict_round_trip<K: CollectionItem, V: CollectionItem>(
    m: DictMessageView<K::V, V::V>,
)
    requires
        dict_wf::<K, V>(m),
        m matches DictMessageView::All(pairs) ==> pairs.len() <= u64::MAX,
    ensures
        dict_dec::<K, V>(dict_head::<K, V>(m), dict_data::<K, V>(m)) == Some(m),
{
    vstd::bytes::lemma_auto_spec_u64_to_from_le_bytes();
    let head = dict_head::<K, V>(m);
    let kw = K::fixed_size() as int;
    let vw = V::fixed_size() as int;
    match m {
        DictMessageView::All(pairs) => {
            let n = pairs.len() as int;
            assert(head.len() == MESS_SIZE);
            assert(head[0] == DICT_ALL);
            assert(head.subrange(1, 9) =~= vstd::bytes::spec_u64_to_le_bytes(
                pairs.len() as u64,
            ));
            assert(vstd::bytes::spec_u64_from_le_bytes(head.subrange(1, 9)) == pairs.len() as u64);
            if n == 0 {
                assert(pairs =~= Seq::<(K::V, V::V)>::empty());
            } else {
                if kw > 0 && vw > 0 {
                    lemma_all_round_fixed::<K, V>(pairs);
                } else if kw == 0 && vw == 0 {
                    lemma_all_round_dyn2::<K, V>(pairs);
                } else if kw == 0 {
                    lemma_all_round_kdyn::<K, V>(pairs);
                } else {
                    lemma_all_round_vdyn::<K, V>(pairs);
                }
            }
        },
        DictMessageView::Put(k, v) => {
            K::lemma_item(k);
            V::lemma_item(v);
            if set_inline::<K, V>() {
                assert(head.len() == MESS_SIZE);
                assert(head[0] == DICT_SET);
                let tail = K::enc_of(k) + (V::enc_of(v) + zeros(
                    25 - K::fixed_size() - V::fixed_size(),
                ));
                assert(head =~= seq![DICT_SET] + tail);
                lemma_suffix_subrange(seq![DICT_SET], tail, 0, tail.len() as int);
                assert(tail.subrange(0, tail.len() as int) =~= tail);
                assert(head.subrange(1, 1 + tail.len() as int) == tail);
                lemma_subrange_split(head, 1, K::enc_of(k), V::enc_of(v) + zeros(
                    25 - K::fixed_size() - V::fixed_size(),
                ));
                assert(head.subrange(1, 1 + kw) == K::enc_of(k));
                assert(head.subrange(1 + kw, head.len() as int) == V::enc_of(v) + zeros(
                    25 - K::fixed_size() - V::fixed_size(),
                ));
                assert(head.subrange(1 + kw, 1 + kw + vw) =~= (V::enc_of(v) + zeros(
                    25 - K::fixed_size() - V::fixed_size(),
                )).subrange(0, vw));
                assert(head.subrange(1 + kw, 1 + kw + vw) =~= V::enc_of(v));
            } else {
                assert(head.len() == MESS_SIZE);
                assert(head[0] == DICT_SET);
                let d = dict_data::<K, V>(m).unwrap();
                if kw == 0 {
                    vstd::bytes::lemma_auto_spec_u16_to_from_le_bytes();
                    let klen = K::enc_of(k).len() as int;
                    let sz = vstd::bytes::spec_u16_to_le_bytes(K::enc_of(k).len() as u16);
                    assert(d == sz + K::enc_of(k) + V::enc_of(v));
                    assert(d.subrange(0, 2) =~= sz);
                    assert(vstd::bytes::spec_u16_from_le_bytes(d.subrange(0, 2)) as int == klen);
                    assert(d =~= sz + (K::enc_of(k) + V::enc_of(v)));
                    lemma_suffix_subrange(sz, K::enc_of(k) + V::enc_of(v), 0, (K::enc_of(k)
                        + V::enc_of(v)).len() as int);
                    assert((K::enc_of(k) + V::enc_of(v)).subrange(0, (K::enc_of(k) + V::enc_of(
                        v,
                    )).len() as int) =~= K::enc_of(k) + V::enc_of(v));
                    lemma_subrange_split(d, 2, K::enc_of(k), V::enc_of(v));
                    assert(d.subrange(2, 2 + klen) == K::enc_of(k));
                    if vw > 0 {
                        assert(d.subrange(2 + klen, 2 + klen + vw) == V::enc_of(v));
                    } else {
                        assert(d.subrange(2 + klen, d.len() as int) == V::enc_of(v));
                    }
                } else {
                    assert(d == K::enc_of(k) + V::enc_of(v));
                    assert(d.subrange(0, d.len() as int) =~= d);
                    lemma_subrange_split(d, 0, K::enc_of(k), V::enc_of(v));
                    assert(d.subrange(0, kw) == K::enc_of(k));
                    if vw > 0 {
                        assert(d.subrange(kw, kw + vw) == V::enc_of(v));
                    } else {
                        assert(d.subrange(kw, d.len() as int) == V::enc_of(v));
                    }
                }
            }
        },
        DictMessageView::Remove(k) => {
            K::lemma_item(k);
            if remove_inline::<K>() {
                assert(head.len() == MESS_SIZE);
                assert(head[0] == DICT_REMOVE);
                let tail = K::enc_of(k) + zeros(25 - K::fixed_size());
                assert(head =~= seq![DICT_REMOVE] + tail);
                lemma_suffix_subrange(seq![DICT_REMOVE], tail, 0, tail.len() as int);
                assert(tail.subrange(0, tail.len() as int) =~= tail);
                assert(head.subrange(1, 1 + tail.len() as int) == tail);
                lemma_subrange_split(head, 1, K::enc_of(k), zeros(25 - K::fixed_size()));
                assert(head.subrange(1, 1 + kw) == K::enc_of(k));
            } else {
                assert(head.len() == MESS_SIZE);
                assert(head[0] == DICT_REMOVE);
                let d = dict_data::<K, V>(m).unwrap();
                assert(d == K::enc_of(k));
            }
        },
    }
}

/// The first position holding key `k`, or a negative number when no
/// entry does.
pub open spec fn key_index<KV, VV>(pairs: Seq<(KV, VV)>, k: KV) -> int
    decreases pairs.len(),
{
    if pairs.len() == 0 {
        -1
    } else if pairs[0].0 == k {
        0
    } else {
        let r = key_index(pairs.drop_first(), k);
        if r < 0 {
            -1
        } else {
            r + 1
        }
    }
}

/// A found index lies in range and holds the key; a negative answer
/// means no entry holds it.
pub proof fn lemma_key_index<KV, VV>(pairs: Seq<(KV, VV)>, k: KV)
    ensures
        key_index(pairs, k) >= 0 ==> 0 <= key_index(pairs, k) < pairs.len() && pairs[key_index(
            pairs,
            k,
        )].0 == k,
        key_index(pairs, k) < 0 ==> forall|i: int| 0 <= i < pairs.len() ==> (
        #[trigger] pairs[i]).0 != k,
    decreases pairs.len(),
{
    if pairs.len() > 0 && pairs[0].0 != k {
        lemma_key_index(pairs.drop_first(), k);
        assert forall|i: int| key_index(pairs, k) < 0 && 0 <= i < pairs.len() implies (
        #[trigger] pairs[i]).0 != k by {
            if i > 0 {
                assert(pairs.drop_first()[i - 1] == pairs[i]);
            }
        }
    }
}

/// The entries after writing `k -> v`: the first entry holding `k` is
/// replaced, or the pair is appended when none does.
pub open spec fn put_pair<KV, VV>(pairs: Seq<(KV, VV)>, k: KV, v: VV) -> Seq<(KV, VV)> {
    let i = key_index(pairs, k);
    if i >= 0 {
        pairs.update(i, (k, v))
    } else {
        pairs.push((k, v))
    }
}

/// The entries after removing key `k`: the first entry holding it
/// disappears, or nothing changes when none does.
pub open spec fn remove_pair<KV, VV>(pairs: Seq<(KV, VV)>, k: KV) -> Seq<(KV, VV)> {
    let i = key_index(pairs, k);
    if i >= 0 {
        pairs.remove(i)
    } else {
        pairs
    }
}

/// The entries after adopting a full replacement, entry by entry in
/// wire order, later entries for a key winning.
pub open spec fn apply_all<KV, VV>(incoming: Seq<(KV, VV)>) -> Seq<(KV, VV)>
    decreases incoming.len(),
{
    if incoming.len() == 0 {
        Seq::empty()
    } else {
        put_pair(
            apply_all(incoming.drop_last()),
            incoming.last().0,
            incoming.last().1,
        )
    }
}

/// The mirror of one synchronised dictionary: its slot id and its
/// entries, keys unique.
pub struct ValueDict<K, V> {
    id: u32,
    dict: Vec<(K, V)>,
}

/// No key appears twice, and every entry obeys the wire constraints.
pub open spec fn dict_inv<K: CollectionItem, V: CollectionItem>(
    pairs: Seq<(K::V, V::V)>,
) -> bool {
    &&& all_pairs_wf::<K, V>(pairs)
    &&& forall|i: int, j: int|
        0 <= i < j < pairs.len() ==> (#[trigger] pairs[i]).0 != (#[trigger] pairs[j]).0
}

impl<K: CollectionItem, V: CollectionItem> ValueDict<K, V> {
    /// The slot id.
    pub closed spec fn spec_id(&self) -> u32 {
        self.id
    }

    /// The entries of the mirror, in insertion order.
    pub closed spec fn spec_pairs(&self) -> Seq<(K::V, V::V)> {
        pairs_view(self.dict@)
    }

    /// The mirror's invariant.
    pub open spec fn inv(&self) -> bool {
        dict_inv::<K, V>(self.spec_pairs())
    }

    /// A fresh, empty mirror.
    pub fn new(id: u32) -> (r: ValueDict<K, V>)
        ensures
            r.spec_id() == id,
            r.spec_pairs() == Seq::<(K::V, V::V)>::empty(),
            r.inv(),
    {
        let r = ValueDict { id, dict: Vec::new() };
        proof {
            assert(r.spec_pairs() =~= Seq::<(K::V, V::V)>::empty());
        }
        r
    }

    /// The number of entries.
    pub fn len(&self) -> (r: usize)
        ensures
            r == self.spec_pairs().len(),
    {
        self.dict.len()
    }

    /// A copy of all entries.
    pub fn get(&self) -> (r: Vec<(K, V)>)
        ensures
            pairs_view(r@) == self.spec_pairs(),
    {
        let mut out: Vec<(K, V)> = Vec::new();
        let n = self.dict.len();
        let mut i: usize = 0;
        while i < n
            invariant
                i <= n,
                n == self.dict@.len(),
                out@.len() == i,
                forall|j: int| 0 <= j < i ==> (#[trigger] out@[j]).0@ == self.dict@[j].0@
                    && out@[j].1@ == self.dict@[j].1@,
            decreases n - i,
        {
            let p = &self.dict[i];
            out.push((p.0.clone_item(), p.1.clone_item()));
            i += 1;
        }
        proof {
            assert(pairs_view(out@) =~= self.spec_pairs());
        }
        out
    }

    /// The position of key `k` among the entries, if it is there.
    fn find_index(&self, k: &K) -> (r: Option<usize>)
        ensures
            r matches Some(i) ==> key_index(self.spec_pairs(), k@) == i as int,
            r is None ==> key_index(self.spec_pairs(), k@) < 0,
    {
        let n = self.dict.len();
        let mut i: usize = 0;
        while i < n
            invariant
                i <= n,
                n == self.dict@.len(),
                forall|j: int| 0 <= j < i ==> (#[trigger] pairs_view(self.dict@)[j]).0 != k@,
            decreases n - i,
        {
            proof {
                assert(pairs_view(self.dict@)[i as int] == (self.dict@[i as int].0@, self.dict@[
                i as int].1@));
            }
            if self.dict[i].0.eq_item(k) {
                proof {
                    lemma_key_index_found(pairs_view(self.dict@), k@, i as int);
                }
                return Some(i);
            }
            i += 1;
        }
        proof {
            lemma_key_index(self.spec_pairs(), k@);
            if key_index(self.spec_pairs(), k@) >= 0 {
                assert((self.spec_pairs()[key_index(self.spec_pairs(), k@)]).0 == k@);
            }
        }
        None
    }

    /// The value stored under `k`, if any.
    pub fn get_item(&self, k: &K) -> (r: Option<V>)
        requires
            self.inv(),
        ensures
            key_index(self.spec_pairs(), k@) >= 0 <==> r is Some,
            r matches Some(v) ==> v@ == self.spec_pairs()[key_index(self.spec_pairs(), k@)].1,
    {
        match self.find_index(k) {
            Some(i) => {
                proof {
                    lemma_key_index(self.spec_pairs(), k@);
                    assert(self.spec_pairs()[i as int] == (self.dict@[i as int].0@, self.dict@[
                    i as int].1@));
                }
                Some(self.dict[i].1.clone_item())
            },
            None => None,
        }
    }

    /// Writes `k -> v` into the mirror; while connected the entry also
    /// leaves for the peer.
    pub fn set_item(&mut self, k: K, v: V, update: bool, connected: bool) -> (r: Option<
        crate::transport::WriteMessage,
    >)
        requires
            old(self).inv(),
            K::wf_of(k@),
            V::wf_of(v@),
        ensures
            final(self).spec_id() == old(self).spec_id(),
            final(self).spec_pairs() == put_pair(old(self).spec_pairs(), k@, v@),
            final(self).inv(),
            connected <==> r is Some,
            r matches Some(m) ==> m@ == crate::transport::WriteMessageView::Dict(
                old(self).spec_id() as int,
                update,
                crate::transport::SubFrameView {
                    head: dict_head::<K, V>(DictMessageView::Put(k@, v@)),
                    data: dict_data::<K, V>(DictMessageView::Put(k@, v@)),
                },
            ),
    {
        proof {
            lemma_key_index(self.spec_pairs(), k@);
            K::lemma_item(k@);
            V::lemma_item(v@);
            vstd::bytes::lemma_auto_spec_u16_to_from_le_bytes();
        }
        let message = if connected {
            Some(
                crate::transport::WriteMessage::dict(
                    self.id,
                    update,
                    DictMessage::<K, V>::Put(k.clone_item(), v.clone_item()),
                ),
            )
        } else {
            None
        };
        let ghost pre = self.spec_pairs();
        match self.find_index(&k) {
            Some(i) => {
                proof {
                    lemma_key_index(pre, k@);
                }
                self.dict[i] = (k, v);
                proof {
                    assert(self.spec_pairs() =~= put_pair(pre, k@, v@));
                    lemma_put_inv::<K, V>(pre, k@, v@);
                }
            },
            None => {
                self.dict.push((k, v));
                proof {
                    assert(self.spec_pairs() =~= put_pair(pre, k@, v@));
                    lemma_put_inv::<K, V>(pre, k@, v@);
                }
            },
        }
        message
    }

    /// Removes key `k` from the mirror; while connected the removal
    /// also leaves for the peer.
    pub fn del_item(&mut self, k: &K, update: bool, connected: bool) -> (r: Option<
        crate::transport::WriteMessage,
    >)
        requires
            old(self).inv(),
            K::wf_of(k@),
        ensures
            final(self).spec_id() == old(self).spec_id(),
            final(self).spec_pairs() == remove_pair(old(self).spec_pairs(), k@),
            final(self).inv(),
            connected <==> r is Some,
            r matches Some(m) ==> m@ == crate::transport::WriteMessageView::Dict(
                old(self).spec_id() as int,
                update,
                crate::transport::SubFrameView {
                    head: dict_head::<K, V>(DictMessageView::Remove(k@)),
                    data: dict_data::<K, V>(DictMessageView::Remove(k@)),
                },
            ),
    {
        proof {
            K::lemma_item(k@);
        }
        let message = if connected {
            Some(
                crate::transport::WriteMessage::dict(
                    self.id,
                    update,
                    DictMessage::<K, V>::Remove(k.clone_item()),
                ),
            )
        } else {
            None
        };
        let ghost pre = self.spec_pairs();
        match self.find_index(k) {
            Some(i) => {
                proof {
                    lemma_key_index(pre, k@);
                }
                self.dict.remove(i);
                proof {
                    assert(self.spec_pairs() =~= pre.remove(i as int));
                    lemma_remove_inv::<K, V>(pre, k@, i as int);
                }
            },
            None => {},
        }
        message
    }

    /// Replaces the whole mirror with the given entries, later entries
    /// for a key winning; while connected the replacement also leaves
    /// for the peer, entries as given.
    pub fn set(&mut self, pairs: Vec<(K, V)>, update: bool, connected: bool) -> (r: Option<
        crate::transport::WriteMessage,
    >)
        requires
            old(self).inv(),
            all_pairs_wf::<K, V>(pairs_view(pairs@)),
            pairs@.len() <= 0xFFFF_FFFF,
            (dict_data::<K, V>(DictMessageView::All(pairs_view(pairs@))) matches Some(d) ==> d.len()
                <= 0xFFFF_FFFF),
        ensures
            final(self).spec_id() == old(self).spec_id(),
            final(self).spec_pairs() == apply_all(pairs_view(pairs@)),
            final(self).inv(),
            connected <==> r is Some,
            r matches Some(m) ==> m@ == crate::transport::WriteMessageView::Dict(
                old(self).spec_id() as int,
                update,
                crate::transport::SubFrameView {
                    head: dict_head::<K, V>(DictMessageView::All(pairs_view(pairs@))),
                    data: dict_data::<K, V>(DictMessageView::All(pairs_view(pairs@))),
                },
            ),
    {
        let message = if connected {
            let mut copy: Vec<(K, V)> = Vec::new();
            let n = pairs.len();
            let mut i: usize = 0;
            while i < n
                invariant
                    i <= n,
                    n == pairs@.len(),
                    copy@.len() == i,
                    forall|j: int| 0 <= j < i ==> (#[trigger] copy@[j]).0@ == pairs@[j].0@
                        && copy@[j].1@ == pairs@[j].1@,
                decreases n - i,
            {
                let p = &pairs[i];
                copy.push((p.0.clone_item(), p.1.clone_item()));
                i += 1;
            }
            proof {
                assert(pairs_view(copy@) =~= pairs_view(pairs@));
            }
            Some(
                crate::transport::WriteMessage::dict(
                    self.id,
                    update,
                    DictMessage::<K, V>::All(copy),
                ),
            )
        } else {
            None
        };
        self.dict = Vec::new();
        proof {
            assert(self.spec_pairs() =~= Seq::<(K::V, V::V)>::empty());
            assert(self.spec_pairs() =~= apply_all(pairs_view(pairs@).take(0)));
        }
        let n = pairs.len();
        let mut i: usize = 0;
        while i < n
            invariant
                i <= n,
                n == pairs@.len(),
                self.inv(),
                self.spec_id() == old(self).spec_id(),
                all_pairs_wf::<K, V>(pairs_view(pairs@)),
                self.spec_pairs() == apply_all(pairs_view(pairs@).take(i as int)),
            decreases n - i,
        {
            let p = &pairs[i];
            proof {
                assert(pairs_view(pairs@)[i as int] == (pairs@[i as int].0@, pairs@[i as int].1@));
                assert(K::wf_of(pairs_view(pairs@)[i as int].0));
                assert(V::wf_of(pairs_view(pairs@)[i as int].1));
            }
            let _ = self.set_item(p.0.clone_item(), p.1.clone_item(), false, false);
            proof {
                assert(pairs_view(pairs@).take(i + 1).drop_last() =~= pairs_view(pairs@).take(
                    i as int,
                ));
                assert(pairs_view(pairs@).take(i + 1).last() == pairs_view(pairs@)[i as int]);
            }
            i += 1;
        }
        proof {
            assert(pairs_view(pairs@).take(n as int) =~= pairs_view(pairs@));
        }
        message
    }

    /// The sync sweep: the whole mirror leaves for the peer as one
    /// `All` replacement.
    pub fn sync(&self) -> (r: crate::transport::WriteMessage)
        requires
            self.inv(),
            self.spec_pairs().len() <= 0xFFFF_FFFF,
            (dict_data::<K, V>(DictMessageView::All(self.spec_pairs())) matches Some(d) ==> d.len()
                <= 0xFFFF_FFFF),
        ensures
            r@ == crate::transport::WriteMessageView::Dict(
                self.spec_id() as int,
                false,
                crate::transport::SubFrameView {
                    head: dict_head::<K, V>(DictMessageView::All(self.spec_pairs())),
                    data: dict_data::<K, V>(DictMessageView::All(self.spec_pairs())),
                },
            ),
    {
        let pairs = self.get();
        crate::transport::WriteMessage::dict(self.id, false, DictMessage::<K, V>::All(pairs))
    }

    /// Applies one inbound dictionary frame to the mirror: an `All`
    /// replaces the entries, a `Put` writes one, a `Remove` deletes
    /// one; a malformed frame changes nothing.
    pub fn update_dict(&mut self, head: &[u8], data: Option<Vec<u8>>) -> (r: Result<(), String>)
        requires
            old(self).inv(),
        ensures
            final(self).spec_id() == old(self).spec_id(),
            final(self).inv(),
            r is Ok <==> dict_dec::<K, V>(head@, opt_view(data)) is Some,
            r is Err ==> final(self).spec_pairs() == old(self).spec_pairs(),
            r is Ok ==> final(self).spec_pairs() == (match dict_dec::<K, V>(
                head@,
                opt_view(data),
            ).unwrap() {
                DictMessageView::All(pairs) => apply_all(pairs),
                DictMessageView::Put(k, v) => put_pair(old(self).spec_pairs(), k, v),
                DictMessageView::Remove(k) => remove_pair(old(self).spec_pairs(), k),
            }),
    {
        let message = match DictMessage::<K, V>::read_message(head, data) {
            Ok(m) => m,
            Err(e) => {
                return Err(e);
            },
        };
        match message {
            DictMessage::All(pairs) => {
                self.dict = Vec::new();
                proof {
                    assert(self.spec_pairs() =~= Seq::<(K::V, V::V)>::empty());
                    assert(self.spec_pairs() =~= apply_all(
                        pairs_view(pairs@).take(0),
                    ));
                }
                let n = pairs.len();
                let mut i: usize = 0;
                while i < n
                    invariant
                        i <= n,
                        n == pairs@.len(),
                        self.inv(),
                        self.spec_id() == old(self).spec_id(),
                        all_pairs_wf::<K, V>(pairs_view(pairs@)),
                        self.spec_pairs() == apply_all(pairs_view(pairs@).take(i as int)),
                    decreases n - i,
                {
                    let p = &pairs[i];
                    proof {
                        assert(pairs_view(pairs@)[i as int] == (pairs@[i as int].0@, pairs@[
                        i as int].1@));
                        assert(K::wf_of(pairs_view(pairs@)[i as int].0));
                        assert(V::wf_of(pairs_view(pairs@)[i as int].1));
                    }
                    let _ = self.set_item(p.0.clone_item(), p.1.clone_item(), false, false);
                    proof {
                        assert(pairs_view(pairs@).take(i + 1).drop_last() =~= pairs_view(
                            pairs@,
                        ).take(i as int));
                        assert(pairs_view(pairs@).take(i + 1).last() == pairs_view(pairs@)[
                        i as int]);
                    }
                    i += 1;
                }
                proof {
                    assert(pairs_view(pairs@).take(n as int) =~= pairs_view(pairs@));
                }
                Ok(())
            },
            DictMessage::Put(k, v) => {
                let _ = self.set_item(k, v, false, false);
                Ok(())
            },
            DictMessage::Remove(k) => {
                let _ = self.del_item(&k, false, false);
                Ok(())
            },
        }
    }
}

/// A found key's first index is the position where it was seen.
proof fn lemma_key_index_found<KV, VV>(pairs: Seq<(KV, VV)>, k: KV, i: int)
    requires
        0 <= i < pairs.len(),
        pairs[i].0 == k,
        forall|j: int| 0 <= j < i ==> (#[trigger] pairs[j]).0 != k,
    ensures
        key_index(pairs, k) == i,
    decreases i,
{
    if i > 0 {
        assert(pairs[0].0 != k);
        assert(pairs.drop_first()[i - 1] == pairs[i]);
        assert forall|j: int| 0 <= j < i - 1 implies (#[trigger] pairs.drop_first()[j]).0
            != k by {
            assert(pairs.drop_first()[j] == pairs[j + 1]);
        }
        lemma_key_index_found(pairs.drop_first(), k, i - 1);
    }
}

/// Writing an entry keeps the keys unique and the items well-formed.
proof fn lemma_put_inv<K: CollectionItem, V: CollectionItem>(
    pairs: Seq<(K::V, V::V)>,
    k: K::V,
    v: V::V,
)
    requires
        dict_inv::<K, V>(pairs),
        K::wf_of(k),
        V::wf_of(v),
    ensures
        dict_inv::<K, V>(put_pair(pairs, k, v)),
        put_pair(pairs, k, v).len() <= pairs.len() + 1,
{
    lemma_key_index(pairs, k);
    let out = put_pair(pairs, k, v);
    let ki = key_index(pairs, k);
    assert forall|i: int| 0 <= i < out.len() implies K::wf_of(#[trigger] out[i].0) && V::wf_of(
        out[i].1,
    ) by {
        if i < pairs.len() && i != ki {
            assert(pairs[i] == out[i]);
            assert(K::wf_of(pairs[i].0) && V::wf_of(pairs[i].1));
        }
    }
    assert forall|i: int, j: int| 0 <= i < j < out.len() implies (#[trigger] out[i]).0 != (
    #[trigger] out[j]).0 by {
        if ki >= 0 {
            if i != ki && j != ki {
                assert(out[i] == pairs[i] && out[j] == pairs[j]);
            } else if i == ki {
                assert(out[j] == pairs[j] && pairs[j].0 != pairs[ki].0);
            } else {
                assert(out[i] == pairs[i] && pairs[i].0 != pairs[ki].0);
            }
        } else {
            if j == pairs.len() {
                assert(out[i] == pairs[i]);
            } else {
                assert(out[i] == pairs[i] && out[j] == pairs[j]);
            }
        }
    }
}

/// Removing an entry keeps the keys unique and the items well-formed.
proof fn lemma_remove_inv<K: CollectionItem, V: CollectionItem>(
    pairs: Seq<(K::V, V::V)>,
    k: K::V,
    i: int,
)
    requires
        dict_inv::<K, V>(pairs),
        0 <= i < pairs.len(),
        key_index(pairs, k) == i,
    ensures
        dict_inv::<K, V>(pairs.remove(i)),
        remove_pair(pairs, k) == pairs.remove(i),
{
    let out = pairs.remove(i);
    assert forall|a: int| 0 <= a < out.len() implies K::wf_of(#[trigger] out[a].0) && V::wf_of(
        out[a].1,
    ) by {
        if a < i {
            assert(out[a] == pairs[a]);
            assert(K::wf_of(pairs[a].0) && V::wf_of(pairs[a].1));
        } else {
            assert(out[a] == pairs[a + 1]);
            assert(K::wf_of(pairs[a + 1].0) && V::wf_of(pairs[a + 1].1));
        }
    }
    assert forall|a: int, b: int| 0 <= a < b < out.len() implies (#[trigger] out[a]).0 != (
    #[trigger] out[b]).0 by {
        let pa = if a < i { a } else { a + 1 };
        let pb = if b < i { b } else { b + 1 };
        assert(out[a] == pairs[pa] && out[b] == pairs[pb]);
    }
}

} // verus!
