//! Items of synchronised dictionaries and lists, and the byte-sequence
//! machinery their codecs share.
//!
//! An item is either fixed-size (its encoding always has the same
//! width) or dynamic (its width travels beside it as a `u16`).  The
//! codecs concatenate many item encodings into one payload; the `cat`
//! spec function and its lemmas describe such concatenations.

use vstd::prelude::*;

verus! {

/// Concatenation of the encodings of all elements of `s`, in order.
pub open spec fn cat<A>(s: Seq<A>, f: spec_fn(A) -> Seq<u8>) -> Seq<u8>
    decreases s.len(),
{
    if s.len() == 0 {
        Seq::empty()
    } else {
        cat(s.drop_last(), f) + f(s.last())
    }
}

/// Appending one element extends the concatenation by its encoding.
pub proof fn lemma_cat_push<A>(s: Seq<A>, f: spec_fn(A) -> Seq<u8>, x: A)
    ensures
        cat(s.push(x), f) == cat(s, f) + f(x),
{
    assert(s.push(x).drop_last() =~= s);
    assert(s.push(x).last() == x);
}

/// Taking one more element extends the concatenation of a prefix by
/// that element's encoding.
pub proof fn lemma_cat_take_succ<A>(s: Seq<A>, f: spec_fn(A) -> Seq<u8>, i: int)
    requires
        0 <= i < s.len(),
    ensures
        cat(s.take(i + 1), f) == cat(s.take(i), f) + f(s[i]),
{
    assert(s.take(i + 1) =~= s.take(i).push(s[i]));
    lemma_cat_push(s.take(i), f, s[i]);
}

/// The concatenation of the whole sequence is the concatenation of its
/// full-length prefix.
pub proof fn lemma_cat_take_all<A>(s: Seq<A>, f: spec_fn(A) -> Seq<u8>)
    ensures
        cat(s.take(s.len() as int), f) == cat(s, f),
{
    assert(s.take(s.len() as int) =~= s);
}

/// When every encoding has width `w`, the concatenation has length
/// `s.len() * w`.
pub proof fn lemma_cat_len_const<A>(s: Seq<A>, f: spec_fn(A) -> Seq<u8>, w: int)
    requires
        forall|a: A| (#[trigger] f(a)).len() == w,
    ensures
        cat(s, f).len() == s.len() * w,
    decreases s.len(),
{
    if s.len() == 0 {
    } else {
        lemma_cat_len_const(s.drop_last(), f, w);
        assert((s.len() - 1) * w + w == s.len() as int * w) by (nonlinear_arith);
    }
}

/// The length of a prefix concatenation never shrinks as the prefix
/// grows, and each element's encoding sits between the lengths of the
/// neighbouring prefixes.
pub proof fn lemma_cat_extract<A>(s: Seq<A>, f: spec_fn(A) -> Seq<u8>, i: int)
    requires
        0 <= i < s.len(),
    ensures
        cat(s.take(i), f).len() + f(s[i]).len() == cat(s.take(i + 1), f).len(),
        cat(s.take(i + 1), f).len() <= cat(s, f).len(),
        cat(s, f).subrange(
            cat(s.take(i), f).len() as int,
            cat(s.take(i + 1), f).len() as int,
        ) == f(s[i]),
    decreases s.len(),
{
    lemma_cat_take_succ(s, f, i);
    if i == s.len() - 1 {
        assert(s.take(i) =~= s.drop_last());
        assert(s.take(i + 1) =~= s);
        assert(cat(s, f).subrange(
            cat(s.drop_last(), f).len() as int,
            cat(s, f).len() as int,
        ) =~= f(s.last()));
    } else {
        let d = s.drop_last();
        assert(d.take(i) =~= s.take(i));
        assert(d.take(i + 1) =~= s.take(i + 1));
        lemma_cat_extract(d, f, i);
        assert(cat(s, f).subrange(
            cat(s.take(i), f).len() as int,
            cat(s.take(i + 1), f).len() as int,
        ) =~= cat(d, f).subrange(
            cat(d.take(i), f).len() as int,
            cat(d.take(i + 1), f).len() as int,
        ));
    }
}

/// With constant width `w`, element `i`'s encoding occupies bytes
/// `i*w .. (i+1)*w` of the concatenation.
pub proof fn lemma_cat_index_const<A>(s: Seq<A>, f: spec_fn(A) -> Seq<u8>, w: int, i: int)
    requires
        forall|a: A| (#[trigger] f(a)).len() == w,
        0 <= i < s.len(),
    ensures
        cat(s, f).len() == s.len() * w,
        cat(s, f).subrange(i * w, i * w + w) == f(s[i]),
{
    lemma_cat_len_const(s, f, w);
    lemma_cat_len_const(s.take(i), f, w);
    lemma_cat_len_const(s.take(i + 1), f, w);
    lemma_cat_extract(s, f, i);
    assert(s.take(i).len() * w == i * w) by (nonlinear_arith)
        requires s.take(i).len() == i;
    assert(s.take(i + 1).len() * w == i * w + w) by (nonlinear_arith)
        requires s.take(i + 1).len() == i + 1;
}

/// One item of a synchronised dictionary or list.  `fixed_size` is the
/// width of every encoding, or zero when widths vary; a dynamic item's
/// width must fit the `u16` that carries it on the wire, which is what
/// `wf_of` demands.
pub trait CollectionItem: View + Sized {
    /// Width of every encoding of this type, or 0 when it varies.
    spec fn fixed_size() -> usize;

    /// The byte encoding of an item value.
    spec fn enc_of(v: Self::V) -> Seq<u8>;

    /// The decoding of a byte piece; inverse of `enc_of` on its image.
    spec fn dec_to(b: Seq<u8>) -> Self::V;

    /// The wire constraints on an item value.
    spec fn wf_of(v: Self::V) -> bool;

    /// The stated facts every item type must establish.
    proof fn lemma_item(v: Self::V)
        ensures
            Self::fixed_size() > 0 ==> Self::enc_of(v).len() == Self::fixed_size(),
            Self::fixed_size() > 0 ==> Self::wf_of(v),
            Self::wf_of(v) ==> Self::enc_of(v).len() <= 0xFFFF,
            Self::wf_of(v) ==> Self::dec_to(Self::enc_of(v)) == v,
    ;

    /// The fixed width, as a runtime value.
    fn size() -> (r: usize)
        ensures
            r == Self::fixed_size(),
    ;

    /// Appends the encoding of the item to `out`.
    fn write_item(&self, out: &mut Vec<u8>)
        requires
            Self::wf_of(self@),
        ensures
            final(out)@ == old(out)@ + Self::enc_of(self@),
    ;

    /// A copy of the item with the same view.
    fn clone_item(&self) -> (r: Self)
        ensures
            r@ == self@,
    ;

    /// Compares two items; `==` over the views.
    fn eq_item(&self, other: &Self) -> (r: bool)
        ensures
            r == (self@ == other@),
    ;

    /// Reads one item back from `bytes[pos..pos+len]`.
    fn read_item(bytes: &[u8], pos: usize, len: usize) -> (r: Self)
        requires
            pos + len <= bytes@.len(),
            Self::fixed_size() > 0 ==> len == Self::fixed_size(),
            len <= 0xFFFF,
        ensures
            r@ == Self::dec_to(bytes@.subrange(pos as int, pos + len)),
            Self::wf_of(r@),
    ;
}

impl CollectionItem for u64 {
    open spec fn fixed_size() -> usize {
        8
    }

    open spec fn enc_of(v: u64) -> Seq<u8> {
        vstd::bytes::spec_u64_to_le_bytes(v)
    }

    open spec fn dec_to(b: Seq<u8>) -> u64 {
        vstd::bytes::spec_u64_from_le_bytes(b)
    }

    open spec fn wf_of(v: u64) -> bool {
        true
    }

    proof fn lemma_item(v: u64) {
        vstd::bytes::lemma_auto_spec_u64_to_from_le_bytes();
    }

    fn size() -> usize {
        8
    }

    fn clone_item(&self) -> u64 {
        *self
    }

    fn eq_item(&self, other: &u64) -> bool {
        *self == *other
    }

    fn write_item(&self, out: &mut Vec<u8>) {
        let mut bytes = vstd::bytes::u64_to_le_bytes(*self);
        out.append(&mut bytes);
    }

    fn read_item(bytes: &[u8], pos: usize, len: usize) -> u64 {
        // learning the slice's length bounds the positions below
        let _bound: usize = bytes.len();
        vstd::bytes::u64_from_le_bytes(vstd::slice::slice_subrange(bytes, pos, pos + 8))
    }
}

impl CollectionItem for i64 {
    open spec fn fixed_size() -> usize {
        8
    }

    open spec fn enc_of(v: i64) -> Seq<u8> {
        vstd::bytes::spec_u64_to_le_bytes(v as u64)
    }

    open spec fn dec_to(b: Seq<u8>) -> i64 {
        vstd::bytes::spec_u64_from_le_bytes(b) as i64
    }

    open spec fn wf_of(v: i64) -> bool {
        true
    }

    proof fn lemma_item(v: i64) {
        vstd::bytes::lemma_auto_spec_u64_to_from_le_bytes();
        assert((v as u64) as i64 == v) by (bit_vector);
    }

    fn size() -> usize {
        8
    }

    fn clone_item(&self) -> i64 {
        *self
    }

    fn eq_item(&self, other: &i64) -> bool {
        *self == *other
    }

    fn write_item(&self, out: &mut Vec<u8>) {
        let mut bytes = vstd::bytes::u64_to_le_bytes(*self as u64);
        out.append(&mut bytes);
    }

    fn read_item(bytes: &[u8], pos: usize, len: usize) -> i64 {
        // learning the slice's length bounds the positions below
        let _bound: usize = bytes.len();
        let x = vstd::bytes::u64_from_le_bytes(vstd::slice::slice_subrange(bytes, pos, pos + 8));
        #[verifier::truncate] (x as i64)
    }
}

impl CollectionItem for u32 {
    open spec fn fixed_size() -> usize {
        4
    }

    open spec fn enc_of(v: u32) -> Seq<u8> {
        vstd::bytes::spec_u32_to_le_bytes(v)
    }

    open spec fn dec_to(b: Seq<u8>) -> u32 {
        vstd::bytes::spec_u32_from_le_bytes(b)
    }

    open spec fn wf_of(v: u32) -> bool {
        true
    }

    proof fn lemma_item(v: u32) {
        vstd::bytes::lemma_auto_spec_u32_to_from_le_bytes();
    }

    fn size() -> usize {
        4
    }

    fn clone_item(&self) -> u32 {
        *self
    }

    fn eq_item(&self, other: &u32) -> bool {
        *self == *other
    }

    fn write_item(&self, out: &mut Vec<u8>) {
        let mut bytes = vstd::bytes::u32_to_le_bytes(*self);
        out.append(&mut bytes);
    }

    fn read_item(bytes: &[u8], pos: usize, len: usize) -> u32 {
        // learning the slice's length bounds the positions below
        let _bound: usize = bytes.len();
        vstd::bytes::u32_from_le_bytes(vstd::slice::slice_subrange(bytes, pos, pos + 4))
    }
}

/// A dynamic item: an opaque byte string, the wire shape of text and of
/// every other variable-width datum.
#[derive(Clone)]
pub struct Blob {
    pub bytes: Vec<u8>,
}

impl View for Blob {
    type V = Seq<u8>;

    open spec fn view(&self) -> Seq<u8> {
        self.bytes@
    }
}

impl Blob {
    /// Wraps a byte buffer.
    pub fn new(bytes: Vec<u8>) -> (r: Blob)
        ensures
            r@ == bytes@,
    {
        Blob { bytes }
    }
}

impl CollectionItem for Blob {
    open spec fn fixed_size() -> usize {
        0
    }

    open spec fn enc_of(v: Seq<u8>) -> Seq<u8> {
        v
    }

    open spec fn dec_to(b: Seq<u8>) -> Seq<u8> {
        b
    }

    open spec fn wf_of(v: Seq<u8>) -> bool {
        v.len() <= 0xFFFF
    }

    proof fn lemma_item(v: Seq<u8>) {
    }

    fn size() -> usize {
        0
    }

    fn clone_item(&self) -> Blob {
        Blob { bytes: vstd::slice::slice_to_vec(self.bytes.as_slice()) }
    }

    fn eq_item(&self, other: &Blob) -> (r: bool) {
        let n = self.bytes.len();
        if n != other.bytes.len() {
            return false;
        }
        let mut i: usize = 0;
        while i < n
            invariant
                i <= n,
                n == self.bytes@.len(),
                n == other.bytes@.len(),
                forall|j: int| 0 <= j < i ==> self.bytes@[j] == other.bytes@[j],
            decreases n - i,
        {
            if self.bytes[i] != other.bytes[i] {
                return false;
            }
            i += 1;
        }
        proof {
            assert(self.bytes@ =~= other.bytes@);
        }
        true
    }

    fn write_item(&self, out: &mut Vec<u8>) {
        let mut bytes = vstd::slice::slice_to_vec(self.bytes.as_slice());
        out.append(&mut bytes);
    }

    fn read_item(bytes: &[u8], pos: usize, len: usize) -> Blob {
        // learning the slice's length bounds the positions below
        let _bound: usize = bytes.len();
        let piece = vstd::slice::slice_subrange(bytes, pos, pos + len);
        Blob { bytes: vstd::slice::slice_to_vec(piece) }
    }
}

/// Sum of a sequence of sizes.
pub open spec fn sum(sizes: Seq<int>) -> int
    decreases sizes.len(),
{
    if sizes.len() == 0 {
        0
    } else {
        sum(sizes.drop_last()) + sizes.last()
    }
}

/// Summing one more size extends the prefix sum by it.
pub proof fn lemma_sum_take_succ(s: Seq<int>, i: int)
    requires
        0 <= i < s.len(),
    ensures
        sum(s.take(i + 1)) == sum(s.take(i)) + s[i],
{
    assert(s.take(i + 1).drop_last() =~= s.take(i));
    assert(s.take(i + 1).last() == s[i]);
}

/// With no negative sizes, prefix sums are non-negative and grow no
/// further than the total.
pub proof fn lemma_sum_bounds(s: Seq<int>, i: int)
    requires
        0 <= i <= s.len(),
        forall|j: int| 0 <= j < s.len() ==> s[j] >= 0,
    ensures
        0 <= sum(s.take(i)),
        sum(s.take(i)) <= sum(s),
    decreases s.len() - i,
{
    lemma_sum_take_nonneg(s, i);
    if i == s.len() {
        assert(s.take(i) =~= s);
    } else {
        lemma_sum_take_succ(s, i);
        lemma_sum_bounds(s, i + 1);
    }
}

/// A prefix sum of non-negative sizes is non-negative.
pub proof fn lemma_sum_take_nonneg(s: Seq<int>, i: int)
    requires
        0 <= i <= s.len(),
        forall|j: int| 0 <= j < s.len() ==> s[j] >= 0,
    ensures
        0 <= sum(s.take(i)),
    decreases i,
{
    if i > 0 {
        lemma_sum_take_succ(s, i - 1);
        lemma_sum_take_nonneg(s, i - 1);
    }
}

/// A sum of non-negative sizes is non-negative.
pub proof fn lemma_sum_nonneg(s: Seq<int>)
    requires
        forall|j: int| 0 <= j < s.len() ==> s[j] >= 0,
    ensures
        sum(s) >= 0,
    decreases s.len(),
{
    if s.len() > 0 {
        let d = s.drop_last();
        assert(forall|j: int| 0 <= j < d.len() ==> d[j] >= 0);
        lemma_sum_nonneg(d);
    }
}

/// The `count` little-endian `u16` sizes stored at `off` in `d`.
pub open spec fn parse_sizes(d: Seq<u8>, off: int, count: int) -> Seq<int> {
    Seq::new(count as nat, |i: int| vstd::bytes::spec_u16_from_le_bytes(
        d.subrange(off + 2 * i, off + 2 * i + 2),
    ) as int)
}

/// The widths of the encodings of the elements of `s`.
pub open spec fn lens_of<A>(s: Seq<A>, f: spec_fn(A) -> Seq<u8>) -> Seq<int> {
    Seq::new(s.len(), |i: int| f(s[i]).len() as int)
}

/// The prefix sums of the widths are the lengths of the prefix
/// concatenations.
pub proof fn lemma_sum_lens_cat<A>(s: Seq<A>, f: spec_fn(A) -> Seq<u8>, i: int)
    requires
        0 <= i <= s.len(),
    ensures
        sum(lens_of(s, f).take(i)) == cat(s.take(i), f).len(),
    decreases i,
{
    if i == 0 {
        assert(lens_of(s, f).take(0) =~= Seq::<int>::empty());
        assert(s.take(0) =~= Seq::<A>::empty());
    } else {
        lemma_sum_lens_cat(s, f, i - 1);
        lemma_sum_take_succ(lens_of(s, f), i - 1);
        lemma_cat_take_succ(s, f, i - 1);
    }
}

/// A subrange within the first part of a concatenation.
pub proof fn lemma_prefix_subrange(a: Seq<u8>, b: Seq<u8>, x: int, y: int)
    requires
        0 <= x <= y <= a.len(),
    ensures
        (a + b).subrange(x, y) == a.subrange(x, y),
{
    assert((a + b).subrange(x, y) =~= a.subrange(x, y));
}

/// A subrange known to hold a two-part concatenation splits into its
/// parts.
pub proof fn lemma_subrange_split(d: Seq<u8>, a: int, x: Seq<u8>, y: Seq<u8>)
    requires
        0 <= a,
        a + x.len() + y.len() <= d.len(),
        d.subrange(a, a + x.len() + y.len()) == x + y,
    ensures
        d.subrange(a, a + x.len()) == x,
        d.subrange(a + x.len(), a + x.len() + y.len()) == y,
{
    assert forall|j: int| 0 <= j < x.len() implies d.subrange(a, a + x.len() as int)[j]
        == x[j] by {
        assert(d.subrange(a, a + x.len() + y.len())[j] == (x + y)[j]);
        assert(d.subrange(a, a + x.len() as int)[j] == d[a + j]);
        assert(d.subrange(a, a + x.len() + y.len())[j] == d[a + j]);
        assert((x + y)[j] == x[j]);
    }
    assert(d.subrange(a, a + x.len() as int) =~= x);
    assert forall|j: int| 0 <= j < y.len() implies d.subrange(
        a + x.len(),
        a + x.len() + y.len(),
    )[j] == y[j] by {
        assert(d.subrange(a, a + x.len() + y.len())[x.len() + j] == (x + y)[x.len() + j]);
        assert(d.subrange(a + x.len(), a + x.len() + y.len())[j] == d[a + x.len() + j]);
        assert(d.subrange(a, a + x.len() + y.len())[x.len() + j] == d[a + x.len() + j]);
        assert((x + y)[x.len() + j] == y[j]);
    }
    assert(d.subrange(a + x.len(), a + x.len() + y.len()) =~= y);
}

/// A subrange within the middle part of a three-way concatenation.
pub proof fn lemma_mid_subrange(a: Seq<u8>, b: Seq<u8>, c: Seq<u8>, x: int, y: int)
    requires
        0 <= x <= y <= b.len(),
    ensures
        (a + b + c).subrange(a.len() + x, a.len() + y) == b.subrange(x, y),
{
    assert((a + b + c).subrange(a.len() + x, a.len() + y) =~= b.subrange(x, y));
}

/// A subrange within the second part of a concatenation.
pub proof fn lemma_suffix_subrange(a: Seq<u8>, b: Seq<u8>, x: int, y: int)
    requires
        0 <= x <= y <= b.len(),
    ensures
        (a + b).subrange(a.len() + x, a.len() + y) == b.subrange(x, y),
{
    assert((a + b).subrange(a.len() + x, a.len() + y) =~= b.subrange(x, y));
}

/// The identity on byte pieces.
pub open spec fn piece_id() -> spec_fn(Seq<u8>) -> Seq<u8> {
    |e: Seq<u8>| e
}

/// The `u16` width of a byte piece.
pub open spec fn piece_size() -> spec_fn(Seq<u8>) -> Seq<u8> {
    |e: Seq<u8>| vstd::bytes::spec_u16_to_le_bytes(e.len() as u16)
}

/// Appends the `u16` widths of the given encodings to `out`.
pub(crate) fn append_sizes(out: &mut Vec<u8>, encs: &Vec<Vec<u8>>)
    requires
        forall|j: int| 0 <= j < encs@.len() ==> (#[trigger] encs@[j])@.len() <= 0xFFFF,
    ensures
        final(out)@ == old(out)@ + cat(Seq::new(encs@.len(), |j: int| (encs@[j])@), piece_size()),
{
    let ghost es = Seq::new(encs@.len(), |j: int| (encs@[j])@);
    let count = encs.len();
    let mut i: usize = 0;
    while i < count
        invariant
            i <= count,
            count == encs@.len(),
            es == Seq::new(encs@.len(), |j: int| (encs@[j])@),
            forall|j: int| 0 <= j < encs@.len() ==> (#[trigger] encs@[j])@.len() <= 0xFFFF,
            out@ == old(out)@ + cat(es.take(i as int), piece_size()),
        decreases count - i,
    {
        let e = &encs[i];
        proof {
            assert(es[i as int] == (encs@[i as int])@);
        }
        let mut sb = vstd::bytes::u16_to_le_bytes(e.len() as u16);
        out.append(&mut sb);
        proof {
            lemma_cat_take_succ(es, piece_size(), i as int);
            assert(piece_size()(es[i as int]) == vstd::bytes::spec_u16_to_le_bytes(
                es[i as int].len() as u16,
            ));
            assert(out@ =~= old(out)@ + cat(es.take(i + 1), piece_size()));
        }
        i += 1;
    }
    proof {
        lemma_cat_take_all(es, piece_size());
    }
}

/// Appends the given encodings to `out`, in order.
pub(crate) fn append_encs(out: &mut Vec<u8>, encs: &Vec<Vec<u8>>)
    ensures
        final(out)@ == old(out)@ + cat(Seq::new(encs@.len(), |j: int| (encs@[j])@), piece_id()),
{
    let ghost es = Seq::new(encs@.len(), |j: int| (encs@[j])@);
    let count = encs.len();
    let mut i: usize = 0;
    while i < count
        invariant
            i <= count,
            count == encs@.len(),
            es == Seq::new(encs@.len(), |j: int| (encs@[j])@),
            out@ == old(out)@ + cat(es.take(i as int), piece_id()),
        decreases count - i,
    {
        let e = &encs[i];
        out.extend_from_slice(e.as_slice());
        proof {
            assert(es[i as int] == (encs@[i as int])@);
            assert(piece_id()(es[i as int]) == es[i as int]);
            lemma_cat_take_succ(es, piece_id(), i as int);
            assert(out@ =~= old(out)@ + cat(es.take(i + 1), piece_id()));
        }
        i += 1;
    }
    proof {
        lemma_cat_take_all(es, piece_id());
    }
}

/// A concatenation of piecewise-equal encodings is the concatenation of
/// the spec-level encodings.
pub(crate) proof fn lemma_cat_pointwise<A>(s: Seq<A>, es: Seq<Seq<u8>>, g: spec_fn(Seq<u8>) -> Seq<u8>, h: spec_fn(A) -> Seq<u8>)
    requires
        es.len() == s.len(),
        forall|j: int| 0 <= j < s.len() ==> g(#[trigger] es[j]) == h(s[j]),
    ensures
        cat(es, g) == cat(s, h),
    decreases s.len(),
{
    if s.len() > 0 {
        assert(g(es[s.len() - 1]) == h(s[s.len() - 1]));
        lemma_cat_pointwise(s.drop_last(), es.drop_last(), g, h);
    }
}


} // verus!
