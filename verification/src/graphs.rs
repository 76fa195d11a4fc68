//! Graphs: per-series time series with either a paired x-axis or an
//! implicit linear one, their packed byte form, and the per-series
//! operations of the graph sub-protocol.
//!
//! A series element is a 32- or 64-bit float on the wire; the library
//! carries each element as the bit pattern of its IEEE-754
//! representation, so the packing stays on plain integers.

use vstd::prelude::*;

use crate::collections::{cat, lemma_cat_len_const, lemma_cat_take_all, lemma_cat_take_succ};
use crate::transport::{zeros, pad_to, MESS_SIZE};
use crate::values::opt_view;

verus! {

pub const GRAPH_F32: u8 = 5;
pub const GRAPH_F64: u8 = 10;

pub const GRAPH_SET: u8 = 201;
pub const GRAPH_ADD_POINTS: u8 = 202;
pub const GRAPH_REMOVE: u8 = 203;
pub const GRAPH_RESET: u8 = 204;

/// The width of a graph element on the wire.
#[derive(Clone, Copy, Debug, PartialEq, Eq, Structural)]
pub enum Precision {
    F32,
    F64,
}

impl Precision {
    /// The wire tag of this precision, as the graph sub-header carries
    /// it.
    pub fn tag(self) -> (r: u8)
        ensures
            r == (match self {
                Precision::F32 => GRAPH_F32,
                Precision::F64 => GRAPH_F64,
            }),
    {
        match self {
            Precision::F32 => GRAPH_F32,
            Precision::F64 => GRAPH_F64,
        }
    }
}

/// One element of a graph series: the bit pattern of an `f32` or `f64`,
/// with its little-endian byte form.
pub trait GraphElement: Copy + Sized {
    /// Byte width of every element encoding.
    spec fn width() -> usize;

    /// The wire tag of this element width.
    spec fn precision_tag() -> u8;

    /// The byte encoding of an element.
    spec fn enc(self) -> Seq<u8>;

    /// The decoding of a byte piece; inverse of `enc` on its image.
    spec fn dec(b: Seq<u8>) -> Self;

    /// The element all bits zero, the filler of a resize.
    spec fn spec_zero() -> Self;

    /// The stated facts every element type must establish.
    proof fn lemma_elem(self)
        ensures
            0 < Self::width() <= 8,
            self.enc().len() == Self::width(),
            Self::dec(self.enc()) == self,
    ;

    /// The zero element, as a runtime value.
    fn zero() -> (r: Self)
        ensures
            r == Self::spec_zero(),
    ;

    /// The byte width, as a runtime value.
    fn size() -> (r: usize)
        ensures
            r == Self::width(),
    ;

    /// The wire tag, as a runtime value.
    fn ptag() -> (r: u8)
        ensures
            r == Self::precision_tag(),
    ;

    /// Appends the encoding of the element to `out`.
    fn write_to(self, out: &mut Vec<u8>)
        ensures
            final(out)@ == old(out)@ + self.enc(),
    ;

    /// Reads one element back from `b[pos..pos+width]`.
    fn read_from(b: &[u8], pos: usize) -> (r: Self)
        requires
            pos + Self::width() <= b@.len(),
        ensures
            r == Self::dec(b@.subrange(pos as int, pos + Self::width())),
    ;
}

impl GraphElement for u32 {
    open spec fn width() -> usize {
        4
    }

    open spec fn precision_tag() -> u8 {
        GRAPH_F32
    }

    open spec fn enc(self) -> Seq<u8> {
        vstd::bytes::spec_u32_to_le_bytes(self)
    }

    open spec fn dec(b: Seq<u8>) -> u32 {
        vstd::bytes::spec_u32_from_le_bytes(b)
    }

    open spec fn spec_zero() -> u32 {
        0
    }

    proof fn lemma_elem(self) {
        vstd::bytes::lemma_auto_spec_u32_to_from_le_bytes();
    }

    fn zero() -> u32 {
        0
    }

    fn size() -> usize {
        4
    }

    fn ptag() -> u8 {
        GRAPH_F32
    }

    fn write_to(self, out: &mut Vec<u8>) {
        let mut b = vstd::bytes::u32_to_le_bytes(self);
        out.append(&mut b);
    }

    fn read_from(b: &[u8], pos: usize) -> u32 {
        // learning the slice's length bounds the positions below
        let _bound: usize = b.len();
        vstd::bytes::u32_from_le_bytes(vstd::slice::slice_subrange(b, pos, pos + 4))
    }
}

impl GraphElement for u64 {
    open spec fn width() -> usize {
        8
    }

    open spec fn precision_tag() -> u8 {
        GRAPH_F64
    }

    open spec fn enc(self) -> Seq<u8> {
        vstd::bytes::spec_u64_to_le_bytes(self)
    }

    open spec fn dec(b: Seq<u8>) -> u64 {
        vstd::bytes::spec_u64_from_le_bytes(b)
    }

    open spec fn spec_zero() -> u64 {
        0
    }

    proof fn lemma_elem(self) {
        vstd::bytes::lemma_auto_spec_u64_to_from_le_bytes();
    }

    fn zero() -> u64 {
        0
    }

    fn size() -> usize {
        8
    }

    fn ptag() -> u8 {
        GRAPH_F64
    }

    fn write_to(self, out: &mut Vec<u8>) {
        let mut b = vstd::bytes::u64_to_le_bytes(self);
        out.append(&mut b);
    }

    fn read_from(b: &[u8], pos: usize) -> u64 {
        // learning the slice's length bounds the positions below
        let _bound: usize = b.len();
        vstd::bytes::u64_from_le_bytes(vstd::slice::slice_subrange(b, pos, pos + 8))
    }
}

/// The encoding of one element, as a closure for concatenations.
pub open spec fn gelem_enc<T: GraphElement>() -> spec_fn(T) -> Seq<u8> {
    |t: T| t.enc()
}

/// The elements held by `count` stretches of `T::width` bytes starting
/// at `base`.
pub open spec fn elems_dec<T: GraphElement>(b: Seq<u8>, base: int, count: int) -> Seq<T> {
    Seq::new(
        count as nat,
        |i: int| T::dec(
            b.subrange(base + i * T::width(), base + (i + 1) * T::width()),
        ),
    )
}

/// One graph series: the y values, and either a paired x-axis of the
/// same length or none, meaning an implicit linear axis.
#[derive(Clone)]
pub struct Graph<T> {
    pub y: Vec<T>,
    pub x: Option<Vec<T>>,
}

/// A paired axis carries one x for every y.
pub open spec fn graph_wf<T: GraphElement>(g: Graph<T>) -> bool {
    match g.x {
        Some(x) => x@.len() == g.y@.len(),
        None => true,
    }
}

/// The packed byte form of a stretch of one series: for a paired axis
/// the x values then the y values, each little-endian; for a linear
/// axis the y values alone.
pub struct GraphData<T> {
    phantom: core::marker::PhantomData<T>,
    is_linear: bool,
    points: usize,
    data: Vec<u8>,
}

impl<T: GraphElement> GraphData<T> {
    /// The axis mode the data was packed for.
    pub closed spec fn spec_is_linear(&self) -> bool {
        self.is_linear
    }

    /// The number of points packed.
    pub closed spec fn spec_points(&self) -> int {
        self.points as int
    }

    /// The packed bytes.
    pub closed spec fn spec_data(&self) -> Seq<u8> {
        self.data@
    }

    /// The byte length the packing demands of its fields.
    pub open spec fn wf(&self) -> bool {
        &&& self.spec_data().len() == self.spec_points() * T::width() * (
            if self.spec_is_linear() {
                1int
            } else {
                2int
            }
        )
        &&& self.spec_points() <= 0xFFFF_FFFF
    }

    /// Packs `points` points of `data` in the given axis mode.
    pub fn new(points: usize, data: Vec<u8>, is_linear: bool) -> (r: GraphData<T>)
        ensures
            r.spec_points() == points as int,
            r.spec_data() == data@,
            r.spec_is_linear() == is_linear,
    {
        GraphData { phantom: core::marker::PhantomData, is_linear, points, data }
    }

    /// The axis mode, as a runtime value.
    pub fn is_linear(&self) -> (r: bool)
        ensures
            r == self.spec_is_linear(),
    {
        self.is_linear
    }

    /// The number of points, as a runtime value.
    pub fn points(&self) -> (r: usize)
        ensures
            r as int == self.spec_points(),
    {
        self.points
    }

    /// The packed bytes, as a runtime value.
    pub fn data(&self) -> (r: &Vec<u8>)
        ensures
            r@ == self.spec_data(),
    {
        &self.data
    }
}

/// Appends the encodings of `elems[start..]` to `out`.
fn write_elems<T: GraphElement>(out: &mut Vec<u8>, elems: &Vec<T>, start: usize)
    requires
        start <= elems@.len(),
    ensures
        final(out)@ == old(out)@ + cat(elems@.skip(start as int), gelem_enc::<T>()),
{
    let count = elems.len();
    let ghost tail = elems@.skip(start as int);
    let mut i: usize = start;
    while i < count
        invariant
            start <= i <= count,
            count == elems@.len(),
            tail == elems@.skip(start as int),
            out@ == old(out)@ + cat(tail.take(i - start), gelem_enc::<T>()),
        decreases count - i,
    {
        elems[i].write_to(out);
        proof {
            assert(tail[i - start] == elems@[i as int]);
            lemma_cat_take_succ(tail, gelem_enc::<T>(), i - start);
            assert(gelem_enc::<T>()(tail[i - start]) == elems@[i as int].enc());
            assert(out@ =~= old(out)@ + cat(tail.take(i + 1 - start), gelem_enc::<T>()));
        }
        i += 1;
    }
    proof {
        lemma_cat_take_all(tail, gelem_enc::<T>());
        assert(tail.take(count - start) =~= tail);
    }
}

/// Reads `count` elements starting at `base`.
fn read_elems<T: GraphElement>(b: &[u8], base: usize, count: usize) -> (r: Vec<T>)
    requires
        base + count * T::width() <= b@.len(),
    ensures
        r@ == elems_dec::<T>(b@, base as int, count as int),
{
    let w = T::size();
    proof {
        T::lemma_elem(vstd::pervasive::arbitrary());
    }
    // learning the slice's length bounds the positions below
        let _bound: usize = b.len();
    let mut elems: Vec<T> = Vec::new();
    let mut pos: usize = base;
    let mut i: usize = 0;
    while i < count
        invariant
            i <= count,
            w == T::width(),
            0 < w <= 8,
            base + count * w <= b@.len(),
            b@.len() <= usize::MAX,
            pos as int == base + i * w,
            elems@.len() == i,
            forall|j: int| 0 <= j < i ==> #[trigger] elems@[j] == T::dec(
                b@.subrange(base + j * w, base + (j + 1) * w),
            ),
        decreases count - i,
    {
        proof {
            assert((i + 1) * w <= count * w) by (nonlinear_arith)
                requires i < count, w > 0;
            assert(i * w + w == (i + 1) * w) by (nonlinear_arith);
        }
        let e = T::read_from(b, pos);
        elems.push(e);
        pos = pos + w;
        i += 1;
    }
    proof {
        assert(elems@ =~= elems_dec::<T>(b@, base as int, count as int));
    }
    elems
}

impl<T: GraphElement> Graph<T> {
    /// Packs the last `points` points of the series (all of them when
    /// `None`) into their byte form.
    pub fn to_graph_data(&self, points: Option<usize>) -> (r: GraphData<T>)
        requires
            graph_wf(*self),
            points matches Some(p) ==> p <= self.y@.len() && p <= 0xFFFF_FFFF,
            points is None ==> self.y@.len() <= 0xFFFF_FFFF,
        ensures
            r.wf(),
            r.spec_is_linear() == (self.x is None),
            r.spec_points() == (match points {
                Some(p) => p as int,
                None => self.y@.len() as int,
            }),
            r.spec_data() == (match self.x {
                Some(x) => cat(
                    x@.skip(x@.len() - r.spec_points()),
                    gelem_enc::<T>(),
                ) + cat(self.y@.skip(self.y@.len() - r.spec_points()), gelem_enc::<T>()),
                None => cat(self.y@.skip(self.y@.len() - r.spec_points()), gelem_enc::<T>()),
            }),
            graph_data_view(r) == pack_series::<T>(graph_view(*self), r.spec_points()),
    {
        let n = match points {
            Some(p) => p,
            None => self.y.len(),
        };
        let start = self.y.len() - n;
        proof {
            lemma_enc_width::<T>();
        }
        match &self.x {
            Some(x) => {
                let mut data: Vec<u8> = Vec::new();
                write_elems::<T>(&mut data, x, start);
                write_elems::<T>(&mut data, &self.y, start);
                proof {
                    lemma_cat_len_const(x@.skip(start as int), gelem_enc::<T>(), T::width() as int);
                    lemma_cat_len_const(
                        self.y@.skip(start as int),
                        gelem_enc::<T>(),
                        T::width() as int,
                    );
                    assert(n * T::width() + n * T::width() == n * T::width() * 2)
                        by (nonlinear_arith);
                }
                GraphData::new(n, data, false)
            },
            None => {
                let mut data: Vec<u8> = Vec::new();
                write_elems::<T>(&mut data, &self.y, start);
                proof {
                    lemma_cat_len_const(
                        self.y@.skip(start as int),
                        gelem_enc::<T>(),
                        T::width() as int,
                    );
                    assert(n * T::width() * 1 == n * T::width()) by (nonlinear_arith);
                }
                GraphData::new(n, data, true)
            },
        }
    }

    /// Appends the packed points to the series.  The packing's axis
    /// mode must match the series' own; a mismatch changes nothing and
    /// reports the incompatibility.
    pub fn add_points_from_data(&mut self, graph_data: GraphData<T>) -> (r: Result<(), String>)
        requires
            graph_wf(*old(self)),
            graph_data.wf(),
            old(self).y@.len() + graph_data.spec_points() <= usize::MAX,
        ensures
            r is Ok <==> ((old(self).x is Some) <==> !graph_data.spec_is_linear()),
            r is Err ==> *final(self) == *old(self),
            r is Ok ==> final(self).y@ == old(self).y@ + elems_dec::<T>(
                graph_data.spec_data(),
                if graph_data.spec_is_linear() {
                    0
                } else {
                    graph_data.spec_points() * T::width()
                },
                graph_data.spec_points(),
            ),
            r is Ok ==> (match old(self).x {
                Some(x) => final(self).x matches Some(xn) && xn@ == x@ + elems_dec::<T>(
                    graph_data.spec_data(),
                    0,
                    graph_data.spec_points(),
                ),
                None => final(self).x is None,
            }),
            graph_wf(*final(self)),
    {
        let points = graph_data.points();
        let is_linear = graph_data.is_linear();
        let w = T::size();
        proof {
            lemma_enc_width::<T>();
            T::lemma_elem(vstd::pervasive::arbitrary());
        }
        let linear_here = match &self.x {
            Some(_) => false,
            None => true,
        };
        if linear_here != is_linear {
            return Err("Incoming graph data and graph are not compatible.".to_owned());
        }
        proof {
            assert(points * w * (if is_linear { 1int } else { 2int }) == graph_data.spec_data().len());
            if is_linear {
                assert(points * w * 1int == points * w) by (nonlinear_arith);
            } else {
                assert(points * w * 2int == points * w + points * w) by (nonlinear_arith);
            }
        }
        match &mut self.x {
            Some(x) => {
                let dl = graph_data.data().len();
                proof {
                    assert(points * w >= 0 && points * w + points * w == points * w * 2int)
                        by (nonlinear_arith)
                        requires points >= 0, w >= 0;
                }
                let xs = read_elems::<T>(graph_data.data().as_slice(), 0, points);
                let mut xs = xs;
                let ghost xold = x@;
                x.append(&mut xs);
                let ys = read_elems::<T>(graph_data.data().as_slice(), points * w, points);
                let mut ys = ys;
                self.y.append(&mut ys);
                Ok(())
            },
            None => {
                let ys = read_elems::<T>(graph_data.data().as_slice(), 0, points);
                let mut ys = ys;
                self.y.append(&mut ys);
                Ok(())
            },
        }
    }

    /// Unpacks a whole series from its byte form.
    pub fn from_graph_data(graph_data: GraphData<T>) -> (r: Graph<T>)
        requires
            graph_data.wf(),
        ensures
            graph_wf(r),
            r.x is None <==> graph_data.spec_is_linear(),
            r.y@ == elems_dec::<T>(
                graph_data.spec_data(),
                if graph_data.spec_is_linear() {
                    0
                } else {
                    graph_data.spec_points() * T::width()
                },
                graph_data.spec_points(),
            ),
            (graph_data.spec_is_linear() == false) ==> (r.x matches Some(x) && x@
                == elems_dec::<T>(graph_data.spec_data(), 0, graph_data.spec_points())),
    {
        let points = graph_data.points();
        let w = T::size();
        proof {
            lemma_enc_width::<T>();
            T::lemma_elem(vstd::pervasive::arbitrary());
        }
        if graph_data.is_linear() {
            proof {
                assert(points * w * 1int == points * w) by (nonlinear_arith);
            }
            let y = read_elems::<T>(graph_data.data().as_slice(), 0, points);
            Graph { x: None, y }
        } else {
            proof {
                assert(points * w * 2int == points * w + points * w) by (nonlinear_arith);
            }
            let dl = graph_data.data().len();
            proof {
                assert(points * w >= 0 && points * w + points * w == points * w * 2int)
                    by (nonlinear_arith)
                    requires points >= 0, w >= 0;
            }
            let x = read_elems::<T>(graph_data.data().as_slice(), 0, points);
            let y = read_elems::<T>(graph_data.data().as_slice(), points * w, points);
            Graph { x: Some(x), y }
        }
    }
}

/// Every element encoding has the element width.
proof fn lemma_enc_width<T: GraphElement>()
    ensures
        forall|t: T| (#[trigger] gelem_enc::<T>()(t)).len() == T::width(),
        0 < T::width() <= 8,
{
    assert forall|t: T| (#[trigger] gelem_enc::<T>()(t)).len() == T::width() by {
        t.lemma_elem();
    }
    T::lemma_elem(vstd::pervasive::arbitrary::<T>());
}

/// One per-series operation on the wire.
pub enum GraphMessage<T> {
    Put(u16, GraphData<T>),
    AddPoints(u16, GraphData<T>),
    Remove(u16),
    Reset,
}

/// Mathematical shadow of a packed series.
pub struct GraphDataView {
    pub is_linear: bool,
    pub points: int,
    pub data: Seq<u8>,
}

/// Mathematical shadow of [`GraphMessage`].
pub enum GraphMessageView {
    Put(int, GraphDataView),
    AddPoints(int, GraphDataView),
    Remove(int),
    Reset,
}

/// The view of a packed series.
pub open spec fn graph_data_view<T: GraphElement>(gd: GraphData<T>) -> GraphDataView {
    GraphDataView {
        is_linear: gd.spec_is_linear(),
        points: gd.spec_points(),
        data: gd.spec_data(),
    }
}

/// The packed byte form of the last `n` points of a series, exactly as
/// `Graph::to_graph_data` produces it: for a paired axis the x tail
/// then the y tail, for a linear axis the y tail alone.
pub open spec fn pack_series<T: GraphElement>(g: GraphView<T>, n: int) -> GraphDataView {
    GraphDataView {
        is_linear: g.x is None,
        points: n,
        data: match g.x {
            Some(x) => cat(x.skip(x.len() - n), gelem_enc::<T>()) + cat(
                g.y.skip(g.y.len() - n),
                gelem_enc::<T>(),
            ),
            None => cat(g.y.skip(g.y.len() - n), gelem_enc::<T>()),
        },
    }
}

/// The series a packed form unpacks to, exactly as
/// `Graph::from_graph_data` recovers it.
pub open spec fn unpack_series<T: GraphElement>(gd: GraphDataView) -> GraphView<T> {
    GraphView {
        y: elems_dec::<T>(
            gd.data,
            if gd.is_linear {
                0
            } else {
                gd.points * T::width()
            },
            gd.points,
        ),
        x: if gd.is_linear {
            None
        } else {
            Some(elems_dec::<T>(gd.data, 0, gd.points))
        },
    }
}

/// The series extended by the points of a packed form, exactly as
/// `Graph::add_points_from_data` appends them.
pub open spec fn extend_series<T: GraphElement>(g: GraphView<T>, gd: GraphDataView) -> GraphView<
    T,
> {
    GraphView {
        y: g.y + elems_dec::<T>(
            gd.data,
            if gd.is_linear {
                0
            } else {
                gd.points * T::width()
            },
            gd.points,
        ),
        x: match g.x {
            Some(x) => Some(x + elems_dec::<T>(gd.data, 0, gd.points)),
            None => None,
        },
    }
}

/// The outbound frame of one graph message of slot `id`, as
/// `WriteMessage::graph` erases it.
pub open spec fn graph_frame<T: GraphElement>(
    id: u32,
    update: bool,
    m: GraphMessageView,
) -> crate::transport::WriteMessageView {
    crate::transport::WriteMessageView::Graph(
        id as int,
        update,
        crate::transport::SubFrameView { head: graph_head::<T>(m), data: graph_data_of(m) },
    )
}

impl<T: GraphElement> View for GraphMessage<T> {
    type V = GraphMessageView;

    open spec fn view(&self) -> GraphMessageView {
        match self {
            GraphMessage::Put(idx, gd) => GraphMessageView::Put(*idx as int, graph_data_view(*gd)),
            GraphMessage::AddPoints(idx, gd) => GraphMessageView::AddPoints(
                *idx as int,
                graph_data_view(*gd),
            ),
            GraphMessage::Remove(idx) => GraphMessageView::Remove(*idx as int),
            GraphMessage::Reset => GraphMessageView::Reset,
        }
    }
}

/// The byte length a packed series view demands.
pub open spec fn gdv_wf<T: GraphElement>(gd: GraphDataView) -> bool {
    &&& gd.data.len() == gd.points * T::width() * (
        if gd.is_linear {
            1int
        } else {
            2int
        }
    )
    &&& 0 <= gd.points <= 0xFFFF_FFFF
}

/// The wire constraints on a graph message.
pub open spec fn graph_msg_wf<T: GraphElement>(m: GraphMessageView) -> bool {
    match m {
        GraphMessageView::Put(idx, gd) => 0 <= idx <= 0xFFFF && gdv_wf::<T>(gd),
        GraphMessageView::AddPoints(idx, gd) => 0 <= idx <= 0xFFFF && gdv_wf::<T>(gd),
        GraphMessageView::Remove(idx) => 0 <= idx <= 0xFFFF,
        GraphMessageView::Reset => true,
    }
}

/// The sub-header of a data-carrying graph operation: the operation
/// tag, the precision tag, the axis mode, the point count and the
/// series index, zero-padded.
pub open spec fn graph_op_head<T: GraphElement>(op: u8, gd: GraphDataView, idx: int) -> Seq<u8> {
    seq![op, T::precision_tag(), if gd.is_linear { 255u8 } else { 0u8 }]
        + vstd::bytes::spec_u32_to_le_bytes(gd.points as u32) + vstd::bytes::spec_u16_to_le_bytes(
        idx as u16,
    ) + zeros(17)
}

/// The 26-byte graph sub-header.
pub open spec fn graph_head<T: GraphElement>(m: GraphMessageView) -> Seq<u8> {
    match m {
        GraphMessageView::Put(idx, gd) => graph_op_head::<T>(GRAPH_SET, gd, idx),
        GraphMessageView::AddPoints(idx, gd) => graph_op_head::<T>(GRAPH_ADD_POINTS, gd, idx),
        GraphMessageView::Remove(idx) => seq![GRAPH_REMOVE] + zeros(6)
            + vstd::bytes::spec_u16_to_le_bytes(idx as u16) + zeros(17),
        GraphMessageView::Reset => seq![GRAPH_RESET] + zeros(25),
    }
}

/// The payload of a graph message, if any.
pub open spec fn graph_data_of(m: GraphMessageView) -> Option<Seq<u8>> {
    match m {
        GraphMessageView::Put(idx, gd) => Some(gd.data),
        GraphMessageView::AddPoints(idx, gd) => Some(gd.data),
        GraphMessageView::Remove(idx) => None,
        GraphMessageView::Reset => None,
    }
}

/// The mathematical decoder of a graph message: `Some` exactly on the
/// byte shapes `graph_head` and `graph_data_of` produce together.
pub open spec fn graph_dec<T: GraphElement>(head: Seq<u8>, data: Option<Seq<u8>>) -> Option<
    GraphMessageView,
> {
    if head.len() != MESS_SIZE {
        None
    } else if head[0] == GRAPH_SET || head[0] == GRAPH_ADD_POINTS {
        if data is Some && head[1] == T::precision_tag() {
            let d = data.unwrap();
            let is_linear = head[2] != 0;
            let points = vstd::bytes::spec_u32_from_le_bytes(head.subrange(3, 7)) as int;
            let idx = vstd::bytes::spec_u16_from_le_bytes(head.subrange(7, 9)) as int;
            if d.len() == points * T::width() * (
                if is_linear {
                    1int
                } else {
                    2int
                }
            ) {
                let gd = GraphDataView { is_linear, points, data: d };
                if head[0] == GRAPH_SET {
                    Some(GraphMessageView::Put(idx, gd))
                } else {
                    Some(GraphMessageView::AddPoints(idx, gd))
                }
            } else {
                None
            }
        } else {
            None
        }
    } else if head[0] == GRAPH_REMOVE {
        if data is None {
            Some(
                GraphMessageView::Remove(
                    vstd::bytes::spec_u16_from_le_bytes(head.subrange(7, 9)) as int,
                ),
            )
        } else {
            None
        }
    } else if head[0] == GRAPH_RESET {
        if data is None {
            Some(GraphMessageView::Reset)
        } else {
            None
        }
    } else {
        None
    }
}

/// Erasure of a typed graph message to its wire form.
pub trait WriteGraphMessage {
    /// The wire constraints on the message.
    spec fn spec_wf(&self) -> bool;

    /// The sub-header the message fills.
    spec fn spec_head(&self) -> Seq<u8>;

    /// The payload of the message, if any.
    spec fn spec_data(&self) -> Option<Seq<u8>>;

    /// Fills the sub-header and hands back the payload, if any.
    fn write_message(&self) -> (r: (Vec<u8>, Option<Vec<u8>>))
        requires
            self.spec_wf(),
        ensures
            r.0@.len() == MESS_SIZE,
            r.0@ == self.spec_head(),
            opt_view(r.1) == self.spec_data(),
    ;
}

impl<T: GraphElement> WriteGraphMessage for GraphMessage<T> {
    open spec fn spec_wf(&self) -> bool {
        graph_msg_wf::<T>(self@)
    }

    open spec fn spec_head(&self) -> Seq<u8> {
        graph_head::<T>(self@)
    }

    open spec fn spec_data(&self) -> Option<Seq<u8>> {
        graph_data_of(self@)
    }

    fn write_message(&self) -> (r: (Vec<u8>, Option<Vec<u8>>)) {
        match self {
            GraphMessage::Put(idx, gd) | GraphMessage::AddPoints(idx, gd) => {
                let mut head: Vec<u8> = Vec::new();
                head.push(
                    match self {
                        GraphMessage::Put(_, _) => GRAPH_SET,
                        _ => GRAPH_ADD_POINTS,
                    },
                );
                head.push(T::ptag());
                head.push(if gd.is_linear() { 255u8 } else { 0u8 });
                let mut b = vstd::bytes::u32_to_le_bytes(gd.points() as u32);
                head.append(&mut b);
                let mut b = vstd::bytes::u16_to_le_bytes(*idx);
                head.append(&mut b);
                pad_to(&mut head, MESS_SIZE);
                let payload = vstd::slice::slice_to_vec(gd.data().as_slice());
                proof {
                    assert(head@ =~= graph_head::<T>(self@));
                }
                (head, Some(payload))
            },
            GraphMessage::Remove(idx) => {
                let mut head: Vec<u8> = Vec::new();
                head.push(GRAPH_REMOVE);
                pad_to(&mut head, 7);
                let mut b = vstd::bytes::u16_to_le_bytes(*idx);
                head.append(&mut b);
                pad_to(&mut head, MESS_SIZE);
                proof {
                    assert(head@ =~= graph_head::<T>(self@));
                }
                (head, None)
            },
            GraphMessage::Reset => {
                let mut head: Vec<u8> = Vec::new();
                head.push(GRAPH_RESET);
                pad_to(&mut head, MESS_SIZE);
                proof {
                    assert(head@ =~= graph_head::<T>(self@));
                }
                (head, None)
            },
        }
    }
}

impl<T: GraphElement> GraphMessage<T> {
    /// Parses a graph sub-header and payload; the exact inverse of
    /// `write_message`, failing on every other byte shape, among them a
    /// precision that is not this element type's.
    pub fn read_message(head: &[u8], data: Option<Vec<u8>>) -> (r: Result<GraphMessage<T>, String>)
        ensures
            r is Ok <==> graph_dec::<T>(head@, opt_view(data)) is Some,
            r matches Ok(m) ==> graph_dec::<T>(head@, opt_view(data)) == Some(m@),
            r matches Ok(m) ==> graph_msg_wf::<T>(m@),
    {
        if head.len() != MESS_SIZE {
            return Err("Wrong graph head length.".to_owned());
        }
        let tag = *vstd::slice::slice_index_get(head, 0);
        if tag == GRAPH_SET || tag == GRAPH_ADD_POINTS {
            let d = match data {
                Some(d) => d,
                None => {
                    return Err("No data for graph message.".to_owned());
                },
            };
            let ptag = *vstd::slice::slice_index_get(head, 1);
            if ptag != T::ptag() {
                return Err("Wrong precision for graph message.".to_owned());
            }
            let is_linear = *vstd::slice::slice_index_get(head, 2) != 0;
            let points32 = vstd::bytes::u32_from_le_bytes(vstd::slice::slice_subrange(head, 3, 7));
            let idx = vstd::bytes::u16_from_le_bytes(vstd::slice::slice_subrange(head, 7, 9));
            let w = T::size();
            proof {
                T::lemma_elem(vstd::pervasive::arbitrary());
            }
            let lines: u128 = if is_linear {
                1
            } else {
                2
            };
            proof {
                assert(points32 as u128 * w as u128 * lines <= 0xFFFF_FFFFu128 * 8 * 2)
                    by (nonlinear_arith)
                    requires points32 <= 0xFFFF_FFFFu32, w <= 8, 1 <= lines <= 2u128;
            }
            if d.len() as u128 != points32 as u128 * w as u128 * lines {
                proof {
                    assert((points32 as u128 * w as u128 * lines) as int == points32 as int
                        * T::width() * lines as int) by (nonlinear_arith)
                        requires
                            w == T::width(),
                            w <= 8,
                            points32 <= 0xFFFF_FFFFu32,
                            lines == 1u128 || lines == 2u128,
                    ;
                }
                return Err("Graph data is corrupted.".to_owned());
            }
            proof {
                assert((points32 as u128 * w as u128 * lines) as int == points32 as int
                    * T::width() * lines as int) by (nonlinear_arith)
                    requires
                        w == T::width(),
                        w <= 8,
                        points32 <= 0xFFFF_FFFFu32,
                        lines == 1u128 || lines == 2u128,
                ;
            }
            let points = points32 as usize;
            let gd = GraphData::<T>::new(points, d, is_linear);
            if tag == GRAPH_SET {
                Ok(GraphMessage::Put(idx, gd))
            } else {
                Ok(GraphMessage::AddPoints(idx, gd))
            }
        } else if tag == GRAPH_REMOVE {
            match data {
                None => {
                    let idx = vstd::bytes::u16_from_le_bytes(
                        vstd::slice::slice_subrange(head, 7, 9),
                    );
                    Ok(GraphMessage::Remove(idx))
                },
                Some(_) => Err("Graph remove got unexpected data.".to_owned()),
            }
        } else if tag == GRAPH_RESET {
            match data {
                None => Ok(GraphMessage::Reset),
                Some(_) => Err("Graph reset got unexpected data.".to_owned()),
            }
        } else {
            Err("Unknown graph message type.".to_owned())
        }
    }
}

/// Writing any well-formed graph message and reading it back yields the
/// message that was written.
pub proof fn lemma_graph_round_trip<T: GraphElement>(m: GraphMessageView)
    requires
        graph_msg_wf::<T>(m),
    ensures
        graph_dec::<T>(graph_head::<T>(m), graph_data_of(m)) == Some(m),
{
    vstd::bytes::lemma_auto_spec_u16_to_from_le_bytes();
    vstd::bytes::lemma_auto_spec_u32_to_from_le_bytes();
    T::lemma_elem(vstd::pervasive::arbitrary::<T>());
    let head = graph_head::<T>(m);
    match m {
        GraphMessageView::Put(idx, gd) | GraphMessageView::AddPoints(idx, gd) => {
            let op = if m is Put {
                GRAPH_SET
            } else {
                GRAPH_ADD_POINTS
            };
            assert(head == graph_op_head::<T>(op, gd, idx));
            assert(head.len() == MESS_SIZE);
            assert(head[0] == op);
            assert(head[1] == T::precision_tag());
            assert(head[2] == (if gd.is_linear { 255u8 } else { 0u8 }));
            assert(head.subrange(3, 7) =~= vstd::bytes::spec_u32_to_le_bytes(gd.points as u32));
            assert(head.subrange(7, 9) =~= vstd::bytes::spec_u16_to_le_bytes(idx as u16));
        },
        GraphMessageView::Remove(idx) => {
            assert(head.len() == MESS_SIZE);
            assert(head[0] == GRAPH_REMOVE);
            assert(head.subrange(7, 9) =~= vstd::bytes::spec_u16_to_le_bytes(idx as u16));
        },
        GraphMessageView::Reset => {
            assert(head.len() == MESS_SIZE);
            assert(head[0] == GRAPH_RESET);
        },
    }
}

/// Builds a new series from a flat buffer.  With a range the buffer is
/// one row of y values on an implicit linear axis; without one it is
/// two rows, x then y.  Rejected shapes leave nothing behind.
pub fn buffer_to_graph<T: GraphElement>(
    buffer: &Vec<T>,
    shape: &Vec<usize>,
    range: Option<[T; 2]>,
) -> (r: Result<Graph<T>, String>)
    requires
        shape@.len() == 1 ==> buffer@.len() == shape@[0],
        shape@.len() == 2 ==> buffer@.len() == shape@[0] * shape@[1],
    ensures
        r is Ok <==> (match range {
            Some(_) => shape@.len() == 1 && shape@[0] >= 2,
            None => shape@.len() == 2 && shape@[0] == 2 && shape@[1] >= 2,
        }),
        r matches Ok(g) ==> graph_wf(g),
        r matches Ok(g) ==> (match range {
            Some(_) => g.x is None && g.y@ == buffer@,
            None => (g.x matches Some(x) && x@ == buffer@.take(shape@[1] as int) && g.y@
                == buffer@.skip(shape@[1] as int)),
        }),
{
    match range {
        Some(_) => {
            if shape.len() != 1 {
                return Err("Graph data with range must have 1 dimension.".to_owned());
            }
            if shape[0] < 2 {
                return Err("Graph data with range must have at least 2 points.".to_owned());
            }
            let y = vstd::slice::slice_to_vec(buffer.as_slice());
            Ok(Graph { y, x: None })
        },
        None => {
            if shape.len() != 2 {
                return Err("Graph data must have 2 dimensions.".to_owned());
            }
            if shape[0] != 2 {
                return Err("Graph data must have 2 lines (x, y).".to_owned());
            }
            if shape[1] < 2 {
                return Err("Graph data must have at least 2 points.".to_owned());
            }
            let points = shape[1];
            proof {
                assert(buffer@.len() == 2 * shape@[1]) by (nonlinear_arith)
                    requires buffer@.len() == shape@[0] * shape@[1], shape@[0] == 2;
            }
            let x = vstd::slice::slice_to_vec(
                vstd::slice::slice_subrange(buffer.as_slice(), 0, points),
            );
            let y = vstd::slice::slice_to_vec(
                vstd::slice::slice_subrange(buffer.as_slice(), points, buffer.len()),
            );
            proof {
                assert(buffer@.subrange(0, points as int) =~= buffer@.take(points as int));
                assert(buffer@.subrange(points as int, buffer@.len() as int) =~= buffer@.skip(
                    points as int,
                ));
            }
            Ok(Graph { x: Some(x), y })
        },
    }
}

/// Appends the points of a flat buffer to an existing series.  The
/// buffer's shape must carry an axis mode matching the series' own; a
/// mismatch changes nothing and reports the incompatibility.
pub fn buffer_to_graph_add<T: GraphElement>(
    graph: &mut Graph<T>,
    buffer: &Vec<T>,
    shape: &Vec<usize>,
    range: Option<[T; 2]>,
) -> (r: Result<(), String>)
    requires
        graph_wf(*old(graph)),
        shape@.len() == 1 ==> buffer@.len() == shape@[0],
        shape@.len() == 2 ==> buffer@.len() == shape@[0] * shape@[1],
        old(graph).y@.len() + buffer@.len() <= usize::MAX,
    ensures
        r is Ok <==> (match range {
            Some(_) => shape@.len() == 1 && old(graph).x is None,
            None => shape@.len() == 2 && shape@[0] == 2 && old(graph).x is Some,
        }),
        r is Err ==> *final(graph) == *old(graph),
        r is Ok ==> (match range {
            Some(_) => final(graph).x is None && final(graph).y@ == old(graph).y@ + buffer@,
            None => (final(graph).x matches Some(xn) && old(graph).x matches Some(xo) && xn@ == xo@
                + buffer@.take(shape@[1] as int) && final(graph).y@ == old(graph).y@
                + buffer@.skip(shape@[1] as int)),
        }),
        graph_wf(*final(graph)),
{
    match range {
        Some(_) => {
            if shape.len() != 1 {
                return Err("Graph data with range must have 1 dimension.".to_owned());
            }
            match &graph.x {
                Some(_) => {
                    return Err(
                        "Graph data with range must have the same x axis type.".to_owned(),
                    );
                },
                None => (),
            }
            let mut more = vstd::slice::slice_to_vec(buffer.as_slice());
            graph.y.append(&mut more);
            Ok(())
        },
        None => {
            if shape.len() != 2 {
                return Err("Graph data must have 2 dimensions.".to_owned());
            }
            if shape[0] != 2 {
                return Err("Graph data must have 2 lines (x, y).".to_owned());
            }
            let points = shape[1];
            proof {
                assert(buffer@.len() == 2 * shape@[1]) by (nonlinear_arith)
                    requires buffer@.len() == shape@[0] * shape@[1], shape@[0] == 2;
            }
            match &mut graph.x {
                Some(x) => {
                    let mut xs = vstd::slice::slice_to_vec(
                        vstd::slice::slice_subrange(buffer.as_slice(), 0, points),
                    );
                    x.append(&mut xs);
                    let mut ys = vstd::slice::slice_to_vec(
                        vstd::slice::slice_subrange(buffer.as_slice(), points, buffer.len()),
                    );
                    graph.y.append(&mut ys);
                    proof {
                        assert(buffer@.subrange(0, points as int) =~= buffer@.take(points as int));
                        assert(buffer@.subrange(points as int, buffer@.len() as int)
                            =~= buffer@.skip(points as int));
                    }
                    Ok(())
                },
                None => Err("Graph data with range must have the same x axis type.".to_owned()),
            }
        },
    }
}

/// Mathematical shadow of one series.
pub struct GraphView<T> {
    pub y: Seq<T>,
    pub x: Option<Seq<T>>,
}

/// The view of a series.
pub open spec fn graph_view<T: GraphElement>(g: Graph<T>) -> GraphView<T> {
    GraphView {
        y: g.y@,
        x: match g.x {
            Some(x) => Some(x@),
            None => None,
        },
    }
}

/// A deep copy of a series.
pub fn clone_graph<T: GraphElement>(g: &Graph<T>) -> (r: Graph<T>)
    ensures
        graph_view(r) == graph_view(*g),
{
    let y = vstd::slice::slice_to_vec(g.y.as_slice());
    let x = match &g.x {
        Some(xs) => Some(vstd::slice::slice_to_vec(xs.as_slice())),
        None => None,
    };
    let r = Graph { y, x };
    proof {
        assert(graph_view(r) == graph_view(*g));
    }
    r
}

/// The first position holding series index `idx`, or a negative number.
pub open spec fn series_index<T>(entries: Seq<(u16, GraphView<T>)>, idx: u16) -> int
    decreases entries.len(),
{
    if entries.len() == 0 {
        -1
    } else if entries[0].0 == idx {
        0
    } else {
        let r = series_index(entries.drop_first(), idx);
        if r < 0 {
            -1
        } else {
            r + 1
        }
    }
}

/// A found index lies in range and holds the series; a negative answer
/// means no entry does.
pub proof fn lemma_series_index<T>(entries: Seq<(u16, GraphView<T>)>, idx: u16)
    ensures
        series_index(entries, idx) >= 0 ==> 0 <= series_index(entries, idx) < entries.len()
            && entries[series_index(entries, idx)].0 == idx,
        series_index(entries, idx) < 0 ==> forall|i: int| 0 <= i < entries.len() ==> (
        #[trigger] entries[i]).0 != idx,
    decreases entries.len(),
{
    if entries.len() > 0 && entries[0].0 != idx {
        lemma_series_index(entries.drop_first(), idx);
        assert forall|i: int| series_index(entries, idx) < 0 && 0 <= i < entries.len() implies (
        #[trigger] entries[i]).0 != idx by {
            if i > 0 {
                assert(entries.drop_first()[i - 1] == entries[i]);
            }
        }
    }
}

/// The entries after storing series `g` under `idx`: the entry holding
/// `idx` is replaced, or the pair is appended when none does.
pub open spec fn put_series<T>(
    entries: Seq<(u16, GraphView<T>)>,
    idx: u16,
    g: GraphView<T>,
) -> Seq<(u16, GraphView<T>)> {
    let i = series_index(entries, idx);
    if i >= 0 {
        entries.update(i, (idx, g))
    } else {
        entries.push((idx, g))
    }
}

/// The entries after removing series `idx`: the entry holding it
/// disappears, or nothing changes when none does.
pub open spec fn remove_series<T>(entries: Seq<(u16, GraphView<T>)>, idx: u16) -> Seq<
    (u16, GraphView<T>),
> {
    let i = series_index(entries, idx);
    if i >= 0 {
        entries.remove(i)
    } else {
        entries
    }
}

/// The mirror of one graph slot: its id and its series, each under a
/// `u16` index.
pub struct ValueGraphs<T> {
    id: u32,
    graphs: Vec<(u16, Graph<T>)>,
}

impl<T: GraphElement> ValueGraphs<T> {
    /// The slot id.
    pub closed spec fn spec_id(&self) -> u32 {
        self.id
    }

    /// The series of the mirror, in insertion order.
    pub closed spec fn spec_entries(&self) -> Seq<(u16, GraphView<T>)> {
        Seq::new(self.graphs@.len(), |i: int| (self.graphs@[i].0, graph_view(self.graphs@[i].1)))
    }

    /// The number of series.
    pub open spec fn spec_count(&self) -> int {
        self.spec_entries().len() as int
    }

    /// Indices are unique and every series is well-formed.
    pub open spec fn inv(&self) -> bool {
        &&& forall|i: int, j: int|
            0 <= i < j < self.spec_entries().len() ==> (#[trigger] self.spec_entries()[i]).0 != (
            #[trigger] self.spec_entries()[j]).0
        &&& forall|i: int| 0 <= i < self.spec_entries().len() ==> (match (
        #[trigger] self.spec_entries()[i]).1.x {
            Some(x) => x.len() == self.spec_entries()[i].1.y.len(),
            None => true,
        })
    }

    /// A fresh, empty mirror.
    pub fn new(id: u32) -> (r: ValueGraphs<T>)
        ensures
            r.spec_id() == id,
            r.spec_count() == 0,
            r.inv(),
    {
        let r = ValueGraphs { id, graphs: Vec::new() };
        proof {
            assert(r.spec_entries() =~= Seq::<(u16, GraphView<T>)>::empty());
        }
        r
    }

    /// The number of series, as a runtime value.
    pub fn count(&self) -> (r: usize)
        ensures
            r as int == self.spec_count(),
    {
        self.graphs.len()
    }

    /// The position of series `idx`, if it is there.
    fn find_series(&self, idx: u16) -> (r: Option<usize>)
        ensures
            r matches Some(i) ==> series_index(self.spec_entries(), idx) == i as int && i
                < self.graphs@.len(),
            r is None ==> series_index(self.spec_entries(), idx) < 0,
    {
        let n = self.graphs.len();
        let mut i: usize = 0;
        while i < n
            invariant
                i <= n,
                n == self.graphs@.len(),
                forall|j: int| 0 <= j < i ==> (#[trigger] self.spec_entries()[j]).0 != idx,
            decreases n - i,
        {
            proof {
                assert(self.spec_entries()[i as int] == (self.graphs@[i as int].0, graph_view(
                    self.graphs@[i as int].1,
                )));
            }
            if self.graphs[i].0 == idx {
                proof {
                    lemma_series_index_found(self.spec_entries(), idx, i as int);
                }
                return Some(i);
            }
            i += 1;
        }
        proof {
            lemma_series_index(self.spec_entries(), idx);
            if series_index(self.spec_entries(), idx) >= 0 {
                assert((self.spec_entries()[series_index(self.spec_entries(), idx)]).0 == idx);
            }
        }
        None
    }

    /// A copy of series `idx`, if it is there.
    pub fn get(&self, idx: u16) -> (r: Option<Graph<T>>)
        ensures
            r is Some <==> series_index(self.spec_entries(), idx) >= 0,
            r matches Some(g) ==> graph_view(g) == self.spec_entries()[series_index(
                self.spec_entries(),
                idx,
            )].1,
    {
        match self.find_series(idx) {
            Some(i) => {
                proof {
                    assert(self.spec_entries()[i as int] == (self.graphs@[i as int].0, graph_view(
                        self.graphs@[i as int].1,
                    )));
                }
                Some(clone_graph(&self.graphs[i].1))
            },
            None => None,
        }
    }

    /// The length of series `idx`, if it is there.
    pub fn len(&self, idx: u16) -> (r: Option<usize>)
        ensures
            r is Some <==> series_index(self.spec_entries(), idx) >= 0,
            r matches Some(n) ==> n == self.spec_entries()[series_index(
                self.spec_entries(),
                idx,
            )].1.y.len(),
    {
        match self.find_series(idx) {
            Some(i) => {
                proof {
                    assert(self.spec_entries()[i as int] == (self.graphs@[i as int].0, graph_view(
                        self.graphs@[i as int].1,
                    )));
                }
                Some(self.graphs[i].1.y.len())
            },
            None => None,
        }
    }

    /// Stores a whole series under `idx`, replacing any series already
    /// there; while connected the series also leaves for the peer.
    pub fn set(&mut self, idx: u16, graph: Graph<T>, update: bool, connected: bool) -> (r: Option<
        crate::transport::WriteMessage,
    >)
        requires
            old(self).inv(),
            graph_wf(graph),
            connected ==> graph.y@.len() * 16 <= 0xFFFF_FFFF,
        ensures
            final(self).spec_id() == old(self).spec_id(),
            final(self).inv(),
            connected <==> r is Some,
            final(self).spec_entries() == put_series(
                old(self).spec_entries(),
                idx,
                graph_view(graph),
            ),
            series_index(final(self).spec_entries(), idx) >= 0,
            final(self).spec_entries()[series_index(final(self).spec_entries(), idx)].1
                == graph_view(graph),
            r matches Some(m) ==> m@ == graph_frame::<T>(
                old(self).spec_id(),
                update,
                GraphMessageView::Put(
                    idx as int,
                    pack_series::<T>(graph_view(graph), graph.y@.len() as int),
                ),
            ),
    {
        let message = if connected {
            let gd = graph.to_graph_data(None);
            proof {
                lemma_gd_len_bound::<T>(&gd, graph.y@.len() as int);
            }
            Some(
                crate::transport::WriteMessage::graph(
                    self.id,
                    update,
                    GraphMessage::Put(idx, gd),
                ),
            )
        } else {
            None
        };
        let ghost pre = self.spec_entries();
        match self.find_series(idx) {
            Some(i) => {
                proof {
                    lemma_series_index(pre, idx);
                }
                let ghost gv = graph_view(graph);
                self.graphs[i] = (idx, graph);
                proof {
                    assert(self.spec_entries()[i as int] == (idx, gv));
                    assert(self.spec_entries() =~= pre.update(i as int, (idx, gv)));
                    assert forall|j: int| 0 <= j < i implies (
                    #[trigger] self.spec_entries()[j]).0 != idx by {
                        assert(self.spec_entries()[j] == pre[j]);
                        assert(pre[j].0 != pre[i as int].0);
                    }
                    lemma_series_index_found(self.spec_entries(), idx, i as int);
                }
            },
            None => {
                let ghost gv = graph_view(graph);
                self.graphs.push((idx, graph));
                proof {
                    lemma_series_index(pre, idx);
                    assert(self.spec_entries()[pre.len() as int] == (idx, gv));
                    assert(self.spec_entries() =~= pre.push((idx, gv)));
                    assert forall|j: int| 0 <= j < pre.len() implies (
                    #[trigger] self.spec_entries()[j]).0 != idx by {
                        assert(self.spec_entries()[j] == pre[j]);
                    }
                    lemma_series_index_found(self.spec_entries(), idx, pre.len() as int);
                }
            },
        }
        message
    }

    /// Appends the points of a flat buffer to series `idx`; while
    /// connected only the new points leave for the peer, packed behind
    /// an `AddPoints` frame.  Success is owed exactly when the series
    /// is stored, the buffer's shape matches its axis mode, and the
    /// grown series still fits; any failure changes nothing.
    pub fn add_points(
        &mut self,
        idx: u16,
        buffer: &Vec<T>,
        shape: &Vec<usize>,
        range: Option<[T; 2]>,
        update: bool,
        connected: bool,
    ) -> (r: Result<Option<crate::transport::WriteMessage>, String>)
        requires
            old(self).inv(),
            shape@.len() == 1 ==> buffer@.len() == shape@[0],
            shape@.len() == 2 ==> buffer@.len() == shape@[0] * shape@[1],
            buffer@.len() * 16 <= 0xFFFF_FFFF,
        ensures
            final(self).spec_id() == old(self).spec_id(),
            final(self).inv(),
            r is Err ==> final(self).spec_entries() == old(self).spec_entries(),
            ({
                let si = series_index(old(self).spec_entries(), idx);
                let stored = old(self).spec_entries()[si].1;
                let appended = (match range {
                    Some(_) => buffer@.len() as int,
                    None => shape@[1] as int,
                });
                let grown = GraphView {
                    y: stored.y + (match range {
                        Some(_) => buffer@,
                        None => buffer@.skip(shape@[1] as int),
                    }),
                    x: (match range {
                        Some(_) => stored.x,
                        None => (match stored.x {
                            Some(x) => Some(x + buffer@.take(shape@[1] as int)),
                            None => None,
                        }),
                    }),
                };
                &&& (r is Ok <==> si >= 0 && stored.y.len() + buffer@.len() <= usize::MAX && (
                match range {
                    Some(_) => shape@.len() == 1 && stored.x is None,
                    None => shape@.len() == 2 && shape@[0] == 2 && stored.x is Some,
                }))
                &&& (r is Ok ==> final(self).spec_entries() == old(self).spec_entries().update(
                    si,
                    (idx, grown),
                ))
                &&& (r matches Ok(m) ==> (m is Some <==> connected))
                &&& (r matches Ok(m) ==> (connected ==> (m matches Some(w) && w@
                    == graph_frame::<T>(
                    old(self).spec_id(),
                    update,
                    GraphMessageView::AddPoints(idx as int, pack_series::<T>(grown, appended)),
                ))))
            }),
    {
        let i = match self.find_series(idx) {
            Some(i) => i,
            None => {
                return Err("Graph not found.".to_owned());
            },
        };
        let ghost pre = self.spec_entries();
        let ghost pre_graphs = self.graphs@;
        proof {
            lemma_series_index(pre, idx);
            assert(pre[i as int] == (pre_graphs[i as int].0, graph_view(pre_graphs[i as int].1)));
        }
        if self.graphs[i].1.y.len() > usize::MAX - buffer.len() {
            return Err("Graph too large.".to_owned());
        }
        let points = if shape.len() == 2 {
            shape[1]
        } else {
            buffer.len()
        };
        let res = buffer_to_graph_add::<T>(&mut self.graphs[i].1, buffer, shape, range);
        proof {
            assert forall|a: int| 0 <= a < pre.len() && a != i as int implies
                #[trigger] self.spec_entries()[a] == pre[a] by {
                assert(self.spec_entries()[a] == (self.graphs@[a].0, graph_view(
                    self.graphs@[a].1,
                )));
                assert(pre[a] == (pre_graphs[a].0, graph_view(pre_graphs[a].1)));
            }
            assert(self.spec_entries()[i as int].0 == idx);
        }
        match res {
            Ok(_) => {},
            Err(e) => {
                proof {
                    assert(self.spec_entries()[i as int] == pre[i as int]);
                    assert(self.spec_entries() =~= pre);
                }
                return Err(e);
            },
        }
        let ghost grown = graph_view(self.graphs@[i as int].1);
        proof {
            assert(self.spec_entries()[i as int] == (idx, grown));
            assert(self.spec_entries() =~= pre.update(i as int, (idx, grown)));
        }
        if connected {
            let g = &self.graphs[i].1;
            let n = g.y.len();
            let gd = g.to_graph_data(Some(if points <= n {
                points
            } else {
                n
            }));
            proof {
                lemma_gd_len_bound::<T>(&gd, gd.spec_points());
            }
            Ok(
                Some(
                    crate::transport::WriteMessage::graph(
                        self.id,
                        update,
                        GraphMessage::AddPoints(idx, gd),
                    ),
                ),
            )
        } else {
            Ok(None)
        }
    }

    /// Removes series `idx`; while connected the removal also leaves
    /// for the peer.
    pub fn remove(&mut self, idx: u16, update: bool, connected: bool) -> (r: Option<
        crate::transport::WriteMessage,
    >)
        requires
            old(self).inv(),
        ensures
            final(self).spec_id() == old(self).spec_id(),
            final(self).inv(),
            connected <==> r is Some,
            final(self).spec_entries() == remove_series(old(self).spec_entries(), idx),
            series_index(final(self).spec_entries(), idx) < 0,
            r matches Some(m) ==> m@ == graph_frame::<T>(
                old(self).spec_id(),
                update,
                GraphMessageView::Remove(idx as int),
            ),
    {
        let message = if connected {
            Some(
                crate::transport::WriteMessage::graph(
                    self.id,
                    update,
                    GraphMessage::<T>::Remove(idx),
                ),
            )
        } else {
            None
        };
        let ghost pre = self.spec_entries();
        match self.find_series(idx) {
            Some(i) => {
                proof {
                    lemma_series_index(pre, idx);
                }
                self.graphs.remove(i);
                proof {
                    assert(self.spec_entries() =~= pre.remove(i as int));
                    lemma_series_remove_gone(pre, idx, i as int);
                }
            },
            None => {},
        }
        message
    }

    /// Empties the mirror; while connected the reset also leaves for
    /// the peer.
    pub fn clear(&mut self, update: bool, connected: bool) -> (r: Option<
        crate::transport::WriteMessage,
    >)
        ensures
            final(self).spec_id() == old(self).spec_id(),
            final(self).spec_count() == 0,
            final(self).inv(),
            connected <==> r is Some,
            r matches Some(m) ==> m@ == graph_frame::<T>(
                old(self).spec_id(),
                update,
                GraphMessageView::Reset,
            ),
    {
        let message = if connected {
            Some(
                crate::transport::WriteMessage::graph(self.id, update, GraphMessage::<T>::Reset),
            )
        } else {
            None
        };
        self.graphs = Vec::new();
        proof {
            assert(self.spec_entries() =~= Seq::<(u16, GraphView<T>)>::empty());
        }
        message
    }

    /// Applies one inbound graph frame to the mirror: a `Put` stores a
    /// series, `AddPoints` extends one of the matching axis mode, a
    /// `Remove` deletes one, a `Reset` empties the mirror.  Success is
    /// owed for every decodable frame except an `AddPoints` that names
    /// no stored series, mismatches its axis mode or would overgrow it;
    /// any failure changes nothing.
    pub fn update_graph(&mut self, head: &[u8], data: Option<Vec<u8>>) -> (r: Result<(), String>)
        requires
            old(self).inv(),
        ensures
            final(self).spec_id() == old(self).spec_id(),
            final(self).inv(),
            r is Err ==> final(self).spec_entries() == old(self).spec_entries(),
            (r is Ok <==> (match graph_dec::<T>(head@, opt_view(data)) {
                Some(GraphMessageView::AddPoints(idx, gdv)) => ({
                    let si = series_index(old(self).spec_entries(), idx as u16);
                    let stored = old(self).spec_entries()[si].1;
                    &&& si >= 0
                    &&& stored.y.len() + gdv.points <= usize::MAX
                    &&& ((stored.x is Some) <==> !gdv.is_linear)
                }),
                Some(_) => true,
                None => false,
            })),
            r is Ok ==> final(self).spec_entries() == (match graph_dec::<T>(
                head@,
                opt_view(data),
            ).unwrap() {
                GraphMessageView::Put(idx, gdv) => put_series(
                    old(self).spec_entries(),
                    idx as u16,
                    unpack_series::<T>(gdv),
                ),
                GraphMessageView::AddPoints(idx, gdv) => ({
                    let si = series_index(old(self).spec_entries(), idx as u16);
                    old(self).spec_entries().update(
                        si,
                        (idx as u16, extend_series::<T>(old(self).spec_entries()[si].1, gdv)),
                    )
                }),
                GraphMessageView::Remove(idx) => remove_series(
                    old(self).spec_entries(),
                    idx as u16,
                ),
                GraphMessageView::Reset => Seq::empty(),
            }),
    {
        let message = match GraphMessage::<T>::read_message(head, data) {
            Ok(m) => m,
            Err(e) => {
                return Err(e);
            },
        };
        match message {
            GraphMessage::Put(idx, gd) => {
                let ghost gdv = graph_data_view(gd);
                let graph = Graph::<T>::from_graph_data(gd);
                proof {
                    assert(graph_view(graph) == unpack_series::<T>(gdv));
                }
                let _ = self.set(idx, graph, false, false);
                Ok(())
            },
            GraphMessage::AddPoints(idx, gd) => {
                let ghost gdv = graph_data_view(gd);
                let i = match self.find_series(idx) {
                    Some(i) => i,
                    None => {
                        return Err("Graph not found.".to_owned());
                    },
                };
                let ghost pre = self.spec_entries();
                let ghost pre_graphs = self.graphs@;
                proof {
                    lemma_series_index(pre, idx);
                    assert(pre[i as int] == (pre_graphs[i as int].0, graph_view(
                        pre_graphs[i as int].1,
                    )));
                }
                if self.graphs[i].1.y.len() > usize::MAX - gd.points() {
                    return Err("Graph too large.".to_owned());
                }
                let res = self.graphs[i].1.add_points_from_data(gd);
                proof {
                    assert forall|a: int| 0 <= a < pre.len() && a != i as int implies
                        #[trigger] self.spec_entries()[a] == pre[a] by {
                        assert(self.spec_entries()[a] == (self.graphs@[a].0, graph_view(
                            self.graphs@[a].1,
                        )));
                        assert(pre[a] == (pre_graphs[a].0, graph_view(pre_graphs[a].1)));
                    }
                    assert(self.spec_entries()[i as int].0 == idx);
                }
                match res {
                    Ok(_) => {
                        proof {
                            assert(self.spec_entries()[i as int] == (
                                idx,
                                extend_series::<T>(pre[i as int].1, gdv),
                            ));
                            assert(self.spec_entries() =~= pre.update(
                                i as int,
                                (idx, extend_series::<T>(pre[i as int].1, gdv)),
                            ));
                        }
                        Ok(())
                    },
                    Err(e) => {
                        proof {
                            assert(self.spec_entries()[i as int] == pre[i as int]);
                            assert(self.spec_entries() =~= pre);
                        }
                        Err(e)
                    },
                }
            },
            GraphMessage::Remove(idx) => {
                let _ = self.remove(idx, false, false);
                Ok(())
            },
            GraphMessage::Reset => {
                let _ = self.clear(false, false);
                proof {
                    assert(self.spec_entries() =~= Seq::<(u16, GraphView<T>)>::empty());
                }
                Ok(())
            },
        }
    }

    /// The sync sweep: a reset, then every stored series as a fresh
    /// `Put` with its whole packed data, in stored order, so the peer's
    /// mirror converges to this one.
    pub fn sync(&self) -> (r: Vec<crate::transport::WriteMessage>)
        requires
            self.inv(),
            forall|i: int| 0 <= i < self.spec_entries().len() ==> (
            #[trigger] self.spec_entries()[i]).1.y.len() * 16 <= 0xFFFF_FFFF,
        ensures
            r@.len() == self.spec_count() + 1,
            r@[0]@ == graph_frame::<T>(self.spec_id(), false, GraphMessageView::Reset),
            forall|i: int| 0 <= i < self.spec_count() ==> (#[trigger] r@[i + 1])@
                == graph_frame::<T>(
                self.spec_id(),
                false,
                GraphMessageView::Put(
                    self.spec_entries()[i].0 as int,
                    pack_series::<T>(
                        self.spec_entries()[i].1,
                        self.spec_entries()[i].1.y.len() as int,
                    ),
                ),
            ),
    {
        let mut out: Vec<crate::transport::WriteMessage> = Vec::new();
        out.push(
            crate::transport::WriteMessage::graph(self.id, false, GraphMessage::<T>::Reset),
        );
        let n = self.graphs.len();
        let mut i: usize = 0;
        while i < n
            invariant
                i <= n,
                n == self.graphs@.len(),
                self.inv(),
                forall|a: int| 0 <= a < self.spec_entries().len() ==> (
                #[trigger] self.spec_entries()[a]).1.y.len() * 16 <= 0xFFFF_FFFF,
                out@.len() == i + 1,
                out@[0]@ == graph_frame::<T>(self.spec_id(), false, GraphMessageView::Reset),
                forall|a: int| 0 <= a < i ==> (#[trigger] out@[a + 1])@ == graph_frame::<T>(
                    self.spec_id(),
                    false,
                    GraphMessageView::Put(
                        self.spec_entries()[a].0 as int,
                        pack_series::<T>(
                            self.spec_entries()[a].1,
                            self.spec_entries()[a].1.y.len() as int,
                        ),
                    ),
                ),
            decreases n - i,
        {
            proof {
                assert(self.spec_entries()[i as int] == (self.graphs@[i as int].0, graph_view(
                    self.graphs@[i as int].1,
                )));
            }
            let p = &self.graphs[i];
            let gd = p.1.to_graph_data(None);
            proof {
                lemma_gd_len_bound::<T>(&gd, p.1.y@.len() as int);
            }
            out.push(
                crate::transport::WriteMessage::graph(
                    self.id,
                    false,
                    GraphMessage::Put(p.0, gd),
                ),
            );
            proof {
                assert(out@[i + 1]@ == graph_frame::<T>(
                    self.spec_id(),
                    false,
                    GraphMessageView::Put(
                        self.spec_entries()[i as int].0 as int,
                        pack_series::<T>(
                            self.spec_entries()[i as int].1,
                            self.spec_entries()[i as int].1.y.len() as int,
                        ),
                    ),
                ));
            }
            i += 1;
        }
        out
    }
}

/// A found series' first index is the position where it was seen.
proof fn lemma_series_index_found<T>(entries: Seq<(u16, GraphView<T>)>, idx: u16, i: int)
    requires
        0 <= i < entries.len(),
        entries[i].0 == idx,
        forall|j: int| 0 <= j < i ==> (#[trigger] entries[j]).0 != idx,
    ensures
        series_index(entries, idx) == i,
    decreases i,
{
    if i > 0 {
        assert(entries[0].0 != idx);
        assert(entries.drop_first()[i - 1] == entries[i]);
        assert forall|j: int| 0 <= j < i - 1 implies (#[trigger] entries.drop_first()[j]).0
            != idx by {
            assert(entries.drop_first()[j] == entries[j + 1]);
        }
        lemma_series_index_found(entries.drop_first(), idx, i - 1);
    }
}

/// After removing the one entry with `idx`, no entry holds it.
proof fn lemma_series_remove_gone<T>(entries: Seq<(u16, GraphView<T>)>, idx: u16, i: int)
    requires
        0 <= i < entries.len(),
        series_index(entries, idx) == i,
        forall|a: int, b: int|
            0 <= a < b < entries.len() ==> (#[trigger] entries[a]).0 != (#[trigger] entries[b]).0,
    ensures
        series_index(entries.remove(i), idx) < 0,
{
    lemma_series_index(entries, idx);
    let out = entries.remove(i);
    assert forall|a: int| 0 <= a < out.len() implies (#[trigger] out[a]).0 != idx by {
        if a < i {
            assert(out[a] == entries[a]);
        } else {
            assert(out[a] == entries[a + 1]);
        }
    }
    lemma_series_index(out, idx);
    if series_index(out, idx) >= 0 {
        assert(out[series_index(out, idx)].0 == idx);
    }
}

/// A packed whole series is no longer than sixteen bytes a point.
proof fn lemma_gd_len_bound<T: GraphElement>(gd: &GraphData<T>, n: int)
    requires
        gd.wf(),
        gd.spec_points() == n,
        n * 16 <= 0xFFFF_FFFF,
        0 <= n,
    ensures
        gd.spec_data().len() <= 0xFFFF_FFFF,
{
    T::lemma_elem(vstd::pervasive::arbitrary::<T>());
    assert(n * T::width() * 1int <= n * 16 && n * T::width() * 2int <= n * 16)
        by (nonlinear_arith)
        requires 0 < T::width() <= 8, 0 <= n;
}

} // verus!
