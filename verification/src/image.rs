//! Image messages: a frame of pixel data with an optional rectangle of
//! interest and an optional histogram, or a standalone histogram
//! update.
//!
//! Histogram bins are 32-bit floats on the wire; the codec carries each
//! bin as the bit pattern of its IEEE-754 representation, so it stays
//! on plain integers.  An empty histogram length encodes "clear".

use vstd::prelude::*;

use crate::collections::{cat, lemma_cat_index_const, lemma_cat_len_const, lemma_cat_take_all,
    lemma_cat_take_succ, lemma_suffix_subrange};
use crate::transport::{zeros, pad_to, MESS_SIZE};
use crate::values::opt_view;

verus! {

pub const IMAGE_DATA: u8 = 50;
pub const IMAGE_HISTOGRAM: u8 = 51;

pub const IMAGE_COLOR: u8 = 150;
pub const IMAGE_COLOR_ALPHA: u8 = 151;
pub const IMAGE_GRAY: u8 = 152;
pub const IMAGE_GRAY_ALPHA: u8 = 153;

/// The colour layout of a transmitted image.
#[derive(Clone, Copy, PartialEq, Eq, Structural)]
pub enum ImageType {
    Color,
    ColorAlpha,
    Gray,
    GrayAlpha,
}

/// The wire tag of a colour layout.
pub open spec fn image_type_tag(t: ImageType) -> u8 {
    match t {
        ImageType::Color => IMAGE_COLOR,
        ImageType::ColorAlpha => IMAGE_COLOR_ALPHA,
        ImageType::Gray => IMAGE_GRAY,
        ImageType::GrayAlpha => IMAGE_GRAY_ALPHA,
    }
}

/// A standalone histogram update; `None` clears the peer's histogram.
pub struct HistogramMessage(pub Option<Vec<u32>>);

/// One image frame: full size, an optional update rectangle
/// `[y, x, h, w]`, the pixel bytes, the colour layout, and an optional
/// histogram of bin bit patterns.
pub struct ImageDataMessage {
    pub image_size: [usize; 2],
    pub rect: Option<[usize; 4]>,
    pub data: Vec<u8>,
    pub image_type: ImageType,
    pub histogram: Option<Vec<u32>>,
}

/// An image-kind message on the wire.
pub enum ImageMessage {
    Data(ImageDataMessage),
    Histogram(HistogramMessage),
}

/// Mathematical shadow of [`ImageDataMessage`].
pub struct ImageDataView {
    pub y: int,
    pub x: int,
    pub rect: Option<(int, int, int, int)>,
    pub data: Seq<u8>,
    pub image_type: ImageType,
    pub histogram: Option<Seq<u32>>,
}

/// Mathematical shadow of [`ImageMessage`].
pub enum ImageMessageView {
    Data(ImageDataView),
    Histogram(Option<Seq<u32>>),
}

impl View for ImageDataMessage {
    type V = ImageDataView;

    open spec fn view(&self) -> ImageDataView {
        ImageDataView {
            y: self.image_size[0] as int,
            x: self.image_size[1] as int,
            rect: match self.rect {
                Some(r) => Some((r[0] as int, r[1] as int, r[2] as int, r[3] as int)),
                None => None,
            },
            data: self.data@,
            image_type: self.image_type,
            histogram: match self.histogram {
                Some(h) => Some(h@),
                None => None,
            },
        }
    }
}

impl View for ImageMessage {
    type V = ImageMessageView;

    open spec fn view(&self) -> ImageMessageView {
        match self {
            ImageMessage::Data(d) => ImageMessageView::Data(d@),
            ImageMessage::Histogram(HistogramMessage(h)) => ImageMessageView::Histogram(
                match h {
                    Some(hv) => Some(hv@),
                    None => None,
                },
            ),
        }
    }
}

/// The little-endian bytes of one histogram bin.
pub open spec fn bin_enc() -> spec_fn(u32) -> Seq<u8> {
    |b: u32| vstd::bytes::spec_u32_to_le_bytes(b)
}

/// The wire bytes of a histogram.
pub open spec fn hist_bytes(h: Seq<u32>) -> Seq<u8> {
    cat(h, bin_enc())
}

/// The histogram a run of `count` four-byte stretches at `base` holds.
pub open spec fn hist_dec(d: Seq<u8>, base: int, count: int) -> Seq<u32> {
    Seq::new(
        count as nat,
        |i: int| vstd::bytes::spec_u32_from_le_bytes(d.subrange(base + 4 * i, base + 4 * i + 4)),
    )
}

/// The length of an optional histogram.
pub open spec fn hist_len(h: Option<Seq<u32>>) -> int {
    match h {
        Some(hv) => hv.len() as int,
        None => 0,
    }
}

/// The wire constraints on an image message: sizes fit their header
/// fields, and a present histogram is non-empty (an empty length
/// encodes "clear").
pub open spec fn image_wf(m: ImageMessageView) -> bool {
    match m {
        ImageMessageView::Data(d) => {
            &&& 0 <= d.y <= 0xFFFF
            &&& 0 <= d.x <= 0xFFFF
            &&& (d.rect matches Some(r) ==> 0 <= r.0 <= 0xFFFF && 0 <= r.1 <= 0xFFFF && 0 <= r.2
                <= 0xFFFF && 0 <= r.3 <= 0xFFFF)
            &&& d.data.len() <= 0xFFFF_FFFF
            &&& hist_len(d.histogram) <= 0xFFFF
            &&& (d.histogram matches Some(h) ==> h.len() > 0)
        },
        ImageMessageView::Histogram(h) => {
            &&& hist_len(h) <= 0xFFFF
            &&& (h matches Some(hv) ==> hv.len() > 0)
        },
    }
}

/// The 26-byte image sub-header.
pub open spec fn image_head(m: ImageMessageView) -> Seq<u8> {
    match m {
        ImageMessageView::Data(d) => seq![IMAGE_DATA, image_type_tag(d.image_type)]
            + vstd::bytes::spec_u16_to_le_bytes(d.y as u16) + vstd::bytes::spec_u16_to_le_bytes(
            d.x as u16,
        ) + (match d.rect {
            Some(r) => seq![255u8] + vstd::bytes::spec_u16_to_le_bytes(r.0 as u16)
                + vstd::bytes::spec_u16_to_le_bytes(r.1 as u16)
                + vstd::bytes::spec_u16_to_le_bytes(r.2 as u16)
                + vstd::bytes::spec_u16_to_le_bytes(r.3 as u16),
            None => seq![0u8] + zeros(8),
        }) + vstd::bytes::spec_u32_to_le_bytes(d.data.len() as u32)
            + vstd::bytes::spec_u16_to_le_bytes(hist_len(d.histogram) as u16) + zeros(5),
        ImageMessageView::Histogram(h) => seq![IMAGE_HISTOGRAM]
            + vstd::bytes::spec_u16_to_le_bytes(hist_len(h) as u16) + zeros(23),
    }
}

/// The payload of an image message, if any.
pub open spec fn image_data(m: ImageMessageView) -> Option<Seq<u8>> {
    match m {
        ImageMessageView::Data(d) => Some(
            d.data + (match d.histogram {
                Some(h) => hist_bytes(h),
                None => Seq::empty(),
            }),
        ),
        ImageMessageView::Histogram(h) => match h {
            Some(hv) => Some(hist_bytes(hv)),
            None => None,
        },
    }
}

/// The colour layout a wire tag names, if any.
pub open spec fn image_type_of(tag: u8) -> Option<ImageType> {
    if tag == IMAGE_COLOR {
        Some(ImageType::Color)
    } else if tag == IMAGE_COLOR_ALPHA {
        Some(ImageType::ColorAlpha)
    } else if tag == IMAGE_GRAY {
        Some(ImageType::Gray)
    } else if tag == IMAGE_GRAY_ALPHA {
        Some(ImageType::GrayAlpha)
    } else {
        None
    }
}

/// The mathematical decoder of an image message: `Some` exactly on the
/// byte shapes `image_head` and `image_data` produce together.
pub open spec fn image_dec(head: Seq<u8>, data: Option<Seq<u8>>) -> Option<ImageMessageView> {
    if head.len() != MESS_SIZE {
        None
    } else if head[0] == IMAGE_DATA {
        if data is None || image_type_of(head[1]) is None {
            None
        } else {
            let d = data.unwrap();
            let y = vstd::bytes::spec_u16_from_le_bytes(head.subrange(2, 4)) as int;
            let x = vstd::bytes::spec_u16_from_le_bytes(head.subrange(4, 6)) as int;
            let rect = if head[6] != 0 {
                Some(
                    (
                        vstd::bytes::spec_u16_from_le_bytes(head.subrange(7, 9)) as int,
                        vstd::bytes::spec_u16_from_le_bytes(head.subrange(9, 11)) as int,
                        vstd::bytes::spec_u16_from_le_bytes(head.subrange(11, 13)) as int,
                        vstd::bytes::spec_u16_from_le_bytes(head.subrange(13, 15)) as int,
                    ),
                )
            } else {
                None
            };
            let dlen = vstd::bytes::spec_u32_from_le_bytes(head.subrange(15, 19)) as int;
            let hlen = vstd::bytes::spec_u16_from_le_bytes(head.subrange(19, 21)) as int;
            if d.len() == dlen + 4 * hlen {
                Some(
                    ImageMessageView::Data(
                        ImageDataView {
                            y,
                            x,
                            rect,
                            data: d.subrange(0, dlen),
                            image_type: image_type_of(head[1]).unwrap(),
                            histogram: if hlen == 0 {
                                None
                            } else {
                                Some(hist_dec(d, dlen, hlen))
                            },
                        },
                    ),
                )
            } else {
                None
            }
        }
    } else if head[0] == IMAGE_HISTOGRAM {
        let hlen = vstd::bytes::spec_u16_from_le_bytes(head.subrange(1, 3)) as int;
        if hlen == 0 {
            if data is None {
                Some(ImageMessageView::Histogram(None))
            } else {
                None
            }
        } else if data is Some && data.unwrap().len() == 4 * hlen {
            Some(ImageMessageView::Histogram(Some(hist_dec(data.unwrap(), 0, hlen))))
        } else {
            None
        }
    } else {
        None
    }
}

/// Appends the wire bytes of a histogram to `out`.
fn append_hist(out: &mut Vec<u8>, h: &Vec<u32>)
    ensures
        final(out)@ == old(out)@ + hist_bytes(h@),
{
    let count = h.len();
    let mut i: usize = 0;
    while i < count
        invariant
            i <= count,
            count == h@.len(),
            out@ == old(out)@ + cat(h@.take(i as int), bin_enc()),
        decreases count - i,
    {
        let mut bb = vstd::bytes::u32_to_le_bytes(h[i]);
        out.append(&mut bb);
        proof {
            lemma_cat_take_succ(h@, bin_enc(), i as int);
            assert(bin_enc()(h@[i as int]) == vstd::bytes::spec_u32_to_le_bytes(h@[i as int]));
            assert(out@ =~= old(out)@ + cat(h@.take(i + 1), bin_enc()));
        }
        i += 1;
    }
    proof {
        lemma_cat_take_all(h@, bin_enc());
    }
}

/// Reads `count` histogram bins at `base`.
fn read_hist(d: &[u8], base: usize, count: usize) -> (r: Vec<u32>)
    requires
        base + 4 * count <= d@.len(),
    ensures
        r@ == hist_dec(d@, base as int, count as int),
{
    // learning the slice's length bounds the positions below
    let _bound: usize = d.len();
    let mut bins: Vec<u32> = Vec::new();
    let mut i: usize = 0;
    while i < count
        invariant
            i <= count,
            base + 4 * count <= d@.len(),
            d@.len() <= usize::MAX,
            bins@.len() == i,
            forall|j: int| 0 <= j < i ==> #[trigger] bins@[j]
                == vstd::bytes::spec_u32_from_le_bytes(
                d@.subrange(base + 4 * j, base + 4 * j + 4),
            ),
        decreases count - i,
    {
        let b = vstd::bytes::u32_from_le_bytes(
            vstd::slice::slice_subrange(d, base + 4 * i, base + 4 * i + 4),
        );
        bins.push(b);
        i += 1;
    }
    proof {
        assert(bins@ =~= hist_dec(d@, base as int, count as int));
    }
    bins
}

impl ImageDataMessage {
    /// Fills the image sub-header for one frame of pixel data and
    /// hands back its payload.
    pub fn write_message(&self) -> (r: (Vec<u8>, Vec<u8>))
        requires
            image_wf(ImageMessageView::Data(self@)),
        ensures
            r.0@.len() == MESS_SIZE,
            r.0@ == image_head(ImageMessageView::Data(self@)),
            Some(r.1@) == image_data(ImageMessageView::Data(self@)),
    {
        let d = self;
        let mut head: Vec<u8> = Vec::new();
        head.push(IMAGE_DATA);
        head.push(
            match d.image_type {
                ImageType::Color => IMAGE_COLOR,
                ImageType::ColorAlpha => IMAGE_COLOR_ALPHA,
                ImageType::Gray => IMAGE_GRAY,
                ImageType::GrayAlpha => IMAGE_GRAY_ALPHA,
            },
        );
        let mut b = vstd::bytes::u16_to_le_bytes(d.image_size[0] as u16);
        head.append(&mut b);
        let mut b = vstd::bytes::u16_to_le_bytes(d.image_size[1] as u16);
        head.append(&mut b);
        match d.rect {
            Some(r) => {
                head.push(255u8);
                let mut b = vstd::bytes::u16_to_le_bytes(r[0] as u16);
                head.append(&mut b);
                let mut b = vstd::bytes::u16_to_le_bytes(r[1] as u16);
                head.append(&mut b);
                let mut b = vstd::bytes::u16_to_le_bytes(r[2] as u16);
                head.append(&mut b);
                let mut b = vstd::bytes::u16_to_le_bytes(r[3] as u16);
                head.append(&mut b);
            },
            None => {
                head.push(0u8);
                pad_to(&mut head, 15);
            },
        }
        let mut b = vstd::bytes::u32_to_le_bytes(d.data.len() as u32);
        head.append(&mut b);
        let hl: usize = match &d.histogram {
            Some(h) => h.len(),
            None => 0,
        };
        let mut b = vstd::bytes::u16_to_le_bytes(hl as u16);
        head.append(&mut b);
        pad_to(&mut head, MESS_SIZE);
        let mut payload = vstd::slice::slice_to_vec(d.data.as_slice());
        match &d.histogram {
            Some(h) => append_hist(&mut payload, h),
            None => (),
        }
        proof {
            assert(head@ =~= image_head(ImageMessageView::Data(self@)));
            assert(payload@ =~= image_data(ImageMessageView::Data(self@)).unwrap());
        }
        (head, payload)
    }
}

impl ImageMessage {
    /// Fills the image sub-header and hands back the payload, if any.
    pub fn write_message(&self) -> (r: (Vec<u8>, Option<Vec<u8>>))
        requires
            image_wf(self@),
        ensures
            r.0@.len() == MESS_SIZE,
            r.0@ == image_head(self@),
            opt_view(r.1) == image_data(self@),
    {
        match self {
            ImageMessage::Data(d) => {
                let (head, payload) = d.write_message();
                return (head, Some(payload));
            },
            ImageMessage::Histogram(h) => {
                let (head, payload) = h.write_message();
                return (head, payload);
            },
        }
    }

    /// Parses an image sub-header and payload; the exact inverse of
    /// `write_message`, failing on every other byte shape.
    pub fn read_message(head: &[u8], data: Option<Vec<u8>>) -> (r: Result<ImageMessage, String>)
        ensures
            r is Ok <==> image_dec(head@, opt_view(data)) is Some,
            r matches Ok(m) ==> image_dec(head@, opt_view(data)) == Some(m@),
            r matches Ok(m) ==> image_wf(m@),
    {
        if head.len() != MESS_SIZE {
            return Err("Wrong image head length.".to_owned());
        }
        let tag = *vstd::slice::slice_index_get(head, 0);
        if tag == IMAGE_DATA {
            let d = match data {
                Some(d) => d,
                None => {
                    return Err("Image data is missing.".to_owned());
                },
            };
            let ttag = *vstd::slice::slice_index_get(head, 1);
            let image_type = if ttag == IMAGE_COLOR {
                ImageType::Color
            } else if ttag == IMAGE_COLOR_ALPHA {
                ImageType::ColorAlpha
            } else if ttag == IMAGE_GRAY {
                ImageType::Gray
            } else if ttag == IMAGE_GRAY_ALPHA {
                ImageType::GrayAlpha
            } else {
                return Err("Unknown image type.".to_owned());
            };
            let y = vstd::bytes::u16_from_le_bytes(vstd::slice::slice_subrange(head, 2, 4));
            let x = vstd::bytes::u16_from_le_bytes(vstd::slice::slice_subrange(head, 4, 6));
            let rect_flag = *vstd::slice::slice_index_get(head, 6);
            let rect = if rect_flag != 0 {
                let r0 = vstd::bytes::u16_from_le_bytes(vstd::slice::slice_subrange(head, 7, 9));
                let r1 = vstd::bytes::u16_from_le_bytes(vstd::slice::slice_subrange(head, 9, 11));
                let r2 = vstd::bytes::u16_from_le_bytes(vstd::slice::slice_subrange(head, 11, 13));
                let r3 = vstd::bytes::u16_from_le_bytes(vstd::slice::slice_subrange(head, 13, 15));
                Some([r0 as usize, r1 as usize, r2 as usize, r3 as usize])
            } else {
                None
            };
            let dlen = vstd::bytes::u32_from_le_bytes(vstd::slice::slice_subrange(head, 15, 19));
            let hlen = vstd::bytes::u16_from_le_bytes(vstd::slice::slice_subrange(head, 19, 21));
            if d.len() as u128 != dlen as u128 + 4 * hlen as u128 {
                return Err("Image data is corrupted.".to_owned());
            }
            let pixels = vstd::slice::slice_to_vec(
                vstd::slice::slice_subrange(d.as_slice(), 0, dlen as usize),
            );
            let histogram = if hlen == 0 {
                None
            } else {
                Some(read_hist(d.as_slice(), dlen as usize, hlen as usize))
            };
            let m = ImageMessage::Data(
                ImageDataMessage {
                    image_size: [y as usize, x as usize],
                    rect,
                    data: pixels,
                    image_type,
                    histogram,
                },
            );
            proof {
                assert(image_dec(head@, opt_view(data)) == Some(m@));
            }
            Ok(m)
        } else if tag == IMAGE_HISTOGRAM {
            let hlen = vstd::bytes::u16_from_le_bytes(vstd::slice::slice_subrange(head, 1, 3));
            if hlen == 0 {
                match data {
                    None => Ok(ImageMessage::Histogram(HistogramMessage(None))),
                    Some(_) => Err("Histogram got data but should be empty.".to_owned()),
                }
            } else {
                match data {
                    None => Err("Histogram data is missing.".to_owned()),
                    Some(d) => {
                        if d.len() as u128 != 4 * hlen as u128 {
                            return Err("Histogram data is corrupted.".to_owned());
                        }
                        let bins = read_hist(d.as_slice(), 0, hlen as usize);
                        Ok(ImageMessage::Histogram(HistogramMessage(Some(bins))))
                    },
                }
            }
        } else {
            Err("Unknown type of the image message.".to_owned())
        }
    }
}

/// Writing any well-formed image message and reading it back yields the
/// message that was written.
pub proof fn lemma_image_round_trip(m: ImageMessageView)
    requires
        image_wf(m),
    ensures
        image_dec(image_head(m), image_data(m)) == Some(m),
{
    vstd::bytes::lemma_auto_spec_u16_to_from_le_bytes();
    vstd::bytes::lemma_auto_spec_u32_to_from_le_bytes();
    assert forall|b: u32| #[trigger] bin_enc()(b).len() == 4 by {}
    let head = image_head(m);
    match m {
        ImageMessageView::Data(d) => {
            assert(head.len() == MESS_SIZE);
            assert(head[0] == IMAGE_DATA);
            assert(head[1] == image_type_tag(d.image_type));
            assert(image_type_of(image_type_tag(d.image_type)) == Some(d.image_type));
            assert(head.subrange(2, 4) =~= vstd::bytes::spec_u16_to_le_bytes(d.y as u16));
            assert(head.subrange(4, 6) =~= vstd::bytes::spec_u16_to_le_bytes(d.x as u16));
            match d.rect {
                Some(r) => {
                    assert(head[6] == 255);
                    assert(head.subrange(7, 9) =~= vstd::bytes::spec_u16_to_le_bytes(r.0 as u16));
                    assert(head.subrange(9, 11) =~= vstd::bytes::spec_u16_to_le_bytes(r.1 as u16));
                    assert(head.subrange(11, 13) =~= vstd::bytes::spec_u16_to_le_bytes(
                        r.2 as u16,
                    ));
                    assert(head.subrange(13, 15) =~= vstd::bytes::spec_u16_to_le_bytes(
                        r.3 as u16,
                    ));
                },
                None => {
                    assert(head[6] == 0);
                },
            }
            assert(head.subrange(15, 19) =~= vstd::bytes::spec_u32_to_le_bytes(
                d.data.len() as u32,
            ));
            assert(head.subrange(19, 21) =~= vstd::bytes::spec_u16_to_le_bytes(
                hist_len(d.histogram) as u16,
            ));
            let payload = image_data(m).unwrap();
            match d.histogram {
                Some(h) => {
                    lemma_cat_len_const(h, bin_enc(), 4);
                    assert(payload.len() == d.data.len() + 4 * h.len());
                    assert(payload.subrange(0, d.data.len() as int) =~= d.data);
                    lemma_suffix_subrange(d.data, hist_bytes(h), 0, hist_bytes(h).len() as int);
                    assert(hist_bytes(h).subrange(0, hist_bytes(h).len() as int) =~= hist_bytes(
                        h,
                    ));
                    assert(payload.subrange(
                        d.data.len() as int,
                        d.data.len() + hist_bytes(h).len() as int,
                    ) == hist_bytes(h));
                    lemma_hist_round(payload, d.data.len() as int, h);
                },
                None => {
                    assert(payload =~= d.data);
                    assert(payload.subrange(0, d.data.len() as int) =~= d.data);
                },
            }
        },
        ImageMessageView::Histogram(h) => {
            assert(head.len() == MESS_SIZE);
            assert(head[0] == IMAGE_HISTOGRAM);
            assert(head.subrange(1, 3) =~= vstd::bytes::spec_u16_to_le_bytes(hist_len(h) as u16));
            match h {
                Some(hv) => {
                    let payload = hist_bytes(hv);
                    lemma_cat_len_const(hv, bin_enc(), 4);
                    assert(payload.subrange(0, payload.len() as int) =~= payload);
                    lemma_hist_round(payload, 0, hv);
                },
                None => {},
            }
        },
    }
}

/// A histogram written at `base` of a payload reads back bin for bin.
proof fn lemma_hist_round(payload: Seq<u8>, base: int, h: Seq<u32>)
    requires
        0 <= base,
        payload.len() == base + 4 * h.len(),
        payload.subrange(base, base + 4 * h.len()) == hist_bytes(h),
    ensures
        hist_dec(payload, base, h.len() as int) == h,
{
    vstd::bytes::lemma_auto_spec_u32_to_from_le_bytes();
    assert forall|b: u32| #[trigger] bin_enc()(b).len() == 4 by {}
    lemma_cat_len_const(h, bin_enc(), 4);
    let dec = hist_dec(payload, base, h.len() as int);
    assert forall|i: int| 0 <= i < h.len() implies #[trigger] dec[i] == h[i] by {
        lemma_cat_index_const(h, bin_enc(), 4, i);
        assert(payload.subrange(base + 4 * i, base + 4 * i + 4) =~= hist_bytes(h).subrange(
            4 * i,
            4 * i + 4,
        ));
        assert(payload.subrange(base + 4 * i, base + 4 * i + 4) == vstd::bytes::spec_u32_to_le_bytes(
            h[i],
        ));
    }
    assert(dec =~= h);
}

impl View for HistogramMessage {
    type V = Option<Seq<u32>>;

    open spec fn view(&self) -> Option<Seq<u32>> {
        match self.0 {
            Some(ref h) => Some(h@),
            None => None,
        }
    }
}

impl HistogramMessage {
    /// Fills the histogram sub-header and hands back the payload, if
    /// any; the standalone form of the histogram arm of
    /// [`ImageMessage::write_message`].
    pub fn write_message(&self) -> (r: (Vec<u8>, Option<Vec<u8>>))
        requires
            image_wf(ImageMessageView::Histogram(self@)),
        ensures
            r.0@.len() == MESS_SIZE,
            r.0@ == image_head(ImageMessageView::Histogram(self@)),
            opt_view(r.1) == image_data(ImageMessageView::Histogram(self@)),
    {
        let mut head: Vec<u8> = Vec::new();
        head.push(IMAGE_HISTOGRAM);
        let hl: usize = match &self.0 {
            Some(hv) => hv.len(),
            None => 0,
        };
        let mut b = vstd::bytes::u16_to_le_bytes(hl as u16);
        head.append(&mut b);
        pad_to(&mut head, MESS_SIZE);
        proof {
            assert(head@ =~= image_head(ImageMessageView::Histogram(self@)));
        }
        match &self.0 {
            Some(hv) => {
                let mut payload: Vec<u8> = Vec::new();
                append_hist(&mut payload, hv);
                proof {
                    assert(payload@ =~= image_data(ImageMessageView::Histogram(self@)).unwrap());
                }
                (head, Some(payload))
            },
            None => (head, None),
        }
    }
}

} // verus!
