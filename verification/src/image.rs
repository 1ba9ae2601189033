//! Canonical decoding of detector image payloads.
//!
//! A source file stores its detector frame under one of several narrow
//! numeric encodings.  Every supported encoding is widened, element by
//! element and without loss, into one canonical 64-bit integer sample type,
//! so downstream code is encoding-agnostic.  Floating-point encodings are
//! turned into whole-number samples at the decoder boundary (this crate
//! carries no floating-point values) and arrive here already widened; an
//! unrecognized encoding is a distinguishable error, never a silent
//! truncation.

use vstd::prelude::*;

use crate::errors::IngestionError;

verus! {

/// Sample data of one payload, as handed over by the container decoder.
pub enum ImageEncoding {
    U8(Vec<u8>),
    I16(Vec<i16>),
    I32(Vec<i32>),
    /// Samples already brought to the canonical type at the boundary;
    /// used for the floating-point source encodings.
    Widened(Vec<i64>),
    /// An element type outside the supported set.
    Unsupported,
}

/// Mathematical model of an encoding.
pub enum ImageDataV {
    U8(Seq<u8>),
    I16(Seq<i16>),
    I32(Seq<i32>),
    Widened(Seq<i64>),
    Unsupported,
}

impl View for ImageEncoding {
    type V = ImageDataV;

    open spec fn view(&self) -> ImageDataV {
        match self {
            ImageEncoding::U8(v) => ImageDataV::U8(v@),
            ImageEncoding::I16(v) => ImageDataV::I16(v@),
            ImageEncoding::I32(v) => ImageDataV::I32(v@),
            ImageEncoding::Widened(v) => ImageDataV::Widened(v@),
            ImageEncoding::Unsupported => ImageDataV::Unsupported,
        }
    }
}

/// One payload with the 2-D shape the container claims for it.
pub struct ImagePayload {
    pub data: ImageEncoding,
    pub rows: usize,
    pub cols: usize,
}

/// Mathematical model of one payload.
pub struct ImagePayloadV {
    pub data: ImageDataV,
    pub rows: nat,
    pub cols: nat,
}

impl View for ImagePayload {
    type V = ImagePayloadV;

    open spec fn view(&self) -> ImagePayloadV {
        ImagePayloadV { data: self.data@, rows: self.rows as nat, cols: self.cols as nat }
    }
}

/// The logical sample values of an encoding, as unbounded integers.
pub open spec fn logical_values(d: ImageDataV) -> Seq<int> {
    match d {
        ImageDataV::U8(s) => s.map_values(|x: u8| x as int),
        ImageDataV::I16(s) => s.map_values(|x: i16| x as int),
        ImageDataV::I32(s) => s.map_values(|x: i32| x as int),
        ImageDataV::Widened(s) => s.map_values(|x: i64| x as int),
        ImageDataV::Unsupported => Seq::empty(),
    }
}

/// The canonical widened samples of an encoding.
pub open spec fn spec_widen(d: ImageDataV) -> Seq<i64> {
    match d {
        ImageDataV::U8(s) => s.map_values(|x: u8| x as i64),
        ImageDataV::I16(s) => s.map_values(|x: i16| x as i64),
        ImageDataV::I32(s) => s.map_values(|x: i32| x as i64),
        ImageDataV::Widened(s) => s,
        ImageDataV::Unsupported => Seq::empty(),
    }
}

/// Widening is lossless: the canonical samples carry exactly the logical
/// values of the source encoding.
pub proof fn lemma_widen_lossless(d: ImageDataV)
    ensures
        spec_widen(d).map_values(|x: i64| x as int) == logical_values(d),
{
    assert(spec_widen(d).map_values(|x: i64| x as int) =~= logical_values(d));
}

/// Encoding agnosticism: two payloads with the same logical values widen
/// to the same canonical samples, whatever their source encodings.
pub proof fn lemma_widen_encoding_agnostic(a: ImageDataV, b: ImageDataV)
    requires
        logical_values(a) == logical_values(b),
    ensures
        spec_widen(a) == spec_widen(b),
{
    lemma_widen_lossless(a);
    lemma_widen_lossless(b);
    let wa = spec_widen(a);
    let wb = spec_widen(b);
    assert(wa.map_values(|x: i64| x as int).len() == wa.len());
    assert(wb.map_values(|x: i64| x as int).len() == wb.len());
    assert forall|i: int| 0 <= i < wa.len() implies wa[i] == wb[i] by {
        assert(wa.map_values(|x: i64| x as int)[i] == wa[i] as int);
        assert(wb.map_values(|x: i64| x as int)[i] == wb[i] as int);
    }
    assert(wa =~= wb);
}

/// A decoded detector image: canonical samples in row-major order, with
/// exactly `rows * cols` of them.
pub struct DecodedImage {
    pub values: Vec<i64>,
    pub rows: usize,
    pub cols: usize,
}

impl DecodedImage {
    /// The sample count equals the product of the extents.
    pub open spec fn wf(self) -> bool {
        self.values@.len() == self.rows * self.cols
    }
}

impl ImagePayload {
    /// Whether the encoding is one of the supported ones.
    pub open spec fn spec_supported(self) -> bool {
        !(self.data@ is Unsupported)
    }

    /// Whether the sample count matches the claimed shape, with extents
    /// small enough to be carried as canonical samples themselves.
    pub open spec fn spec_shape_consistent(self) -> bool {
        &&& logical_values(self.data@).len() == self.rows * self.cols
        &&& self.rows <= i64::MAX
        &&& self.cols <= i64::MAX
    }

    /// Widens the payload into the canonical image form.
    ///
    /// Fails with a distinguishable error on an unsupported encoding, and
    /// with a decode failure when the sample count contradicts the claimed
    /// shape; `path` only labels the errors.
    pub fn widen(&self, path: &String) -> (r: Result<DecodedImage, IngestionError>)
        ensures
            match r {
                Ok(img) => self.spec_supported() && self.spec_shape_consistent() && img.wf()
                    && img.values@ == spec_widen(self.data@) && img.rows == self.rows && img.cols
                    == self.cols,
                Err(e) => if !self.spec_supported() {
                    e matches IngestionError::UnsupportedImageEncoding(p) && p@ == path@
                } else {
                    !self.spec_shape_consistent() && (e
                        matches IngestionError::ContainerDecodeFailure(p, _) && p@ == path@)
                },
            },
    {
        let values: Vec<i64> = match &self.data {
            ImageEncoding::U8(v) => {
                let mut w: Vec<i64> = Vec::new();
                let n = v.len();
                for i in 0..n
                    invariant
                        n == v@.len(),
                        w@ =~= v@.take(i as int).map_values(|x: u8| x as i64),
                {
                    w.push(v[i] as i64);
                    assert(w@ =~= v@.take(i + 1).map_values(|x: u8| x as i64));
                }
                assert(v@.take(n as int) =~= v@);
                w
            },
            ImageEncoding::I16(v) => {
                let mut w: Vec<i64> = Vec::new();
                let n = v.len();
                for i in 0..n
                    invariant
                        n == v@.len(),
                        w@ =~= v@.take(i as int).map_values(|x: i16| x as i64),
                {
                    w.push(v[i] as i64);
                    assert(w@ =~= v@.take(i + 1).map_values(|x: i16| x as i64));
                }
                assert(v@.take(n as int) =~= v@);
                w
            },
            ImageEncoding::I32(v) => {
                let mut w: Vec<i64> = Vec::new();
                let n = v.len();
                for i in 0..n
                    invariant
                        n == v@.len(),
                        w@ =~= v@.take(i as int).map_values(|x: i32| x as i64),
                {
                    w.push(v[i] as i64);
                    assert(w@ =~= v@.take(i + 1).map_values(|x: i32| x as i64));
                }
                assert(v@.take(n as int) =~= v@);
                w
            },
            ImageEncoding::Widened(v) => {
                let mut w: Vec<i64> = Vec::new();
                let n = v.len();
                for i in 0..n
                    invariant
                        n == v@.len(),
                        w@ =~= v@.take(i as int),
                {
                    w.push(v[i]);
                }
                assert(w@ =~= v@);
                w
            },
            ImageEncoding::Unsupported => {
                return Err(IngestionError::UnsupportedImageEncoding(path.clone()));
            },
        };
        assert(values@ == spec_widen(self.data@));
        assert(values@.len() == logical_values(self.data@).len()) by {
            lemma_widen_lossless(self.data@);
            assert(spec_widen(self.data@).map_values(|x: i64| x as int).len() == values@.len());
        }
        if (self.rows as u64) > (i64::MAX as u64) || (self.cols as u64) > (i64::MAX as u64) {
            return Err(
                IngestionError::ContainerDecodeFailure(
                    path.clone(),
                    String::from_str("payload extents are too large"),
                ),
            );
        }
        match self.rows.checked_mul(self.cols) {
            Some(expect) if expect == values.len() => Ok(
                DecodedImage { values, rows: self.rows, cols: self.cols },
            ),
            _ => Err(
                IngestionError::ContainerDecodeFailure(
                    path.clone(),
                    String::from_str("payload sample count contradicts its shape"),
                ),
            ),
        }
    }
}

} // verus!
