use vstd::prelude::*;
use crate::network::TrainingData;
use crate::scalar::Scalar;

verus! {

/// Failure of the dataset loader.
#[derive(Clone, Copy, Debug, PartialEq, Eq, Structural)]
pub enum DataError {
    /// The stream could not be read: its gzip envelope does not decode.
    Io,
    /// The magic number names neither a labels nor an images stream, or
    /// names the wrong one of the two.
    BadMagic,
    /// The stream ends before the payload its own header declares, or the
    /// declared payload cannot exist. Truncation is reported as this
    /// distinct format kind of its own, not folded into `Io`: the envelope
    /// was readable, only the record inside stops short.
    Truncated,
    /// A label byte is outside the ten classes.
    BadLabel,
}

/// What a gzip stream inflates to, or `None` where it does not decode;
/// decompression is a function of the compressed bytes alone.
pub uninterp spec fn gunzip_of(s: Seq<u8>) -> Option<Seq<u8>>;

/// Relies on flate2::read::GzDecoder, read through
/// std::io::Read::read_to_end: inflates one gzip stream; success and the
/// inflated bytes depend on the compressed bytes alone.
#[verifier::external_body]
fn gunzip(bytes: &Vec<u8>) -> (r: Option<Vec<u8>>)
    ensures
        r matches Some(v) ==> gunzip_of(bytes@) == Some(v@),
        r is None ==> gunzip_of(bytes@) is None,
{
    let mut decoder = flate2::read::GzDecoder::new(bytes.as_slice());
    let mut out: Vec<u8> = Vec::new();
    match std::io::Read::read_to_end(&mut decoder, &mut out) {
        Ok(_) => Some(out),
        Err(_) => None,
    }
}

/// The unsigned value of four bytes read big-endian: the format's magic
/// number and dimension fields are four-byte big-endian integers.
pub open spec fn be_u32(b0: u8, b1: u8, b2: u8, b3: u8) -> u32 {
    (b0 * 0x1000000 + b1 * 0x10000 + b2 * 0x100 + b3) as u32
}

/// Read a four-byte big-endian integer at `offset`.
fn read_be_u32(bytes: &Vec<u8>, offset: usize) -> (r: u32)
    requires
        offset + 4 <= bytes@.len(),
    ensures
        r == be_u32(
            bytes@[offset as int],
            bytes@[offset + 1],
            bytes@[offset + 2],
            bytes@[offset + 3],
        ),
{
    let total_len = bytes.len();
    assert(offset + 4 <= total_len);
    (bytes[offset] as u32) * 0x1000000 + (bytes[offset + 1] as u32) * 0x10000 + (bytes[offset
        + 2] as u32) * 0x100 + (bytes[offset + 3] as u32)
}

/// Spec-level model of a decoded stream: its header's dimensions and its
/// payload bytes.
#[verifier::ext_equal]
pub ghost struct MnistModel {
    pub sizes: Seq<u32>,
    pub data: Seq<u8>,
}

/// One decoded stream of the dataset's binary container format: the
/// dimensions its header declares (one count for a labels stream; count,
/// rows and columns for an images stream) and the raw payload that follows.
#[derive(Debug)]
pub struct MnistData {
    pub sizes: Vec<u32>,
    pub data: Vec<u8>,
}

impl View for MnistData {
    type V = MnistModel;

    open spec fn view(&self) -> MnistModel {
        MnistModel { sizes: self.sizes@, data: self.data@ }
    }
}

/// The labels magic number.
pub const MAGIC_LABELS: u32 = 2049;

/// The images magic number.
pub const MAGIC_IMAGES: u32 = 2051;

/// What parsing a decompressed stream yields. An undecodable envelope is an
/// I/O failure; a stream too short for its own header is truncated; a magic
/// number other than the two known ones is unrecoverable. A labels header
/// carries one dimension, an images header three; the payload is whatever
/// follows the header.
pub open spec fn spec_parse_mnist(c: Option<Seq<u8>>) -> Result<MnistModel, DataError> {
    match c {
        Option::None => Err(DataError::Io),
        Option::Some(s) => {
            if s.len() < 4 {
                Err(DataError::Truncated)
            } else {
                let magic = be_u32(s[0], s[1], s[2], s[3]);
                if magic == MAGIC_LABELS {
                    if s.len() < 8 {
                        Err(DataError::Truncated)
                    } else {
                        Ok(MnistModel { sizes: seq![be_u32(s[4], s[5], s[6], s[7])], data: s.skip(8) })
                    }
                } else if magic == MAGIC_IMAGES {
                    if s.len() < 16 {
                        Err(DataError::Truncated)
                    } else {
                        Ok(
                            MnistModel {
                                sizes: seq![
                                    be_u32(s[4], s[5], s[6], s[7]),
                                    be_u32(s[8], s[9], s[10], s[11]),
                                    be_u32(s[12], s[13], s[14], s[15]),
                                ],
                                data: s.skip(16),
                            },
                        )
                    }
                } else {
                    Err(DataError::BadMagic)
                }
            }
        },
    }
}

/// Copy the payload that follows a header of `from` bytes.
#[verifier::loop_isolation(false)]
fn tail_from(v: &Vec<u8>, from: usize) -> (r: Vec<u8>)
    requires
        from <= v@.len(),
    ensures
        r@ == v@.skip(from as int),
{
    let mut r: Vec<u8> = Vec::new();
    let mut k = from;
    while k < v.len()
        invariant
            from <= k <= v@.len(),
            r@.len() == k - from,
            forall|idx: int| 0 <= idx < r@.len() ==> r@[idx] == v@[from + idx],
        decreases v@.len() - k,
    {
        r.push(v[k]);
        k = k + 1;
    }
    assert(r@ =~= v@.skip(from as int));
    r
}

impl MnistData {
    /// Decode one gzip-compressed stream and parse its header: the magic
    /// number decides how many dimensions follow (one for labels, three for
    /// images); the rest of the stream is kept as the payload. Any other
    /// magic number is rejected rather than guessed at.
    pub fn new(bytes: &Vec<u8>) -> (r: Result<MnistData, DataError>)
        ensures
            spec_parse_mnist(gunzip_of(bytes@)) matches Ok(m) ==> (r matches Ok(d) && d@ == m),
            spec_parse_mnist(gunzip_of(bytes@)) matches Err(e) ==> r == Err::<
                MnistData,
                DataError,
            >(e),
    {
        let contents = match gunzip(bytes) {
            Option::Some(c) => c,
            Option::None => {
                return Err(DataError::Io);
            },
        };
        if contents.len() < 4 {
            return Err(DataError::Truncated);
        }
        let magic = read_be_u32(&contents, 0);
        let mut sizes: Vec<u32> = Vec::new();
        if magic == MAGIC_LABELS {
            if contents.len() < 8 {
                return Err(DataError::Truncated);
            }
            sizes.push(read_be_u32(&contents, 4));
            let data = tail_from(&contents, 8);
            let d = MnistData { sizes, data };
            proof {
                let m = spec_parse_mnist(gunzip_of(bytes@)) ->Ok_0;
                assert(d@.sizes =~= m.sizes);
                assert(d@ =~= m);
            }
            Ok(d)
        } else if magic == MAGIC_IMAGES {
            if contents.len() < 16 {
                return Err(DataError::Truncated);
            }
            sizes.push(read_be_u32(&contents, 4));
            sizes.push(read_be_u32(&contents, 8));
            sizes.push(read_be_u32(&contents, 12));
            let data = tail_from(&contents, 16);
            let d = MnistData { sizes, data };
            proof {
                let m = spec_parse_mnist(gunzip_of(bytes@)) ->Ok_0;
                assert(d@.sizes =~= m.sizes);
                assert(d@ =~= m);
            }
            Ok(d)
        } else {
            Err(DataError::BadMagic)
        }
    }
}

/// Spec-level model of one raw example: an image's pixel bytes paired with
/// its label byte.
#[verifier::ext_equal]
pub ghost struct RawExampleModel {
    pub pixels: Seq<u8>,
    pub label: u8,
}

/// One raw example as loaded from the streams: the i-th image's pixel
/// bytes, still unnormalized, paired with the i-th label.
pub struct RawExample {
    pub pixels: Vec<u8>,
    pub label: u8,
}

impl View for RawExample {
    type V = RawExampleModel;

    open spec fn view(&self) -> RawExampleModel {
        RawExampleModel { pixels: self.pixels@, label: self.label }
    }
}

/// The models of a sequence of raw examples.
pub open spec fn raws_view(v: Seq<RawExample>) -> Seq<RawExampleModel> {
    v.map_values(|e: RawExample| e@)
}

/// What pairing a parsed labels stream with a parsed images stream yields.
/// The labels stream must carry the labels magic (one dimension) and the
/// images stream the images magic (three); each payload must be as long as
/// its header declares; every label must name one of the ten classes. The
/// i-th image (a row-major block of rows x columns pixel bytes) is paired
/// with the i-th label, in stream order, up to the shorter declared count.
pub open spec fn spec_pair_examples(l: MnistModel, im: MnistModel) -> Result<
    Seq<RawExampleModel>,
    DataError,
> {
    if l.sizes.len() != 1 {
        Err(DataError::BadMagic)
    } else if im.sizes.len() != 3 {
        Err(DataError::BadMagic)
    } else {
        let label_count = l.sizes[0] as int;
        let image_count = im.sizes[0] as int;
        let pixels_per = im.sizes[1] * im.sizes[2];
        if l.data.len() < label_count {
            Err(DataError::Truncated)
        } else if im.data.len() < image_count * pixels_per {
            Err(DataError::Truncated)
        } else {
            let n = if label_count <= image_count {
                label_count
            } else {
                image_count
            };
            if exists|i: int| 0 <= i < n && (#[trigger] l.data[i]) > 9 {
                Err(DataError::BadLabel)
            } else {
                Ok(
                    Seq::new(
                        n as nat,
                        |i: int|
                            RawExampleModel {
                                pixels: im.data.subrange(i * pixels_per, (i + 1) * pixels_per),
                                label: l.data[i],
                            },
                    ),
                )
            }
        }
    }
}

/// What loading a dataset from its two compressed streams yields: the
/// labels stream is read first, then the images stream, then the two are
/// paired; the first failure wins.
pub open spec fn spec_load(labels: Option<Seq<u8>>, images: Option<Seq<u8>>) -> Result<
    Seq<RawExampleModel>,
    DataError,
> {
    match spec_parse_mnist(labels) {
        Err(e) => Err(e),
        Ok(l) => match spec_parse_mnist(images) {
            Err(e) => Err(e),
            Ok(im) => spec_pair_examples(l, im),
        },
    }
}

/// Law: a stream that decodes but opens with any magic number other than
/// the two known ones makes the loader fail outright; since the loader
/// returns a plain error value, no partially-constructed output can exist.
pub proof fn lemma_bad_magic_fails(labels: Option<Seq<u8>>, images: Option<Seq<u8>>)
    requires
        labels matches Some(s) && s.len() >= 4 && be_u32(s[0], s[1], s[2], s[3]) != MAGIC_LABELS
            && be_u32(s[0], s[1], s[2], s[3]) != MAGIC_IMAGES,
    ensures
        spec_load(labels, images) == Err::<Seq<RawExampleModel>, DataError>(DataError::BadMagic),
{
}

/// Law: the same for the images stream — if the labels stream parses but
/// the images stream opens with an unknown magic number, the loader fails
/// outright with no partial output.
pub proof fn lemma_bad_magic_images_fails(labels: Option<Seq<u8>>, images: Option<Seq<u8>>)
    requires
        spec_parse_mnist(labels) is Ok,
        images matches Some(s) && s.len() >= 4 && be_u32(s[0], s[1], s[2], s[3]) != MAGIC_LABELS
            && be_u32(s[0], s[1], s[2], s[3]) != MAGIC_IMAGES,
    ensures
        spec_load(labels, images) == Err::<Seq<RawExampleModel>, DataError>(DataError::BadMagic),
{
}

/// Load a dataset from its two gzip-compressed streams — the labels stream
/// and the images stream — into raw examples: the i-th image's pixel bytes
/// paired with the i-th label, in stream order. Fails whole, never with a
/// partial result, exactly where `spec_load` fails.
#[verifier::loop_isolation(false)]
pub fn load_raw(labels_gz: &Vec<u8>, images_gz: &Vec<u8>) -> (r: Result<Vec<RawExample>, DataError>)
    ensures
        spec_load(gunzip_of(labels_gz@), gunzip_of(images_gz@)) matches Ok(s) ==> (r matches Ok(v)
            && raws_view(v@) == s),
        spec_load(gunzip_of(labels_gz@), gunzip_of(images_gz@)) matches Err(e) ==> r == Err::<
            Vec<RawExample>,
            DataError,
        >(e),
{
    let labels = match MnistData::new(labels_gz) {
        Ok(d) => d,
        Err(e) => {
            return Err(e);
        },
    };
    let images = match MnistData::new(images_gz) {
        Ok(d) => d,
        Err(e) => {
            return Err(e);
        },
    };
    let ghost l = labels@;
    let ghost im = images@;
    if labels.sizes.len() != 1 {
        return Err(DataError::BadMagic);
    }
    if images.sizes.len() != 3 {
        return Err(DataError::BadMagic);
    }
    let label_count = labels.sizes[0] as usize;
    let image_count = images.sizes[0] as usize;
    let rows = images.sizes[1] as usize;
    let cols = images.sizes[2] as usize;
    if labels.data.len() < label_count {
        return Err(DataError::Truncated);
    }
    let image_bytes = images.data.len();
    let pixels_per: usize;
    match rows.checked_mul(cols) {
        Some(p) => {
            pixels_per = p;
        },
        None => {
            // the per-image block alone exceeds the address space, so any
            // nonzero image count declares more payload than can exist
            if image_count == 0 {
                let empty: Vec<RawExample> = Vec::new();
                proof {
                    let expected = spec_pair_examples(l, im);
                    assert(im.sizes[0] * (im.sizes[1] * im.sizes[2]) == 0) by (nonlinear_arith)
                        requires
                            im.sizes[0] as int == 0,
                    ;
                    assert(expected is Ok);
                    assert(expected->Ok_0.len() == 0);
                    assert(raws_view(empty@) =~= expected->Ok_0);
                }
                return Ok(empty);
            }
            proof {
                vstd::arithmetic::mul::lemma_mul_inequality(
                    1,
                    image_count as int,
                    im.sizes[1] * im.sizes[2],
                );
            }
            return Err(DataError::Truncated);
        },
    }
    let total: usize;
    match image_count.checked_mul(pixels_per) {
        Some(t) => {
            total = t;
        },
        None => {
            return Err(DataError::Truncated);
        },
    }
    if image_bytes < total {
        return Err(DataError::Truncated);
    }
    let n = if label_count <= image_count {
        label_count
    } else {
        image_count
    };
    let mut i: usize = 0;
    while i < n
        invariant
            i <= n,
            forall|k: int| 0 <= k < i ==> (#[trigger] l.data[k]) <= 9,
        decreases n - i,
    {
        if labels.data[i] > 9 {
            return Err(DataError::BadLabel);
        }
        i = i + 1;
    }
    let ghost expected = spec_pair_examples(l, im)->Ok_0;
    let mut result: Vec<RawExample> = Vec::new();
    let mut e: usize = 0;
    while e < n
        invariant
            e <= n,
            result@.len() == e,
            forall|k: int| 0 <= k < e ==> (#[trigger] raws_view(result@)[k]) == expected[k],
        decreases n - e,
    {
        proof {
            vstd::arithmetic::mul::lemma_mul_inequality(
                e + 1,
                image_count as int,
                pixels_per as int,
            );
            assert((e + 1) * pixels_per == e * pixels_per + pixels_per) by (nonlinear_arith);
        }
        let base = e * pixels_per;
        let mut px: Vec<u8> = Vec::new();
        let mut j: usize = 0;
        while j < pixels_per
            invariant
                j <= pixels_per,
                base == e * pixels_per,
                base + pixels_per <= image_bytes,
                px@.len() == j,
                forall|idx: int| 0 <= idx < j ==> px@[idx] == im.data[base + idx],
            decreases pixels_per - j,
        {
            px.push(images.data[base + j]);
            j = j + 1;
        }
        let ghost px_view = px@;
        let ghost prev = result@;
        result.push(RawExample { pixels: px, label: labels.data[e] });
        proof {
            assert(px_view =~= im.data.subrange(
                e * pixels_per,
                (e + 1) * (pixels_per as int),
            ));
            assert forall|k: int| 0 <= k < e + 1 implies (#[trigger] raws_view(result@)[k])
                == expected[k] by {
                assert(raws_view(result@)[k] == result@[k]@);
                if k < e {
                    assert(result@[k] == prev[k]);
                    assert(raws_view(prev)[k] == prev[k]@);
                } else {
                    assert(result@[k]@.pixels == px_view);
                }
            }
        }
        e = e + 1;
    }
    proof {
        assert(raws_view(result@) =~= expected);
    }
    Ok(result)
}

/// The feature vector a pixel row encodes: each byte divided by 255,
/// through the scalar's named conversion.
pub open spec fn spec_features<S: Scalar>(pixels: Seq<u8>) -> Seq<S> {
    Seq::new(pixels.len(), |k: int| S::spec_from_pixel(pixels[k]))
}

/// The one-hot target of a label: ten entries, the multiplicative identity
/// at the label's index and the additive identity everywhere else.
pub open spec fn spec_one_hot<S: Scalar>(label: u8) -> Seq<S> {
    Seq::new(
        10,
        |j: int|
            if j == label as int {
                S::spec_one()
            } else {
                S::spec_zero()
            },
    )
}

/// Load a dataset from its two gzip-compressed streams into training
/// examples: each pixel byte becomes one input feature (byte / 255), each
/// label `c` a one-hot target of length 10 with the 1 at index `c`, and the
/// label itself is kept as the classification. One example per (image,
/// label) pair, in stream order; fails exactly where `spec_load` fails.
#[verifier::loop_isolation(false)]
pub fn load_data<S: Scalar>(labels_gz: &Vec<u8>, images_gz: &Vec<u8>) -> (r: Result<
    Vec<TrainingData<S>>,
    DataError,
>)
    ensures
        spec_load(gunzip_of(labels_gz@), gunzip_of(images_gz@)) matches Ok(s) ==> (r matches Ok(v)
            && v@.len() == s.len() && forall|i: int|
            0 <= i < s.len() ==> (#[trigger] v@[i]).classification == s[i].label
                && v@[i].inputs@ == spec_features::<S>(s[i].pixels) && v@[i].target@
                == spec_one_hot::<S>(s[i].label)),
        spec_load(gunzip_of(labels_gz@), gunzip_of(images_gz@)) matches Err(e) ==> r == Err::<
            Vec<TrainingData<S>>,
            DataError,
        >(e),
{
    let raws = match load_raw(labels_gz, images_gz) {
        Ok(v) => v,
        Err(e) => {
            return Err(e);
        },
    };
    let ghost s = spec_load(gunzip_of(labels_gz@), gunzip_of(images_gz@))->Ok_0;
    let mut result: Vec<TrainingData<S>> = Vec::new();
    let mut i: usize = 0;
    while i < raws.len()
        invariant
            i <= raws@.len(),
            result@.len() == i,
            raws_view(raws@) == s,
            forall|k: int|
                0 <= k < i ==> (#[trigger] result@[k]).classification == s[k].label
                    && result@[k].inputs@ == spec_features::<S>(s[k].pixels) && result@[k].target@
                    == spec_one_hot::<S>(s[k].label),
        decreases raws@.len() - i,
    {
        proof {
            assert(raws_view(raws@)[i as int] == raws@[i as int]@);
        }
        let raw = &raws[i];
        let mut inputs: Vec<S> = Vec::new();
        let mut p: usize = 0;
        while p < raw.pixels.len()
            invariant
                p <= raw.pixels@.len(),
                inputs@.len() == p,
                forall|q: int|
                    0 <= q < p ==> #[trigger] inputs@[q] == S::spec_from_pixel(raw.pixels@[q]),
            decreases raw.pixels@.len() - p,
        {
            inputs.push(S::from_pixel(raw.pixels[p]));
            p = p + 1;
        }
        assert(inputs@ =~= spec_features::<S>(raw.pixels@));
        let label = raw.label;
        let mut target: Vec<S> = Vec::new();
        let mut j: usize = 0;
        while j < 10
            invariant
                j <= 10,
                target@.len() == j,
                forall|q: int|
                    0 <= q < j ==> #[trigger] target@[q] == (if q == label as int {
                        S::spec_one()
                    } else {
                        S::spec_zero()
                    }),
            decreases 10 - j,
        {
            if j == label as usize {
                target.push(S::one());
            } else {
                target.push(S::zero());
            }
            j = j + 1;
        }
        assert(target@ =~= spec_one_hot::<S>(label));
        let ghost inputs_view = inputs@;
        let ghost target_view = target@;
        let ghost prev = result@;
        result.push(TrainingData { inputs, target, classification: label });
        proof {
            assert forall|k: int|
                0 <= k < i + 1 implies (#[trigger] result@[k]).classification == s[k].label
                    && result@[k].inputs@ == spec_features::<S>(s[k].pixels) && result@[k].target@
                    == spec_one_hot::<S>(s[k].label) by {
                if k < i {
                    assert(result@[k] == prev[k]);
                } else {
                    assert(result@[k].inputs@ == inputs_view);
                    assert(result@[k].target@ == target_view);
                }
            }
        }
        i = i + 1;
    }
    Ok(result)
}

} // verus!
