use vstd::prelude::*;

use crate::keyframes::{expand, expand_frames};
use crate::types::{Layer, Timesheet};

verus! {

/// The largest layer count the format can hold.
pub const MAX_LAYERS: usize = 255;

/// The largest frame count the format can hold.
pub const MAX_FRAMES: u32 = 65535;

/// The largest length of an encoded layer name.
pub const MAX_NAME_BYTES: usize = 255;

/// What Shift-JIS encoding makes of a text: its bytes, and whether some character had no
/// mapping and was replaced.
pub uninterp spec fn shift_jis_of(s: Seq<char>) -> (Seq<u8>, bool);

/// Every character of the text is ASCII.
pub open spec fn all_ascii(s: Seq<char>) -> bool {
    forall|i: int| 0 <= i < s.len() ==> (#[trigger] s[i] as u32) < 128
}

/// The bytes of an ASCII text, one per character.
pub open spec fn ascii_bytes(s: Seq<char>) -> Seq<u8> {
    Seq::new(s.len(), |i: int| s[i] as u8)
}

/// Relies on encoding_rs's `Encoding::encode` with `SHIFT_JIS`: lossy encoding that reports
/// replaced characters, and leaves pure ASCII text byte for byte as it is.
#[verifier::external_body]
fn encode_shift_jis(s: &str) -> (r: (Vec<u8>, bool))
    ensures
        r.0@ == shift_jis_of(s@).0,
        r.1 == shift_jis_of(s@).1,
        all_ascii(s@) ==> r.0@ == ascii_bytes(s@) && !r.1,
{
    let (bytes, _, had_errors) = encoding_rs::SHIFT_JIS.encode(s);
    (bytes.into_owned(), had_errors)
}

/// The bytes written for a layer name: its Shift-JIS encoding, cut to at most 255 bytes.
pub open spec fn name_bytes(name: Seq<char>) -> Seq<u8> {
    let b = shift_jis_of(name).0;
    if b.len() > MAX_NAME_BYTES {
        b.take(MAX_NAME_BYTES as int)
    } else {
        b
    }
}

/// A layer name ready for the name table.
pub struct EncodedName {
    pub bytes: Vec<u8>,
    pub unmappable: bool,
    pub truncated: bool,
}

/// Encodes a layer name for the name table: Shift-JIS with lossy replacement, cut to 255
/// bytes; says whether characters were replaced and whether the name was cut.
pub fn encode_layer_name(name: &str) -> (r: EncodedName)
    ensures
        r.bytes@ == name_bytes(name@),
        r.bytes@.len() <= MAX_NAME_BYTES,
        r.unmappable == shift_jis_of(name@).1,
        r.truncated == (shift_jis_of(name@).0.len() > MAX_NAME_BYTES),
        r.truncated ==> r.bytes@.len() == MAX_NAME_BYTES,
        all_ascii(name@) ==> !r.unmappable && r.bytes@ == ascii_bytes(name@).take(
            if name@.len() > MAX_NAME_BYTES {
                MAX_NAME_BYTES as int
            } else {
                name@.len() as int
            },
        ),
{
    let (full, unmappable) = encode_shift_jis(name);
    if full.len() <= MAX_NAME_BYTES {
        return EncodedName { bytes: full, unmappable, truncated: false };
    }
    let mut bytes: Vec<u8> = Vec::new();
    let mut i: usize = 0;
    while i < MAX_NAME_BYTES
        invariant
            i <= MAX_NAME_BYTES < full@.len(),
            bytes@ == full@.take(i as int),
        decreases MAX_NAME_BYTES - i,
    {
        bytes.push(full[i]);
        i = i + 1;
        assert(bytes@ =~= full@.take(i as int));
    }
    EncodedName { bytes, unmappable, truncated: true }
}

/// Little-endian bytes of a 16-bit value.
pub open spec fn le16(v: u16) -> Seq<u8> {
    seq![(v % 256) as u8, (v / 256) as u8]
}

/// The cells of one layer, each as two little-endian bytes.
pub open spec fn cells_le(c: Seq<u16>) -> Seq<u8>
    decreases c.len(),
{
    if c.len() == 0 {
        Seq::empty()
    } else {
        cells_le(c.drop_last()) + le16(c.last())
    }
}

/// The frame grid: each layer's dense cells in layer order.
pub open spec fn grid_bytes(layers: Seq<Layer>, n: nat) -> Seq<u8>
    decreases layers.len(),
{
    if layers.len() == 0 {
        Seq::empty()
    } else {
        grid_bytes(layers.drop_last(), n) + cells_le(expand(layers.last().frames@, n))
    }
}

/// The name table: for each layer a length byte and the encoded name.
pub open spec fn name_table(layers: Seq<Layer>) -> Seq<u8>
    decreases layers.len(),
{
    if layers.len() == 0 {
        Seq::empty()
    } else {
        let b = name_bytes(layers.last().name@);
        name_table(layers.drop_last()) + seq![b.len() as u8] + b
    }
}

/// The fixed 23-byte header: tag, identifier, layer count, frame count, two zero bytes.
pub open spec fn sts_header(layer_count: u8, frame_count: u16) -> Seq<u8> {
    seq![
        0x11u8, 0x53u8, 0x68u8, 0x69u8, 0x72u8, 0x61u8, 0x68u8, 0x65u8, 0x69u8,
        0x54u8, 0x69u8, 0x6du8, 0x65u8, 0x53u8, 0x68u8, 0x65u8, 0x65u8, 0x74u8,
        layer_count, (frame_count % 256) as u8, (frame_count / 256) as u8, 0u8, 0u8,
    ]
}

/// The whole file for a timesheet within the format's limits.
pub open spec fn sts_bytes(ts: Timesheet) -> Seq<u8> {
    sts_header(ts.layers@.len() as u8, ts.frame_count as u16)
        + grid_bytes(ts.layers@, ts.frame_count as nat)
        + name_table(ts.layers@)
}

/// A non-fatal remark about a layer name, by layer position.
#[derive(Debug, Clone, Copy, PartialEq, Eq, Structural)]
pub enum NameWarning {
    /// Some characters have no Shift-JIS form and were replaced.
    Unmappable { layer: usize },
    /// The encoded name was longer than 255 bytes and was cut.
    Truncated { layer: usize },
}

/// The warnings for the layer names, in layer order.
pub open spec fn name_warnings(layers: Seq<Layer>) -> Seq<NameWarning>
    decreases layers.len(),
{
    if layers.len() == 0 {
        Seq::empty()
    } else {
        let k = (layers.len() - 1) as usize;
        let e = shift_jis_of(layers.last().name@);
        let w1: Seq<NameWarning> = if e.1 {
            seq![NameWarning::Unmappable { layer: k }]
        } else {
            Seq::empty()
        };
        let w2: Seq<NameWarning> = if e.0.len() > MAX_NAME_BYTES {
            seq![NameWarning::Truncated { layer: k }]
        } else {
            Seq::empty()
        };
        name_warnings(layers.drop_last()) + w1 + w2
    }
}

/// Why a timesheet does not fit the format.
#[derive(Debug, Clone, Copy, PartialEq, Eq, Structural)]
pub enum ConvertError {
    /// More layers than the format's one-byte count holds.
    LayerLimit { actual: usize, max: usize },
    /// More frames than the format's two-byte count holds.
    FrameLimit { actual: usize, max: usize },
}

/// An encoded file and the remarks made on the way.
pub struct StsFile {
    pub bytes: Vec<u8>,
    pub warnings: Vec<NameWarning>,
}


/// Appends a cell as two little-endian bytes.
fn push_le16(out: &mut Vec<u8>, v: u16)
    ensures
        final(out)@ == old(out)@ + le16(v),
{
    out.push((v % 256) as u8);
    out.push((v / 256) as u8);
    assert(final(out)@ =~= old(out)@ + le16(v));
}

/// Encodes a timesheet in the STS layout: the header, each layer's cells frame by frame,
/// then each layer's name. Fails when there are more than 255 layers or more than 65535
/// frames; the layer-count check comes first.
pub fn encode_sts(timesheet: &Timesheet) -> (r: Result<StsFile, ConvertError>)
    ensures
        timesheet.layers@.len() > MAX_LAYERS ==> r == Err::<StsFile, ConvertError>(
            ConvertError::LayerLimit { actual: timesheet.layers@.len() as usize, max: MAX_LAYERS },
        ),
        timesheet.layers@.len() <= MAX_LAYERS && timesheet.frame_count > MAX_FRAMES ==> r == Err::<
            StsFile,
            ConvertError,
        >(ConvertError::FrameLimit {
            actual: timesheet.frame_count as usize,
            max: MAX_FRAMES as usize,
        }),
        timesheet.layers@.len() <= MAX_LAYERS && timesheet.frame_count <= MAX_FRAMES ==> r is Ok
            && r->Ok_0.bytes@ == sts_bytes(*timesheet)
            && r->Ok_0.warnings@ == name_warnings(timesheet.layers@),
{
    let layers = &timesheet.layers;
    let layer_count = layers.len();
    if layer_count > MAX_LAYERS {
        return Err(ConvertError::LayerLimit { actual: layer_count, max: MAX_LAYERS });
    }
    if timesheet.frame_count > MAX_FRAMES {
        return Err(ConvertError::FrameLimit {
            actual: timesheet.frame_count as usize,
            max: MAX_FRAMES as usize,
        });
    }
    let frame_count = timesheet.frame_count as usize;
    let ghost n = frame_count as nat;
    let fc = timesheet.frame_count as u16;
    let mut out: Vec<u8> = Vec::new();
    out.push(0x11);
    out.push(0x53);
    out.push(0x68);
    out.push(0x69);
    out.push(0x72);
    out.push(0x61);
    out.push(0x68);
    out.push(0x65);
    out.push(0x69);
    out.push(0x54);
    out.push(0x69);
    out.push(0x6d);
    out.push(0x65);
    out.push(0x53);
    out.push(0x68);
    out.push(0x65);
    out.push(0x65);
    out.push(0x74);
    out.push(layer_count as u8);
    push_le16(&mut out, fc);
    out.push(0);
    out.push(0);
    let ghost header = sts_header(layer_count as u8, fc);
    assert(out@ =~= header);
    let mut k: usize = 0;
    while k < layer_count
        invariant
            k <= layer_count == layers@.len(),
            n == frame_count as nat,
            out@ == header + grid_bytes(layers@.take(k as int), n),
        decreases layer_count - k,
    {
        let cells = expand_frames(layers[k].frames.as_slice(), frame_count);
        let ghost before = out@;
        let mut j: usize = 0;
        while j < cells.len()
            invariant
                j <= cells@.len(),
                out@ == before + cells_le(cells@.take(j as int)),
            decreases cells.len() - j,
        {
            push_le16(&mut out, cells[j]);
            proof {
                assert(cells@.take(j + 1).drop_last() =~= cells@.take(j as int));
            }
            j = j + 1;
        }
        proof {
            assert(cells@.take(j as int) =~= cells@);
            assert(layers@.take(k + 1).drop_last() =~= layers@.take(k as int));
            assert(out@ =~= header + grid_bytes(layers@.take(k + 1), n));
        }
        k = k + 1;
    }
    assert(layers@.take(k as int) =~= layers@);
    let ghost before_names = out@;
    let mut warnings: Vec<NameWarning> = Vec::new();
    let mut k: usize = 0;
    while k < layer_count
        invariant
            k <= layer_count == layers@.len(),
            out@ == before_names + name_table(layers@.take(k as int)),
            warnings@ == name_warnings(layers@.take(k as int)),
        decreases layer_count - k,
    {
        let encoded = encode_layer_name(layers[k].name.as_str());
        let ghost w0 = warnings@;
        if encoded.unmappable {
            warnings.push(NameWarning::Unmappable { layer: k });
        }
        let ghost w1 = warnings@;
        if encoded.truncated {
            warnings.push(NameWarning::Truncated { layer: k });
        }
        out.push(encoded.bytes.len() as u8);
        let mut j: usize = 0;
        let ghost before = out@;
        while j < encoded.bytes.len()
            invariant
                j <= encoded.bytes@.len(),
                out@ == before + encoded.bytes@.take(j as int),
            decreases encoded.bytes.len() - j,
        {
            out.push(encoded.bytes[j]);
            j = j + 1;
            assert(out@ =~= before + encoded.bytes@.take(j as int));
        }
        proof {
            let t = layers@.take(k + 1);
            assert(t.drop_last() =~= layers@.take(k as int));
            assert(t.last() == layers@[k as int]);
            assert(encoded.bytes@.take(j as int) =~= encoded.bytes@);
            assert(out@ =~= before_names + name_table(t));
            assert(warnings@ =~= name_warnings(t));
        }
        k = k + 1;
    }
    assert(layers@.take(k as int) =~= layers@);
    Ok(StsFile { bytes: out, warnings })
}

} // verus!
