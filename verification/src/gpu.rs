//! Host-side model of the GPU multiplication pipeline: the fixed-layout
//! result-record codec (explicit field widths, little-endian), result-buffer
//! sizing from the predicted capacity, the readback assembly with its
//! consistency checks, and the stage machine with its two-signal mapping
//! join. The device work itself (uploads, dispatch, polling) lives with the
//! driver that owns the device; it hands the mapped bytes to this module.

use vstd::prelude::*;

use crate::error::MatError;

verus! {

/// Bytes of one result record: two 32-bit coordinates and a 4-byte scalar.
pub const ENTRY_BYTES: usize = 12;

/// Bytes of the leading counter cell.
pub const COUNTER_BYTES: usize = 4;

/// Little-endian 32-bit value at `off`.
pub open spec fn u32_le(s: Seq<u8>, off: int) -> int {
    s[off] + 0x100 * s[off + 1] + 0x1_0000 * s[off + 2] + 0x100_0000 * s[off + 3]
}

/// Row field of record `e`.
pub open spec fn rec_row(s: Seq<u8>, e: int) -> int {
    u32_le(s, 12 * e)
}

/// Column field of record `e`.
pub open spec fn rec_col(s: Seq<u8>, e: int) -> int {
    u32_le(s, 12 * e + 4)
}

/// Raw scalar bits of record `e`.
pub open spec fn rec_bits(s: Seq<u8>, e: int) -> int {
    u32_le(s, 12 * e + 8)
}

/// A decoded device record: coordinates plus the raw bits of its scalar
/// payload, which only the caller interprets.
#[derive(Clone, Copy, PartialEq, Eq, Structural, Debug)]
pub struct GpuEntry {
    pub row: u32,
    pub col: u32,
    pub val_bits: u32,
}

fn read_u32_le(bytes: &Vec<u8>, off: usize) -> (r: u32)
    requires
        off + 4 <= bytes@.len(),
    ensures
        r as int == u32_le(bytes@, off as int),
{
    let total = bytes.len();
    proof {
        assert(off + 4 <= total);
    }
    let b0 = bytes[off] as u32;
    let b1 = bytes[off + 1] as u32;
    let b2 = bytes[off + 2] as u32;
    let b3 = bytes[off + 3] as u32;
    b0 + 0x100 * b1 + 0x1_0000 * b2 + 0x100_0000 * b3
}

/// Decode `n` fixed-layout records from the mapped data region.
#[verifier::loop_isolation(false)]
pub fn decode_entries(bytes: &Vec<u8>, n: usize) -> (r: Vec<GpuEntry>)
    requires
        n * 12 <= bytes@.len(),
    ensures
        r@.len() == n,
        forall|e: int|
            0 <= e < n ==> (#[trigger] r@[e]).row as int == rec_row(bytes@, e) && r@[e].col as int
                == rec_col(bytes@, e) && r@[e].val_bits as int == rec_bits(bytes@, e),
{
    let total = bytes.len();
    let mut out: Vec<GpuEntry> = Vec::new();
    let mut e: usize = 0;
    while e < n
        invariant
            e <= n,
            out@.len() == e,
            forall|u: int|
                0 <= u < e ==> (#[trigger] out@[u]).row as int == rec_row(bytes@, u)
                    && out@[u].col as int == rec_col(bytes@, u) && out@[u].val_bits as int
                    == rec_bits(bytes@, u),
        decreases n - e,
    {
        proof {
            assert(e * 12 + 12 <= n * 12 <= total);
        }
        let base = e * 12;
        let row = read_u32_le(bytes, base);
        let col = read_u32_le(bytes, base + 4);
        let vb = read_u32_le(bytes, base + 8);
        out.push(GpuEntry { row, col, val_bits: vb });
        e = e + 1;
    }
    out
}

/// Raw coordinate-list result read back from the device: coordinates are
/// validated against the result shape; the scalar payload stays as raw
/// bits. Record order is whatever the device's atomic cursor produced and
/// carries no meaning.
#[derive(Debug)]
pub struct GpuCoo {
    pub data: Vec<(usize, usize, u32)>,
    pub shape: (usize, usize),
}

impl GpuCoo {
    pub open spec fn wf(self) -> bool {
        forall|p: int|
            0 <= p < self.data@.len() ==> (#[trigger] self.data@[p]).0 < self.shape.0
                && self.data@[p].1 < self.shape.1
    }
}

/// All of the first `n` decoded coordinates lie inside the shape.
pub open spec fn entries_in_shape(s: Seq<u8>, n: int, shape: (usize, usize)) -> bool {
    forall|e: int|
        0 <= e < n ==> (#[trigger] rec_row(s, e)) < shape.0 && rec_col(s, e) < shape.1
}

/// The two mapped regions are mutually consistent with the predicted
/// capacity: the counter holds `count + 1` (the kernel's append cursor
/// starts at one), the count fits the capacity, the data region holds
/// exactly the predicted number of records, and every counted coordinate
/// lies inside the result shape.
pub open spec fn readback_ok(
    counter: Seq<u8>,
    data: Seq<u8>,
    nnz_pred: int,
    shape: (usize, usize),
) -> bool {
    &&& counter.len() >= 4
    &&& u32_le(counter, 0) >= 1
    &&& u32_le(counter, 0) - 1 <= nnz_pred
    &&& data.len() == 12 * nnz_pred
    &&& entries_in_shape(data, u32_le(counter, 0) - 1, shape)
}

/// Assemble the coordinate result from the two mapped staging regions.
/// Any inconsistency is a fatal device failure: no partial result comes
/// back.
#[verifier::loop_isolation(false)]
pub fn assemble_result(
    counter: &Vec<u8>,
    data: &Vec<u8>,
    nnz_pred: usize,
    shape: (usize, usize),
) -> (r: Result<GpuCoo, MatError>)
    ensures
        match r {
            Result::Ok(g) => {
                &&& readback_ok(counter@, data@, nnz_pred as int, shape)
                &&& g.wf()
                &&& g.shape == shape
                &&& g.data@.len() == u32_le(counter@, 0) - 1
                &&& forall|e: int|
                    0 <= e < g.data@.len() ==> (#[trigger] g.data@[e]).0 as int == rec_row(data@, e)
                        && g.data@[e].1 as int == rec_col(data@, e) && g.data@[e].2 as int
                        == rec_bits(data@, e)
            },
            Result::Err(err) => {
                &&& err == MatError::DeviceFailure
                &&& !readback_ok(counter@, data@, nnz_pred as int, shape)
            },
        },
{
    if counter.len() < 4 {
        return Result::Err(MatError::DeviceFailure);
    }
    let raw = read_u32_le(counter, 0);
    if raw == 0 {
        return Result::Err(MatError::DeviceFailure);
    }
    let n = (raw - 1) as usize;
    if n > nnz_pred {
        return Result::Err(MatError::DeviceFailure);
    }
    let expected = nnz_pred.checked_mul(12);
    let dl = data.len();
    let data_len_ok = match expected {
        Option::Some(x) => dl == x,
        Option::None => false,
    };
    if !data_len_ok {
        return Result::Err(MatError::DeviceFailure);
    }
    let ents = decode_entries(data, n);
    let mut out: Vec<(usize, usize, u32)> = Vec::new();
    let mut e: usize = 0;
    while e < n
        invariant
            e <= n,
            out@.len() == e,
            forall|u: int|
                0 <= u < e ==> (#[trigger] out@[u]).0 as int == rec_row(data@, u)
                    && out@[u].1 as int == rec_col(data@, u) && out@[u].2 as int == rec_bits(
                    data@,
                    u,
                ),
            forall|u: int|
                0 <= u < e ==> (#[trigger] out@[u]).0 < shape.0 && out@[u].1 < shape.1,
        decreases n - e,
    {
        let g = ents[e];
        let gr = g.row as usize;
        let gc = g.col as usize;
        if gr >= shape.0 || gc >= shape.1 {
            proof {
                assert(rec_row(data@, e as int) == gr as int && rec_col(data@, e as int)
                    == gc as int);
                assert(!entries_in_shape(data@, n as int, shape));
            }
            return Result::Err(MatError::DeviceFailure);
        }
        out.push((gr, gc, g.val_bits));
        e = e + 1;
    }
    let g = GpuCoo { data: out, shape };
    proof {
        assert forall|u: int| 0 <= u < n implies (#[trigger] rec_row(data@, u)) < shape.0
            && rec_col(data@, u) < shape.1 by {
            assert(out@[u].0 as int == rec_row(data@, u) && out@[u].1 as int == rec_col(data@, u));
        }
    }
    Result::Ok(g)
}

/// Size in bytes of a record region holding the predicted number of
/// records; the counter region is one cell of `COUNTER_BYTES`.
pub fn entries_buffer_bytes(nnz_pred: usize) -> (r: Option<usize>)
    ensures
        match r {
            Option::Some(x) => x == 12 * nnz_pred,
            Option::None => 12 * nnz_pred > usize::MAX,
        },
{
    nnz_pred.checked_mul(12)
}

/// Stages of one GPU multiplication call, in the order they may occur.
#[derive(Clone, Copy, PartialEq, Eq, Structural, Debug)]
pub enum GpuStage {
    Uninitialized,
    DeviceReady,
    BuffersLoaded,
    Dispatched,
    ResultMapped,
    Done,
}

/// Events the surrounding driver reports to the stage machine.
#[derive(Clone, Copy, PartialEq, Eq, Structural, Debug)]
pub enum GpuEvent {
    /// A device and queue were acquired and the kernel compiled.
    DeviceAcquired,
    /// Device acquisition or kernel compilation failed.
    DeviceRejected,
    /// Operand and result buffers were created, written and bound.
    BuffersUploaded,
    /// The command buffer (dispatch plus staging copy) was submitted.
    Submitted,
    /// Both staging regions report their mapping completed.
    MappingsReady,
    /// A mapping failed.
    MappingFailed,
    /// The counter and records were read and the result assembled.
    ResultAssembled,
}

/// The one legal order of stages. Device acquisition can fail fatally with
/// `ResourceUnavailable`; a failed mapping and every out-of-order event is
/// a fatal `DeviceFailure` (once submitted, a call cannot be cancelled).
pub open spec fn step_spec(s: GpuStage, e: GpuEvent) -> Result<GpuStage, MatError> {
    match (s, e) {
        (GpuStage::Uninitialized, GpuEvent::DeviceAcquired) => Result::Ok(GpuStage::DeviceReady),
        (GpuStage::Uninitialized, GpuEvent::DeviceRejected) => Result::Err(
            MatError::ResourceUnavailable,
        ),
        (GpuStage::DeviceReady, GpuEvent::BuffersUploaded) => Result::Ok(GpuStage::BuffersLoaded),
        (GpuStage::BuffersLoaded, GpuEvent::Submitted) => Result::Ok(GpuStage::Dispatched),
        (GpuStage::Dispatched, GpuEvent::MappingsReady) => Result::Ok(GpuStage::ResultMapped),
        (GpuStage::Dispatched, GpuEvent::MappingFailed) => Result::Err(MatError::DeviceFailure),
        (GpuStage::ResultMapped, GpuEvent::ResultAssembled) => Result::Ok(GpuStage::Done),
        (GpuStage::ResultMapped, GpuEvent::MappingFailed) => Result::Err(MatError::DeviceFailure),
        _ => Result::Err(MatError::DeviceFailure),
    }
}

/// Advance the stage machine by one reported event.
pub fn advance(s: GpuStage, e: GpuEvent) -> (r: Result<GpuStage, MatError>)
    ensures
        r == step_spec(s, e),
{
    match (s, e) {
        (GpuStage::Uninitialized, GpuEvent::DeviceAcquired) => Result::Ok(GpuStage::DeviceReady),
        (GpuStage::Uninitialized, GpuEvent::DeviceRejected) => Result::Err(
            MatError::ResourceUnavailable,
        ),
        (GpuStage::DeviceReady, GpuEvent::BuffersUploaded) => Result::Ok(GpuStage::BuffersLoaded),
        (GpuStage::BuffersLoaded, GpuEvent::Submitted) => Result::Ok(GpuStage::Dispatched),
        (GpuStage::Dispatched, GpuEvent::MappingsReady) => Result::Ok(GpuStage::ResultMapped),
        (GpuStage::Dispatched, GpuEvent::MappingFailed) => Result::Err(MatError::DeviceFailure),
        (GpuStage::ResultMapped, GpuEvent::ResultAssembled) => Result::Ok(GpuStage::Done),
        (GpuStage::ResultMapped, GpuEvent::MappingFailed) => Result::Err(MatError::DeviceFailure),
        _ => Result::Err(MatError::DeviceFailure),
    }
}

/// Join of the two independent mapping completions: the counter region and
/// the data region must both signal before the readback may proceed.
pub struct MapJoin {
    pub counter_ready: bool,
    pub data_ready: bool,
}

impl MapJoin {
    pub fn new() -> (r: MapJoin)
        ensures
            !r.counter_ready,
            !r.data_ready,
    {
        MapJoin { counter_ready: false, data_ready: false }
    }

    pub fn signal_counter(&mut self)
        ensures
            final(self).counter_ready,
            final(self).data_ready == old(self).data_ready,
    {
        self.counter_ready = true;
    }

    pub fn signal_data(&mut self)
        ensures
            final(self).data_ready,
            final(self).counter_ready == old(self).counter_ready,
    {
        self.data_ready = true;
    }

    /// The readback is valid only once both regions are mapped.
    pub fn ready(&self) -> (r: bool)
        ensures
            r == (self.counter_ready && self.data_ready),
    {
        self.counter_ready && self.data_ready
    }
}

} // verus!
