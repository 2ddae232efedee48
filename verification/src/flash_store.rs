//! The stored calibration record and the page arithmetic of flash writes.
//!
//! A calibration is stored as twelve bytes: the six `i16` fields (gyro bias
//! X, Y, Z, then accelerometer offset X, Y, Z), each big-endian. The flash
//! programs whole 256-byte pages; a write of any length at any offset is
//! split into chunks that each lie within one page, and each page is
//! reprogrammed with its old contents overlaid by the chunk.
use vstd::prelude::*;
use crate::calibration::{Calibration, RawSample3};
use crate::wire::{be_hi, be_lo, from_be, i16_from_be, i16_to_be, lemma_be_roundtrip, lemma_be_bytes_roundtrip};

verus! {

/// Offset of the reserved storage region within the flash chip.
pub const STORAGE_OFFSET: u32 = 0x1FE000;

/// Size of the reserved storage region (two 4 KiB sectors).
pub const STORAGE_SIZE: u32 = 0x2000;

/// Key of the calibration record in the key-value store.
pub const CAL_KEY: u8 = 1;

/// Length of an encoded calibration.
pub const RECORD_LEN: usize = 12;

/// The flash's real program granularity.
pub const FLASH_PAGE_SIZE: u32 = 256;

/// The twelve bytes that encode `cal`.
pub open spec fn encoded(cal: Calibration) -> Seq<u8> {
    seq![
        be_hi(cal.gyro_bias.x), be_lo(cal.gyro_bias.x),
        be_hi(cal.gyro_bias.y), be_lo(cal.gyro_bias.y),
        be_hi(cal.gyro_bias.z), be_lo(cal.gyro_bias.z),
        be_hi(cal.accel_offset.x), be_lo(cal.accel_offset.x),
        be_hi(cal.accel_offset.y), be_lo(cal.accel_offset.y),
        be_hi(cal.accel_offset.z), be_lo(cal.accel_offset.z),
    ]
}

/// The calibration that the first twelve bytes of `b` encode.
pub open spec fn decoded(b: Seq<u8>) -> Calibration {
    Calibration {
        gyro_bias: RawSample3 { x: from_be(b[0], b[1]), y: from_be(b[2], b[3]), z: from_be(b[4], b[5]) },
        accel_offset: RawSample3 { x: from_be(b[6], b[7]), y: from_be(b[8], b[9]), z: from_be(b[10], b[11]) },
    }
}

/// Why a record could not be written to or read from a buffer.
#[derive(Debug, Clone, Copy, PartialEq, Eq, Structural)]
pub enum RecordError {
    /// The buffer to write into is shorter than a record.
    BufferTooSmall,
    /// The buffer to read from is shorter than a record.
    InvalidFormat,
}

/// The twelve-byte encoding of a [`Calibration`].
#[derive(Debug, Clone, Copy)]
pub struct CalibrationBytes(pub [u8; 12]);

impl<'a> vstd::std_specs::convert::FromSpecImpl<&'a Calibration> for CalibrationBytes {
    open spec fn obeys_from_spec() -> bool {
        true
    }

    /// The bytes that encode the calibration.
    open spec fn from_spec(cal: &'a Calibration) -> CalibrationBytes {
        choose|b: CalibrationBytes| b.0@ == encoded(*cal)
    }
}

impl<'a> From<&'a Calibration> for CalibrationBytes {
    /// Encode `cal`.
    fn from(cal: &'a Calibration) -> (r: Self) {
        let mut b = [0u8; 12];
        let (h, l) = i16_to_be(cal.gyro_bias.x);
        b[0] = h;
        b[1] = l;
        let (h, l) = i16_to_be(cal.gyro_bias.y);
        b[2] = h;
        b[3] = l;
        let (h, l) = i16_to_be(cal.gyro_bias.z);
        b[4] = h;
        b[5] = l;
        let (h, l) = i16_to_be(cal.accel_offset.x);
        b[6] = h;
        b[7] = l;
        let (h, l) = i16_to_be(cal.accel_offset.y);
        b[8] = h;
        b[9] = l;
        let (h, l) = i16_to_be(cal.accel_offset.z);
        b[10] = h;
        b[11] = l;
        assert(b@ =~= encoded(*cal));
        let r = CalibrationBytes(b);
        proof {
            assert(r.0@ == encoded(*cal));
            assert(exists|c: CalibrationBytes| c.0@ == encoded(*cal));
            let c = choose|c: CalibrationBytes| c.0@ == encoded(*cal);
            assert(c.0@ == encoded(*cal));
            assert(c.0 =~= r.0);
        }
        r
    }
}

impl vstd::std_specs::convert::FromSpecImpl<CalibrationBytes> for Calibration {
    open spec fn obeys_from_spec() -> bool {
        true
    }

    /// The calibration the bytes encode.
    open spec fn from_spec(cb: CalibrationBytes) -> Calibration {
        decoded(cb.0@)
    }
}

impl From<CalibrationBytes> for Calibration {
    /// Decode the calibration the bytes hold.
    fn from(cb: CalibrationBytes) -> (cal: Self) {
        let b = cb.0;
        Calibration {
            gyro_bias: RawSample3 {
                x: i16_from_be(b[0], b[1]),
                y: i16_from_be(b[2], b[3]),
                z: i16_from_be(b[4], b[5]),
            },
            accel_offset: RawSample3 {
                x: i16_from_be(b[6], b[7]),
                y: i16_from_be(b[8], b[9]),
                z: i16_from_be(b[10], b[11]),
            },
        }
    }
}

impl CalibrationBytes {

    /// Write the record at the start of `buffer`; returns its length.
    pub fn serialize_into(&self, buffer: &mut [u8]) -> (r: Result<usize, RecordError>)
        ensures
            old(buffer)@.len() < RECORD_LEN ==> r == Err::<usize, RecordError>(RecordError::BufferTooSmall)
                && final(buffer)@ == old(buffer)@,
            old(buffer)@.len() >= RECORD_LEN ==> r == Ok::<usize, RecordError>(RECORD_LEN)
                && final(buffer)@ == self.0@ + old(buffer)@.skip(RECORD_LEN as int),
    {
        if buffer.len() < RECORD_LEN {
            return Err(RecordError::BufferTooSmall);
        }
        let mut i: usize = 0;
        while i < RECORD_LEN
            invariant
                i <= RECORD_LEN,
                buffer@.len() == old(buffer)@.len(),
                old(buffer)@.len() >= RECORD_LEN,
                forall|k: int| 0 <= k < i ==> buffer@[k] == self.0@[k],
                forall|k: int| i <= k < buffer@.len() ==> buffer@[k] == old(buffer)@[k],
            decreases RECORD_LEN - i,
        {
            buffer[i] = self.0[i];
            i += 1;
        }
        assert(buffer@ =~= self.0@ + old(buffer)@.skip(RECORD_LEN as int));
        Ok(RECORD_LEN)
    }

    /// Read a record from the start of `buffer`; returns it and its length.
    pub fn deserialize_from(buffer: &[u8]) -> (r: Result<(Self, usize), RecordError>)
        ensures
            buffer@.len() < RECORD_LEN <==> r is Err,
            r is Err ==> r == Err::<(Self, usize), RecordError>(RecordError::InvalidFormat),
            r matches Ok((rec, n)) ==> n == RECORD_LEN && rec.0@ == buffer@.take(RECORD_LEN as int),
    {
        if buffer.len() < RECORD_LEN {
            return Err(RecordError::InvalidFormat);
        }
        let mut b = [0u8; 12];
        let mut i: usize = 0;
        while i < RECORD_LEN
            invariant
                i <= RECORD_LEN,
                buffer@.len() >= RECORD_LEN,
                forall|k: int| 0 <= k < i ==> b@[k] == buffer@[k],
            decreases RECORD_LEN - i,
        {
            b[i] = buffer[i];
            i += 1;
        }
        assert(b@ =~= buffer@.take(RECORD_LEN as int));
        Ok((CalibrationBytes(b), RECORD_LEN))
    }
}

/// A stored calibration reads back as the very calibration that was stored.
pub proof fn lemma_record_roundtrip(cal: Calibration)
    ensures
        decoded(encoded(cal)) == cal,
{
    lemma_be_roundtrip(cal.gyro_bias.x);
    lemma_be_roundtrip(cal.gyro_bias.y);
    lemma_be_roundtrip(cal.gyro_bias.z);
    lemma_be_roundtrip(cal.accel_offset.x);
    lemma_be_roundtrip(cal.accel_offset.y);
    lemma_be_roundtrip(cal.accel_offset.z);
}

/// Every twelve bytes are the encoding of the calibration they decode to, so
/// re-storing a loaded record writes back the same bytes.
pub proof fn lemma_bytes_roundtrip(b: Seq<u8>)
    requires
        b.len() == RECORD_LEN,
    ensures
        encoded(decoded(b)) == b,
{
    lemma_be_bytes_roundtrip(b[0], b[1]);
    lemma_be_bytes_roundtrip(b[2], b[3]);
    lemma_be_bytes_roundtrip(b[4], b[5]);
    lemma_be_bytes_roundtrip(b[6], b[7]);
    lemma_be_bytes_roundtrip(b[8], b[9]);
    lemma_be_bytes_roundtrip(b[10], b[11]);
    assert(encoded(decoded(b)) =~= b);
}

/// A serialized record deserializes to the record that was written.
pub proof fn lemma_serialized_record_reads_back(rec: Seq<u8>, rest: Seq<u8>)
    requires
        rec.len() == RECORD_LEN,
    ensures
        (rec + rest).take(RECORD_LEN as int) == rec,
{
    assert((rec + rest).take(RECORD_LEN as int) =~= rec);
}

/// Converting a calibration to bytes and back gives the calibration itself:
/// a stored calibration loads back unchanged.
pub proof fn lemma_stored_calibration_loads_back(cal: Calibration)
    ensures
        <CalibrationBytes as vstd::std_specs::convert::FromSpec<&Calibration>>::from_spec(&cal).0@
            == encoded(cal),
        <Calibration as vstd::std_specs::convert::FromSpec<CalibrationBytes>>::from_spec(
            <CalibrationBytes as vstd::std_specs::convert::FromSpec<&Calibration>>::from_spec(&cal),
        ) == cal,
{
    let bytes = encoded(cal);
    assert(exists|c: CalibrationBytes| c.0@ == bytes) by {
        let arr = choose|arr: [u8; 12]| arr@ == bytes;
        lemma_array_with_view(bytes);
        assert(CalibrationBytes(arr).0@ == bytes);
    }
    lemma_record_roundtrip(cal);
}

/// Every twelve-byte sequence is the view of some array.
proof fn lemma_array_with_view(bytes: Seq<u8>)
    requires
        bytes.len() == 12,
    ensures
        exists|arr: [u8; 12]| arr@ == bytes,
{
    let arr = [bytes[0], bytes[1], bytes[2], bytes[3], bytes[4], bytes[5], bytes[6], bytes[7], bytes[8], bytes[9], bytes[10], bytes[11]];
    assert(arr@ =~= bytes);
}

// ---------------------------------------------------------------------------
// Page-wise writes
// ---------------------------------------------------------------------------

/// A part of a write that lies within one flash page.
#[derive(Debug, Clone, Copy, PartialEq, Eq, Structural)]
pub struct PageChunk {
    /// Flash offset of the page (a multiple of the page size).
    pub page_start: u32,
    /// Where in the page the chunk starts.
    pub page_offset: usize,
    /// Where in the data being written the chunk starts.
    pub data_start: usize,
    /// Number of bytes in the chunk.
    pub len: usize,
}

/// The chunk written next when `done` of `total` bytes have been written and
/// the next byte goes to flash offset `pos`: from `pos` to the end of its
/// page, or to the end of the data if that comes first.
pub open spec fn chunk_at(pos: u32, done: usize, total: usize) -> PageChunk {
    let page_offset = pos % FLASH_PAGE_SIZE;
    let room = FLASH_PAGE_SIZE - page_offset;
    PageChunk {
        page_start: (pos - page_offset) as u32,
        page_offset: page_offset as usize,
        data_start: done,
        len: (if room < total - done { room } else { total - done }) as usize,
    }
}

/// All the chunks still to be written, in order, when `done` of `total`
/// bytes have been written and the next byte goes to flash offset `pos`.
pub open spec fn plan_chunks(pos: u32, done: usize, total: usize) -> Seq<PageChunk>
    decreases total - done,
{
    if done >= total {
        Seq::empty()
    } else {
        let c = chunk_at(pos, done, total);
        seq![c] + plan_chunks((pos + c.len) as u32, (done + c.len) as usize, total)
    }
}

/// Splits a write of `total` bytes at a flash offset into page chunks.
pub struct PageWritePlan {
    pos: u32,
    done: usize,
    total: usize,
}

impl View for PageWritePlan {
    /// The flash offset of the next byte, the bytes written so far, and the
    /// length of the write.
    type V = (u32, usize, usize);

    closed spec fn view(&self) -> (u32, usize, usize) {
        (self.pos, self.done, self.total)
    }
}

impl PageWritePlan {
    pub closed spec fn wf(&self) -> bool {
        &&& self.done <= self.total
        &&& self.pos + (self.total - self.done) <= u32::MAX
    }

    /// A plan for writing `len` bytes at flash offset `offset`.
    pub fn new(offset: u32, len: usize) -> (p: Self)
        requires
            offset + len <= u32::MAX,
        ensures
            p.wf(),
            p@ == (offset, 0usize, len),
    {
        PageWritePlan { pos: offset, done: 0, total: len }
    }

    /// The next chunk to write, if any bytes are left.
    pub fn next_chunk(&mut self) -> (c: Option<PageChunk>)
        requires
            old(self).wf(),
        ensures
            final(self).wf(),
            old(self)@.1 == old(self)@.2 ==> c is None && final(self)@ == old(self)@,
            old(self)@.1 < old(self)@.2 ==> c == Some(chunk_at(old(self)@.0, old(self)@.1, old(self)@.2))
                && final(self)@ == (
                    (old(self)@.0 + chunk_at(old(self)@.0, old(self)@.1, old(self)@.2).len) as u32,
                    (old(self)@.1 + chunk_at(old(self)@.0, old(self)@.1, old(self)@.2).len) as usize,
                    old(self)@.2,
                ),
            c is None ==> plan_chunks(old(self)@.0, old(self)@.1, old(self)@.2) == Seq::<PageChunk>::empty(),
            c matches Some(ch) ==> plan_chunks(old(self)@.0, old(self)@.1, old(self)@.2) == seq![ch]
                + plan_chunks(final(self)@.0, final(self)@.1, final(self)@.2),
    {
        if self.done == self.total {
            return None;
        }
        let page_start = self.pos - (self.pos % FLASH_PAGE_SIZE);
        let page_offset = (self.pos - page_start) as usize;
        let room = FLASH_PAGE_SIZE as usize - page_offset;
        let remaining = self.total - self.done;
        let chunk_len = if room < remaining { room } else { remaining };
        let c = PageChunk { page_start, page_offset, data_start: self.done, len: chunk_len };
        self.pos = self.pos + chunk_len as u32;
        self.done = self.done + chunk_len;
        Some(c)
    }
}

/// Each chunk is non-empty, starts where the previous one ended, and lies
/// within a single page.
pub proof fn lemma_chunk_within_one_page(pos: u32, done: usize, total: usize)
    requires
        done < total,
    ensures
        ({
            let c = chunk_at(pos, done, total);
            &&& c.len >= 1
            &&& c.data_start == done
            &&& c.page_start % FLASH_PAGE_SIZE == 0
            &&& c.page_start + c.page_offset == pos
            &&& c.page_offset + c.len <= FLASH_PAGE_SIZE
            &&& c.data_start + c.len <= total
        }),
{
    let r = pos % FLASH_PAGE_SIZE;
    assert((pos - r) % 256 == 0) by {
        vstd::arithmetic::div_mod::lemma_fundamental_div_mod(pos as int, 256);
        vstd::arithmetic::div_mod::lemma_mod_multiples_basic(pos as int / 256, 256);
    }
}

/// The chunks of one write cover exactly the bytes written: the first starts
/// at the first byte, each starts where the previous one ended, the last ends
/// at the last byte, and each lies at its byte's place in flash within one
/// page. Every chunk but the last fills its page to the end, so the next one
/// starts at the next page: each page is touched once.
pub proof fn lemma_plan_covers_write(pos: u32, done: usize, total: usize)
    requires
        done <= total,
        pos + (total - done) <= u32::MAX,
    ensures
        ({
            let cs = plan_chunks(pos, done, total);
            &&& (cs.len() == 0) == (done == total)
            &&& cs.len() > 0 ==> cs[0].data_start == done && cs.last().data_start + cs.last().len == total
            &&& forall|i: int|
                0 <= i < cs.len() ==> {
                    &&& #[trigger] cs[i].len >= 1
                    &&& cs[i].page_offset + cs[i].len <= FLASH_PAGE_SIZE
                    &&& cs[i].page_start % FLASH_PAGE_SIZE == 0
                    &&& cs[i].page_start + cs[i].page_offset == pos + (cs[i].data_start - done)
                    &&& done <= cs[i].data_start
                    &&& cs[i].data_start + cs[i].len <= total
                }
            &&& forall|i: int|
                0 <= i < cs.len() - 1 ==> {
                    &&& #[trigger] cs[i + 1].data_start == cs[i].data_start + cs[i].len
                    &&& cs[i + 1].page_start == cs[i].page_start + FLASH_PAGE_SIZE
                    &&& cs[i + 1].page_offset == 0
                }
        }),
    decreases total - done,
{
    if done < total {
        let c = chunk_at(pos, done, total);
        lemma_chunk_within_one_page(pos, done, total);
        let pos2 = (pos + c.len) as u32;
        let done2 = (done + c.len) as usize;
        lemma_plan_covers_write(pos2, done2, total);
        let rest = plan_chunks(pos2, done2, total);
        let cs = plan_chunks(pos, done, total);
        assert(cs == seq![c] + rest);
        if rest.len() > 0 {
            assert(cs.last() == rest.last());
        }
        assert forall|i: int| 0 <= i < cs.len() - 1 implies #[trigger] cs[i + 1].data_start == cs[i].data_start
            + cs[i].len && cs[i + 1].page_start == cs[i].page_start + FLASH_PAGE_SIZE && cs[i + 1].page_offset
            == 0 by {
            if i > 0 {
                assert(cs[i] == rest[i - 1]);
                assert(cs[i + 1] == rest[i]);
                let j = i - 1;
                assert(rest[j + 1].data_start == rest[j].data_start + rest[j].len);
            } else {
                assert(cs[0] == c);
                // the first chunk filled its page, so the next starts a page
                assert(c.len == FLASH_PAGE_SIZE - c.page_offset);
                assert(pos2 == c.page_start + 256);
                assert(pos2 % 256 == 0) by {
                    vstd::arithmetic::div_mod::lemma_fundamental_div_mod(c.page_start as int, 256);
                    vstd::arithmetic::div_mod::lemma_mod_multiples_basic(c.page_start as int / 256 + 1, 256);
                    assert((c.page_start as int / 256 + 1) * 256 == c.page_start + 256) by (nonlinear_arith)
                        requires
                            c.page_start == 256 * (c.page_start as int / 256) + c.page_start as int % 256,
                            c.page_start as int % 256 == 0,
                    ;
                }
                assert(rest[0] == chunk_at(pos2, done2, total));
                assert(cs[1] == rest[0]);
            }
        }
        assert forall|i: int| 0 <= i < cs.len() implies {
            &&& #[trigger] cs[i].len >= 1
            &&& cs[i].page_offset + cs[i].len <= FLASH_PAGE_SIZE
            &&& cs[i].page_start % FLASH_PAGE_SIZE == 0
            &&& cs[i].page_start + cs[i].page_offset == pos + (cs[i].data_start - done)
            &&& done <= cs[i].data_start
            &&& cs[i].data_start + cs[i].len <= total
        } by {
            if i > 0 {
                assert(cs[i] == rest[i - 1]);
            }
        }
    }
}

/// Overlay a chunk of `data` onto the page buffer at its place in the page,
/// leaving the rest of the page as it was.
pub fn overlay_chunk(page: &mut [u8; 256], chunk: &PageChunk, data: &[u8])
    requires
        chunk.page_offset + chunk.len <= 256,
        chunk.data_start + chunk.len <= data@.len(),
    ensures
        final(page)@ == old(page)@.take(chunk.page_offset as int) + data@.subrange(
            chunk.data_start as int,
            chunk.data_start + chunk.len,
        ) + old(page)@.skip(chunk.page_offset + chunk.len),
{
    let data_len = data.len();
    let mut i: usize = 0;
    while i < chunk.len
        invariant
            data_len == data@.len(),
            i <= chunk.len,
            chunk.page_offset + chunk.len <= 256,
            chunk.data_start + chunk.len <= data@.len(),
            page@.len() == 256,
            forall|k: int| 0 <= k < chunk.page_offset ==> page@[k] == old(page)@[k],
            forall|k: int|
                chunk.page_offset <= k < chunk.page_offset + i ==> #[trigger] page@[k] == data@[chunk.data_start
                    + (k - chunk.page_offset)],
            forall|k: int| chunk.page_offset + i <= k < 256 ==> page@[k] == old(page)@[k],
        decreases chunk.len - i,
    {
        page[chunk.page_offset + i] = data[chunk.data_start + i];
        i += 1;
    }
    assert(page@ =~= old(page)@.take(chunk.page_offset as int) + data@.subrange(
        chunk.data_start as int,
        chunk.data_start + chunk.len,
    ) + old(page)@.skip(chunk.page_offset + chunk.len));
}

} // verus!
