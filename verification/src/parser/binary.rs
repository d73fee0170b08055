//! Decoder for the compact binary solid encoding.
//!
//! Little-endian, fixed layout: an 80-byte header (ignored), a 4-byte
//! unsigned facet count, then that many 50-byte records (four vectors of
//! three binary32 components each, then a 2-byte attribute count, ignored).
//! The decoder reads in chunks sized to the largest byte count below a target
//! ceiling that divides evenly by the record size, so no record ever spans a
//! chunk boundary.

use vstd::prelude::*;
use vstd::arithmetic::div_mod::lemma_fundamental_div_mod;
use crate::coordinate::Coordinate;
use crate::facet::Facet;
use crate::solid::Solid;

verus! {

/// Bytes of one facet record: 4 vectors of 3 components of 4 bytes, plus the
/// 2-byte attribute byte count.
pub const FACET_SIZE: usize = 4 * 3 * 4 + 2;

/// Target ceiling for one read, matching a well-known streaming chunk size.
pub const MAX_CHUNK_SIZE: usize = 5 * 1024;

/// The largest byte count not above the ceiling that holds whole records.
pub const CHUNK_SIZE: usize = MAX_CHUNK_SIZE - MAX_CHUNK_SIZE % FACET_SIZE;

/// Whole facet records per full chunk.
pub const FACETS_PER_CHUNK: usize = CHUNK_SIZE / FACET_SIZE;

/// What the binary decoder can fail with. Only the `IO` case is ever
/// produced here: the facet-count field and the records themselves always
/// decode once the right number of bytes has been read, but the distinct
/// cases are kept as a defensive part of the vocabulary.
#[derive(Debug)]
pub enum SolidError {
    IO(std::io::Error),
    UnparsableAttributeByteCount,
    UnparsableNumFacets,
    UnparsableFacet,
}

/// Returns how many full chunks cover the facet payload of a file with the
/// given facet count, and how many bytes are left for one final short read.
pub fn chunks_to_process(num_facets: usize) -> (r: (usize, usize))
    requires
        num_facets * FACET_SIZE <= usize::MAX,
    ensures
        r.0 == (num_facets * FACET_SIZE) as int / CHUNK_SIZE as int,
        r.1 == (num_facets * FACET_SIZE) as int % CHUNK_SIZE as int,
{
    let total_size = num_facets * FACET_SIZE;
    let num_chunks = total_size / CHUNK_SIZE;
    let last_chunk_size = total_size % CHUNK_SIZE;
    (num_chunks, last_chunk_size)
}

/// The little-endian 32-bit number stored at `off`.
pub open spec fn le_u32_at(s: Seq<u8>, off: int) -> u32 {
    (s[off] + s[off + 1] * 0x100 + s[off + 2] * 0x1_0000 + s[off + 3] * 0x100_0000) as u32
}

/// The coordinate whose three components are stored at `off`.
pub open spec fn coord_at(s: Seq<u8>, off: int) -> Coordinate {
    Coordinate { x: le_u32_at(s, off), y: le_u32_at(s, off + 4), z: le_u32_at(s, off + 8) }
}

/// The facet whose record is stored at `off`: normal, then three vertices;
/// the trailing attribute byte count is ignored.
pub open spec fn facet_at(s: Seq<u8>, off: int) -> Facet {
    Facet {
        normal_vector: (le_u32_at(s, off), le_u32_at(s, off + 4), le_u32_at(s, off + 8)),
        vertices: (coord_at(s, off + 12), coord_at(s, off + 24), coord_at(s, off + 36)),
    }
}

/// The first `k` facet records stored from `base` on, in file order.
pub open spec fn facets_at(s: Seq<u8>, base: int, k: int) -> Seq<Facet>
    decreases k,
{
    if k <= 0 {
        Seq::empty()
    } else {
        facets_at(s, base, k - 1).push(facet_at(s, base + (k - 1) * (FACET_SIZE as int)))
    }
}

/// The values of the three derived record constants, by one division.
proof fn lemma_chunk_consts()
    ensures
        FACET_SIZE == 50,
        CHUNK_SIZE == 5100,
        FACETS_PER_CHUNK == 102,
{
    vstd::arithmetic::div_mod::lemma_fundamental_div_mod_converse(5120, 50, 102, 20);
    vstd::arithmetic::div_mod::lemma_fundamental_div_mod_converse(5100, 50, 102, 0);
}

/// The facet count declared in the stream's 4-byte count field.
pub open spec fn num_facets_of(s: Seq<u8>) -> int {
    le_u32_at(s, 80) as int
}

/// A blocking source of bytes: the decoder's only demand on its input. The
/// `stream` view is what is left to be read. A read may fail at any time
/// (as a device might), but when it succeeds it hands back exactly the next
/// `n` bytes of the stream.
pub trait ByteSource {
    /// The bytes not yet consumed.
    spec fn stream(&self) -> Seq<u8>;

    /// Reads exactly `n` bytes or fails.
    fn read_exact(&mut self, n: usize) -> (r: Result<Vec<u8>, std::io::Error>)
        ensures
            match r {
                Ok(buf) => {
                    &&& n <= old(self).stream().len()
                    &&& buf@ == old(self).stream().take(n as int)
                    &&& final(self).stream() == old(self).stream().skip(n as int)
                },
                Err(_) => true,
            },
    ;
}

/// Relies on `std::io::Error::from` applied to
/// `std::io::ErrorKind::UnexpectedEof`, to report a read that could not fill
/// the requested byte count.
#[verifier::external_body]
fn eof_error() -> std::io::Error {
    std::io::Error::from(std::io::ErrorKind::UnexpectedEof)
}

/// An in-memory byte source over a buffer, read from front to back.
pub struct MemSource {
    bytes: Vec<u8>,
    pos: usize,
}

impl MemSource {
    /// Wraps a buffer as a byte source positioned at its start.
    pub fn new(bytes: Vec<u8>) -> (r: MemSource)
        ensures
            r.stream() == bytes@,
    {
        let r = MemSource { bytes, pos: 0 };
        proof {
            assert(r.stream() =~= r.bytes@);
        }
        r
    }
}

impl ByteSource for MemSource {
    closed spec fn stream(&self) -> Seq<u8> {
        if self.pos <= self.bytes@.len() {
            self.bytes@.skip(self.pos as int)
        } else {
            Seq::empty()
        }
    }

    fn read_exact(&mut self, n: usize) -> (r: Result<Vec<u8>, std::io::Error>) {
        if self.pos <= self.bytes.len() && n <= self.bytes.len() - self.pos {
            let mut out: Vec<u8> = Vec::new();
            let mut i: usize = 0;
            while i < n
                invariant
                    i <= n,
                    self == old(self),
                    self.pos + n <= self.bytes@.len(),
                    self.pos + n <= usize::MAX,
                    out@ == self.bytes@.subrange(self.pos as int, self.pos + i),
                decreases n - i,
            {
                out.push(self.bytes[self.pos + i]);
                proof {
                    assert(out@ =~= self.bytes@.subrange(self.pos as int, self.pos + i + 1));
                }
                i = i + 1;
            }
            proof {
                assert(out@ =~= old(self).stream().take(n as int));
                assert(self.bytes@.skip(self.pos + n) =~= old(self).stream().skip(n as int));
            }
            self.pos = self.pos + n;
            Ok(out)
        } else {
            Err(eof_error())
        }
    }
}

fn le_u32_from(buf: &Vec<u8>, off: usize) -> (r: u32)
    requires
        off + 4 <= buf@.len(),
    ensures
        r == le_u32_at(buf@, off as int),
{
    let _buf_len: usize = buf.len();
    (buf[off] as u32) + (buf[off + 1] as u32) * 0x100 + (buf[off + 2] as u32) * 0x1_0000 + (buf[off
        + 3] as u32) * 0x100_0000
}

fn coord_from(buf: &Vec<u8>, off: usize) -> (r: Coordinate)
    requires
        off + 12 <= buf@.len(),
    ensures
        r == coord_at(buf@, off as int),
{
    let _buf_len: usize = buf.len();
    Coordinate {
        x: le_u32_from(buf, off),
        y: le_u32_from(buf, off + 4),
        z: le_u32_from(buf, off + 8),
    }
}

fn facet_from(buf: &Vec<u8>, off: usize) -> (r: Facet)
    requires
        off + 48 <= buf@.len(),
    ensures
        r == facet_at(buf@, off as int),
{
    let _buf_len: usize = buf.len();
    Facet {
        normal_vector: (le_u32_from(buf, off), le_u32_from(buf, off + 4), le_u32_from(buf, off + 8)),
        vertices: (coord_from(buf, off + 12), coord_from(buf, off + 24), coord_from(buf, off + 36)),
    }
}

/// A facet record read through a window equals the record read in place.
#[verifier::rlimit(100)]
proof fn lemma_facet_at_window(s: Seq<u8>, base: int, wlen: int, j: int)
    requires
        0 <= base,
        0 <= j,
        j + 48 <= wlen,
        base + wlen <= s.len(),
    ensures
        facet_at(s.subrange(base, base + wlen), j) == facet_at(s, base + j),
{
    let w = s.subrange(base, base + wlen);
    assert forall|k: int| 0 <= k < wlen implies w[k] == s[base + k] by {}
}

/// Decodes a solid from a byte source holding the binary encoding. On
/// success the result holds no name and exactly the facet records that the
/// stream's count field declares, in file order; every failure is an `IO`
/// failure, and a stream too short for its declared count always fails.
#[verifier::loop_isolation(false)]
#[verifier::rlimit(60)]
pub fn solid<S: ByteSource>(source: &mut S) -> (r: Result<Solid, SolidError>)
    ensures
        match r {
            Ok(s) => {
                let st = old(source).stream();
                &&& st.len() >= 84
                &&& 84 + num_facets_of(st) * (FACET_SIZE as int) <= st.len()
                &&& s.name is None
                &&& s.facets@.len() == num_facets_of(st)
                &&& s.facets@ == facets_at(st, 84, num_facets_of(st))
            },
            Err(e) => e is IO,
        },
{
    let ghost st = source.stream();
    proof {
        lemma_chunk_consts();
    }
    let _header = match source.read_exact(80) {
        Ok(b) => b,
        Err(e) => {
            return Err(SolidError::IO(e));
        },
    };
    let count_buf = match source.read_exact(4) {
        Ok(b) => b,
        Err(e) => {
            return Err(SolidError::IO(e));
        },
    };
    proof {
        vstd::seq_lib::lemma_seq_skip_of_skip(st, 80, 4);
        assert(count_buf@ =~= st.subrange(80, 84));
        assert(source.stream() =~= st.skip(84));
        assert(le_u32_at(count_buf@, 0) == le_u32_at(st, 80));
    }
    let num_facets = le_u32_from(&count_buf, 0);
    let ghost nf = num_facets as int;
    let total: u64 = (num_facets as u64) * (FACET_SIZE as u64);
    let num_chunks: u64 = total / (CHUNK_SIZE as u64);
    let last_chunk_size: u64 = total % (CHUNK_SIZE as u64);
    proof {
        lemma_fundamental_div_mod(total as int, CHUNK_SIZE as int);
    }
    let ghost full_facets = num_chunks as int * (FACETS_PER_CHUNK as int);
    let ghost rem_facets = last_chunk_size as int / (FACET_SIZE as int);
    proof {
        assert(num_chunks as int * 5100 == full_facets * 50) by (nonlinear_arith)
            requires
                full_facets == num_chunks as int * 102,
        ;
        assert(last_chunk_size as int == (nf - full_facets) * 50) by (nonlinear_arith)
            requires
                total as int == nf * 50,
                total as int == 5100 * (num_chunks as int) + last_chunk_size,
                num_chunks as int * 5100 == full_facets * 50,
        ;
        assert(nf - full_facets >= 0) by (nonlinear_arith)
            requires
                last_chunk_size as int == (nf - full_facets) * 50,
                last_chunk_size as int >= 0,
        ;
        vstd::arithmetic::div_mod::lemma_div_by_multiple(nf - full_facets, 50);
        assert(rem_facets == nf - full_facets);
    }
    let mut all_facets: Vec<Facet> = Vec::new();
    let mut ck: u64 = 0;
    while ck < num_chunks
        invariant
            ck <= num_chunks,
            num_chunks as int * 5100 <= total,
            total == nf * 50,
            nf <= 0xFFFF_FFFF,
            84 + ck * 5100 <= st.len(),
            source.stream() =~= st.skip(84 + ck * 5100),
            all_facets@.len() == ck * 102,
            all_facets@ == facets_at(st, 84, ck * 102),
        decreases num_chunks - ck,
    {
        let chunk = match source.read_exact(CHUNK_SIZE) {
            Ok(b) => b,
            Err(e) => {
                return Err(SolidError::IO(e));
            },
        };
        proof {
            let m = 84 + ck * 5100;
            assert(5100 <= st.skip(m).len());
            assert(source.stream() == st.skip(m).skip(5100));
            vstd::seq_lib::lemma_seq_skip_of_skip(st, m, 5100);
            assert(st.skip(m).skip(5100) =~= st.skip(m + 5100));
            assert(m + 5100 == 84 + (ck + 1) * 5100);
            assert(source.stream() =~= st.skip(84 + (ck + 1) * 5100));
            assert(chunk@ == st.skip(m).take(5100));
            assert forall|j: int| 0 <= j < 5100 implies chunk@[j] == st[m + j] by {}
            assert(chunk@ =~= st.subrange(84 + ck * 5100, 84 + (ck + 1) * 5100));
        }
        let mut i: usize = 0;
        while i < FACETS_PER_CHUNK
            invariant
                i <= 102,
                84 + (ck + 1) * 5100 <= st.len(),
                chunk@ =~= st.subrange(84 + ck * 5100, 84 + (ck + 1) * 5100),
                chunk@.len() == 5100,
                all_facets@.len() == ck * 102 + i,
                all_facets@ == facets_at(st, 84, ck * 102 + i),
            decreases 102 - i,
        {
            let f = facet_from(&chunk, i * 50);
            proof {
                lemma_facet_at_window(st, 84 + ck * 5100, 5100, i * 50);
                assert(84 + ck * 5100 + i * 50 == 84 + (ck * 102 + i) * 50) by (nonlinear_arith);
            }
            all_facets.push(f);
            i = i + 1;
        }
        proof {
            assert(ck * 102 + 102 == (ck + 1) * 102) by (nonlinear_arith);
        }
        ck = ck + 1;
    }
    if last_chunk_size > 0 {
        let chunk = match source.read_exact(last_chunk_size as usize) {
            Ok(b) => b,
            Err(e) => {
                return Err(SolidError::IO(e));
            },
        };
        proof {
            assert(chunk@ =~= st.subrange(
                84 + num_chunks as int * 5100,
                84 + num_chunks as int * 5100 + last_chunk_size,
            ));
        }
        let rem_count: usize = (last_chunk_size as usize) / FACET_SIZE;
        let mut i: usize = 0;
        while i < rem_count
            invariant
                i <= rem_count,
                rem_count == rem_facets,
                rem_count <= 102,
                rem_facets * 50 == last_chunk_size,
                last_chunk_size < 5100,
                84 + num_chunks as int * 5100 + last_chunk_size <= st.len(),
                chunk@ =~= st.subrange(
                    84 + num_chunks as int * 5100,
                    84 + num_chunks as int * 5100 + last_chunk_size,
                ),
                chunk@.len() == last_chunk_size,
                full_facets == num_chunks as int * 102,
                all_facets@.len() == full_facets + i,
                all_facets@ == facets_at(st, 84, full_facets + i),
            decreases rem_count - i,
        {
            proof {
                assert((i + 1) * 50 <= rem_facets * 50) by (nonlinear_arith)
                    requires
                        i < rem_facets,
                ;
            }
            let f = facet_from(&chunk, i * 50);
            proof {
                lemma_facet_at_window(st, 84 + num_chunks as int * 5100, last_chunk_size as int, i
                    * 50);
                assert(84 + num_chunks as int * 5100 + i * 50 == 84 + (full_facets + i) * 50)
                    by (nonlinear_arith)
                    requires
                        num_chunks as int * 5100 == full_facets * 50,
                ;
            }
            all_facets.push(f);
            i = i + 1;
        }
        proof {
            assert(all_facets@ == facets_at(st, 84, nf));
            assert(84 + nf * 50 <= st.len()) by (nonlinear_arith)
                requires
                    84 + num_chunks as int * 5100 + last_chunk_size <= st.len(),
                    num_chunks as int * 5100 == full_facets * 50,
                    rem_facets * 50 == last_chunk_size,
                    nf == full_facets + rem_facets,
            ;
        }
    } else {
        proof {
            assert(nf == full_facets);
            assert(84 + nf * 50 <= st.len()) by (nonlinear_arith)
                requires
                    84 + num_chunks as int * 5100 <= st.len(),
                    num_chunks as int * 5100 == full_facets * 50,
                    nf == full_facets,
            ;
        }
    }
    Ok(Solid { name: None, facets: all_facets })
}

/// A stream whose length cannot cover the declared facet count never
/// decodes: the result is a failure, and it is an `IO` failure.
pub proof fn lemma_short_stream_fails<S: ByteSource>(
    pre: S,
    r: Result<Solid, SolidError>,
)
    requires
        pre.stream().len() < 84 + num_facets_of(pre.stream()) * (FACET_SIZE as int) || pre.stream().len() < 84,
        match r {
            Ok(s) => {
                let st = pre.stream();
                &&& st.len() >= 84
                &&& 84 + num_facets_of(st) * (FACET_SIZE as int) <= st.len()
                &&& s.name is None
                &&& s.facets@.len() == num_facets_of(st)
                &&& s.facets@ == facets_at(st, 84, num_facets_of(st))
            },
            Err(e) => e is IO,
        },
    ensures
        r is Err,
        r matches Err(e) && e is IO,
{
}


/// Byte `k` of the little-endian encoding of a 32-bit number.
pub open spec fn le_byte(v: u32, k: int) -> u8 {
    if k == 0 {
        (v as int % 0x100) as u8
    } else if k == 1 {
        (v as int / 0x100 % 0x100) as u8
    } else if k == 2 {
        (v as int / 0x1_0000 % 0x100) as u8
    } else {
        (v as int / 0x100_0000 % 0x100) as u8
    }
}

/// The four little-endian bytes of a 32-bit number.
pub open spec fn le_bytes_of(v: u32) -> Seq<u8> {
    seq![le_byte(v, 0), le_byte(v, 1), le_byte(v, 2), le_byte(v, 3)]
}

/// Byte `j` of a facet's 50-byte record: the twelve components in order,
/// then the zeroed attribute byte count.
pub open spec fn record_byte(f: Facet, j: int) -> u8 {
    if j < 4 {
        le_byte(f.normal_vector.0, j)
    } else if j < 8 {
        le_byte(f.normal_vector.1, j - 4)
    } else if j < 12 {
        le_byte(f.normal_vector.2, j - 8)
    } else if j < 16 {
        le_byte(f.vertices.0.x, j - 12)
    } else if j < 20 {
        le_byte(f.vertices.0.y, j - 16)
    } else if j < 24 {
        le_byte(f.vertices.0.z, j - 20)
    } else if j < 28 {
        le_byte(f.vertices.1.x, j - 24)
    } else if j < 32 {
        le_byte(f.vertices.1.y, j - 28)
    } else if j < 36 {
        le_byte(f.vertices.1.z, j - 32)
    } else if j < 40 {
        le_byte(f.vertices.2.x, j - 36)
    } else if j < 44 {
        le_byte(f.vertices.2.y, j - 40)
    } else if j < 48 {
        le_byte(f.vertices.2.z, j - 44)
    } else {
        0u8
    }
}

/// The 50-byte record of one facet, with a zeroed attribute byte count.
pub open spec fn record_of(f: Facet) -> Seq<u8> {
    Seq::new(50, |j: int| record_byte(f, j))
}

/// The records of the first `k` facets, in order.
pub open spec fn records_of(fs: Seq<Facet>, k: int) -> Seq<u8>
    decreases k,
{
    if k <= 0 {
        Seq::empty()
    } else {
        records_of(fs, k - 1) + record_of(fs[k - 1])
    }
}

/// A whole binary encoding of a facet sequence: a zeroed header, the count
/// field, then one record per facet.
pub open spec fn encode_solid(fs: Seq<Facet>) -> Seq<u8> {
    Seq::new(80, |i: int| 0u8) + le_bytes_of(fs.len() as u32) + records_of(fs, fs.len() as int)
}

/// Reading back the four little-endian bytes of a number gives the number.
proof fn lemma_le_bytes_val(v: u32)
    ensures
        le_u32_at(le_bytes_of(v), 0) == v,
{
    let x = v as int;
    vstd::arithmetic::div_mod::lemma_fundamental_div_mod(x, 0x100);
    vstd::arithmetic::div_mod::lemma_fundamental_div_mod(x / 0x100, 0x100);
    vstd::arithmetic::div_mod::lemma_fundamental_div_mod(x / 0x100 / 0x100, 0x100);
    vstd::arithmetic::div_mod::lemma_div_denominator(x, 0x100, 0x100);
    vstd::arithmetic::div_mod::lemma_div_denominator(x, 0x1_0000, 0x100);
    vstd::arithmetic::div_mod::lemma_fundamental_div_mod(x, 0x100_0000);
    assert(x / 0x100_0000 < 0x100) by (nonlinear_arith)
        requires
            0 <= x < 0x1_0000_0000,
            x == 0x100_0000 * (x / 0x100_0000) + x % 0x100_0000,
            0 <= x % 0x100_0000,
    ;
    vstd::arithmetic::div_mod::lemma_small_mod((x / 0x100_0000) as nat, 0x100);
}

/// Four little-endian bytes of `v` found anywhere read back as `v`.
proof fn lemma_le4(s: Seq<u8>, o: int, v: u32)
    requires
        0 <= o,
        o + 4 <= s.len(),
        s[o] == le_byte(v, 0),
        s[o + 1] == le_byte(v, 1),
        s[o + 2] == le_byte(v, 2),
        s[o + 3] == le_byte(v, 3),
    ensures
        le_u32_at(s, o) == v,
{
    lemma_le_bytes_val(v);
}

/// The record block of `k` facets holds `50 k` bytes.
proof fn lemma_records_len(fs: Seq<Facet>, k: int)
    ensures
        records_of(fs, k).len() == if k <= 0 {
            0int
        } else {
            k * 50
        },
    decreases k,
{
    if k > 0 {
        lemma_records_len(fs, k - 1);
        assert(record_of(fs[k - 1]).len() == 50);
    }
}

/// Within the record block, facet `k` occupies bytes `50 k` on.
proof fn lemma_records_index(fs: Seq<Facet>, n: int, k: int)
    requires
        0 <= k < n,
    ensures
        forall|j: int| 0 <= j < 50 ==> records_of(fs, n)[k * 50 + j] == record_of(fs[k])[j],
    decreases n,
{
    lemma_records_len(fs, n - 1);
    assert(record_of(fs[n - 1]).len() == 50);
    if k == n - 1 {
        assert forall|j: int| 0 <= j < 50 implies records_of(fs, n)[k * 50 + j] == record_of(
            fs[k],
        )[j] by {
            assert(records_of(fs, n) == records_of(fs, n - 1) + record_of(fs[n - 1]));
        }
    } else {
        lemma_records_index(fs, n - 1, k);
        assert forall|j: int| 0 <= j < 50 implies records_of(fs, n)[k * 50 + j] == record_of(
            fs[k],
        )[j] by {
            assert(k * 50 + j < (n - 1) * 50) by (nonlinear_arith)
                requires
                    0 <= j < 50,
                    k < n - 1,
            ;
            assert(records_of(fs, n) == records_of(fs, n - 1) + record_of(fs[n - 1]));
        }
    }
}

/// Each field read from a facet's record is the field it was built from.
#[verifier::rlimit(100)]
proof fn lemma_record_fields(f: Facet)
    ensures
        le_u32_at(record_of(f), 0) == f.normal_vector.0,
        le_u32_at(record_of(f), 4) == f.normal_vector.1,
        le_u32_at(record_of(f), 8) == f.normal_vector.2,
        le_u32_at(record_of(f), 12) == f.vertices.0.x,
        le_u32_at(record_of(f), 16) == f.vertices.0.y,
        le_u32_at(record_of(f), 20) == f.vertices.0.z,
        le_u32_at(record_of(f), 24) == f.vertices.1.x,
        le_u32_at(record_of(f), 28) == f.vertices.1.y,
        le_u32_at(record_of(f), 32) == f.vertices.1.z,
        le_u32_at(record_of(f), 36) == f.vertices.2.x,
        le_u32_at(record_of(f), 40) == f.vertices.2.y,
        le_u32_at(record_of(f), 44) == f.vertices.2.z,
{
    let w = record_of(f);
    lemma_le4(w, 0, f.normal_vector.0);
    lemma_le4(w, 4, f.normal_vector.1);
    lemma_le4(w, 8, f.normal_vector.2);
    lemma_le4(w, 12, f.vertices.0.x);
    lemma_le4(w, 16, f.vertices.0.y);
    lemma_le4(w, 20, f.vertices.0.z);
    lemma_le4(w, 24, f.vertices.1.x);
    lemma_le4(w, 28, f.vertices.1.y);
    lemma_le4(w, 32, f.vertices.1.z);
    lemma_le4(w, 36, f.vertices.2.x);
    lemma_le4(w, 40, f.vertices.2.y);
    lemma_le4(w, 44, f.vertices.2.z);
}

/// The decoded prefix of an encoding is the encoded prefix.
#[verifier::rlimit(100)]
proof fn lemma_facets_at_encode(fs: Seq<Facet>, k: int)
    requires
        fs.len() < 0x1_0000_0000,
        0 <= k <= fs.len(),
    ensures
        facets_at(encode_solid(fs), 84, k) == fs.take(k),
    decreases k,
{
    lemma_chunk_consts();
    let bytes = encode_solid(fs);
    if k == 0 {
        assert(facets_at(bytes, 84, 0) =~= fs.take(0));
    } else {
        lemma_facets_at_encode(fs, k - 1);
        lemma_records_len(fs, fs.len() as int);
        lemma_records_index(fs, fs.len() as int, k - 1);
        lemma_record_fields(fs[k - 1]);
        let off = 84 + (k - 1) * 50;
        assert forall|j: int| 0 <= j < 50 implies #[trigger] bytes[off + j] == record_of(fs[k - 1])[j] by {
            assert((k - 1) * 50 + j < records_of(fs, fs.len() as int).len()) by (nonlinear_arith)
                requires
                    0 <= j < 50,
                    0 <= k - 1 < fs.len(),
                    records_of(fs, fs.len() as int).len() == fs.len() * 50,
            ;
        }
        assert(facet_at(bytes, off) == fs[k - 1]);
        assert(fs.take(k) =~= fs.take(k - 1).push(fs[k - 1]));
    }
}

/// Round trip: re-encoding a decoded facet sequence reproduces its facet
/// count and, decoded again, the very same facets, so the analysis of the
/// re-decoded solid is the analysis of the first.
pub proof fn lemma_encode_decode(fs: Seq<Facet>)
    requires
        fs.len() < 0x1_0000_0000,
    ensures
        ({
            let bytes = encode_solid(fs);
            &&& bytes.len() == 84 + fs.len() * 50
            &&& num_facets_of(bytes) == fs.len()
            &&& facets_at(bytes, 84, fs.len() as int) == fs
        }),
{
    let bytes = encode_solid(fs);
    lemma_records_len(fs, fs.len() as int);
    lemma_le_bytes_val(fs.len() as u32);
    let cnt = le_bytes_of(fs.len() as u32);
    assert(bytes[80] == cnt[0] && bytes[81] == cnt[1] && bytes[82] == cnt[2] && bytes[83] == cnt[3]);
    assert(num_facets_of(bytes) == fs.len());
    lemma_facets_at_encode(fs, fs.len() as int);
    assert(fs.take(fs.len() as int) =~= fs);
}

} // verus!
