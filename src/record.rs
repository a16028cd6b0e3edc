use vstd::prelude::*;

verus! {

/// One record of a point file: latitude, then longitude, each as the bit
/// pattern of a single-precision float.
#[derive(Clone, Copy, Debug, PartialEq, Eq, Structural)]
pub struct PointRecord {
    pub latitude_bits: u32,
    pub longitude_bits: u32,
}

/// Size of one record in bytes.
pub const RECORD_LEN: usize = 8;

/// The four little-endian bytes of `x`.
pub open spec fn le_bytes(x: u32) -> Seq<u8> {
    seq![
        (x & 0xff) as u8,
        ((x >> 8u32) & 0xff) as u8,
        ((x >> 16u32) & 0xff) as u8,
        ((x >> 24u32) & 0xff) as u8,
    ]
}

/// The integer whose little-endian bytes are `b0`, `b1`, `b2`, `b3`.
pub open spec fn le_value(b0: u8, b1: u8, b2: u8, b3: u8) -> u32 {
    (b0 as u32) | ((b1 as u32) << 8u32) | ((b2 as u32) << 16u32) | ((b3 as u32) << 24u32)
}

/// The bytes of one record.
pub open spec fn record_bytes(r: PointRecord) -> Seq<u8> {
    le_bytes(r.latitude_bits) + le_bytes(r.longitude_bits)
}

/// The bytes of a point file holding `records`, in order, with no header.
pub open spec fn file_bytes(records: Seq<PointRecord>) -> Seq<u8>
    decreases records.len(),
{
    if records.len() == 0 {
        Seq::empty()
    } else {
        file_bytes(records.drop_last()) + record_bytes(records.last())
    }
}

/// The record stored at bytes `8 * i .. 8 * i + 8` of `bytes`.
pub open spec fn record_at(bytes: Seq<u8>, i: int) -> PointRecord {
    let k = 8 * i;
    PointRecord {
        latitude_bits: le_value(bytes[k], bytes[k + 1], bytes[k + 2], bytes[k + 3]),
        longitude_bits: le_value(bytes[k + 4], bytes[k + 5], bytes[k + 6], bytes[k + 7]),
    }
}

/// The records of a point file; its length alone gives their count.
pub open spec fn file_records(bytes: Seq<u8>) -> Seq<PointRecord> {
    Seq::new((bytes.len() / 8) as nat, |i: int| record_at(bytes, i))
}

proof fn lemma_le_round_trip(x: u32)
    ensures
        le_value(le_bytes(x)[0], le_bytes(x)[1], le_bytes(x)[2], le_bytes(x)[3]) == x,
{
    let b0 = (x & 0xff) as u8;
    let b1 = ((x >> 8u32) & 0xff) as u8;
    let b2 = ((x >> 16u32) & 0xff) as u8;
    let b3 = ((x >> 24u32) & 0xff) as u8;
    assert(((x & 0xff) as u8) as u32 == x & 0xff) by (bit_vector);
    assert((((x >> 8u32) & 0xff) as u8) as u32 == (x >> 8u32) & 0xff) by (bit_vector);
    assert((((x >> 16u32) & 0xff) as u8) as u32 == (x >> 16u32) & 0xff) by (bit_vector);
    assert((((x >> 24u32) & 0xff) as u8) as u32 == (x >> 24u32) & 0xff) by (bit_vector);
    assert(((x & 0xff) | (((x >> 8u32) & 0xff) << 8u32) | (((x >> 16u32) & 0xff) << 16u32) | (((
    x >> 24u32) & 0xff) << 24u32)) == x) by (bit_vector);
}

proof fn lemma_file_bytes_len(records: Seq<PointRecord>)
    ensures
        file_bytes(records).len() == 8 * records.len(),
    decreases records.len(),
{
    if records.len() > 0 {
        lemma_file_bytes_len(records.drop_last());
    }
}

proof fn lemma_file_bytes_prefix(records: Seq<PointRecord>, i: int)
    requires
        0 <= i < records.len(),
    ensures
        file_bytes(records).subrange(8 * i, 8 * i + 8) == record_bytes(records[i]),
    decreases records.len(),
{
    lemma_file_bytes_len(records.drop_last());
    let prev = file_bytes(records.drop_last());
    if i < records.len() - 1 {
        lemma_file_bytes_prefix(records.drop_last(), i);
        assert(file_bytes(records).subrange(8 * i, 8 * i + 8) =~= prev.subrange(8 * i, 8 * i + 8));
    } else {
        assert(file_bytes(records).subrange(8 * i, 8 * i + 8) =~= record_bytes(records.last()));
    }
}

/// Reading back the bytes written for some records gives those records.
pub proof fn lemma_records_round_trip(records: Seq<PointRecord>)
    ensures
        file_records(file_bytes(records)) == records,
{
    let bytes = file_bytes(records);
    lemma_file_bytes_len(records);
    assert forall|i: int| 0 <= i < records.len() implies record_at(bytes, i) == records[i] by {
        lemma_file_bytes_prefix(records, i);
        let sub = bytes.subrange(8 * i, 8 * i + 8);
        let rb = record_bytes(records[i]);
        assert forall|j: int| 0 <= j < 8 implies bytes[8 * i + j] == rb[j] by {
            assert(sub[j] == bytes[8 * i + j]);
        }
        lemma_le_round_trip(records[i].latitude_bits);
        lemma_le_round_trip(records[i].longitude_bits);
        let la = le_bytes(records[i].latitude_bits);
        let lo = le_bytes(records[i].longitude_bits);
        assert(rb[0] == la[0] && rb[1] == la[1] && rb[2] == la[2] && rb[3] == la[3]);
        assert(rb[4] == lo[0] && rb[5] == lo[1] && rb[6] == lo[2] && rb[7] == lo[3]);
        assert(bytes[8 * i + 1] == rb[1]);
        assert(bytes[8 * i + 2] == rb[2]);
        assert(bytes[8 * i + 3] == rb[3]);
        assert(bytes[8 * i + 5] == rb[5]);
        assert(bytes[8 * i + 6] == rb[6]);
        assert(bytes[8 * i + 7] == rb[7]);
        assert(bytes[8 * i + 0] == rb[0]);
        assert(bytes[8 * i + 4] == rb[4]);
    }
    assert(file_records(bytes) =~= records);
}

fn push_le_bytes(out: &mut Vec<u8>, x: u32)
    ensures
        final(out)@ == old(out)@ + le_bytes(x),
{
    out.push((x & 0xff) as u8);
    out.push(((x >> 8u32) & 0xff) as u8);
    out.push(((x >> 16u32) & 0xff) as u8);
    out.push(((x >> 24u32) & 0xff) as u8);
    assert(final(out)@ =~= old(out)@ + le_bytes(x));
}

/// Appends the bytes of `record` to `out`.
pub fn write_record(out: &mut Vec<u8>, record: &PointRecord)
    ensures
        final(out)@ == old(out)@ + record_bytes(*record),
{
    push_le_bytes(out, record.latitude_bits);
    push_le_bytes(out, record.longitude_bits);
    assert(final(out)@ =~= old(out)@ + record_bytes(*record));
}

/// The bytes of a point file holding `records`.
pub fn encode_records(records: &Vec<PointRecord>) -> (r: Vec<u8>)
    ensures
        r@ == file_bytes(records@),
{
    let mut out: Vec<u8> = Vec::new();
    let mut i: usize = 0;
    while i < records.len()
        invariant
            i <= records.len(),
            out@ == file_bytes(records@.take(i as int)),
        decreases records.len() - i,
    {
        proof {
            assert(records@.take(i + 1).drop_last() =~= records@.take(i as int));
        }
        write_record(&mut out, &records[i]);
        i = i + 1;
    }
    proof {
        assert(records@.take(i as int) =~= records@);
    }
    out
}

/// The records of a point file. Trailing bytes short of a whole record are
/// not read.
pub fn decode_records(bytes: &Vec<u8>) -> (r: Vec<PointRecord>)
    ensures
        r@ == file_records(bytes@),
{
    let n = bytes.len() / RECORD_LEN;
    let mut out: Vec<PointRecord> = Vec::new();
    let mut i: usize = 0;
    while i < n
        invariant
            n == bytes@.len() / 8,
            bytes@.len() <= usize::MAX,
            i <= n,
            out@.len() == i,
            forall|j: int| 0 <= j < i ==> #[trigger] out@[j] == record_at(bytes@, j),
        decreases n - i,
    {
        proof {
            assert(8 * i + 8 <= bytes@.len()) by (nonlinear_arith)
                requires
                    i < n,
                    n == bytes@.len() / 8,
            ;
        }
        let k: usize = 8 * i;
        let lat = (bytes[k] as u32) | ((bytes[k + 1] as u32) << 8u32) | ((bytes[k + 2] as u32)
            << 16u32) | ((bytes[k + 3] as u32) << 24u32);
        let lon = (bytes[k + 4] as u32) | ((bytes[k + 5] as u32) << 8u32) | ((bytes[k + 6] as u32)
            << 16u32) | ((bytes[k + 7] as u32) << 24u32);
        out.push(PointRecord { latitude_bits: lat, longitude_bits: lon });
        i = i + 1;
    }
    assert(out@ =~= file_records(bytes@));
    out
}

} // verus!
