//! The tail journal: raw bytes of a tail that is not sealed into a chunk yet, record by record.
use vstd::prelude::*;

use super::wire;

verus! {

/// Length of the head of a journal record: payload length and payload checksum.
pub const JOURNAL_REC_HEADER_LEN: usize = 12;

/// The record that carries `raw`: its length, its checksum, then the bytes.
pub open spec fn journal_record(raw: Seq<u8>) -> Seq<u8> {
    wire::le64(raw.len() as u64) + wire::le32(wire::crc32_of(raw)) + raw
}

/// Length of the payload that the record at the start of `s` announces.
pub open spec fn announced(s: Seq<u8>) -> int {
    wire::u64_at(s, 0) as int
}

/// Whether `s` starts with a record that is all there and whose checksum holds.
pub open spec fn starts_with_record(s: Seq<u8>) -> bool {
    &&& s.len() >= JOURNAL_REC_HEADER_LEN
    &&& JOURNAL_REC_HEADER_LEN + announced(s) <= s.len()
    &&& wire::crc32_of(first_payload(s)) == wire::u32_at(s, 8)
}

/// The payload of the record at the start of `s`.
pub open spec fn first_payload(s: Seq<u8>) -> Seq<u8> {
    s.subrange(JOURNAL_REC_HEADER_LEN as int, JOURNAL_REC_HEADER_LEN + announced(s))
}

/// What follows the record at the start of `s`.
pub open spec fn after_first(s: Seq<u8>) -> Seq<u8> {
    s.subrange(JOURNAL_REC_HEADER_LEN + announced(s), s.len() as int)
}

/// The payloads of the records that `s` starts with, up to the first that does not hold.
pub open spec fn replayed(s: Seq<u8>) -> Seq<u8>
    decreases s.len(),
{
    if starts_with_record(s) {
        first_payload(s) + replayed(after_first(s))
    } else {
        Seq::empty()
    }
}

/// Whether `s` is made of records that hold and of nothing else.
pub open spec fn whole(s: Seq<u8>) -> bool
    decreases s.len(),
{
    s.len() == 0 || (starts_with_record(s) && whole(after_first(s)))
}

/// A record is whole and replays to what was put in it.
pub proof fn record_replays(raw: Seq<u8>)
    requires
        raw.len() <= u64::MAX,
    ensures
        journal_record(raw).len() == JOURNAL_REC_HEADER_LEN + raw.len(),
        whole(journal_record(raw)),
        replayed(journal_record(raw)) == raw,
{
    broadcast use {wire::le32_len, wire::le64_len};

    let rec = journal_record(raw);
    let n = raw.len() as u64;
    assert(rec.subrange(0, 8) =~= wire::le64(n));
    assert(rec.subrange(8, 12) =~= wire::le32(wire::crc32_of(raw)));
    wire::le64_reads_back(rec, 0, n);
    wire::le32_reads_back(rec, 8, wire::crc32_of(raw));
    assert(first_payload(rec) =~= raw);
    assert(after_first(rec).len() == 0);
    assert(whole(after_first(rec)));
    assert(replayed(after_first(rec)) =~= Seq::<u8>::empty());
    assert(raw + Seq::<u8>::empty() =~= raw);
}

/// Records written one behind the other replay one behind the other: whatever follows whole
/// records, they replay first and what follows replays behind them.
pub proof fn journal_concatenates(a: Seq<u8>, b: Seq<u8>)
    requires
        whole(a),
    ensures
        replayed(a + b) == replayed(a) + replayed(b),
        whole(b) ==> whole(a + b),
    decreases a.len(),
{
    if a.len() == 0 {
        assert(a + b =~= b);
        assert(replayed(a) =~= Seq::<u8>::empty());
        assert(Seq::<u8>::empty() + replayed(b) =~= replayed(b));
    } else {
        let s = a + b;
        assert(wire::u64_at(s, 0) == wire::u64_at(a, 0) && wire::u32_at(s, 8) == wire::u32_at(
            a,
            8,
        )) by {
            reveal(wire::u64_at);
            reveal(wire::u32_at);
        }
        assert(first_payload(s) =~= first_payload(a));
        assert(after_first(s) =~= after_first(a) + b);
        journal_concatenates(after_first(a), b);
        assert(replayed(s) =~= replayed(a) + replayed(b));
    }
}

/// The record that carries `raw`.
pub fn serialize_journal_record(raw: &[u8]) -> (rec: Vec<u8>)
    ensures
        rec@ == journal_record(raw@),
{
    let mut rec: Vec<u8> = Vec::new();
    wire::put_u64(&mut rec, raw.len() as u64);
    wire::put_u32(&mut rec, wire::crc32(raw));
    rec.extend_from_slice(raw);
    assert(rec@ =~= journal_record(raw@));
    rec
}

/// The payloads of the records in `buf`, up to the first that is cut short or does not hold its
/// checksum.
pub fn replay_journal(buf: &[u8]) -> (raw: Vec<u8>)
    ensures
        raw@ == replayed(buf@),
{
    let mut raw: Vec<u8> = Vec::new();
    let total: usize = buf.len();
    let mut pos: usize = 0;
    assert(buf@.subrange(0, total as int) =~= buf@);
    assert(raw@ + replayed(buf@) =~= replayed(buf@));
    while JOURNAL_REC_HEADER_LEN <= total - pos
        invariant
            pos <= total,
            total == buf@.len(),
            replayed(buf@) == raw@ + replayed(buf@.subrange(pos as int, total as int)),
        decreases total - pos,
    {
        let ghost rest = buf@.subrange(pos as int, total as int);
        let announced_len: u64 = wire::get_u64(buf, pos);
        let crc: u32 = wire::get_u32(buf, pos + 8);
        proof {
            assert(announced_len == wire::u64_at(rest, 0) && crc == wire::u32_at(rest, 8)) by {
                reveal(wire::u64_at);
                reveal(wire::u32_at);
            }
        }
        let room: usize = total - pos - JOURNAL_REC_HEADER_LEN;
        if announced_len > room as u64 {
            assert(raw@ + replayed(rest) =~= raw@);
            return raw;
        }
        let n: usize = announced_len as usize;
        let start: usize = pos + JOURNAL_REC_HEADER_LEN;
        let mut payload: Vec<u8> = wire::copy_range(buf, start, start + n);
        assert(payload@ =~= first_payload(rest));
        if wire::crc32(&payload) != crc {
            assert(raw@ + replayed(rest) =~= raw@);
            return raw;
        }
        assert(after_first(rest) =~= buf@.subrange(start + n as int, total as int));
        assert(raw@ + replayed(rest) =~= (raw@ + payload@) + replayed(after_first(rest)));
        raw.append(&mut payload);
        pos = start + n;
    }
    assert(raw@ + replayed(buf@.subrange(pos as int, total as int)) =~= raw@);
    raw
}

/// A record is its length in eight bytes, its checksum in four, and then the bytes.
pub proof fn record_has_its_layout(raw: Seq<u8>)
    requires
        raw.len() <= u64::MAX,
    ensures
        ({
            let rec = journal_record(raw);
            &&& rec.len() == raw.len() + 12
            &&& wire::u64_at(rec, 0) == raw.len()
            &&& wire::u32_at(rec, 8) == wire::crc32_of(raw)
            &&& rec.subrange(12, rec.len() as int) == raw
        }),
{
    broadcast use {wire::le32_len, wire::le64_len};

    let rec = journal_record(raw);
    assert(rec.subrange(0, 8) =~= wire::le64(raw.len() as u64));
    assert(rec.subrange(8, 12) =~= wire::le32(wire::crc32_of(raw)));
    wire::le64_reads_back(rec, 0, raw.len() as u64);
    wire::le32_reads_back(rec, 8, wire::crc32_of(raw));
    assert(rec.subrange(12, rec.len() as int) =~= raw);
}

/// Replaying stops at the first record that is cut off or whose checksum does not hold, and gives
/// what stood before it.
pub proof fn replay_stops_at_a_broken_record(whole_part: Seq<u8>, rest: Seq<u8>)
    requires
        whole(whole_part),
        rest.len() < 12 || 12 + wire::u64_at(rest, 0) > rest.len() || wire::crc32_of(
            rest.subrange(12, 12 + wire::u64_at(rest, 0) as int),
        ) != wire::u32_at(rest, 8),
    ensures
        replayed(whole_part + rest) == replayed(whole_part),
{
    journal_concatenates(whole_part, rest);
    assert(replayed(rest) =~= Seq::<u8>::empty());
    assert(replayed(whole_part) + Seq::<u8>::empty() =~= replayed(whole_part));
}

} // verus!
