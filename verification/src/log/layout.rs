//! How the records of a segment lie in its data file, and what follows for
//! reading them.

use vstd::prelude::*;

use crate::codec;
use crate::log::bytes;
use crate::log::entry::EntryModel;
use crate::log::error::StorageError;
use crate::log::segment;
use crate::log::segment::{SegmentHeader, HEADER_LEN};
use crate::schema::Kind;

verus! {

broadcast use bytes::group_le_len;

/// An entry whose record reads back: it is small enough, and its event has a
/// CBOR form that is read as that event.
pub open spec fn good(e: EntryModel) -> bool {
    segment::storable(e) && (codec::parse(Kind::Event, codec::encoding(e.event), 0) matches Ok(
        (t, _),
    ) && t == e.event)
}

/// Entries with consecutive offsets from `base` on, all of which read back.
pub open spec fn good_run(es: Seq<EntryModel>, base: u64) -> bool {
    &&& base + es.len() <= u64::MAX
    &&& forall|i: int| 0 <= i < es.len() ==> good(#[trigger] es[i]) && es[i].offset == base + i
}

/// Where the record with number `i` stands.
pub open spec fn position(es: Seq<EntryModel>, i: int) -> int {
    HEADER_LEN + segment::records_bytes(es.take(i)).len()
}

/// Where the records stand.
pub open spec fn positions(es: Seq<EntryModel>) -> Seq<u64> {
    Seq::new(es.len(), |i: int| position(es, i) as u64)
}

/// A data file with these entries, and something behind them.
pub open spec fn data_file(h: SegmentHeader, es: Seq<EntryModel>, tail: Seq<u8>) -> Seq<u8> {
    segment::header_bytes(h) + segment::records_bytes(es) + tail
}

/// The records of more entries are the records of the first and of the others.
pub proof fn lemma_records_concat(a: Seq<EntryModel>, b: Seq<EntryModel>)
    ensures
        segment::records_bytes(a + b) == segment::records_bytes(a) + segment::records_bytes(b),
    decreases b.len(),
{
    if b.len() == 0 {
        assert(a + b =~= a);
        assert(segment::records_bytes(a) + seq![] =~= segment::records_bytes(a));
    } else {
        assert((a + b).drop_last() =~= a + b.drop_last());
        lemma_records_concat(a, b.drop_last());
        assert((segment::records_bytes(a) + segment::records_bytes(b.drop_last()))
            + segment::record_bytes(b.last()) =~= segment::records_bytes(a)
            + segment::records_bytes(b));
    }
}

/// A record behind the first `i` of a data file reads as that entry.
pub proof fn lemma_read_at(h: SegmentHeader, es: Seq<EntryModel>, tail: Seq<u8>, i: int)
    requires
        0 <= i < es.len(),
        good(es[i]),
    ensures
        ({
            let file = data_file(h, es, tail);
            let pos = position(es, i);
            &&& HEADER_LEN <= pos
            &&& pos + segment::record_bytes(es[i]).len() == position(es, i + 1)
            &&& position(es, i + 1) <= file.len()
            &&& segment::parse_record(file.skip(pos)) == Ok::<(EntryModel, int), StorageError>(
                (es[i], segment::record_bytes(es[i]).len() as int),
            )
            &&& segment::record_bytes(es[i]).len() > 0
        }),
{
    let file = data_file(h, es, tail);
    let before = es.take(i);
    let after = es.skip(i + 1);
    let this = segment::record_bytes(es[i]);
    segment::law_header_reads_back(h, seq![]);
    assert(es =~= es.take(i + 1) + after);
    lemma_records_concat(es.take(i + 1), after);
    assert(es.take(i + 1).drop_last() =~= before);
    assert(segment::records_bytes(es.take(i + 1)) == segment::records_bytes(before) + this);
    let rest = segment::records_bytes(after) + tail;
    assert(file.skip(position(es, i)) =~= this + rest);
    segment::lemma_record_reads_back(es[i], rest);
}

/// Recovery finds exactly the records of a data file, whatever lies behind
/// them, as long as that is not one more record with the next offset.
pub proof fn law_recovery_is_exact(
    h: SegmentHeader,
    es: Seq<EntryModel>,
    base: u64,
    tail: Seq<u8>,
)
    requires
        good_run(es, base),
        tail.len() == 0 || segment::parse_record(tail) is Err,
        data_file(h, es, tail).len() <= u64::MAX,
    ensures
        segment::recovered(data_file(h, es, tail), base, seq![], HEADER_LEN as int) == Ok::<
            segment::Recovery,
            StorageError,
        >(segment::Recovery { positions: positions(es), end: position(es, es.len() as int) }),
{
    assert(positions(es).take(0) =~= seq![]);
    assert(segment::records_bytes(es.take(0)).len() == 0);
    lemma_recovery_from(h, es, base, tail, 0);
}

proof fn lemma_recovery_from(
    h: SegmentHeader,
    es: Seq<EntryModel>,
    base: u64,
    tail: Seq<u8>,
    i: int,
)
    requires
        0 <= i <= es.len(),
        good_run(es, base),
        tail.len() == 0 || segment::parse_record(tail) is Err,
        data_file(h, es, tail).len() <= u64::MAX,
    ensures
        segment::recovered(
            data_file(h, es, tail),
            base,
            positions(es).take(i),
            position(es, i),
        ) == Ok::<segment::Recovery, StorageError>(
            segment::Recovery { positions: positions(es), end: position(es, es.len() as int) },
        ),
    decreases es.len() - i,
{
    let file = data_file(h, es, tail);
    segment::law_header_reads_back(h, seq![]);
    if i == es.len() {
        assert(positions(es).take(i) =~= positions(es));
        assert(es.take(i) =~= es);
        assert(file.skip(position(es, i)) =~= tail);
    } else {
        assert(good(es[i]));
        lemma_read_at(h, es, tail, i);
        assert(positions(es).take(i).push(position(es, i) as u64) =~= positions(es).take(i + 1));
        lemma_recovery_from(h, es, base, tail, i + 1);
    }
}

/// Cutting a data file off where recovery says, and recovering again, changes
/// nothing: everything that is left is good.
pub proof fn law_recovery_is_idempotent(
    file: Seq<u8>,
    base: u64,
)
    requires
        file.len() <= u64::MAX,
        segment::recovered(file, base, seq![], HEADER_LEN as int) is Ok,
    ensures
        ({
            let first = segment::recovered(file, base, seq![], HEADER_LEN as int)->Ok_0;
            first.end <= file.len() ==> segment::recovered(
                file.take(first.end),
                base,
                seq![],
                HEADER_LEN as int,
            ) == Ok::<segment::Recovery, StorageError>(first)
        }),
{
    let first = segment::recovered(file, base, seq![], HEADER_LEN as int)->Ok_0;
    if first.end <= file.len() {
        lemma_recovery_again(file, base, seq![], HEADER_LEN as int);
    }
}

proof fn lemma_recovery_again(file: Seq<u8>, base: u64, ps: Seq<u64>, pos: int)
    requires
        0 <= pos,
        segment::recovered(file, base, ps, pos) is Ok,
        segment::recovered(file, base, ps, pos)->Ok_0.end <= file.len(),
    ensures
        ({
            let end = segment::recovered(file, base, ps, pos)->Ok_0.end;
            pos <= end && segment::recovered(file.take(end), base, ps, pos)
                == segment::recovered(file, base, ps, pos)
        }),
    decreases (if pos <= file.len() { file.len() - pos } else { 0 }),
{
    let end = segment::recovered(file, base, ps, pos)->Ok_0.end;
    if pos < file.len() {
        match segment::parse_record(file.skip(pos)) {
            Err(_) => {},
            Ok((e, len)) => {
                if base + ps.len() <= u64::MAX && e.offset == base + ps.len() && len > 0 {
                    segment::lemma_record_len(file.skip(pos));
                    lemma_recovery_again(file, base, ps.push(pos as u64), pos + len);
                    let cut = file.take(end);
                    assert(file.skip(pos).take(end - pos) =~= cut.skip(pos));
                    segment::lemma_record_in_prefix(file.skip(pos), end - pos);
                }
            },
        }
    }
}

} // verus!
