//! Records as bytes: numbers written one after the other, each in eight
//! bytes with the lowest first, and the whole compressed.
use vstd::prelude::*;
use vstd::bytes::{spec_u64_from_le_bytes, spec_u64_to_le_bytes, u64_from_le_bytes, u64_to_le_bytes};
use vstd::slice::slice_subrange;
use crate::nyse::data::Record;

verus! {

/// What `zstd::bulk::compress` makes of data at a level: the compressed
/// bytes, or nothing where it fails.
pub uninterp spec fn zstd_compressed(data: Seq<u8>, level: i32) -> Option<Seq<u8>>;

/// What `zstd::decode_all` reads out of bytes: the data, or nothing where
/// it fails.
pub uninterp spec fn zstd_decoded(bytes: Seq<u8>) -> Option<Seq<u8>>;

/// `zstd::bulk::compress`: the data as one compressed frame, or nothing
/// where the compression fails. What comes back depends on the data and
/// the level alone. Level 0 is the default level of the crate.
#[verifier::external_body]
fn compress(data: &[u8], level: i32) -> (compressed: Option<Vec<u8>>)
    ensures
        match compressed {
            Some(bytes) => zstd_compressed(data@, level) == Some(bytes@),
            None => zstd_compressed(data@, level) is None,
        },
{
    zstd::bulk::compress(data, level).ok()
}

/// `zstd::decode_all`: the data that the compressed frames in the bytes
/// hold, or nothing where the bytes are no such frames or the decoding
/// fails otherwise. What comes back depends on the bytes alone.
#[verifier::external_body]
fn decompress(bytes: &[u8]) -> (data: Option<Vec<u8>>)
    ensures
        match data {
            Some(d) => zstd_decoded(bytes@) == Some(d@),
            None => zstd_decoded(bytes@) is None,
        },
{
    zstd::decode_all(bytes).ok()
}

/// The bytes of numbers: eight for each, the lowest first.
pub open spec fn bytes_of(numbers: Seq<u64>) -> Seq<u8>
    decreases numbers.len(),
{
    if numbers.len() == 0 {
        Seq::empty()
    } else {
        bytes_of(numbers.drop_last()) + spec_u64_to_le_bytes(numbers.last())
    }
}

/// The numbers that bytes hold, eight bytes each. Bytes at the end that do
/// not make eight hold no number.
pub open spec fn numbers_of(bytes: Seq<u8>) -> Seq<u64> {
    Seq::new(
        (bytes.len() / 8) as nat,
        |i: int| spec_u64_from_le_bytes(bytes.subrange(8 * i, 8 * i + 8)),
    )
}

/// The numbers in runs of `size`, the last run as long as what is left.
pub open spec fn chunks_of(numbers: Seq<u64>, size: nat) -> Seq<Seq<u64>>
    decreases numbers.len(),
{
    if numbers.len() == 0 || size == 0 {
        Seq::empty()
    } else if numbers.len() <= size {
        seq![numbers]
    } else {
        seq![numbers.take(size as int)] + chunks_of(numbers.skip(size as int), size)
    }
}

/// The numbers of records, one record after the other.
pub open spec fn flat(records: Seq<Record>) -> Seq<u64>
    decreases records.len(),
{
    if records.len() == 0 {
        Seq::empty()
    } else {
        flat(records.drop_last()) + records.last()@
    }
}

/// The numbers of records, one record after the other.
pub fn flatten(records: &Vec<Record>) -> (numbers: Vec<u64>)
    ensures
        numbers@ == flat(records@),
{
    let mut numbers: Vec<u64> = Vec::new();
    let mut i: usize = 0;
    assert(records@.take(0) =~= Seq::<Record>::empty());
    while i < records.len()
        invariant
            i <= records@.len(),
            numbers@ == flat(records@.take(i as int)),
        decreases records@.len() - i,
    {
        let row: Record = records[i];
        let ghost before = numbers@;
        let mut k: usize = 0;
        while k < 9
            invariant
                k <= 9,
                numbers@ == before + row@.take(k as int),
            decreases 9 - k,
        {
            numbers.push(row[k]);
            assert(numbers@ =~= before + row@.take(k + 1));
            k += 1;
        }
        proof {
            assert(row@.take(9) =~= row@);
            assert(records@.take(i + 1).drop_last() =~= records@.take(i as int));
            assert(records@.take(i + 1).last() == row);
        }
        i += 1;
    }
    assert(records@.take(records@.len() as int) =~= records@);
    numbers
}

/// The bytes of numbers: eight for each, the lowest first.
pub fn pack(numbers: &Vec<u64>) -> (bytes: Vec<u8>)
    ensures
        bytes@ == bytes_of(numbers@),
{
    let mut bytes: Vec<u8> = Vec::new();
    let mut i: usize = 0;
    assert(numbers@.take(0) =~= Seq::<u64>::empty());
    while i < numbers.len()
        invariant
            i <= numbers@.len(),
            bytes@ == bytes_of(numbers@.take(i as int)),
        decreases numbers@.len() - i,
    {
        let mut eight = u64_to_le_bytes(numbers[i]);
        proof {
            assert(numbers@.take(i + 1).drop_last() =~= numbers@.take(i as int));
            assert(numbers@.take(i + 1).last() == numbers@[i as int]);
        }
        bytes.append(&mut eight);
        i += 1;
    }
    assert(numbers@.take(numbers@.len() as int) =~= numbers@);
    bytes
}

/// The numbers that bytes hold, in records of `num_fields` numbers. Where
/// the numbers do not fill the last record, it is shorter.
pub fn unpack(bytes: &[u8], num_fields: usize) -> (records: Vec<Vec<u64>>)
    requires
        bytes@.len() % 8 == 0,
        num_fields > 0,
    ensures
        crate::nasdaq::replay::record_rows(records@) == chunks_of(
            numbers_of(bytes@),
            num_fields as nat,
        ),
{
    let count: usize = bytes.len() / 8;
    let mut numbers: Vec<u64> = Vec::new();
    let mut i: usize = 0;
    while i < count
        invariant
            count == bytes@.len() / 8,
            bytes@.len() % 8 == 0,
            8 * count == bytes@.len(),
            bytes@.len() <= usize::MAX,
            i <= count,
            numbers@.len() == i,
            forall|k: int| 0 <= k < i ==> numbers@[k] == numbers_of(bytes@)[k],
        decreases count - i,
    {
        let eight = slice_subrange(bytes, 8 * i, 8 * i + 8);
        numbers.push(u64_from_le_bytes(eight));
        i += 1;
    }
    proof {
        assert(numbers@ =~= numbers_of(bytes@));
    }
    let mut records: Vec<Vec<u64>> = Vec::new();
    let mut at: usize = 0;
    let ghost all = numbers@;
    proof {
        assert(all.skip(0) =~= all);
        assert(crate::nasdaq::replay::record_rows(records@) + chunks_of(all, num_fields as nat)
            =~= chunks_of(all, num_fields as nat));
    }
    while at < numbers.len()
        invariant
            num_fields > 0,
            all == numbers@,
            at <= all.len(),
            chunks_of(all, num_fields as nat) == crate::nasdaq::replay::record_rows(records@)
                + chunks_of(all.skip(at as int), num_fields as nat),
        decreases all.len() - at,
    {
        let left: usize = numbers.len() - at;
        let size: usize = if left <= num_fields {
            left
        } else {
            num_fields
        };
        let mut record: Vec<u64> = Vec::new();
        let mut k: usize = 0;
        while k < size
            invariant
                all == numbers@,
                at + size <= all.len(),
                all.len() <= usize::MAX,
                k <= size,
                record@ == all.skip(at as int).take(k as int),
            decreases size - k,
        {
            record.push(numbers[at + k]);
            assert(record@ =~= all.skip(at as int).take(k + 1));
            k += 1;
        }
        let ghost before = records@;
        records.push(record);
        proof {
            let rest = all.skip(at as int);
            let rows = crate::nasdaq::replay::record_rows(before);
            assert(crate::nasdaq::replay::record_rows(records@) =~= rows.push(record@));
            if left <= num_fields {
                assert(rest.take(left as int) =~= rest);
                assert(all.skip(at + size) =~= Seq::<u64>::empty());
                assert(rows + seq![rest] =~= rows.push(record@) + Seq::<Seq<u64>>::empty());
            } else {
                assert(rest.skip(num_fields as int) =~= all.skip(at + size));
                assert(rows + (seq![rest.take(num_fields as int)] + chunks_of(
                    rest.skip(num_fields as int),
                    num_fields as nat,
                )) =~= rows.push(record@) + chunks_of(all.skip(at + size), num_fields as nat));
            }
        }
        at += size;
    }
    proof {
        assert(all.skip(all.len() as int) =~= Seq::<u64>::empty());
        assert(crate::nasdaq::replay::record_rows(records@) + Seq::<Seq<u64>>::empty()
            =~= crate::nasdaq::replay::record_rows(records@));
    }
    records
}

/// Compresses what is to be stored, at the default level: nothing where
/// the compression fails.
pub fn dump(serialized: &[u8]) -> (compressed: Option<Vec<u8>>)
    ensures
        match compressed {
            Some(bytes) => zstd_compressed(serialized@, 0) == Some(bytes@),
            None => zstd_compressed(serialized@, 0) is None,
        },
{
    compress(serialized, 0)
}

/// The records of `num_fields` numbers that decompressed data holds:
/// nothing where there is no data, where the data is no whole number of
/// numbers, or where a record is to have no number.
pub fn read_records(data: Option<Vec<u8>>, num_fields: usize) -> (records: Option<Vec<Vec<u64>>>)
    ensures
        match records {
            Some(r) => data matches Some(d) && d@.len() % 8 == 0 && num_fields > 0
                && crate::nasdaq::replay::record_rows(r@) == chunks_of(
                numbers_of(d@),
                num_fields as nat,
            ),
            None => data is None || data->0@.len() % 8 != 0 || num_fields == 0,
        },
{
    match data {
        None => None,
        Some(d) => {
            if num_fields == 0 || d.len() % 8 != 0 {
                None
            } else {
                Some(unpack(d.as_slice(), num_fields))
            }
        },
    }
}

/// Reads the records of `num_fields` numbers out of what was stored:
/// nothing where the bytes cannot be decompressed, where what they hold is
/// no whole number of numbers, or where a record is to have no number.
pub fn load(compressed: &[u8], num_fields: usize) -> (records: Option<Vec<Vec<u64>>>)
    ensures
        match zstd_decoded(compressed@) {
            Some(d) => if d.len() % 8 == 0 && num_fields > 0 {
                records matches Some(r) && crate::nasdaq::replay::record_rows(r@) == chunks_of(
                    numbers_of(d),
                    num_fields as nat,
                )
            } else {
                records is None
            },
            None => records is None,
        },
{
    read_records(decompress(compressed), num_fields)
}

/// Numbers come back from their bytes.
pub proof fn law_numbers_come_back(numbers: Seq<u64>)
    ensures
        bytes_of(numbers).len() == 8 * numbers.len(),
        numbers_of(bytes_of(numbers)) == numbers,
    decreases numbers.len(),
{
    vstd::bytes::lemma_auto_spec_u64_to_from_le_bytes();
    if numbers.len() > 0 {
        let front = numbers.drop_last();
        law_numbers_come_back(front);
        let bytes = bytes_of(numbers);
        let tail = spec_u64_to_le_bytes(numbers.last());
        assert(bytes.len() == 8 * numbers.len());
        assert forall|i: int| 0 <= i < numbers.len() implies numbers_of(bytes)[i] == numbers[i] by {
            if i < front.len() {
                assert(bytes.subrange(8 * i, 8 * i + 8) =~= bytes_of(front).subrange(
                    8 * i,
                    8 * i + 8,
                ));
                assert(numbers_of(bytes_of(front))[i] == front[i]);
            } else {
                assert(bytes.subrange(8 * i, 8 * i + 8) =~= tail);
            }
        }
        assert(numbers_of(bytes) =~= numbers);
    } else {
        assert(numbers_of(bytes_of(numbers)) =~= numbers);
    }
}

} // verus!
