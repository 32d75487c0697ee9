use vstd::prelude::*;
use crate::log_manager::{log_insert, needs_new_block, LogError};
use crate::page::{
    bytes_at, encoded_len, int_at, lemma_bytes_round_trip, lemma_int_round_trip, with_bytes, with_int,
    Page,
};

verus! {

/// One record of the log, as the bytes that were appended.
#[derive(Debug)]
pub struct Record {
    pub bytes: Vec<u8>,
}

impl View for Record {
    type V = Seq<u8>;

    open spec fn view(&self) -> Seq<u8> {
        self.bytes@
    }
}

/// The records of a log page from offset `pos` to the end of the page, one
/// after another: the most recently appended first.
pub open spec fn records_from(page: Seq<u8>, pos: int) -> Seq<Seq<u8>>
    decreases page.len() - pos,
{
    if pos < 0 || pos >= page.len() {
        Seq::empty()
    } else {
        match bytes_at(page, pos) {
            Some(b) => seq![b] + records_from(page, pos + 8 + b.len()),
            None => Seq::empty(),
        }
    }
}

proof fn lemma_records_agree(x: Seq<u8>, y: Seq<u8>, k: int)
    requires
        x.len() == y.len(),
        forall|j: int| k <= j < x.len() ==> x[j] == y[j],
    ensures
        records_from(x, k) == records_from(y, k),
    decreases x.len() - k,
{
    if 0 <= k < x.len() && k + 8 <= x.len() {
        assert(x.subrange(k, k + 8) =~= y.subrange(k, k + 8));
        let n = int_at(x, k);
        if k + 8 + n <= x.len() {
            assert(x.subrange(k + 8, k + 8 + n) =~= y.subrange(k + 8, k + 8 + n));
            lemma_records_agree(x, y, k + 8 + n);
        }
    }
}

/// Appending a record to a log page that has room for it puts it in front of
/// the page's records: read from the new boundary, the page yields the new
/// record, then every record it yielded before.
pub proof fn lemma_insert_then_read(page: Seq<u8>, rec: Seq<u8>)
    requires
        16 <= page.len() <= u64::MAX,
        8 <= int_at(page, 0) <= page.len(),
        !needs_new_block(page, rec.len() as int),
    ensures
        records_from(log_insert(page, rec), int_at(log_insert(page, rec), 0) as int) == seq![rec]
            + records_from(page, int_at(page, 0) as int),
{
    let b = int_at(page, 0) as int;
    let pos = b - encoded_len(rec.len() as int);
    let q1 = with_bytes(page, pos, rec);
    let q = with_int(q1, 0, pos as u64);
    assert(q == log_insert(page, rec));
    lemma_bytes_round_trip(page, pos, rec);
    lemma_int_round_trip(q1, 0, pos as u64);
    assert(records_from(q, pos) == records_from(q1, pos)) by {
        assert forall|j: int| pos <= j < q.len() implies q[j] == q1[j] by {
            assert(q[j] == with_int(q1, 0, pos as u64)[j]);
        }
        lemma_records_agree(q, q1, pos);
    }
    assert(records_from(q1, b) == records_from(page, b)) by {
        assert forall|j: int| b <= j < q1.len() implies q1[j] == page[j] by {
            assert(q1[j] == with_bytes(page, pos, rec)[j]);
        }
        lemma_records_agree(q1, page, b);
    }
    assert(records_from(q1, pos) == seq![rec] + records_from(q1, b)) by {
        assert(bytes_at(q1, pos) == Some(rec));
        assert(pos + 8 + rec.len() == b);
    }
}

/// Every record of a log page from offset `pos` on lies inside the page.
pub open spec fn records_intact(page: Seq<u8>, pos: int) -> bool
    decreases page.len() - pos,
{
    if pos < 0 || pos >= page.len() {
        true
    } else {
        match bytes_at(page, pos) {
            Some(b) => records_intact(page, pos + 8 + b.len()),
            None => false,
        }
    }
}

impl Record {
    pub fn new(bytes: Vec<u8>) -> (r: Record)
        ensures
            r@ == bytes@,
    {
        Record { bytes }
    }

    /// The records stored in a log page, newest first: from the page's
    /// boundary, held in its first eight bytes, to its end. A page too short
    /// for its boundary, or holding a record that runs past its end, is
    /// corrupt.
    pub fn page_records(page: &Page) -> (r: Result<Vec<Record>, LogError>)
        requires
            page.wf(),
        ensures
            r is Ok <==> page@.len() >= 8 && records_intact(page@, int_at(page@, 0) as int),
            r is Err ==> r == Err::<Vec<Record>, LogError>(LogError::Corrupt),
            r matches Ok(v) ==> v@.map_values(|x: Record| x@) == records_from(
                page@,
                int_at(page@, 0) as int,
            ),
    {
        let mut r: Vec<Record> = Vec::new();
        let mut p = Page::from_bytes(page.bb.bytes.clone());
        proof {
            assert(p@ =~= page@);
        }
        let bs = p.block_size;
        let mut pos = match p.get_int(0) {
            Ok(b) => b,
            Err(_) => return Err(LogError::Corrupt),
        };
        let ghost start = pos as int;
        while pos < bs
            invariant
                p.wf(),
                p@ == page@,
                p.block_size == bs,
                bs == page@.len(),
                start == int_at(page@, 0),
                records_intact(page@, start) == records_intact(page@, pos as int),
                r@.map_values(|x: Record| x@) + records_from(page@, pos as int) == records_from(
                    page@,
                    start,
                ),
            decreases bs - pos,
        {
            let ghost r0 = r@.map_values(|x: Record| x@);
            match p.get_bytes(pos) {
                Ok(b) => {
                    let ghost bv = b@;
                    let n = b.len() as u64;
                    r.push(Record::new(b));
                    assert(r@.map_values(|x: Record| x@) =~= r0.push(bv));
                    assert(records_from(page@, pos as int) == seq![bv] + records_from(
                        page@,
                        pos + 8 + bv.len(),
                    ));
                    assert(r0 + records_from(page@, pos as int) =~= r0.push(bv) + records_from(
                        page@,
                        pos + 8 + bv.len(),
                    ));
                    assert(records_intact(page@, pos as int) == records_intact(
                        page@,
                        pos + 8 + bv.len(),
                    ));
                    pos = pos + 8 + n;
                },
                Err(_) => {
                    assert(!records_intact(page@, pos as int));
                    return Err(LogError::Corrupt);
                },
            }
        }
        assert(records_from(page@, pos as int) == Seq::<Seq<u8>>::empty());
        assert(r@.map_values(|x: Record| x@) =~= r@.map_values(|x: Record| x@) + records_from(
            page@,
            pos as int,
        ));
        Ok(r)
    }
}

} // verus!
