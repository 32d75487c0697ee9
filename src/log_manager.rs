use vstd::prelude::*;
use crate::file_manager::{writes_view, BlockId, BlockWrite, FileManager};
use crate::page::{encoded_len, int_at, lemma_bytes_round_trip, lemma_int_round_trip, with_bytes, with_int, Page};

verus! {

#[derive(Debug, Clone, Copy, PartialEq, Eq, Structural)]
pub enum LogError {
    /// A block cannot hold the boundary header and one empty record.
    BlockTooSmall,
    /// The record cannot fit in a block, even an empty one.
    RecordTooLarge,
    /// The log's last block does not hold a valid boundary.
    Corrupt,
}

/// A log block whose boundary header says it holds no record yet: `page` with
/// the block size written in its first eight bytes.
pub open spec fn reset_page(page: Seq<u8>) -> Seq<u8> {
    with_int(page, 0, page.len() as u64)
}

/// Where a record of `n` bytes goes in a log page whose boundary is `boundary`.
pub open spec fn record_pos(boundary: int, n: int) -> int {
    boundary - encoded_len(n)
}

/// A log page with `rec` stored just below its boundary, and the boundary
/// moved down to it.
pub open spec fn log_insert(page: Seq<u8>, rec: Seq<u8>) -> Seq<u8> {
    let pos = record_pos(int_at(page, 0) as int, rec.len() as int);
    with_int(with_bytes(page, pos, rec), 0, pos as u64)
}

/// A record of `n` bytes does not fit below the boundary of this page.
pub open spec fn needs_new_block(page: Seq<u8>, n: int) -> bool {
    int_at(page, 0) < encoded_len(n) + 8
}

/// A log as plain values: its page, the number of its current block, and
/// the sequence numbers saved through and last issued.
pub type LogState = (Seq<u8>, u64, u64, u64);

/// The log after `append(rec)` from state `st`.
pub open spec fn append_step(st: LogState, rec: Seq<u8>) -> LogState {
    if needs_new_block(st.0, rec.len() as int) {
        (log_insert(reset_page(st.0), rec), (st.1 + 1) as u64, st.3, (st.3 + 1) as u64)
    } else {
        (log_insert(st.0, rec), st.1, st.2, (st.3 + 1) as u64)
    }
}

/// The block writes of `append(rec)` from state `st`, in the log file `file`.
pub open spec fn append_step_writes(st: LogState, file: Seq<char>, rec: Seq<u8>) -> Seq<
    ((Seq<char>, u64), Seq<u8>),
> {
    if needs_new_block(st.0, rec.len() as int) {
        seq![((file, st.1), st.0), ((file, (st.1 + 1) as u64), reset_page(st.0))]
    } else {
        Seq::empty()
    }
}

/// The log after appending `recs` in order from state `st`.
pub open spec fn after_appends(st: LogState, recs: Seq<Seq<u8>>) -> LogState
    decreases recs.len(),
{
    if recs.len() == 0 {
        st
    } else {
        append_step(after_appends(st, recs.drop_last()), recs.last())
    }
}

/// The block writes of appending `recs` in order from state `st`.
pub open spec fn appends_writes(st: LogState, file: Seq<char>, recs: Seq<Seq<u8>>) -> Seq<
    ((Seq<char>, u64), Seq<u8>),
>
    decreases recs.len(),
{
    if recs.len() == 0 {
        Seq::empty()
    } else {
        appends_writes(st, file, recs.drop_last()) + append_step_writes(
            after_appends(st, recs.drop_last()),
            file,
            recs.last(),
        )
    }
}

/// The write-ahead log: records are packed from the tail of the current
/// block backward, below the block's boundary header.
pub struct LogManager {
    pub log_file: String,
    pub log_page: Page,
    pub current_block: BlockId,
    pub latest_lsn: u64,
    pub last_saved_lsn: u64,
}

impl LogManager {
    pub open spec fn state(&self) -> LogState {
        (self.log_page@, self.current_block.block_number, self.last_saved_lsn, self.latest_lsn)
    }

    pub open spec fn block_size(&self) -> u64 {
        self.log_page.block_size
    }

    pub open spec fn boundary(&self) -> u64 {
        int_at(self.log_page@, 0)
    }

    /// Both hold the same records, in the same block, with the same sequence numbers;
    /// what has been saved may differ.
    pub open spec fn same_records(&self, other: &LogManager) -> bool {
        &&& self.log_file@ == other.log_file@
        &&& self.log_page@ == other.log_page@
        &&& self.log_page.block_size == other.log_page.block_size
        &&& self.current_block@ == other.current_block@
        &&& self.latest_lsn == other.latest_lsn
    }

    pub open spec fn wf(&self) -> bool {
        &&& self.log_page.wf()
        &&& self.block_size() >= 16
        &&& self.current_block.filename@ == self.log_file@
        &&& 8 <= self.boundary() <= self.block_size()
        &&& self.last_saved_lsn <= self.latest_lsn
    }

    /// The log's last block, which holds its most recent records, for a log
    /// file of `log_length` bytes; none when the file holds no whole block.
    pub fn tail_block(fm: &FileManager, log_file: String, log_length: u64) -> (r: Option<BlockId>)
        requires
            fm.wf(),
        ensures
            r is Some <==> log_length >= fm.blocksize,
            r matches Some(b) ==> b@ == (log_file@, (log_length / fm.blocksize - 1) as u64),
    {
        if log_length < fm.blocksize {
            None
        } else {
            assert(log_length / fm.blocksize >= 1) by (nonlinear_arith)
                requires
                    log_length >= fm.blocksize,
                    fm.blocksize > 0,
            ;
            Some(BlockId::new(log_file, log_length / fm.blocksize - 1))
        }
    }

    /// Opens the log file `log_file` of `log_length` bytes. Where it holds a
    /// whole block, `tail` is the content of its last block, which becomes the
    /// current block. Otherwise a fresh block is started at the end of the
    /// file, and the write that creates it is returned.
    pub fn new(fm: &FileManager, log_file: String, log_length: u64, tail: Vec<u8>) -> (r: Result<
        (LogManager, Option<BlockWrite>),
        LogError,
    >)
        requires
            fm.wf(),
        ensures
            fm.blocksize < 16 ==> r == Err::<(LogManager, Option<BlockWrite>), LogError>(
                LogError::BlockTooSmall,
            ),
            fm.blocksize >= 16 && log_length >= fm.blocksize ==> (if tail@.len() == fm.blocksize
                && 8 <= int_at(tail@, 0) <= fm.blocksize {
                r is Ok
            } else {
                r == Err::<(LogManager, Option<BlockWrite>), LogError>(LogError::Corrupt)
            }),
            fm.blocksize >= 16 && log_length < fm.blocksize ==> r is Ok,
            r matches Ok((lm, w)) ==> {
                &&& lm.wf()
                &&& lm.log_file@ == log_file@
                &&& lm.block_size() == fm.blocksize
                &&& lm.latest_lsn == 0
                &&& lm.last_saved_lsn == 0
                &&& if log_length >= fm.blocksize {
                    &&& lm.current_block@ == (log_file@, (log_length / fm.blocksize - 1) as u64)
                    &&& lm.log_page@ == tail@
                    &&& w is None
                } else {
                    &&& lm.current_block@ == (log_file@, 0u64)
                    &&& lm.log_page@ == reset_page(Seq::new(fm.blocksize as nat, |i: int| 0u8))
                    &&& w matches Some(w) && w.block@ == lm.current_block@ && w.bytes@
                        == lm.log_page@
                }
            },
    {
        let bs = fm.blocksize;
        if bs < 16 {
            return Err(LogError::BlockTooSmall);
        }
        match LogManager::tail_block(fm, log_file.clone(), log_length) {
            Some(block) => {
                if tail.len() as u64 != bs {
                    return Err(LogError::Corrupt);
                }
                let mut log_page = Page::from_bytes(tail);
                let boundary = match log_page.get_int(0) {
                    Ok(b) => b,
                    Err(_) => return Err(LogError::Corrupt),
                };
                if boundary < 8 || boundary > bs {
                    return Err(LogError::Corrupt);
                }
                Ok(
                    (
                        LogManager {
                            log_file,
                            log_page,
                            current_block: block,
                            latest_lsn: 0,
                            last_saved_lsn: 0,
                        },
                        None,
                    ),
                )
            },
            None => {
                let block = fm.append_block(log_file.clone(), log_length);
                assert(log_length / bs == 0) by (nonlinear_arith)
                    requires
                        log_length < bs,
                        bs > 0,
                ;
                let mut log_page = Page::new(bs);
                let _ = log_page.set_int(0, bs);
                proof {
                    lemma_int_round_trip(Seq::new(bs as nat, |i: int| 0u8), 0, bs);
                }
                let bytes = log_page.bb.contents();
                let w = BlockWrite { block: block.copy(), bytes };
                Ok(
                    (
                        LogManager {
                            log_file,
                            log_page,
                            current_block: block,
                            latest_lsn: 0,
                            last_saved_lsn: 0,
                        },
                        Some(w),
                    ),
                )
            },
        }
    }

    /// Writes the log page to its block: every record appended so far is then
    /// durable.
    pub fn flush(&mut self) -> (r: BlockWrite)
        requires
            old(self).wf(),
        ensures
            final(self).wf(),
            r.block@ == old(self).current_block@,
            r.bytes@ == old(self).log_page@,
            final(self).last_saved_lsn == old(self).latest_lsn,
            final(self).latest_lsn == old(self).latest_lsn,
            final(self).log_page@ == old(self).log_page@,
            final(self).current_block@ == old(self).current_block@,
            final(self).log_file@ == old(self).log_file@,
            final(self).block_size() == old(self).block_size(),
    {
        let bytes = self.log_page.bb.contents();
        self.last_saved_lsn = self.latest_lsn;
        BlockWrite { block: self.current_block.copy(), bytes }
    }

    /// Makes the log durable through `lsn`: writes the log page unless every
    /// record through `lsn` was saved already.
    pub fn flush_with_lsn(&mut self, lsn: u64) -> (r: Option<BlockWrite>)
        requires
            old(self).wf(),
        ensures
            final(self).wf(),
            r is None <==> lsn <= old(self).last_saved_lsn,
            r is None ==> final(self).last_saved_lsn == old(self).last_saved_lsn,
            r matches Some(w) ==> w.block@ == old(self).current_block@ && w.bytes@ == old(
                self,
            ).log_page@ && final(self).last_saved_lsn == old(self).latest_lsn,
            final(self).latest_lsn == old(self).latest_lsn,
            final(self).log_page@ == old(self).log_page@,
            final(self).current_block@ == old(self).current_block@,
            final(self).log_file@ == old(self).log_file@,
            final(self).block_size() == old(self).block_size(),
    {
        if lsn > self.last_saved_lsn {
            Some(self.flush())
        } else {
            None
        }
    }

    /// Appends `record` and returns its log sequence number, with the block
    /// writes that the append calls for, in order: none while the record fits
    /// below the boundary; otherwise the current page to its block, then the
    /// reset page to the next block of the log, which becomes current.
    pub fn append(&mut self, record: &[u8]) -> (r: Result<(u64, Vec<BlockWrite>), LogError>)
        requires
            old(self).wf(),
            old(self).latest_lsn < u64::MAX,
            old(self).current_block.block_number < u64::MAX,
        ensures
            final(self).wf(),
            final(self).log_file@ == old(self).log_file@,
            final(self).block_size() == old(self).block_size(),
            r is Err <==> encoded_len(record@.len() as int) + 8 > old(self).block_size(),
            r is Err ==> r == Err::<(u64, Vec<BlockWrite>), LogError>(LogError::RecordTooLarge) && {
                &&& final(self).latest_lsn == old(self).latest_lsn
                &&& final(self).last_saved_lsn == old(self).last_saved_lsn
                &&& final(self).log_page@ == old(self).log_page@
                &&& final(self).current_block@ == old(self).current_block@
            },
            r matches Ok((lsn, writes)) ==> {
                &&& lsn == old(self).latest_lsn + 1
                &&& final(self).latest_lsn == lsn
                &&& if needs_new_block(old(self).log_page@, record@.len() as int) {
                    &&& writes@.len() == 2
                    &&& writes@[0].block@ == old(self).current_block@
                    &&& writes@[0].bytes@ == old(self).log_page@
                    &&& writes@[1].block@ == (
                        old(self).log_file@,
                        (old(self).current_block.block_number + 1) as u64,
                    )
                    &&& writes@[1].bytes@ == reset_page(old(self).log_page@)
                    &&& final(self).current_block@ == writes@[1].block@
                    &&& final(self).log_page@ == log_insert(
                        reset_page(old(self).log_page@),
                        record@,
                    )
                    &&& final(self).last_saved_lsn == old(self).latest_lsn
                } else {
                    &&& writes@.len() == 0
                    &&& final(self).current_block@ == old(self).current_block@
                    &&& final(self).log_page@ == log_insert(old(self).log_page@, record@)
                    &&& final(self).last_saved_lsn == old(self).last_saved_lsn
                }
            },
    {
        let bs = self.log_page.block_size;
        let n = record.len() as u64;
        if n > bs - 16 {
            return Err(LogError::RecordTooLarge);
        }
        let mut writes: Vec<BlockWrite> = Vec::new();
        // a well-formed log page always holds its boundary header
        let mut boundary = match self.log_page.get_int(0) {
            Ok(b) => b,
            Err(_) => 0,
        };
        if boundary < n + 16 {
            let w = self.flush();
            writes.push(w);
            let next = BlockId::new(self.log_file.clone(), self.current_block.block_number + 1);
            let ghost before = self.log_page@;
            let _ = self.log_page.set_int(0, bs);
            proof {
                lemma_int_round_trip(before, 0, bs);
            }
            let bytes = self.log_page.bb.contents();
            writes.push(BlockWrite { block: next.copy(), bytes });
            self.current_block = next;
            boundary = bs;
        }
        let rec_pos = boundary - n - 8;
        let ghost mid = self.log_page@;
        let _ = self.log_page.set_bytes(rec_pos, record);
        proof {
            lemma_bytes_round_trip(mid, rec_pos as int, record@);
        }
        let ghost mid2 = self.log_page@;
        let _ = self.log_page.set_int(0, rec_pos);
        proof {
            lemma_int_round_trip(mid2, 0, rec_pos);
        }
        self.latest_lsn = self.latest_lsn + 1;
        Ok((self.latest_lsn, writes))
    }
    /// Appends `records` in order, as many calls of `append`. Each record gets
    /// the sequence number after the one before it, so after `n` appends the
    /// latest sequence number has grown by exactly `n`. Where some record
    /// cannot fit in a block, nothing is appended and the log is unchanged.
    pub fn append_all(&mut self, records: &Vec<Vec<u8>>) -> (r: Result<(Vec<u64>, Vec<BlockWrite>), LogError>)
        requires
            old(self).wf(),
            old(self).latest_lsn + records@.len() <= u64::MAX,
            old(self).current_block.block_number + records@.len() <= u64::MAX,
        ensures
            final(self).wf(),
            final(self).log_file@ == old(self).log_file@,
            r is Err <==> exists|i: int|
                0 <= i < records@.len() && encoded_len(#[trigger] records@[i]@.len() as int) + 8
                    > old(self).block_size(),
            r is Err ==> r == Err::<(Vec<u64>, Vec<BlockWrite>), LogError>(LogError::RecordTooLarge)
                && final(self).state() == old(self).state() && final(self).current_block@ == old(
                self,
            ).current_block@ && final(self).block_size() == old(self).block_size(),
            r matches Ok((lsns, writes)) ==> {
                &&& lsns@.len() == records@.len()
                &&& forall|i: int| 0 <= i < lsns@.len() ==> #[trigger] lsns@[i] == old(self).latest_lsn + i + 1
                &&& final(self).latest_lsn == old(self).latest_lsn + records@.len()
                &&& final(self).state() == after_appends(
                    old(self).state(),
                    records@.map_values(|v: Vec<u8>| v@),
                )
                &&& writes_view(writes@) == appends_writes(
                    old(self).state(),
                    old(self).log_file@,
                    records@.map_values(|v: Vec<u8>| v@),
                )
            },
    {
        let bs = self.log_page.block_size;
        let mut k: usize = 0;
        while k < records.len()
            invariant
                k <= records@.len(),
                self.wf(),
                self.state() == old(self).state(),
                self.current_block@ == old(self).current_block@,
                self.log_file@ == old(self).log_file@,
                self.block_size() == old(self).block_size(),
                bs == old(self).block_size(),
                bs >= 16,
                forall|j: int|
                    0 <= j < k ==> encoded_len(#[trigger] records@[j]@.len() as int) + 8 <= bs,
            decreases records@.len() - k,
        {
            if records[k].len() as u64 > bs - 16 {
                return Err(LogError::RecordTooLarge);
            }
            k = k + 1;
        }
        let mut lsns: Vec<u64> = Vec::new();
        let mut writes: Vec<BlockWrite> = Vec::new();
        proof {
            assert(writes_view(writes@) =~= Seq::empty());
            assert(records@.map_values(|v: Vec<u8>| v@).subrange(0, 0) =~= Seq::<Seq<u8>>::empty());
        }
        let mut i: usize = 0;
        while i < records.len()
            invariant
                i <= records@.len(),
                self.wf(),
                self.log_file@ == old(self).log_file@,
                self.block_size() == old(self).block_size(),
                self.latest_lsn == old(self).latest_lsn + i,
                self.current_block.block_number <= old(self).current_block.block_number + i,
                old(self).latest_lsn + records@.len() <= u64::MAX,
                old(self).current_block.block_number + records@.len() <= u64::MAX,
                lsns@.len() == i,
                forall|j: int| 0 <= j < i ==> #[trigger] lsns@[j] == old(self).latest_lsn + j + 1,
                self.state() == after_appends(
                    old(self).state(),
                    records@.map_values(|v: Vec<u8>| v@).subrange(0, i as int),
                ),
                writes_view(writes@) == appends_writes(
                    old(self).state(),
                    old(self).log_file@,
                    records@.map_values(|v: Vec<u8>| v@).subrange(0, i as int),
                ),
                forall|j: int|
                    0 <= j < records@.len() ==> encoded_len(#[trigger] records@[j]@.len() as int) + 8
                        <= old(self).block_size(),
            decreases records@.len() - i,
        {
            let ghost st0 = self.state();
            let ghost w0 = writes@;
            let ghost recs = records@.map_values(|v: Vec<u8>| v@);
            match self.append(records[i].as_slice()) {
                Ok((lsn, w)) => {
                    let mut w = w;
                    let ghost wl = w@;
                    lsns.push(lsn);
                    writes.append(&mut w);
                    proof {
                        let pre = recs.subrange(0, i as int);
                        let post = recs.subrange(0, i + 1);
                        assert(post.drop_last() =~= pre);
                        assert(post.last() == records@[i as int]@);
                        assert(writes_view(writes@) =~= writes_view(w0) + writes_view(wl));
                        assert(writes_view(wl) =~= append_step_writes(
                            st0,
                            old(self).log_file@,
                            records@[i as int]@,
                        ));
                        assert(self.state() == append_step(st0, records@[i as int]@));
                    }
                },
                Err(e) => {
                    return Err(e);
                },
            }
            i = i + 1;
        }
        proof {
            let recs = records@.map_values(|v: Vec<u8>| v@);
            assert(recs.subrange(0, i as int) =~= recs);
        }
        Ok((lsns, writes))
    }
}

} // verus!
