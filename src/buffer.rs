use vstd::prelude::*;
use crate::file_manager::{writes_view, BlockId, BlockWrite, FileManager};
use crate::log_manager::LogManager;
use crate::page::Page;

verus! {

/// A page of the pool, with the block it holds, how many callers hold it
/// pinned, and the transaction and log record that last modified it.
pub struct Buffer {
    pub contents: Page,
    pub block: Option<BlockId>,
    pub pins: u64,
    pub log_sequence_number: Option<u64>,
    pub transaction_number: Option<u64>,
}

/// A page changed by log record `lsn` needs the log page written first: the
/// log is saved only through `saved`.
pub open spec fn needs_log_at(lsn: Option<u64>, saved: u64) -> bool {
    lsn matches Some(l) && l > saved
}

/// The writes, in order, that flushing `b` calls for, the log holding
/// `log_page` in block `log_block` and being saved through `saved`: the log
/// page where the buffer's record is not saved yet, then the buffer's page.
/// A clean buffer calls for none.
pub open spec fn buffer_flush_writes(
    b: Buffer,
    log_block: (Seq<char>, u64),
    log_page: Seq<u8>,
    saved: u64,
) -> Seq<((Seq<char>, u64), Seq<u8>)> {
    if b.is_dirty() {
        (if needs_log_at(b.log_sequence_number, saved) {
            seq![(log_block, log_page)]
        } else {
            Seq::empty()
        }) + seq![(b.block_view()->Some_0, b.contents@)]
    } else {
        Seq::empty()
    }
}

/// What the log is saved through after flushing `b`, from `saved`, where its
/// latest record is `latest`.
pub open spec fn saved_after(b: Buffer, latest: u64, saved: u64) -> u64 {
    if b.is_dirty() && needs_log_at(b.log_sequence_number, saved) {
        latest
    } else {
        saved
    }
}

/// The flush-ahead rule: where `lsn` names a record that `before` had issued,
/// `after` has saved the log through it.
pub open spec fn log_saved_through(lsn: Option<u64>, before: &LogManager, after: &LogManager) -> bool {
    match lsn {
        Some(l) => l <= before.latest_lsn ==> l <= after.last_saved_lsn,
        None => true,
    }
}

impl Buffer {
    pub open spec fn wf(&self) -> bool {
        self.contents.wf()
    }

    /// Holds a block and changes to it that are not on disk.
    pub open spec fn is_dirty(&self) -> bool {
        self.transaction_number is Some && self.block is Some
    }

    pub open spec fn block_view(&self) -> Option<(Seq<char>, u64)> {
        match self.block {
            Some(b) => Some(b@),
            None => None,
        }
    }

    /// Same page, block, pins and log record as `other`.
    pub open spec fn same_state(&self, other: &Buffer) -> bool {
        &&& self.contents@ == other.contents@
        &&& self.contents.block_size == other.contents.block_size
        &&& self.block_view() == other.block_view()
        &&& self.pins == other.pins
        &&& self.log_sequence_number == other.log_sequence_number
    }

    /// All but the pin count as in `other`.
    pub open spec fn same_state_but_pins(&self, other: &Buffer) -> bool {
        &&& self.contents@ == other.contents@
        &&& self.contents.block_size == other.contents.block_size
        &&& self.block_view() == other.block_view()
        &&& self.log_sequence_number == other.log_sequence_number
        &&& self.transaction_number == other.transaction_number
    }

    /// All but the page's content as in `other`.
    pub open spec fn same_state_but_contents(&self, other: &Buffer) -> bool {
        &&& self.contents.block_size == other.contents.block_size
        &&& self.block_view() == other.block_view()
        &&& self.pins == other.pins
        &&& self.log_sequence_number == other.log_sequence_number
        &&& self.transaction_number == other.transaction_number
    }

    pub fn new(file_manager: &FileManager) -> (r: Buffer)
        ensures
            r.wf(),
            r.contents.block_size == file_manager.blocksize,
            r.contents@ == Seq::new(file_manager.blocksize as nat, |i: int| 0u8),
            r.block is None,
            r.pins == 0,
            r.log_sequence_number is None,
            r.transaction_number is None,
    {
        Buffer {
            contents: Page::new(file_manager.blocksize),
            block: None,
            pins: 0,
            log_sequence_number: None,
            transaction_number: None,
        }
    }

    /// Stamps the buffer with the transaction that modified it and the log
    /// record of the change.
    pub fn set_modified(&mut self, lsn: Option<u64>, txnum: u64)
        ensures
            final(self).transaction_number == Some(txnum),
            final(self).log_sequence_number == lsn,
            final(self).contents@ == old(self).contents@,
            final(self).contents.block_size == old(self).contents.block_size,
            final(self).block_view() == old(self).block_view(),
            final(self).pins == old(self).pins,
    {
        self.transaction_number = Some(txnum);
        self.log_sequence_number = lsn;
    }

    pub fn pin(&mut self)
        requires
            old(self).pins < u64::MAX,
        ensures
            final(self).pins == old(self).pins + 1,
            final(self).contents@ == old(self).contents@,
            final(self).contents.block_size == old(self).contents.block_size,
            final(self).block_view() == old(self).block_view(),
            final(self).log_sequence_number == old(self).log_sequence_number,
            final(self).transaction_number == old(self).transaction_number,
    {
        self.pins = self.pins + 1;
    }

    pub fn unpin(&mut self)
        requires
            old(self).pins > 0,
        ensures
            final(self).pins == old(self).pins - 1,
            final(self).contents@ == old(self).contents@,
            final(self).contents.block_size == old(self).contents.block_size,
            final(self).block_view() == old(self).block_view(),
            final(self).log_sequence_number == old(self).log_sequence_number,
            final(self).transaction_number == old(self).transaction_number,
    {
        self.pins = self.pins - 1;
    }

    /// Writes a dirty buffer back: first the log page, where the log is not
    /// yet saved through the buffer's log record, then the buffer's page.
    /// A clean buffer calls for no write.
    pub fn flush(&mut self, log_manager: &mut LogManager) -> (r: Vec<BlockWrite>)
        requires
            old(self).wf(),
            old(log_manager).wf(),
        ensures
            final(self).wf(),
            final(log_manager).wf(),
            final(log_manager).same_records(old(log_manager)),
            final(self).same_state(old(self)),
            final(self).transaction_number == if old(self).is_dirty() {
                None
            } else {
                old(self).transaction_number
            },
            !old(self).is_dirty() ==> r@.len() == 0 && *final(log_manager) == *old(log_manager)
                && *final(self) == *old(self),
            writes_view(r@) == buffer_flush_writes(
                *old(self),
                old(log_manager).current_block@,
                old(log_manager).log_page@,
                old(log_manager).last_saved_lsn,
            ),
            final(log_manager).last_saved_lsn == saved_after(
                *old(self),
                old(log_manager).latest_lsn,
                old(log_manager).last_saved_lsn,
            ),
            // the page reaches disk only after the log record that changed it
            old(self).is_dirty() ==> log_saved_through(
                old(self).log_sequence_number,
                old(log_manager),
                final(log_manager),
            ),
    {
        let mut writes: Vec<BlockWrite> = Vec::new();
        proof {
            assert(writes_view(writes@) =~= Seq::empty());
        }
        if self.transaction_number.is_some() {
            match &self.block {
                Some(b) => {
                    match self.log_sequence_number {
                        Some(l) => {
                            match log_manager.flush_with_lsn(l) {
                                Some(w) => {
                                    writes.push(w);
                                    proof {
                                        assert(writes_view(writes@) =~= seq![
                                            (old(log_manager).current_block@, old(log_manager).log_page@),
                                        ]);
                                    }
                                },
                                None => {},
                            }
                        },
                        None => {},
                    }
                    let ghost w0 = writes@;
                    let bytes = self.contents.bb.contents();
                    writes.push(BlockWrite { block: b.copy(), bytes });
                    self.transaction_number = None;
                    proof {
                        assert(writes_view(writes@) =~= writes_view(w0) + seq![
                            (b@, old(self).contents@),
                        ]);
                    }
                },
                None => {},
            }
        }
        writes
    }

    /// Hands the buffer over to `block`: flushes what it held, then holds
    /// `block` with no pins. The caller then reads `block` into it (`load`).
    pub fn assign_to_block(&mut self, block: BlockId, log_manager: &mut LogManager) -> (r: Vec<
        BlockWrite,
    >)
        requires
            old(self).wf(),
            old(log_manager).wf(),
        ensures
            final(self).wf(),
            final(log_manager).wf(),
            final(log_manager).same_records(old(log_manager)),
            final(self).block_view() == Some(block@),
            final(self).pins == 0,
            final(self).contents@ == old(self).contents@,
            final(self).contents.block_size == old(self).contents.block_size,
            final(self).log_sequence_number == old(self).log_sequence_number,
            final(self).transaction_number == if old(self).is_dirty() {
                None
            } else {
                old(self).transaction_number
            },
            writes_view(r@) == buffer_flush_writes(
                *old(self),
                old(log_manager).current_block@,
                old(log_manager).log_page@,
                old(log_manager).last_saved_lsn,
            ),
            final(log_manager).last_saved_lsn == saved_after(
                *old(self),
                old(log_manager).latest_lsn,
                old(log_manager).last_saved_lsn,
            ),
            old(self).is_dirty() ==> log_saved_through(
                old(self).log_sequence_number,
                old(log_manager),
                final(log_manager),
            ),
    {
        let writes = self.flush(log_manager);
        self.block = Some(block);
        self.pins = 0;
        writes
    }

    /// Takes the content read from disk for the block the buffer holds.
    pub fn load(&mut self, page: Page)
        requires
            page.wf(),
            page.block_size == old(self).contents.block_size,
        ensures
            final(self).wf(),
            final(self).contents@ == page@,
            final(self).contents.block_size == old(self).contents.block_size,
            final(self).block_view() == old(self).block_view(),
            final(self).pins == old(self).pins,
            final(self).log_sequence_number == old(self).log_sequence_number,
            final(self).transaction_number == old(self).transaction_number,
    {
        self.contents = page;
    }
}

} // verus!
