use vstd::prelude::*;
use crate::file_manager::{BlockId, BlockWrite};
use crate::log_manager::LogManager;
use crate::page::{int_at, Page};
use crate::record::{records_from, Record};

verus! {

/// What the traversal asks for or yields next.
#[derive(Debug)]
pub enum LogStep {
    /// The next record, newer records having come before it.
    Record(Record),
    /// The current block is read out: the caller reads this block and hands
    /// it to `load`.
    NeedBlock(BlockId),
    /// Every record of the log has been yielded.
    Done,
    /// The current block holds a record whose length runs past its end.
    Corrupt,
}

/// Where a log traversal begins in a page: at its boundary, or at its end
/// where the page cannot hold one.
pub open spec fn start_pos(page: Seq<u8>) -> u64 {
    if page.len() >= 8 {
        int_at(page, 0)
    } else {
        page.len() as u64
    }
}

/// Walks the log from the most recent record back to the first: block by
/// block from the last, and in each block from its boundary to its end.
pub struct LogIterator {
    pub log_file: String,
    pub block_number: u64,
    pub page: Page,
    pub pos: u64,
}

impl LogIterator {
    /// The records of the current page that are still to come.
    pub open spec fn pending(&self) -> Seq<Seq<u8>> {
        records_from(self.page@, self.pos as int)
    }

    /// Starts at the most recent record. The log is flushed first, so that
    /// the blocks read later hold every record; the write is returned.
    pub fn new(log_manager: &mut LogManager) -> (r: (LogIterator, BlockWrite))
        requires
            old(log_manager).wf(),
        ensures
            final(log_manager).wf(),
            final(log_manager).same_records(old(log_manager)),
            final(log_manager).last_saved_lsn == old(log_manager).latest_lsn,
            r.1.block@ == old(log_manager).current_block@,
            r.1.bytes@ == old(log_manager).log_page@,
            r.0.page.wf(),
            r.0.log_file@ == old(log_manager).log_file@,
            r.0.block_number == old(log_manager).current_block.block_number,
            r.0.page@ == old(log_manager).log_page@,
            r.0.pos == old(log_manager).boundary(),
    {
        let w = log_manager.flush();
        let page = Page::from_bytes(log_manager.log_page.bb.bytes.clone());
        proof {
            assert(page@ =~= log_manager.log_page@);
        }
        let mut it = LogIterator {
            log_file: log_manager.log_file.clone(),
            block_number: log_manager.current_block.block_number,
            page,
            pos: 0,
        };
        it.pos = match it.page.get_int(0) {
            Ok(b) => b,
            Err(_) => it.page.block_size,
        };
        (it, w)
    }

    pub fn next(&mut self) -> (r: LogStep)
        requires
            old(self).page.wf(),
        ensures
            final(self).page.wf(),
            final(self).log_file@ == old(self).log_file@,
            final(self).block_number == old(self).block_number,
            final(self).page@ == old(self).page@,
            old(self).pending().len() > 0 ==> {
                &&& r matches LogStep::Record(rec)
                &&& rec@ == old(self).pending()[0]
                &&& final(self).pending() == old(self).pending().drop_first()
            },
            old(self).pending().len() == 0 && old(self).pos < old(self).page@.len() ==> r is Corrupt
                && final(self).pos == old(self).pos,
            old(self).pending().len() == 0 && old(self).pos >= old(self).page@.len() && old(
                self,
            ).block_number > 0 ==> {
                &&& r matches LogStep::NeedBlock(b)
                &&& b@ == (old(self).log_file@, (old(self).block_number - 1) as u64)
                &&& final(self).pos == old(self).pos
            },
            old(self).pending().len() == 0 && old(self).pos >= old(self).page@.len() && old(
                self,
            ).block_number == 0 ==> r is Done
                && final(self).pos == old(self).pos,
    {
        if self.pos < self.page.block_size {
            let ghost before = self.pending();
            match self.page.get_bytes(self.pos) {
                Ok(b) => {
                    proof {
                        assert(before == seq![b@] + records_from(
                            self.page@,
                            self.pos + 8 + b@.len(),
                        ));
                        assert(before.drop_first() =~= records_from(
                            self.page@,
                            self.pos + 8 + b@.len(),
                        ));
                    }
                    self.pos = self.pos + 8 + b.len() as u64;
                    return LogStep::Record(Record::new(b));
                },
                Err(_) => {
                    return LogStep::Corrupt;
                },
            }
        }
        if self.block_number == 0 {
            LogStep::Done
        } else {
            LogStep::NeedBlock(BlockId::new(self.log_file.clone(), self.block_number - 1))
        }
    }

    /// Takes the content of the block that `next` asked for and goes on from
    /// its most recent record.
    pub fn load(&mut self, page: Page)
        requires
            old(self).block_number > 0,
            page.wf(),
        ensures
            final(self).page.wf(),
            final(self).log_file@ == old(self).log_file@,
            final(self).block_number == old(self).block_number - 1,
            final(self).page@ == page@,
            final(self).pos == start_pos(page@),
    {
        self.page = page;
        self.pos = match self.page.get_int(0) {
            Ok(b) => b,
            Err(_) => self.page.block_size,
        };
        self.block_number = self.block_number - 1;
    }
}

} // verus!
