use vstd::prelude::*;
use crate::buffer_manager::BufferManager;
use crate::file_manager::{BlockWrite, FileManager};
use crate::log_manager::{reset_page, LogError, LogManager};
use crate::page::int_at;

verus! {

/// The kernel of one database directory: its file manager, its log and its
/// buffer pool, built in that order.
pub struct SimpleDB {
    pub file_manager: FileManager,
    pub log_manager: LogManager,
    pub buffer_manager: BufferManager,
}

impl SimpleDB {
    pub open spec fn wf(&self) -> bool {
        &&& self.file_manager.wf()
        &&& self.log_manager.wf()
        &&& self.buffer_manager.wf()
        &&& self.log_manager.block_size() == self.file_manager.blocksize
    }

    /// Opens the database in `dirname` with blocks of `blocksize` bytes and a
    /// pool of `buffersize` buffers. The log file `logfile` holds
    /// `log_length` bytes; `log_tail` is its last block, where it has one.
    /// Returns the write that starts a fresh log, where one is needed.
    pub fn new(
        dirname: String,
        blocksize: u64,
        buffersize: u64,
        log_length: u64,
        log_tail: Vec<u8>,
    ) -> (r: Result<(SimpleDB, Option<BlockWrite>), LogError>)
        requires
            blocksize > 0,
            buffersize <= usize::MAX,
        ensures
            blocksize < 16 ==> r == Err::<(SimpleDB, Option<BlockWrite>), LogError>(
                LogError::BlockTooSmall,
            ),
            blocksize >= 16 && log_length < blocksize ==> r is Ok,
            blocksize >= 16 && log_length >= blocksize ==> (if log_tail@.len() == blocksize && 8
                <= int_at(log_tail@, 0) <= blocksize {
                r is Ok
            } else {
                r == Err::<(SimpleDB, Option<BlockWrite>), LogError>(LogError::Corrupt)
            }),
            r matches Ok((db, w)) ==> {
                &&& db.wf()
                &&& db.file_manager.dir@ == dirname@
                &&& db.file_manager.blocksize == blocksize
                &&& db.buffer_manager.bufferpool@.len() == buffersize
                &&& db.buffer_manager.available == buffersize
                &&& db.log_manager.latest_lsn == 0
                &&& db.log_manager.log_file@ == seq!['l', 'o', 'g', 'f', 'i', 'l', 'e']
                &&& db.log_manager.last_saved_lsn == 0
                &&& if log_length >= blocksize {
                    &&& db.log_manager.current_block@ == (
                        db.log_manager.log_file@,
                        (log_length / blocksize - 1) as u64,
                    )
                    &&& db.log_manager.log_page@ == log_tail@
                    &&& w is None
                } else {
                    &&& db.log_manager.current_block@ == (db.log_manager.log_file@, 0u64)
                    &&& db.log_manager.log_page@ == reset_page(
                        Seq::new(blocksize as nat, |i: int| 0u8),
                    )
                    &&& w matches Some(w) && w.block@ == db.log_manager.current_block@ && w.bytes@
                        == db.log_manager.log_page@
                }
            },
    {
        let file_manager = FileManager::new(dirname, blocksize);
        let log_file = "logfile".to_owned();
        proof {
            reveal_strlit("logfile");
        }
        let (log_manager, w) = match LogManager::new(&file_manager, log_file, log_length, log_tail) {
            Ok(x) => x,
            Err(e) => return Err(e),
        };
        let buffer_manager = BufferManager::new(&file_manager, buffersize);
        Ok((SimpleDB { file_manager, log_manager, buffer_manager }, w))
    }
}

} // verus!
