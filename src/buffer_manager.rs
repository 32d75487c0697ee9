use vstd::prelude::*;
use crate::buffer::{buffer_flush_writes, log_saved_through, saved_after, Buffer};
use crate::file_manager::{write_view, writes_view, BlockId, BlockWrite, FileManager};
use crate::log_manager::LogManager;
use crate::page::Page;

verus! {

#[derive(Debug, Clone, Copy, PartialEq, Eq, Structural)]
pub enum BufferError {
    /// Every buffer of the pool is pinned.
    Exhausted,
}

/// A successful pin: the index of the buffer in the pool.
#[derive(Debug)]
pub enum Pinned {
    /// The block was in the pool already; no I/O is needed.
    Resident(usize),
    /// The buffer was handed over to the block. The caller performs `writes`
    /// in order, then reads the block and hands its content to `load`.
    Assigned { index: usize, writes: Vec<BlockWrite> },
}

/// Number of buffers of `s` that nobody holds pinned.
pub open spec fn count_unpinned(s: Seq<Buffer>) -> nat
    decreases s.len(),
{
    if s.len() == 0 {
        0
    } else {
        count_unpinned(s.drop_last()) + if s.last().pins == 0 {
            1nat
        } else {
            0nat
        }
    }
}

/// What the log is saved through after flushing, in pool order, the buffers of
/// `s` stamped with `txnum`, from `saved`, where its latest record is `latest`.
pub open spec fn flush_all_saved(s: Seq<Buffer>, txnum: u64, latest: u64, saved: u64) -> u64
    decreases s.len(),
{
    if s.len() == 0 {
        saved
    } else {
        let prev = flush_all_saved(s.drop_last(), txnum, latest, saved);
        if s.last().transaction_number == Some(txnum) {
            saved_after(s.last(), latest, prev)
        } else {
            prev
        }
    }
}

/// The writes, in order, that flushing the buffers of `s` stamped with
/// `txnum` calls for: each buffer's own flush writes, in pool order, the log
/// holding `log_page` in `log_block` and being saved through `saved` first.
pub open spec fn flush_all_writes(
    s: Seq<Buffer>,
    txnum: u64,
    log_block: (Seq<char>, u64),
    log_page: Seq<u8>,
    latest: u64,
    saved: u64,
) -> Seq<((Seq<char>, u64), Seq<u8>)>
    decreases s.len(),
{
    if s.len() == 0 {
        Seq::empty()
    } else {
        flush_all_writes(s.drop_last(), txnum, log_block, log_page, latest, saved) + if s.last().transaction_number
            == Some(txnum) {
            buffer_flush_writes(
                s.last(),
                log_block,
                log_page,
                flush_all_saved(s.drop_last(), txnum, latest, saved),
            )
        } else {
            Seq::empty()
        }
    }
}

/// Buffer `i` of `s` holds block `b`.
pub open spec fn holds_block(s: Seq<Buffer>, i: int, b: (Seq<char>, u64)) -> bool {
    0 <= i < s.len() && s[i].block_view() == Some(b)
}

pub open spec fn is_resident(s: Seq<Buffer>, b: (Seq<char>, u64)) -> bool {
    exists|i: int| holds_block(s, i, b)
}

pub open spec fn all_pinned(s: Seq<Buffer>) -> bool {
    forall|i: int| 0 <= i < s.len() ==> #[trigger] s[i].pins > 0
}

proof fn lemma_count_update(s: Seq<Buffer>, i: int, b: Buffer)
    requires
        0 <= i < s.len(),
    ensures
        count_unpinned(s.update(i, b)) + (if s[i].pins == 0 {
            1int
        } else {
            0int
        }) == count_unpinned(s) + (if b.pins == 0 {
            1int
        } else {
            0int
        }),
    decreases s.len(),
{
    if i == s.len() - 1 {
        assert(s.update(i, b).drop_last() =~= s.drop_last());
    } else {
        assert(s.update(i, b).drop_last() =~= s.drop_last().update(i, b));
        lemma_count_update(s.drop_last(), i, b);
    }
}

proof fn lemma_count_bound(s: Seq<Buffer>, i: int)
    requires
        0 <= i < s.len(),
    ensures
        count_unpinned(s) <= s.len(),
        s[i].pins == 0 ==> count_unpinned(s) >= 1,
    decreases s.len(),
{
    if s.len() > 1 {
        lemma_count_bound(
            s.drop_last(),
            if i < s.len() - 1 {
                i
            } else {
                0
            },
        );
    } else {
        assert(count_unpinned(s.drop_last()) == 0);
    }
}

/// Every buffer is well formed and no two hold the same block.
pub open spec fn pool_ok(s: Seq<Buffer>) -> bool {
    &&& forall|i: int| 0 <= i < s.len() ==> #[trigger] s[i].wf()
    &&& forall|i: int, j: int|
        0 <= i < j < s.len() && (#[trigger] s[i]).block is Some ==> s[i].block_view() != (
        #[trigger] s[j]).block_view()
}

proof fn lemma_pool_ok_update(s: Seq<Buffer>, i: int, b: Buffer)
    requires
        pool_ok(s),
        0 <= i < s.len(),
        b.wf(),
        b.block_view() == s[i].block_view() || b.block is None || (b.block is Some
            && !is_resident(s, b.block_view()->Some_0)),
    ensures
        pool_ok(s.update(i, b)),
{
    let t = s.update(i, b);
    assert forall|x: int, y: int|
        0 <= x < y < t.len() && (#[trigger] t[x]).block is Some implies t[x].block_view() != (
        #[trigger] t[y]).block_view() by {
        if x != i && y != i {
            assert(s[x].block_view() != s[y].block_view());
        } else if b.block_view() == s[i].block_view() {
            if x == i {
                assert(s[x].block_view() != s[y].block_view());
            } else {
                if s[x].block_view() == s[y].block_view() {
                    assert(s[x].block is Some);
                }
            }
        } else if b.block is Some {
            if x == i {
                assert(!holds_block(s, y, b.block_view()->Some_0));
            } else {
                assert(!holds_block(s, x, b.block_view()->Some_0));
            }
        }
    }
}

proof fn lemma_count_zero(s: Seq<Buffer>)
    ensures
        count_unpinned(s) == 0 <==> all_pinned(s),
    decreases s.len(),
{
    if s.len() > 0 {
        lemma_count_zero(s.drop_last());
        if all_pinned(s) {
            assert(all_pinned(s.drop_last())) by {
                assert forall|i: int| 0 <= i < s.drop_last().len() implies #[trigger] s.drop_last()[i].pins
                    > 0 by {
                    assert(s[i].pins > 0);
                }
            }
        }
        if count_unpinned(s) == 0 {
            assert forall|i: int| 0 <= i < s.len() implies #[trigger] s[i].pins > 0 by {
                if i < s.len() - 1 {
                    assert(s.drop_last()[i].pins > 0);
                }
            }
        }
    }
}

/// With every buffer pinned no buffer is free, so pinning a block that none
/// holds fails. Unpinning the last pin of one buffer frees exactly that one,
/// and once it is pinned again every buffer is pinned once more.
pub proof fn lemma_pool_exhaustion(s: Seq<Buffer>, i: int, freed: Buffer, taken: Buffer)
    requires
        all_pinned(s),
        0 <= i < s.len(),
        freed.pins == 0,
        taken.pins > 0,
    ensures
        count_unpinned(s) == 0,
        count_unpinned(s.update(i, freed)) == 1,
        !all_pinned(s.update(i, freed)),
        forall|j: int| 0 <= j < s.len() && #[trigger] s.update(i, freed)[j].pins == 0 ==> j == i,
        all_pinned(s.update(i, freed).update(i, taken)),
        count_unpinned(s.update(i, freed).update(i, taken)) == 0,
{
    lemma_count_zero(s);
    assert(s[i].pins > 0);
    lemma_count_update(s, i, freed);
    let t = s.update(i, freed);
    lemma_count_update(t, i, taken);
    assert(t.update(i, taken) =~= s.update(i, taken));
    assert forall|j: int| 0 <= j < s.len() implies #[trigger] s.update(i, taken)[j].pins > 0 by {
        if j != i {
            assert(s[j].pins > 0);
        }
    }
    assert(t[i].pins == 0);
}

/// A fixed pool of buffers. A block is held by at most one buffer; a pinned
/// buffer keeps its block.
pub struct BufferManager {
    pub bufferpool: Vec<Buffer>,
    pub available: u64,
}

impl BufferManager {
    pub open spec fn wf(&self) -> bool {
        &&& pool_ok(self.bufferpool@)
        &&& self.available == count_unpinned(self.bufferpool@)
    }

    /// A pool of `numbuffs` buffers, none holding a block.
    pub fn new(file_manager: &FileManager, numbuffs: u64) -> (r: BufferManager)
        requires
            numbuffs <= usize::MAX,
        ensures
            r.wf(),
            r.bufferpool@.len() == numbuffs,
            r.available == numbuffs,
            forall|i: int|
                0 <= i < numbuffs ==> {
                    let b = #[trigger] r.bufferpool@[i];
                    &&& b.block is None
                    &&& b.pins == 0
                    &&& b.transaction_number is None
                    &&& b.log_sequence_number is None
                    &&& b.contents.block_size == file_manager.blocksize
                },
    {
        let mut bufferpool: Vec<Buffer> = Vec::with_capacity(numbuffs as usize);
        let mut k: u64 = 0;
        while k < numbuffs
            invariant
                k <= numbuffs,
                bufferpool@.len() == k,
                count_unpinned(bufferpool@) == k,
                forall|i: int|
                    0 <= i < k ==> {
                        let b = #[trigger] bufferpool@[i];
                        &&& b.wf()
                        &&& b.block is None
                        &&& b.pins == 0
                        &&& b.transaction_number is None
                        &&& b.log_sequence_number is None
                        &&& b.contents.block_size == file_manager.blocksize
                    },
            decreases numbuffs - k,
        {
            let ghost before = bufferpool@;
            bufferpool.push(Buffer::new(file_manager));
            assert(bufferpool@.drop_last() =~= before);
            k = k + 1;
        }
        BufferManager { bufferpool, available: numbuffs }
    }

    /// The buffer that holds `block`, if any.
    pub fn find_resident(&self, block: &BlockId) -> (r: Option<usize>)
        ensures
            r matches Some(i) ==> holds_block(self.bufferpool@, i as int, block@),
            r is None ==> !is_resident(self.bufferpool@, block@),
    {
        let mut i: usize = 0;
        while i < self.bufferpool.len()
            invariant
                i <= self.bufferpool@.len(),
                forall|j: int| 0 <= j < i ==> !holds_block(self.bufferpool@, j, block@),
            decreases self.bufferpool@.len() - i,
        {
            match &self.bufferpool[i].block {
                Some(b) => {
                    if b.same(block) {
                        return Some(i);
                    }
                },
                None => {},
            }
            i = i + 1;
        }
        None
    }

    /// The first buffer that nobody holds pinned, if any.
    pub fn choose_unpinned(&self) -> (r: Option<usize>)
        ensures
            r matches Some(i) ==> i < self.bufferpool@.len() && self.bufferpool@[i as int].pins
                == 0,
            r is None ==> all_pinned(self.bufferpool@),
    {
        let mut i: usize = 0;
        while i < self.bufferpool.len()
            invariant
                i <= self.bufferpool@.len(),
                forall|j: int| 0 <= j < i ==> self.bufferpool@[j].pins > 0,
            decreases self.bufferpool@.len() - i,
        {
            if self.bufferpool[i].pins == 0 {
                return Some(i);
            }
            i = i + 1;
        }
        None
    }
    /// Pins `block`. A buffer that holds it already is pinned once more, with
    /// no I/O. Otherwise the first unpinned buffer is handed over to it, after
    /// its old content is flushed. Fails when every buffer is pinned.
    pub fn pin(&mut self, block: &BlockId, log_manager: &mut LogManager) -> (r: Result<
        Pinned,
        BufferError,
    >)
        requires
            old(self).wf(),
            old(log_manager).wf(),
            forall|i: int|
                0 <= i < old(self).bufferpool@.len() ==> #[trigger] old(self).bufferpool@[i].pins
                    < u64::MAX,
        ensures
            final(self).wf(),
            final(log_manager).wf(),
            final(log_manager).same_records(old(log_manager)),
            final(self).bufferpool@.len() == old(self).bufferpool@.len(),
            is_resident(old(self).bufferpool@, block@) ==> {
                &&& r matches Ok(Pinned::Resident(i))
                &&& holds_block(old(self).bufferpool@, i as int, block@)
                &&& final(self).bufferpool@[i as int].pins == old(self).bufferpool@[i as int].pins + 1
                &&& final(self).bufferpool@[i as int].same_state_but_pins(&old(self).bufferpool@[i as int])
                &&& forall|j: int| 0 <= j < old(self).bufferpool@.len() && j != i ==> final(self).bufferpool@[j]
                    == old(self).bufferpool@[j]
                &&& final(self).available == old(self).available - if old(self).bufferpool@[i as int].pins
                    == 0 {
                    1int
                } else {
                    0int
                }
                &&& final(log_manager).last_saved_lsn == old(log_manager).last_saved_lsn
            },
            !is_resident(old(self).bufferpool@, block@) && all_pinned(old(self).bufferpool@) ==> {
                &&& r == Err::<Pinned, BufferError>(BufferError::Exhausted)
                &&& final(self).bufferpool@ == old(self).bufferpool@
                &&& final(self).available == 0
                &&& final(log_manager).last_saved_lsn == old(log_manager).last_saved_lsn
            },
            !is_resident(old(self).bufferpool@, block@) && !all_pinned(old(self).bufferpool@) ==> {
                &&& r matches Ok(Pinned::Assigned { index, writes })
                &&& index < old(self).bufferpool@.len()
                &&& old(self).bufferpool@[index as int].pins == 0
                &&& final(self).bufferpool@[index as int].block_view() == Some(block@)
                &&& final(self).bufferpool@[index as int].pins == 1
                &&& final(self).bufferpool@[index as int].contents.block_size == old(self).bufferpool@[index as int].contents.block_size
                &&& final(self).bufferpool@[index as int].log_sequence_number == old(self).bufferpool@[index as int].log_sequence_number
                &&& final(self).bufferpool@[index as int].transaction_number == if old(self).bufferpool@[index as int].is_dirty() {
                    None
                } else {
                    old(self).bufferpool@[index as int].transaction_number
                }
                &&& final(self).available == old(self).available - 1
                &&& forall|j: int| 0 <= j < old(self).bufferpool@.len() && j != index ==> final(self).bufferpool@[j] == old(self).bufferpool@[j]
                &&& writes_view(writes@) == buffer_flush_writes(
                    old(self).bufferpool@[index as int],
                    old(log_manager).current_block@,
                    old(log_manager).log_page@,
                    old(log_manager).last_saved_lsn,
                )
                &&& final(log_manager).last_saved_lsn == saved_after(
                    old(self).bufferpool@[index as int],
                    old(log_manager).latest_lsn,
                    old(log_manager).last_saved_lsn,
                )
                &&& old(self).bufferpool@[index as int].is_dirty() ==> {
                    &&& log_saved_through(
                        old(self).bufferpool@[index as int].log_sequence_number,
                        old(log_manager),
                        final(log_manager),
                    )
                }
            },
    {
        match self.find_resident(block) {
            Some(i) => {
                let ghost s = self.bufferpool@;
                if self.bufferpool[i].pins == 0 {
                    proof {
                        lemma_count_update(s, i as int, s[i as int]);
                        lemma_count_bound(s, i as int);
                    }
                    self.available = self.available - 1;
                }
                self.bufferpool[i].pin();
                proof {
                    lemma_count_update(s, i as int, self.bufferpool@[i as int]);
                    assert(s[i as int].wf());
                    lemma_pool_ok_update(s, i as int, self.bufferpool@[i as int]);
                    assert(self.bufferpool@ =~= s.update(i as int, self.bufferpool@[i as int]));
                }
                return Ok(Pinned::Resident(i));
            },
            None => {},
        }
        match self.choose_unpinned() {
            None => {
                proof {
                    lemma_count_zero(self.bufferpool@);
                }
                Err(BufferError::Exhausted)
            },
            Some(i) => {
                let ghost s = self.bufferpool@;
                proof {
                    lemma_count_bound(s, i as int);
                }
                let writes = self.bufferpool[i].assign_to_block(block.copy(), log_manager);
                self.bufferpool[i].pin();
                proof {
                    lemma_count_update(s, i as int, self.bufferpool@[i as int]);
                    assert(s[i as int].wf());
                    lemma_pool_ok_update(s, i as int, self.bufferpool@[i as int]);
                    assert(self.bufferpool@ =~= s.update(i as int, self.bufferpool@[i as int]));
                }
                self.available = self.available - 1;
                Ok(Pinned::Assigned { index: i, writes })
            },
        }
    }

    /// Drops one pin of buffer `index`; at no pins left it may be reassigned.
    pub fn unpin(&mut self, index: usize)
        requires
            old(self).wf(),
            index < old(self).bufferpool@.len(),
            old(self).bufferpool@[index as int].pins > 0,
        ensures
            final(self).wf(),
            final(self).bufferpool@.len() == old(self).bufferpool@.len(),
            final(self).bufferpool@[index as int].pins == old(self).bufferpool@[index as int].pins - 1,
            final(self).bufferpool@[index as int].same_state_but_pins(&old(self).bufferpool@[index as int]),
            forall|j: int| 0 <= j < old(self).bufferpool@.len() && j != index ==> final(self).bufferpool@[j]
                == old(self).bufferpool@[j],
            final(self).available == old(self).available + if old(self).bufferpool@[index as int].pins
                == 1 {
                1int
            } else {
                0int
            },
    {
        let ghost s = self.bufferpool@;
        self.bufferpool[index].unpin();
        proof {
            lemma_count_update(s, index as int, self.bufferpool@[index as int]);
            lemma_count_bound(self.bufferpool@, index as int);
            assert(s[index as int].wf());
            lemma_pool_ok_update(s, index as int, self.bufferpool@[index as int]);
            assert(self.bufferpool@ =~= s.update(index as int, self.bufferpool@[index as int]));
        }
        let pool_len = self.bufferpool.len();
        proof {
            assert(count_unpinned(self.bufferpool@) <= pool_len);
        }
        if self.bufferpool[index].pins == 0 {
            self.available = self.available + 1;
        }
    }

    /// Stamps buffer `index` with the transaction that modified it and the
    /// log record of the change.
    pub fn set_modified(&mut self, index: usize, lsn: Option<u64>, txnum: u64)
        requires
            old(self).wf(),
            index < old(self).bufferpool@.len(),
        ensures
            final(self).wf(),
            final(self).available == old(self).available,
            final(self).bufferpool@.len() == old(self).bufferpool@.len(),
            final(self).bufferpool@[index as int].transaction_number == Some(txnum),
            final(self).bufferpool@[index as int].log_sequence_number == lsn,
            final(self).bufferpool@[index as int].contents@ == old(self).bufferpool@[index as int].contents@,
            final(self).bufferpool@[index as int].block_view() == old(self).bufferpool@[index as int].block_view(),
            final(self).bufferpool@[index as int].pins == old(self).bufferpool@[index as int].pins,
            forall|j: int| 0 <= j < old(self).bufferpool@.len() && j != index ==> final(self).bufferpool@[j]
                == old(self).bufferpool@[j],
    {
        let ghost s = self.bufferpool@;
        self.bufferpool[index].set_modified(lsn, txnum);
        proof {
            lemma_count_update(s, index as int, self.bufferpool@[index as int]);
            assert(s[index as int].wf());
            lemma_pool_ok_update(s, index as int, self.bufferpool@[index as int]);
            assert(self.bufferpool@ =~= s.update(index as int, self.bufferpool@[index as int]));
        }
    }

    /// Puts the content read from disk into buffer `index`.
    pub fn load(&mut self, index: usize, page: Page)
        requires
            old(self).wf(),
            index < old(self).bufferpool@.len(),
            page.wf(),
            page.block_size == old(self).bufferpool@[index as int].contents.block_size,
        ensures
            final(self).wf(),
            final(self).available == old(self).available,
            final(self).bufferpool@.len() == old(self).bufferpool@.len(),
            final(self).bufferpool@[index as int].contents@ == page@,
            final(self).bufferpool@[index as int].same_state_but_contents(&old(self).bufferpool@[index as int]),
            forall|j: int| 0 <= j < old(self).bufferpool@.len() && j != index ==> final(self).bufferpool@[j]
                == old(self).bufferpool@[j],
    {
        let ghost s = self.bufferpool@;
        self.bufferpool[index].load(page);
        proof {
            lemma_count_update(s, index as int, self.bufferpool@[index as int]);
            assert(s[index as int].wf());
            lemma_pool_ok_update(s, index as int, self.bufferpool@[index as int]);
            assert(self.bufferpool@ =~= s.update(index as int, self.bufferpool@[index as int]));
        }
    }
    /// Flushes every buffer that transaction `txnum` modified, each after the
    /// log records that changed it, and clears their transaction stamp.
    pub fn flush_all(&mut self, txnum: u64, log_manager: &mut LogManager) -> (r: Vec<BlockWrite>)
        requires
            old(self).wf(),
            old(log_manager).wf(),
        ensures
            final(self).wf(),
            final(log_manager).wf(),
            final(log_manager).same_records(old(log_manager)),
            final(self).available == old(self).available,
            final(self).bufferpool@.len() == old(self).bufferpool@.len(),
            writes_view(r@) == flush_all_writes(
                old(self).bufferpool@,
                txnum,
                old(log_manager).current_block@,
                old(log_manager).log_page@,
                old(log_manager).latest_lsn,
                old(log_manager).last_saved_lsn,
            ),
            final(log_manager).last_saved_lsn == flush_all_saved(
                old(self).bufferpool@,
                txnum,
                old(log_manager).latest_lsn,
                old(log_manager).last_saved_lsn,
            ),
            forall|j: int|
                0 <= j < old(self).bufferpool@.len() ==> {
                    let b = #[trigger] old(self).bufferpool@[j];
                    if b.transaction_number == Some(txnum) && b.is_dirty() {
                        &&& final(self).bufferpool@[j].same_state(&b)
                        &&& final(self).bufferpool@[j].transaction_number is None
                        &&& exists|k: int|
                            0 <= k < r@.len() && Some(r@[k].block@) == b.block_view() && r@[k].bytes@
                                == b.contents@
                        &&& log_saved_through(b.log_sequence_number, old(log_manager), final(log_manager))
                    } else {
                        final(self).bufferpool@[j] == b
                    }
                },
    {
        let mut writes: Vec<BlockWrite> = Vec::new();
        proof {
            assert(writes_view(writes@) =~= Seq::empty());
        }
        let n = self.bufferpool.len();
        let mut i: usize = 0;
        while i < n
            invariant
                n == self.bufferpool@.len(),
                n == old(self).bufferpool@.len(),
                i <= n,
                self.wf(),
                log_manager.wf(),
                log_manager.same_records(old(log_manager)),
                log_manager.last_saved_lsn >= old(log_manager).last_saved_lsn,
                self.available == old(self).available,
                writes_view(writes@) == flush_all_writes(
                    old(self).bufferpool@.subrange(0, i as int),
                    txnum,
                    old(log_manager).current_block@,
                    old(log_manager).log_page@,
                    old(log_manager).latest_lsn,
                    old(log_manager).last_saved_lsn,
                ),
                log_manager.last_saved_lsn == flush_all_saved(
                    old(self).bufferpool@.subrange(0, i as int),
                    txnum,
                    old(log_manager).latest_lsn,
                    old(log_manager).last_saved_lsn,
                ),
                forall|j: int|
                    i <= j < n ==> #[trigger] self.bufferpool@[j] == old(self).bufferpool@[j],
                forall|j: int|
                    0 <= j < i ==> {
                        let b = #[trigger] old(self).bufferpool@[j];
                        if b.transaction_number == Some(txnum) && b.is_dirty() {
                            &&& self.bufferpool@[j].same_state(&b)
                            &&& self.bufferpool@[j].transaction_number is None
                            &&& exists|k: int|
                                0 <= k < writes@.len() && Some(writes@[k].block@) == b.block_view()
                                    && writes@[k].bytes@ == b.contents@
                            &&& log_saved_through(b.log_sequence_number, old(log_manager), log_manager)
                        } else {
                            self.bufferpool@[j] == b
                        }
                    },
            decreases n - i,
        {
            if self.bufferpool[i].transaction_number == Some(txnum) {
                let ghost s = self.bufferpool@;
                let ghost w0 = writes@;
                let ghost lm0 = *log_manager;
                proof {
                    assert(s[i as int].wf());
                }
                let mut w = self.bufferpool[i].flush(log_manager);
                proof {
                    lemma_count_update(s, i as int, self.bufferpool@[i as int]);
                    lemma_pool_ok_update(s, i as int, self.bufferpool@[i as int]);
                    assert(self.bufferpool@ =~= s.update(i as int, self.bufferpool@[i as int]));
                }
                let ghost wl = w@;
                writes.append(&mut w);
                proof {
                    assert(writes@ == w0 + wl);
                    assert(writes_view(writes@) =~= writes_view(w0) + writes_view(wl));
                    assert(old(self).bufferpool@.subrange(0, i + 1).drop_last() =~= old(
                        self,
                    ).bufferpool@.subrange(0, i as int));
                    assert forall|j: int| 0 <= j < i + 1 implies {
                        let b = #[trigger] old(self).bufferpool@[j];
                        if b.transaction_number == Some(txnum) && b.is_dirty() {
                            &&& self.bufferpool@[j].same_state(&b)
                            &&& self.bufferpool@[j].transaction_number is None
                            &&& exists|k: int|
                                0 <= k < writes@.len() && Some(writes@[k].block@) == b.block_view()
                                    && writes@[k].bytes@ == b.contents@
                            &&& log_saved_through(b.log_sequence_number, old(log_manager), log_manager)
                        } else {
                            self.bufferpool@[j] == b
                        }
                    } by {
                        let b = old(self).bufferpool@[j];
                        assert(log_manager.last_saved_lsn >= lm0.last_saved_lsn);
                        if j < i {
                            assert(self.bufferpool@[j] == s[j]);
                        }
                        if b.transaction_number == Some(txnum) && b.is_dirty() {
                            if j < i {
                                let k = choose|k: int|
                                    0 <= k < w0.len() && Some(w0[k].block@) == b.block_view()
                                        && w0[k].bytes@ == b.contents@;
                                assert(writes@[k] == w0[k]);
                            } else {
                                let bv = buffer_flush_writes(
                                    b,
                                    lm0.current_block@,
                                    lm0.log_page@,
                                    lm0.last_saved_lsn,
                                );
                                assert(writes_view(wl) == bv);
                                assert(wl.len() == bv.len());
                                assert(writes_view(wl)[wl.len() - 1] == write_view(wl.last()));
                                assert(bv[bv.len() - 1] == (b.block_view()->Some_0, b.contents@));
                                let k = w0.len() + wl.len() - 1;
                                assert(writes@[k] == wl.last());
                            }
                        }
                    }
                }
            } else {
                proof {
                    assert(old(self).bufferpool@.subrange(0, i + 1).drop_last() =~= old(
                        self,
                    ).bufferpool@.subrange(0, i as int));
                }
            }
            i = i + 1;
        }
        proof {
            assert(old(self).bufferpool@.subrange(0, n as int) =~= old(self).bufferpool@);
        }
        writes
    }
    /// Gives up buffer `index` after a failed hand-over: its block's content
    /// never arrived, so it holds no block and no pin any more.
    pub fn release(&mut self, index: usize)
        requires
            old(self).wf(),
            index < old(self).bufferpool@.len(),
            old(self).bufferpool@[index as int].pins == 1,
        ensures
            final(self).wf(),
            final(self).bufferpool@.len() == old(self).bufferpool@.len(),
            final(self).available == old(self).available + 1,
            final(self).bufferpool@[index as int].block is None,
            final(self).bufferpool@[index as int].pins == 0,
            final(self).bufferpool@[index as int].transaction_number is None,
            final(self).bufferpool@[index as int].log_sequence_number is None,
            final(self).bufferpool@[index as int].contents.block_size == old(self).bufferpool@[index as int].contents.block_size,
            forall|j: int| 0 <= j < old(self).bufferpool@.len() && j != index ==> final(self).bufferpool@[j]
                == old(self).bufferpool@[j],
    {
        let ghost s = self.bufferpool@;
        let pool_len = self.bufferpool.len();
        self.bufferpool[index].block = None;
        self.bufferpool[index].pins = 0;
        self.bufferpool[index].transaction_number = None;
        self.bufferpool[index].log_sequence_number = None;
        proof {
            assert(s[index as int].wf());
            lemma_count_update(s, index as int, self.bufferpool@[index as int]);
            lemma_pool_ok_update(s, index as int, self.bufferpool@[index as int]);
            assert(self.bufferpool@ =~= s.update(index as int, self.bufferpool@[index as int]));
            lemma_count_bound(self.bufferpool@, index as int);
            assert(count_unpinned(self.bufferpool@) <= pool_len);
        }
        self.available = self.available + 1;
    }
}

} // verus!
