use vstd::prelude::*;
use vstd::utf8::encode_utf8;

verus! {

/// Names a block: a file and the block's number in it.
#[derive(Debug)]
pub struct BlockId {
    pub filename: String,
    pub block_number: u64,
}

impl View for BlockId {
    type V = (Seq<char>, u64);

    open spec fn view(&self) -> (Seq<char>, u64) {
        (self.filename@, self.block_number)
    }
}

impl BlockId {
    pub fn new(filename: String, block_number: u64) -> (r: BlockId)
        ensures
            r@ == (filename@, block_number),
    {
        BlockId { filename, block_number }
    }

    /// A second identifier naming the same block.
    pub fn copy(&self) -> (r: BlockId)
        ensures
            r@ == self@,
    {
        BlockId { filename: self.filename.clone(), block_number: self.block_number }
    }

    /// Whether both identifiers name the same block.
    pub fn same(&self, other: &BlockId) -> (r: bool)
        ensures
            r == (self@ == other@),
    {
        self.block_number == other.block_number && self.filename == other.filename
    }
}

/// A block's new contents, to be written to its place in its file.
#[derive(Debug)]
pub struct BlockWrite {
    pub block: BlockId,
    pub bytes: Vec<u8>,
}

/// A block write as plain values: the block it goes to and its bytes.
pub open spec fn write_view(w: BlockWrite) -> ((Seq<char>, u64), Seq<u8>) {
    (w.block@, w.bytes@)
}

pub open spec fn writes_view(ws: Seq<BlockWrite>) -> Seq<((Seq<char>, u64), Seq<u8>)> {
    ws.map_values(|w: BlockWrite| write_view(w))
}

#[derive(Debug, Clone, Copy, PartialEq, Eq, Structural)]
pub enum FileError {
    /// A read returned fewer bytes than a block holds.
    ShortRead,
    /// The block's byte offset does not fit in 64 bits.
    OffsetOverflow,
}

/// The bytes of `name` begin with the prefix of leftover temporary files.
pub open spec fn is_temp_name(name: Seq<char>) -> bool {
    let b = encode_utf8(name);
    b.len() >= 4 && b[0] == 116u8 && b[1] == 101u8 && b[2] == 109u8 && b[3] == 112u8
}

/// Length of a file of `len` bytes after a block is written at block number
/// `len / bs`.
pub open spec fn appended_length(len: int, bs: int) -> int {
    (len / bs) * bs + bs
}

/// Maps blocks to byte ranges of the files in one directory. Every block is
/// `blocksize` bytes long and block `n` starts at byte `n * blocksize`.
pub struct FileManager {
    pub dir: String,
    pub blocksize: u64,
}

impl FileManager {
    pub open spec fn wf(&self) -> bool {
        self.blocksize > 0
    }

    pub fn new(dir: String, blocksize: u64) -> (r: FileManager)
        requires
            blocksize > 0,
        ensures
            r.wf(),
            r.dir@ == dir@,
            r.blocksize == blocksize,
    {
        FileManager { dir, blocksize }
    }

    /// Whether a directory entry is a temporary file that a crashed run left.
    pub fn is_stale_temp(name: &str) -> (r: bool)
        ensures
            r == is_temp_name(name@),
    {
        let b = name.as_bytes();
        b.len() >= 4 && b[0] == 116u8 && b[1] == 101u8 && b[2] == 109u8 && b[3] == 112u8
    }

    /// Byte offset of `block` in its file.
    pub fn block_offset(&self, block: &BlockId) -> (r: Result<u64, FileError>)
        ensures
            r is Ok <==> block.block_number * self.blocksize <= u64::MAX,
            r matches Ok(off) ==> off == block.block_number * self.blocksize,
            r is Err ==> r == Err::<u64, FileError>(FileError::OffsetOverflow),
    {
        if self.blocksize != 0 && block.block_number > u64::MAX / self.blocksize {
            proof {
                assert(block.block_number * self.blocksize > u64::MAX) by (nonlinear_arith)
                    requires
                        block.block_number > u64::MAX / self.blocksize,
                        self.blocksize > 0,
                ;
            }
            return Err(FileError::OffsetOverflow);
        }
        proof {
            if self.blocksize != 0 {
                assert(block.block_number * self.blocksize <= u64::MAX) by (nonlinear_arith)
                    requires
                        block.block_number <= u64::MAX / self.blocksize,
                        self.blocksize > 0,
                ;
            }
        }
        Ok(block.block_number * self.blocksize)
    }

    /// The block that appending to a file of `length` bytes creates.
    pub fn append_block(&self, filename: String, length: u64) -> (r: BlockId)
        requires
            self.wf(),
        ensures
            r@ == (filename@, length / self.blocksize),
    {
        BlockId::new(filename, length / self.blocksize)
    }

    /// Checks that a read filled a whole block.
    pub fn check_read(&self, n_read: u64) -> (r: Result<(), FileError>)
        ensures
            r is Ok <==> n_read == self.blocksize,
            r is Err ==> r == Err::<(), FileError>(FileError::ShortRead),
    {
        if n_read == self.blocksize {
            Ok(())
        } else {
            Err(FileError::ShortRead)
        }
    }
}

/// Appending a block to a file whose length is a multiple of the block size
/// makes it exactly one block longer, still a multiple of the block size, and
/// the new block's number is the old length over the block size.
pub proof fn lemma_append_monotone(len: int, bs: int)
    requires
        bs > 0,
        len >= 0,
        len % bs == 0,
    ensures
        appended_length(len, bs) == len + bs,
        appended_length(len, bs) % bs == 0,
        (len / bs) * bs == len,
{
    assert((len / bs) * bs == len) by (nonlinear_arith)
        requires
            bs > 0,
            len % bs == 0,
    ;
    assert((len + bs) % bs == 0) by (nonlinear_arith)
        requires
            bs > 0,
            len % bs == 0,
    ;
}

} // verus!
