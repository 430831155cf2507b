//! Staging, committing and collecting calls in a block.
//!
//! A call is described by a [`Request`]: its number, an argument vector
//! whose slots are values or references to regions, and the regions
//! themselves, each of which is an input, an output, or both. Staging
//! reserves the item and its regions from a bump allocator and builds the
//! argument vector, with every region reference turned into an offset from
//! the start of the item's data. Committing writes the item and the initial
//! bytes of the input regions into the block. Collecting reads the return
//! registers and the output regions back after the host has run.
//!
//! Each region starts on a word boundary, which meets the alignment of any
//! type that a region holds.
use vstd::prelude::*;

use crate::item::{
    errno_word, read_word, splice, word_at, word_bytes, word_result, write_word, HEADER_SIZE,
    SYSCALL_PAYLOAD_SIZE,
};
use crate::host::item_at;
use crate::item::Item;
use crate::libc::{EINVAL, ENOMEM, ENOSYS};
use crate::Result;

verus! {

/// `n` rounded up to a whole number of words.
pub open spec fn padded(n: int) -> int {
    n + (8 - n % 8) % 8
}

/// Bytes that regions of lengths `lens` take one after another, each
/// starting on a word boundary.
pub open spec fn span(lens: Seq<usize>) -> int
    decreases lens.len(),
{
    if lens.len() == 0 {
        0
    } else {
        span(lens.drop_last()) + padded(lens.last() as int)
    }
}

/// Regions never take less room when more of them follow.
pub proof fn lemma_span_monotonic(lens: Seq<usize>, k: int)
    requires
        0 <= k <= lens.len(),
    ensures
        0 <= span(lens.take(k)) <= span(lens),
        span(lens) % 8 == 0,
    decreases lens.len(),
{
    if lens.len() == 0 {
        assert(lens.take(k) =~= lens);
    } else {
        if k < lens.len() {
            assert(lens.drop_last().take(k) =~= lens.take(k));
            lemma_span_monotonic(lens.drop_last(), k);
        } else {
            assert(lens.take(k) =~= lens);
            lemma_span_monotonic(lens.drop_last(), 0);
        }
    }
}

/// Each region ends within the span of all of them.
pub proof fn lemma_region_in_span(lens: Seq<usize>, i: int)
    requires
        0 <= i < lens.len(),
    ensures
        span(lens.take(i)) + lens[i] <= span(lens),
{
    assert(lens.take(i + 1).drop_last() =~= lens.take(i));
    lemma_span_monotonic(lens, i + 1);
}

/// Which way a region's bytes travel.
#[derive(Clone, Copy, Debug, PartialEq, Eq, Structural)]
pub enum Dir {
    /// Guest to host: written at commit.
    In,
    /// Host to guest: read at collect.
    Out,
    /// Both: written at commit and read at collect.
    InOut,
}

/// A region that a call needs in the block.
#[derive(Clone, Debug)]
pub struct RegionReq {
    pub dir: Dir,
    /// Bytes of the region.
    pub len: usize,
    /// The initial bytes of an input region; empty for an output region.
    pub bytes: Vec<u8>,
}

impl RegionReq {
    pub open spec fn wf(&self) -> bool {
        match self.dir {
            Dir::Out => self.bytes@.len() == 0,
            _ => self.bytes@.len() == self.len,
        }
    }
}

/// A slot of an argument vector.
#[derive(Clone, Copy, Debug, PartialEq, Eq, Structural)]
pub enum Slot {
    /// A value.
    Word(u64),
    /// A reference to the region of this index.
    Region(usize),
    /// A null reference.
    Null,
}

/// What a call stages: its number, its argument vector, and its regions.
#[derive(Clone, Debug)]
pub struct Request {
    pub num: i64,
    pub argv: [Slot; 6],
    pub regions: Vec<RegionReq>,
}

/// The lengths of the regions of `regions`.
pub open spec fn lens_of(regions: Seq<RegionReq>) -> Seq<usize> {
    regions.map_values(|r: RegionReq| r.len)
}

impl Request {
    /// Every input region holds its initial bytes, and every region slot
    /// names a region.
    pub open spec fn wf(&self) -> bool {
        &&& forall|k: int| 0 <= k < self.regions@.len() ==> #[trigger] self.regions@[k].wf()
        &&& forall|j: int|
            0 <= j < 6 ==> (#[trigger] self.argv@[j] matches Slot::Region(k) ==> k
                < self.regions@.len())
    }

    /// The bytes of data that this request takes after its payload.
    pub open spec fn data_size(&self) -> int {
        span(lens_of(self.regions@))
    }
}

/// The argument word of slot `s` when region `k` stands at data offset
/// `offsets[k]`.
pub open spec fn slot_word(s: Slot, offsets: Seq<usize>) -> u64 {
    match s {
        Slot::Word(v) => v,
        Slot::Region(k) => offsets[k as int] as u64,
        Slot::Null => 0,
    }
}

/// A bump allocator over a block: the bytes from `offset` to `end` are
/// free, and the `End` header always fits after `end`.
#[derive(Debug)]
pub struct Alloc {
    pub offset: usize,
    pub end: usize,
}

impl Alloc {
    pub open spec fn wf(&self) -> bool {
        &&& self.offset <= self.end
        &&& self.offset % 8 == 0
        &&& self.end % 8 == 0
        &&& self.end + HEADER_SIZE <= usize::MAX
    }

    /// An allocator over a whole block of `len` bytes; `EINVAL`-free: a
    /// block too small even for its `End` header, or not a whole number of
    /// words, gives `None`.
    pub fn new(len: usize) -> (r: Option<Alloc>)
        ensures
            match r {
                Some(a) => a.wf() && a.offset == 0 && a.end + HEADER_SIZE == len,
                None => len < HEADER_SIZE || len % 8 != 0,
            },
    {
        if len < HEADER_SIZE || len % 8 != 0 {
            None
        } else {
            Some(Alloc { offset: 0, end: len - HEADER_SIZE })
        }
    }
}

/// A staged syscall: where its item stands and what it will write there.
#[derive(Debug)]
pub struct StagedSyscall {
    /// Block position of the item header.
    pub header: usize,
    pub num: u64,
    /// The argument vector, offsets included.
    pub argv: [u64; 6],
    /// Bytes of data after the payload, padding included.
    pub staged_size: usize,
    /// Block positions of the regions.
    pub positions: Vec<usize>,
    /// The regions, with the initial bytes of the inputs.
    pub regions: Vec<RegionReq>,
}

impl StagedSyscall {
    /// Block position of the item's data.
    pub open spec fn data(&self) -> int {
        self.header + HEADER_SIZE + SYSCALL_PAYLOAD_SIZE
    }

    /// Block position just past the item.
    pub open spec fn end(&self) -> int {
        self.data() + self.staged_size
    }

    /// Every region lies in the item's data, and every input region holds
    /// its initial bytes.
    pub open spec fn wf(&self) -> bool {
        &&& self.positions@.len() == self.regions@.len()
        &&& self.staged_size % 8 == 0
        &&& self.end() <= usize::MAX
        &&& forall|k: int|
            0 <= k < self.regions@.len() ==> {
                &&& #[trigger] self.regions@[k].wf()
                &&& self.data() <= self.positions@[k]
                &&& self.positions@[k] + self.regions@[k].len <= self.end()
            }
    }

    /// Where request `req` staged at block position `header` puts its item
    /// and regions: one after another from the start of its data, each on a
    /// word boundary; each region slot of the argument vector holds the
    /// offset of its region from the start of the data.
    pub open spec fn staged_from(&self, req: Request, header: int) -> bool {
        let lens = lens_of(req.regions@);
        &&& self.header == header
        &&& self.num == req.num as u64
        &&& self.staged_size == span(lens)
        &&& self.regions@ == req.regions@
        &&& self.positions@.len() == lens.len()
        &&& forall|k: int|
            0 <= k < lens.len() ==> #[trigger] self.positions@[k] == self.data() + span(
                lens.take(k),
            )
        &&& forall|j: int|
            0 <= j < 6 ==> #[trigger] self.argv@[j] == slot_word(
                req.argv@[j],
                self.positions@.map_values(|p: usize| (p - self.data()) as usize),
            )
    }
}

/// Stages `req` into the free bytes of `alloc`: the item header and payload,
/// then the regions. `ENOMEM` exactly where they do not fit, and then the
/// allocator is left as it was.
#[verifier::rlimit(80)]
pub fn stage(alloc: &mut Alloc, req: Request) -> (r: Result<StagedSyscall>)
    requires
        old(alloc).wf(),
        req.wf(),
    ensures
        final(alloc).wf(),
        final(alloc).end == old(alloc).end,
        match r {
            Ok(st) => {
                &&& st.wf()
                &&& st.staged_from(req, old(alloc).offset as int)
                &&& final(alloc).offset == st.end()
            },
            Err(e) => {
                &&& e == ENOMEM
                &&& *final(alloc) == *old(alloc)
                &&& old(alloc).offset + HEADER_SIZE + SYSCALL_PAYLOAD_SIZE + req.data_size()
                    > old(alloc).end
            },
        },
{
    let header = alloc.offset;
    let end = alloc.end;
    if end - header < HEADER_SIZE + SYSCALL_PAYLOAD_SIZE {
        proof {
            lemma_span_monotonic(lens_of(req.regions@), 0);
        }
        return Err(ENOMEM);
    }
    let data = header + HEADER_SIZE + SYSCALL_PAYLOAD_SIZE;
    let ghost lens = lens_of(req.regions@);
    let n = req.regions.len();
    let mut cur = data;
    let mut positions: Vec<usize> = Vec::new();
    let mut k: usize = 0;
    while k < n
        invariant
            *alloc == *old(alloc),
            alloc.wf(),
            header == alloc.offset,
            end == alloc.end,
            req.wf(),
            n == req.regions@.len(),
            lens == lens_of(req.regions@),
            0 <= k <= n,
            data <= cur <= end,
            end + HEADER_SIZE <= usize::MAX,
            data == header + HEADER_SIZE + SYSCALL_PAYLOAD_SIZE,
            cur == data + span(lens.take(k as int)),
            positions@.len() == k,
            forall|j: int| 0 <= j < k ==> #[trigger] positions@[j] == data + span(lens.take(j)),
            forall|j: int| 0 <= j < k ==> data <= #[trigger] positions@[j] <= cur,
        decreases n - k,
    {
        let len = req.regions[k].len;
        assert(lens.take(k + 1).drop_last() =~= lens.take(k as int));
        assert(lens[k as int] == len);
        if end - cur < len || end - cur - len < (8 - len % 8) % 8 {
            proof {
                lemma_span_monotonic(lens.take(k + 1), k + 1);
                lemma_span_monotonic(lens, k + 1);
                assert(lens.take(k + 1).take(k + 1) =~= lens.take(k + 1));
            }
            return Err(ENOMEM);
        }
        positions.push(cur);
        cur = cur + len + (8 - len % 8) % 8;
        k = k + 1;
    }
    assert(lens.take(n as int) =~= lens);
    let mut argv: [u64; 6] = [0; 6];
    let mut j: usize = 0;
    let ghost offsets = positions@.map_values(|p: usize| (p - data) as usize);
    while j < 6
        invariant
            0 <= j <= 6,
            req.wf(),
            positions@.len() == n,
            n == req.regions@.len(),
            offsets == positions@.map_values(|p: usize| (p - data) as usize),
            forall|i: int| 0 <= i < n ==> data <= #[trigger] positions@[i] <= end,
            forall|i: int| 0 <= i < j ==> #[trigger] argv@[i] == slot_word(req.argv@[i], offsets),
        decreases 6 - j,
    {
        let w = match req.argv[j] {
            Slot::Word(v) => v,
            Slot::Region(i) => (positions[i] - data) as u64,
            Slot::Null => 0,
        };
        argv[j] = w;
        j = j + 1;
    }
    proof {
        lemma_span_monotonic(lens, 0);
    }
    alloc.offset = cur;
    let st = StagedSyscall {
        header,
        num: #[verifier::truncate] (req.num as u64),
        argv,
        staged_size: cur - data,
        positions,
        regions: req.regions,
    };
    proof {
        lemma_staged_wf(st, req, header as int);
    }
    Ok(st)
}

/// A request staged as [`stage`] says is well formed.
pub proof fn lemma_staged_wf(st: StagedSyscall, req: Request, header: int)
    requires
        req.wf(),
        st.staged_from(req, header),
        st.end() <= usize::MAX,
    ensures
        st.wf(),
{
    let lens = lens_of(req.regions@);
    lemma_span_monotonic(lens, 0);
    assert forall|k: int| 0 <= k < st.regions@.len() implies {
        &&& #[trigger] st.regions@[k].wf()
        &&& st.data() <= st.positions@[k]
        &&& st.positions@[k] + st.regions@[k].len <= st.end()
    } by {
        assert(req.regions@[k].wf());
        assert(lens[k] == req.regions@[k].len);
        assert(st.positions@[k] == st.data() + span(lens.take(k)));
        lemma_span_monotonic(lens, k);
        lemma_region_in_span(lens, k);
    }
}

// ---------------------------------------------------------------------------
// Commit
// ---------------------------------------------------------------------------

/// The 88 bytes that open a syscall item: its header, number, argument
/// vector, and the return registers preset to `[-ENOSYS, 0]`.
pub open spec fn item_head(size: u64, num: u64, argv: Seq<u64>) -> Seq<u8> {
    word_bytes(size) + word_bytes(1) + word_bytes(num) + word_bytes(argv[0]) + word_bytes(argv[1])
        + word_bytes(argv[2]) + word_bytes(argv[3]) + word_bytes(argv[4]) + word_bytes(argv[5])
        + word_bytes(errno_word(ENOSYS as int)) + word_bytes(0)
}

/// `s` with the initial bytes of the first `k` regions of `st` written at
/// their positions.
pub open spec fn write_inputs(s: Seq<u8>, st: StagedSyscall, k: int) -> Seq<u8>
    decreases k,
{
    if k <= 0 {
        s
    } else {
        let prev = write_inputs(s, st, k - 1);
        let r = st.regions@[k - 1];
        if r.dir == Dir::Out {
            prev
        } else {
            splice(prev, st.positions@[k - 1] as int, r.bytes@)
        }
    }
}

/// The block `s` after `st` is committed into it.
pub open spec fn commit_spec(s: Seq<u8>, st: StagedSyscall) -> Seq<u8> {
    write_inputs(
        splice(
            s,
            st.header as int,
            item_head((SYSCALL_PAYLOAD_SIZE + st.staged_size) as u64, st.num, st.argv@),
        ),
        st,
        st.regions@.len() as int,
    )
}

/// Writing `a` and then `b` just after it is writing `a + b`.
pub proof fn lemma_splice_concat(s: Seq<u8>, p: int, a: Seq<u8>, b: Seq<u8>)
    requires
        0 <= p,
        p + a.len() + b.len() <= s.len(),
    ensures
        splice(splice(s, p, a), p + a.len(), b) == splice(s, p, a + b),
{
    assert(splice(splice(s, p, a), p + a.len(), b) =~= splice(s, p, a + b));
}

/// Writes `bytes` at block position `pos`.
pub fn write_bytes(block: &mut Vec<u8>, pos: usize, bytes: &Vec<u8>)
    requires
        pos + bytes@.len() <= old(block)@.len(),
    ensures
        final(block)@ == splice(old(block)@, pos as int, bytes@),
{
    let n = bytes.len();
    let _len = block.len();
    let mut i: usize = 0;
    while i < n
        invariant
            n == bytes@.len(),
            _len == old(block)@.len(),
            0 <= i <= n,
            pos + n <= old(block)@.len(),
            block@ == splice(old(block)@, pos as int, bytes@.take(i as int)),
        decreases n - i,
    {
        block.set(pos + i, bytes[i]);
        i = i + 1;
        assert(block@ =~= splice(old(block)@, pos as int, bytes@.take(i as int)));
    }
    assert(bytes@.take(n as int) =~= bytes@);
}

/// What a committed syscall keeps for collecting: where its return
/// registers and its regions stand.
#[derive(Debug)]
pub struct CommittedSyscall {
    /// Block position of the first return register.
    pub ret_at: usize,
    /// Block positions of the regions.
    pub positions: Vec<usize>,
    /// Directions of the regions.
    pub dirs: Vec<Dir>,
    /// Lengths of the regions.
    pub lens: Vec<usize>,
}

impl CommittedSyscall {
    pub open spec fn wf(&self, block_len: int) -> bool {
        &&& self.ret_at + 16 <= block_len
        &&& self.positions@.len() == self.dirs@.len()
        &&& self.lens@.len() == self.dirs@.len()
        &&& forall|k: int|
            0 <= k < self.dirs@.len() ==> #[trigger] self.positions@[k] + self.lens@[k]
                <= block_len
    }

    /// What is kept of `st` for collecting.
    pub open spec fn committed_from(&self, st: StagedSyscall) -> bool {
        &&& self.ret_at == st.header + HEADER_SIZE + 56
        &&& self.positions@ == st.positions@
        &&& self.dirs@ == st.regions@.map_values(|r: RegionReq| r.dir)
        &&& self.lens@ == lens_of(st.regions@)
    }
}

/// Commits `st` into the block: writes its header, number, argument vector
/// and the return registers `[-ENOSYS, 0]`, then the initial bytes of its
/// input regions. Nothing else in the block changes.
#[verifier::rlimit(80)]
pub fn commit(block: &mut Vec<u8>, st: StagedSyscall) -> (r: CommittedSyscall)
    requires
        st.wf(),
        st.end() <= old(block)@.len(),
    ensures
        final(block)@ == commit_spec(old(block)@, st),
        final(block)@.len() == old(block)@.len(),
        r.committed_from(st),
        r.wf(old(block)@.len() as int),
{
    let _n = block.len();
    let h = st.header;
    let size = (SYSCALL_PAYLOAD_SIZE + st.staged_size) as u64;
    let ghost s0 = block@;
    let words: [u64; 11] = [
        size,
        1,
        st.num,
        st.argv[0],
        st.argv[1],
        st.argv[2],
        st.argv[3],
        st.argv[4],
        st.argv[5],
        u64::MAX - (ENOSYS as u64) + 1,
        0,
    ];
    let ghost mut written: Seq<u8> = Seq::empty();
    let mut i: usize = 0;
    while i < 11
        invariant
            0 <= i <= 11,
            h + 88 <= s0.len(),
            s0.len() == _n,
            block@.len() == s0.len(),
            written.len() == 8 * i,
            block@ == splice(s0, h as int, written),
            forall|j: int| 0 <= j < i ==> written.subrange(8 * j, 8 * j + 8) == word_bytes(words@[j]),
        decreases 11 - i,
    {
        let ghost before = block@;
        write_word(block, h + 8 * i, words[i]);
        proof {
            lemma_splice_concat(s0, h as int, written, word_bytes(words@[i as int]));
            let w2 = written + word_bytes(words@[i as int]);
            assert forall|j: int| 0 <= j < i + 1 implies w2.subrange(8 * j, 8 * j + 8) == word_bytes(
                words@[j],
            ) by {
                if j < i {
                    assert(w2.subrange(8 * j, 8 * j + 8) =~= written.subrange(8 * j, 8 * j + 8));
                } else {
                    assert(w2.subrange(8 * j, 8 * j + 8) =~= word_bytes(words@[i as int]));
                }
            }
            written = w2;
        }
        i = i + 1;
    }
    proof {
        let head = item_head(size, st.num, st.argv@);
        assert(head.len() == 88);
        assert forall|j: int| 0 <= j < 88 implies written[j] == head[j] by {
            let q = j / 8;
            assert(written.subrange(8 * q, 8 * q + 8)[j - 8 * q] == written[j]);
        }
        assert(written =~= head);
    }
    let ghost s1 = block@;
    let n = st.regions.len();
    let mut k: usize = 0;
    while k < n
        invariant
            st.wf(),
            st.end() <= s1.len(),
            n == st.regions@.len(),
            0 <= k <= n,
            block@ == write_inputs(s1, st, k as int),
            block@.len() == s1.len(),
        decreases n - k,
    {
        assert(st.regions@[k as int].wf());
        if st.regions[k].dir != Dir::Out {
            write_bytes(block, st.positions[k], &st.regions[k].bytes);
        }
        k = k + 1;
    }
    let mut dirs: Vec<Dir> = Vec::new();
    let mut lens: Vec<usize> = Vec::new();
    let mut k: usize = 0;
    while k < n
        invariant
            n == st.regions@.len(),
            0 <= k <= n,
            dirs@ == st.regions@.take(k as int).map_values(|r: RegionReq| r.dir),
            lens@ == lens_of(st.regions@.take(k as int)),
        decreases n - k,
    {
        dirs.push(st.regions[k].dir);
        lens.push(st.regions[k].len);
        k = k + 1;
        assert(dirs@ =~= st.regions@.take(k as int).map_values(|r: RegionReq| r.dir));
        assert(lens@ =~= lens_of(st.regions@.take(k as int)));
    }
    assert(st.regions@.take(n as int) =~= st.regions@);
    assert forall|k: int| 0 <= k < n implies #[trigger] st.positions@[k] + lens@[k] <= s0.len() by {
        assert(st.regions@[k].wf());
    }
    CommittedSyscall { ret_at: h + HEADER_SIZE + 56, positions: st.positions, dirs, lens }
}

// ---------------------------------------------------------------------------
// Collect
// ---------------------------------------------------------------------------

/// What the guest reads back of a call: the result in its return register,
/// and the bytes of each output region (empty for an input region).
#[derive(Debug)]
pub struct Collected {
    pub ret: Result<u64>,
    pub outputs: Vec<Vec<u8>>,
}

/// What `c` collects from block `s`.
pub open spec fn collected_from(s: Seq<u8>, c: CommittedSyscall, r: Collected) -> bool {
    &&& r.ret == word_result(word_at(s, c.ret_at as int))
    &&& r.outputs@.len() == c.dirs@.len()
    &&& forall|k: int|
        0 <= k < c.dirs@.len() ==> #[trigger] r.outputs@[k]@ == if c.dirs@[k] == Dir::In {
            Seq::<u8>::empty()
        } else {
            s.subrange(c.positions@[k] as int, c.positions@[k] + c.lens@[k])
        }
}

/// Reads `len` bytes of the block from position `pos`.
pub fn read_bytes(block: &Vec<u8>, pos: usize, len: usize) -> (r: Vec<u8>)
    requires
        pos + len <= block@.len(),
    ensures
        r@ == block@.subrange(pos as int, pos + len),
{
    let _n = block.len();
    let mut r: Vec<u8> = Vec::new();
    let mut i: usize = 0;
    while i < len
        invariant
            _n == block@.len(),
            0 <= i <= len,
            pos + len <= block@.len(),
            r@ == block@.subrange(pos as int, pos + i),
        decreases len - i,
    {
        r.push(block[pos + i]);
        i = i + 1;
        assert(r@ =~= block@.subrange(pos as int, pos + i));
    }
    r
}

/// Collects `c` from the block after the host has run.
pub fn collect(block: &Vec<u8>, c: &CommittedSyscall) -> (r: Collected)
    requires
        c.wf(block@.len() as int),
    ensures
        collected_from(block@, *c, r),
{
    let ret = word_to_result_at(block, c.ret_at);
    let n = c.dirs.len();
    let mut outputs: Vec<Vec<u8>> = Vec::new();
    let mut k: usize = 0;
    while k < n
        invariant
            c.wf(block@.len() as int),
            n == c.dirs@.len(),
            0 <= k <= n,
            outputs@.len() == k,
            forall|j: int|
                0 <= j < k ==> #[trigger] outputs@[j]@ == if c.dirs@[j] == Dir::In {
                    Seq::<u8>::empty()
                } else {
                    block@.subrange(c.positions@[j] as int, c.positions@[j] + c.lens@[j])
                },
        decreases n - k,
    {
        if c.dirs[k] == Dir::In {
            outputs.push(Vec::new());
        } else {
            outputs.push(read_bytes(block, c.positions[k], c.lens[k]));
        }
        k = k + 1;
    }
    Collected { ret, outputs }
}

fn word_to_result_at(block: &Vec<u8>, pos: usize) -> (r: Result<u64>)
    requires
        pos + 8 <= block@.len(),
    ensures
        r == word_result(word_at(block@, pos as int)),
{
    let w = read_word(block, pos);
    crate::item::word_to_result(w)
}

// ---------------------------------------------------------------------------
// Batches
// ---------------------------------------------------------------------------

/// Bytes that the items of `reqs` take one after another.
pub open spec fn batch_size(reqs: Seq<Request>) -> int
    decreases reqs.len(),
{
    if reqs.len() == 0 {
        0
    } else {
        batch_size(reqs.drop_last()) + HEADER_SIZE + SYSCALL_PAYLOAD_SIZE + reqs.last().data_size()
    }
}

/// More calls never take less room.
pub proof fn lemma_batch_size_monotonic(reqs: Seq<Request>, k: int)
    requires
        0 <= k <= reqs.len(),
    ensures
        0 <= batch_size(reqs.take(k)) <= batch_size(reqs),
    decreases reqs.len(),
{
    if reqs.len() == 0 {
        assert(reqs.take(k) =~= reqs);
    } else {
        lemma_span_monotonic(lens_of(reqs.last().regions@), 0);
        if k < reqs.len() {
            assert(reqs.drop_last().take(k) =~= reqs.take(k));
            lemma_batch_size_monotonic(reqs.drop_last(), k);
        } else {
            assert(reqs.take(k) =~= reqs);
            lemma_batch_size_monotonic(reqs.drop_last(), 0);
        }
    }
}

/// A staged batch: its calls, one after another from the start of the
/// block, and the `End` header after them.
#[derive(Debug)]
pub struct StagedBatch {
    pub calls: Vec<StagedSyscall>,
    /// Block position of the `End` header.
    pub end_at: usize,
    /// Bytes of the block.
    pub len: usize,
}

impl StagedBatch {
    /// The size that the `End` header carries: the bytes left after it.
    pub open spec fn end_size(&self) -> int {
        self.len - self.end_at - HEADER_SIZE
    }

    /// How `reqs` were staged into a block of `len` bytes.
    pub open spec fn staged_from(&self, reqs: Seq<Request>, len: int) -> bool {
        &&& self.len == len
        &&& self.calls@.len() == reqs.len()
        &&& self.end_at == batch_size(reqs)
        &&& self.end_at + HEADER_SIZE <= len
        &&& len % 8 == 0
        &&& forall|k: int|
            0 <= k < reqs.len() ==> {
                &&& (#[trigger] self.calls@[k]).staged_from(reqs[k], batch_size(reqs.take(k)))
                &&& self.calls@[k].wf()
                &&& self.calls@[k].end() == batch_size(reqs.take(k + 1))
                &&& self.calls@[k].end() <= self.end_at
            }
    }
}

/// Stages `reqs` in order into a block of `len` bytes, leaving room for the
/// `End` header. `EINVAL` where the block is not a whole number of words or
/// cannot hold even the `End` header; `ENOMEM` exactly where the calls do
/// not fit.
#[verifier::rlimit(80)]
pub fn stage_batch(len: usize, reqs: Vec<Request>) -> (r: Result<StagedBatch>)
    requires
        forall|k: int| 0 <= k < reqs@.len() ==> #[trigger] reqs@[k].wf(),
    ensures
        match r {
            Ok(b) => b.staged_from(reqs@, len as int),
            Err(e) => if len < HEADER_SIZE || len % 8 != 0 {
                e == EINVAL
            } else {
                e == ENOMEM && batch_size(reqs@) + HEADER_SIZE > len
            },
        },
{
    let mut alloc = match Alloc::new(len) {
        Some(a) => a,
        None => return Err(EINVAL),
    };
    let ghost all = reqs@;
    let n = reqs.len();
    let mut rest = reqs;
    let mut calls: Vec<StagedSyscall> = Vec::new();
    let mut k: usize = 0;
    while k < n
        invariant
            n == all.len(),
            all == reqs@,
            0 <= k <= n,
            rest@ == all.skip(k as int),
            forall|j: int| 0 <= j < all.len() ==> #[trigger] all[j].wf(),
            alloc.wf(),
            alloc.end + HEADER_SIZE == len,
            len % 8 == 0,
            alloc.offset == batch_size(all.take(k as int)),
            calls@.len() == k,
            forall|j: int|
                0 <= j < k ==> {
                    &&& (#[trigger] calls@[j]).staged_from(all[j], batch_size(all.take(j)))
                    &&& calls@[j].wf()
                    &&& calls@[j].end() == batch_size(all.take(j + 1))
                    &&& calls@[j].end() <= alloc.offset
                },
        decreases n - k,
    {
        assert(rest@[0] == all[k as int]);
        let req = rest.remove(0);
        assert(all.take(k + 1).drop_last() =~= all.take(k as int));
        match stage(&mut alloc, req) {
            Ok(st) => {
                calls.push(st);
            },
            Err(e) => {
                proof {
                    assert(all.take(k + 1).last() == all[k as int]);
                    assert(batch_size(all.take(k + 1)) + HEADER_SIZE > len);
                    lemma_batch_size_monotonic(all, k + 1);
                    assert(batch_size(all) + HEADER_SIZE > len);
                    assert(e == ENOMEM);
                }
                return Err(e);
            },
        }
        k = k + 1;
        assert(rest@ =~= all.skip(k as int));
    }
    assert(all.take(n as int) =~= all);
    Ok(StagedBatch { calls, end_at: alloc.offset, len })
}

/// The block `s` after the first `k` calls of `b` are committed into it.
pub open spec fn commit_calls(s: Seq<u8>, b: Seq<StagedSyscall>, k: int) -> Seq<u8>
    decreases k,
{
    if k <= 0 {
        s
    } else {
        commit_spec(commit_calls(s, b, k - 1), b[k - 1])
    }
}

/// The block `s` after batch `b` is committed into it: its calls, then the
/// `End` header, whose size is the bytes left after it.
pub open spec fn commit_batch_spec(s: Seq<u8>, b: StagedBatch) -> Seq<u8> {
    splice(
        commit_calls(s, b.calls@, b.calls@.len() as int),
        b.end_at as int,
        word_bytes(b.end_size() as u64) + word_bytes(0),
    )
}

/// Commits every call of `b` in order, then writes the `End` header.
#[verifier::rlimit(80)]
pub fn commit_batch(block: &mut Vec<u8>, b: StagedBatch) -> (r: Vec<CommittedSyscall>)
    requires
        old(block)@.len() == b.len,
        b.end_at + HEADER_SIZE <= b.len,
        forall|k: int| 0 <= k < b.calls@.len() ==> (#[trigger] b.calls@[k]).wf() && b.calls@[k].end() <= b.len,
    ensures
        final(block)@ == commit_batch_spec(old(block)@, b),
        r@.len() == b.calls@.len(),
        forall|k: int|
            0 <= k < r@.len() ==> (#[trigger] r@[k]).committed_from(b.calls@[k]) && r@[k].wf(
                b.len as int,
            ),
{
    let ghost s0 = block@;
    let ghost all = b.calls@;
    let n = b.calls.len();
    let mut rest = b.calls;
    let mut out: Vec<CommittedSyscall> = Vec::new();
    let mut k: usize = 0;
    while k < n
        invariant
            n == all.len(),
            0 <= k <= n,
            rest@ == all.skip(k as int),
            forall|j: int| 0 <= j < all.len() ==> (#[trigger] all[j]).wf() && all[j].end() <= b.len,
            block@ == commit_calls(s0, all, k as int),
            block@.len() == b.len,
            out@.len() == k,
            forall|j: int|
                0 <= j < k ==> (#[trigger] out@[j]).committed_from(all[j]) && out@[j].wf(
                    b.len as int,
                ),
        decreases n - k,
    {
        assert(rest@[0] == all[k as int]);
        let st = rest.remove(0);
        let c = commit(block, st);
        out.push(c);
        k = k + 1;
        assert(rest@ =~= all.skip(k as int));
    }
    let end_size = (b.len - b.end_at - HEADER_SIZE) as u64;
    let ghost s1 = block@;
    write_word(block, b.end_at, end_size);
    write_word(block, b.end_at + 8, 0);
    proof {
        lemma_splice_concat(s1, b.end_at as int, word_bytes(end_size), word_bytes(0));
    }
    out
}

/// The sum of `sizeof(Header) + header.size` over the items of `calls`.
pub open spec fn items_total(calls: Seq<StagedSyscall>) -> int
    decreases calls.len(),
{
    if calls.len() == 0 {
        0
    } else {
        items_total(calls.drop_last()) + HEADER_SIZE + (SYSCALL_PAYLOAD_SIZE
            + calls.last().staged_size)
    }
}

/// Header accounting: in a staged batch, `sizeof(Header) + header.size`
/// summed over its items, the `End` item last, is the size of the block,
/// and each item starts where the one before it ends.
pub proof fn lemma_header_accounting(b: StagedBatch, reqs: Seq<Request>, len: int)
    requires
        b.staged_from(reqs, len),
    ensures
        items_total(b.calls@) + HEADER_SIZE + b.end_size() == len,
        forall|k: int|
            0 <= k < b.calls@.len() ==> (#[trigger] b.calls@[k]).header == items_total(
                b.calls@.take(k),
            ),
{
    assert forall|k: int| 0 <= k <= b.calls@.len() implies items_total(#[trigger] b.calls@.take(k))
        == batch_size(reqs.take(k)) by {
        lemma_items_total_prefix(b, reqs, len, k);
    }
    assert(b.calls@.take(b.calls@.len() as int) =~= b.calls@);
    assert(reqs.take(reqs.len() as int) =~= reqs);
}

proof fn lemma_items_total_prefix(b: StagedBatch, reqs: Seq<Request>, len: int, k: int)
    requires
        b.staged_from(reqs, len),
        0 <= k <= b.calls@.len(),
    ensures
        items_total(b.calls@.take(k)) == batch_size(reqs.take(k)),
    decreases k,
{
    if k > 0 {
        lemma_items_total_prefix(b, reqs, len, k - 1);
        assert(b.calls@.take(k).drop_last() =~= b.calls@.take(k - 1));
        assert(reqs.take(k).drop_last() =~= reqs.take(k - 1));
        let st = b.calls@[k - 1];
        assert(st.staged_from(reqs[k - 1], batch_size(reqs.take(k - 1))));
    }
}

/// Commit determinism: committing the same staged batch into two blocks
/// that hold the same bytes, such as two zeroed blocks of one size, gives
/// byte-identical blocks.
pub proof fn lemma_commit_deterministic(s1: Seq<u8>, s2: Seq<u8>, b: StagedBatch)
    requires
        s1 == s2,
    ensures
        commit_batch_spec(s1, b) == commit_batch_spec(s2, b),
{
}

/// Offset validity: in a call staged at a word boundary, every slot of the
/// argument vector that references a region holds an offset from the start
/// of the item's data such that the whole region lies in that data, and the
/// position it names is aligned to a word, which meets the alignment of any
/// type a region holds.
pub proof fn lemma_offsets_valid(req: Request, st: StagedSyscall, header: int, j: int)
    requires
        req.wf(),
        st.staged_from(req, header),
        header % 8 == 0,
        0 <= j < 6,
        req.argv@[j] is Region,
    ensures
        ({
            let k = req.argv@[j]->Region_0 as int;
            &&& st.argv@[j] + req.regions@[k].len <= st.staged_size
            &&& (st.data() + st.argv@[j]) % 8 == 0
        }),
{
    let k = req.argv@[j]->Region_0 as int;
    let lens = lens_of(req.regions@);
    assert(k < req.regions@.len());
    let offsets = st.positions@.map_values(|p: usize| (p - st.data()) as usize);
    assert(st.argv@[j] == slot_word(req.argv@[j], offsets));
    assert(st.positions@[k] == st.data() + span(lens.take(k)));
    lemma_span_monotonic(lens, k);
    lemma_span_monotonic(lens.take(k), k);
    assert(lens.take(k).take(k) =~= lens.take(k));
    lemma_region_in_span(lens, k);
    assert(lens[k] == req.regions@[k].len);
}

/// Committing the input regions of a call leaves the length of the block,
/// and every byte outside the call's data, as they were.
pub proof fn lemma_write_inputs_frame(s: Seq<u8>, st: StagedSyscall, k: int)
    requires
        st.wf(),
        st.end() <= s.len(),
        0 <= k <= st.regions@.len(),
    ensures
        write_inputs(s, st, k).len() == s.len(),
        forall|i: int|
            0 <= i < s.len() && (i < st.data() || i >= st.end()) ==> #[trigger] write_inputs(
                s,
                st,
                k,
            )[i] == s[i],
    decreases k,
{
    if k > 0 {
        lemma_write_inputs_frame(s, st, k - 1);
        assert(st.regions@[k - 1].wf());
    }
}

/// Committing a call writes its item head at its header and leaves every
/// byte outside the item as it was.
pub proof fn lemma_commit_frame(s: Seq<u8>, st: StagedSyscall)
    requires
        st.wf(),
        st.end() <= s.len(),
    ensures
        commit_spec(s, st).len() == s.len(),
        forall|i: int|
            0 <= i < s.len() && (i < st.header || i >= st.end()) ==> #[trigger] commit_spec(s, st)[i]
                == s[i],
        forall|i: int|
            st.header <= i < st.header + 88 ==> #[trigger] commit_spec(s, st)[i] == item_head(
                (SYSCALL_PAYLOAD_SIZE + st.staged_size) as u64,
                st.num,
                st.argv@,
            )[i - st.header],
{
    let head = item_head((SYSCALL_PAYLOAD_SIZE + st.staged_size) as u64, st.num, st.argv@);
    let s1 = splice(s, st.header as int, head);
    lemma_write_inputs_frame(s1, st, st.regions@.len() as int);
}

/// The header words of call `j` survive the commits of the calls after it.
proof fn lemma_later_commits_keep(s: Seq<u8>, calls: Seq<StagedSyscall>, j: int, m: int)
    requires
        0 <= j < m <= calls.len(),
        forall|k: int| 0 <= k < calls.len() ==> (#[trigger] calls[k]).wf() && calls[k].end() <= s.len(),
        forall|k: int| 0 <= k < calls.len() ==> 0 <= (#[trigger] calls[k]).header,
        forall|k: int| 0 < k < calls.len() ==> (#[trigger] calls[k]).header == calls[k - 1].end(),
    ensures
        commit_calls(s, calls, m).len() == s.len(),
        forall|i: int|
            calls[j].header <= i < calls[j].header + 88 ==> #[trigger] commit_calls(s, calls, m)[i]
                == commit_calls(s, calls, j + 1)[i],
    decreases m,
{
    lemma_commit_calls_len(s, calls, m);
    if m > j + 1 {
        lemma_later_commits_keep(s, calls, j, m - 1);
        lemma_commit_calls_len(s, calls, m - 1);
        lemma_headers_increase(calls, j, m - 1);
        lemma_commit_frame(commit_calls(s, calls, m - 1), calls[m - 1]);
    }
}

proof fn lemma_commit_calls_len(s: Seq<u8>, calls: Seq<StagedSyscall>, m: int)
    requires
        0 <= m <= calls.len(),
        forall|k: int| 0 <= k < calls.len() ==> (#[trigger] calls[k]).wf() && calls[k].end() <= s.len(),
    ensures
        commit_calls(s, calls, m).len() == s.len(),
    decreases m,
{
    if m > 0 {
        lemma_commit_calls_len(s, calls, m - 1);
        lemma_commit_frame(commit_calls(s, calls, m - 1), calls[m - 1]);
    }
}

proof fn lemma_headers_increase(calls: Seq<StagedSyscall>, j: int, l: int)
    requires
        0 <= j < l < calls.len(),
        forall|k: int| 0 <= k < calls.len() ==> 0 <= (#[trigger] calls[k]).header,
        forall|k: int| 0 < k < calls.len() ==> (#[trigger] calls[k]).header == calls[k - 1].end(),
    ensures
        calls[j].end() <= calls[l].header,
    decreases l - j,
{
    if l > j + 1 {
        lemma_headers_increase(calls, j, l - 1);
        assert(calls[l].header == calls[l - 1].end());
        assert(calls[l - 1].staged_size >= 0);
    }
}

/// Eight bytes that are those of `w` read back as `w`.
proof fn lemma_word_from_bytes(f: Seq<u8>, p: int, w: u64)
    requires
        0 <= p,
        p + 8 <= f.len(),
        forall|i: int| 0 <= i < 8 ==> f[p + i] == #[trigger] word_bytes(w)[i],
    ensures
        word_at(f, p) == w,
{
    crate::item::lemma_word_round_trip(w);
    assert(f[p] == word_bytes(w)[0]);
    assert(f[p + 1] == word_bytes(w)[1]);
    assert(f[p + 2] == word_bytes(w)[2]);
    assert(f[p + 3] == word_bytes(w)[3]);
    assert(f[p + 4] == word_bytes(w)[4]);
    assert(f[p + 5] == word_bytes(w)[5]);
    assert(f[p + 6] == word_bytes(w)[6]);
    assert(f[p + 7] == word_bytes(w)[7]);
}

/// The calls of a staged batch follow one another from the start of the
/// block, each well formed and within the block.
proof fn lemma_batch_chain(b: StagedBatch, reqs: Seq<Request>, len: int)
    requires
        b.staged_from(reqs, len),
    ensures
        forall|k: int|
            0 <= k < b.calls@.len() ==> 0 <= (#[trigger] b.calls@[k]).header && b.calls@[k].wf()
                && b.calls@[k].end() <= b.end_at && b.calls@[k].end() <= len,
        forall|k: int|
            0 < k < b.calls@.len() ==> (#[trigger] b.calls@[k]).header == b.calls@[k - 1].end(),
{
    assert forall|k: int| 0 <= k < b.calls@.len() implies 0 <= (#[trigger] b.calls@[k]).header by {
        lemma_batch_size_monotonic(reqs, k);
    }
}

/// Whether the calls of `b` follow one another from the start of the block,
/// each well formed, before the `End` header.
pub open spec fn chained(b: StagedBatch) -> bool {
    &&& b.end_at + HEADER_SIZE <= b.len
    &&& forall|k: int|
        0 <= k < b.calls@.len() ==> 0 <= (#[trigger] b.calls@[k]).header && b.calls@[k].wf()
            && b.calls@[k].end() <= b.end_at
    &&& forall|k: int|
        0 < k < b.calls@.len() ==> (#[trigger] b.calls@[k]).header == b.calls@[k - 1].end()
}

/// The header words of call `k` of a committed batch.
#[verifier::rlimit(80)]
proof fn lemma_call_header(s: Seq<u8>, b: StagedBatch, k: int)
    requires
        chained(b),
        s.len() == b.len,
        0 <= k < b.calls@.len(),
    ensures
        word_at(commit_batch_spec(s, b), b.calls@[k].header as int) == (SYSCALL_PAYLOAD_SIZE
            + b.calls@[k].staged_size) as u64,
        word_at(commit_batch_spec(s, b), b.calls@[k].header + 8) == 1,
        commit_batch_spec(s, b).len() == s.len(),
{
    let calls = b.calls@;
    let n = calls.len() as int;
    assert forall|j: int| 0 <= j < n implies (#[trigger] calls[j]).wf() && calls[j].end() <= s.len() by {}
    let f = commit_batch_spec(s, b);
    lemma_commit_calls_len(s, calls, n);
    let c = commit_calls(s, calls, n);
    let st = calls[k];
    let h = st.header as int;
    let size = (SYSCALL_PAYLOAD_SIZE + st.staged_size) as u64;
    let head = item_head(size, st.num, st.argv@);
    lemma_later_commits_keep(s, calls, k, n);
    lemma_commit_calls_len(s, calls, k);
    lemma_commit_frame(commit_calls(s, calls, k), st);
    assert forall|i: int| 0 <= i < 16 implies f[h + i] == head[i] by {
        assert(c[h + i] == commit_calls(s, calls, k + 1)[h + i]);
    }
    assert forall|i: int| 0 <= i < 8 implies f[h + i] == #[trigger] word_bytes(size)[i] by {
        assert(f[h + i] == head[i]);
    }
    assert forall|i: int| 0 <= i < 8 implies f[h + 8 + i] == #[trigger] word_bytes(1)[i] by {
        assert(f[h + (8 + i)] == head[8 + i]);
    }
    lemma_word_from_bytes(f, h, size);
    lemma_word_from_bytes(f, h + 8, 1);
}

/// What the host reads at a header whose words are those of a syscall item
/// of `size` bytes.
proof fn lemma_item_at_syscall(f: Seq<u8>, h: int, staged_size: int)
    requires
        0 <= h,
        0 <= staged_size,
        staged_size % 8 == 0,
        h + HEADER_SIZE + SYSCALL_PAYLOAD_SIZE + staged_size <= f.len(),
        h + HEADER_SIZE + SYSCALL_PAYLOAD_SIZE + staged_size <= usize::MAX,
        word_at(f, h) == (SYSCALL_PAYLOAD_SIZE + staged_size) as u64,
        word_at(f, h + 8) == 1,
    ensures
        item_at(f, h) == Ok::<Option<(Item, usize)>, crate::Error>(
            Some(
                (
                    Item::Syscall {
                        at: (h + HEADER_SIZE) as usize,
                        data: (h + HEADER_SIZE + SYSCALL_PAYLOAD_SIZE) as usize,
                        len: staged_size as usize,
                    },
                    (h + HEADER_SIZE + SYSCALL_PAYLOAD_SIZE + staged_size) as usize,
                ),
            ),
        ),
{
}

#[verifier::rlimit(80)]
proof fn lemma_walk_chained(s: Seq<u8>, b: StagedBatch)
    requires
        chained(b),
        s.len() == b.len,
        b.len <= usize::MAX,
    ensures
        forall|k: int|
            0 <= k < b.calls@.len() ==> item_at(commit_batch_spec(s, b), #[trigger] b.calls@[k].header as int)
                == Ok::<Option<(Item, usize)>, crate::Error>(
                Some(
                    (
                        Item::Syscall {
                            at: (b.calls@[k].header + HEADER_SIZE) as usize,
                            data: b.calls@[k].data() as usize,
                            len: b.calls@[k].staged_size,
                        },
                        b.calls@[k].end() as usize,
                    ),
                ),
            ),
        item_at(commit_batch_spec(s, b), b.end_at as int) == Ok::<Option<(Item, usize)>, crate::Error>(None),
{
    assert forall|k: int| 0 <= k < b.calls@.len() implies item_at(
        commit_batch_spec(s, b),
        #[trigger] b.calls@[k].header as int,
    ) == Ok::<Option<(Item, usize)>, crate::Error>(
        Some(
            (
                Item::Syscall {
                    at: (b.calls@[k].header + HEADER_SIZE) as usize,
                    data: b.calls@[k].data() as usize,
                    len: b.calls@[k].staged_size,
                },
                b.calls@[k].end() as usize,
            ),
        ),
    ) by {
        lemma_call_header(s, b, k);
        lemma_item_at_syscall(
            commit_batch_spec(s, b),
            b.calls@[k].header as int,
            b.calls@[k].staged_size as int,
        );
    }
    lemma_commit_calls_len(s, b.calls@, b.calls@.len() as int);
    let f = commit_batch_spec(s, b);
    let endw = word_bytes(b.end_size() as u64) + word_bytes(0);
    assert forall|i: int| 0 <= i < 8 implies f[b.end_at + i] == #[trigger] word_bytes(
        b.end_size() as u64,
    )[i] by {
        assert(f[b.end_at + i] == endw[i]);
    }
    assert forall|i: int| 0 <= i < 8 implies f[b.end_at + 8 + i] == #[trigger] word_bytes(0)[i] by {
        assert(f[b.end_at + (8 + i)] == endw[8 + i]);
    }
    lemma_word_from_bytes(f, b.end_at as int, b.end_size() as u64);
    lemma_word_from_bytes(f, b.end_at + 8, 0);
}

/// Header accounting, as the host reads the block: after a staged batch is
/// committed, the host finds at each call's header a syscall item whose
/// `size` covers the payload and the call's data and leads to the next
/// header, and after the last call the `End` item, whose size is the rest
/// of the block.
pub proof fn lemma_committed_items_walk(s: Seq<u8>, b: StagedBatch, reqs: Seq<Request>)
    requires
        b.staged_from(reqs, s.len() as int),
    ensures
        forall|k: int|
            0 <= k < b.calls@.len() ==> item_at(commit_batch_spec(s, b), #[trigger] b.calls@[k].header as int)
                == Ok::<Option<(Item, usize)>, crate::Error>(
                Some(
                    (
                        Item::Syscall {
                            at: (b.calls@[k].header + HEADER_SIZE) as usize,
                            data: b.calls@[k].data() as usize,
                            len: b.calls@[k].staged_size,
                        },
                        b.calls@[k].end() as usize,
                    ),
                ),
            ),
        item_at(commit_batch_spec(s, b), b.end_at as int) == Ok::<Option<(Item, usize)>, crate::Error>(None),
{
    lemma_batch_chain(b, reqs, s.len() as int);
    lemma_walk_chained(s, b);
}

} // verus!
