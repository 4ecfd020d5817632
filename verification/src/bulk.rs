//! Bulk indexing of block files: which blocks a file holds, which of them
//! belong to the header chain and are still to be indexed, and where the
//! indexing stands.

use crate::framer::{
    block_file, clean_pad, clean_tail, frames_from, holds_payloads, lemma_block_file_frames,
    lemma_frame_step_bounds, next_frame, windows, Frame, FrameStep, FramingError,
};
use crate::hashlist::{
    first_at, height_of, lemma_first_below, lemma_height_of_contains, views, HashList,
};
use bitcoin::util::hash::BitcoinHash;
use vstd::prelude::*;

verus! {

/// A block as the bulk indexer sees it: the hash of its header and the bytes
/// that encode it.
#[derive(Clone, Debug)]
pub struct Block {
    pub hash: Vec<u8>,
    pub raw: Vec<u8>,
}

/// The hash of the header of the block that `payload` encodes in consensus
/// serialization, `None` where `payload` encodes no block.
pub uninterp spec fn block_hash_of(payload: Seq<u8>) -> Option<Seq<u8>>;

/// The payloads that decode as blocks.
pub open spec fn decodes() -> spec_fn(Seq<u8>) -> bool {
    |payload: Seq<u8>| block_hash_of(payload) is Some
}

/// `block` is what the payload window `frame` of `blob` decodes to.
pub open spec fn is_block_of(block: Block, blob: Seq<u8>, frame: Frame) -> bool {
    &&& block.raw@ == blob.subrange(frame.start as int, frame.end as int)
    &&& block_hash_of(block.raw@) == Some(block.hash@)
}

/// Decodes `payload` with `bitcoin::consensus::encode::deserialize` as a
/// `bitcoin::Block` and hashes its header with `BitcoinHash::bitcoin_hash`.
///
/// The payload must hold one block and nothing else. The result is a
/// function of the payload alone; the contract names it and claims no more.
#[verifier::external_body]
fn decode_block_hash(payload: &[u8]) -> (hash: Option<Vec<u8>>)
    ensures
        match hash {
            Some(h) => block_hash_of(payload@) == Some(h@),
            None => block_hash_of(payload@) is None,
        },
{
    match bitcoin::consensus::encode::deserialize::<bitcoin::Block>(payload) {
        Ok(block) => Some(block.bitcoin_hash()[..].to_vec()),
        Err(_) => None,
    }
}

/// Copies the bytes `start..end` of `blob`.
fn copy_window(blob: &[u8], start: usize, end: usize) -> (out: Vec<u8>)
    requires
        start <= end <= blob@.len(),
    ensures
        out@ == blob@.subrange(start as int, end as int),
{
    let mut out: Vec<u8> = Vec::new();
    let mut i: usize = start;
    while i < end
        invariant
            start <= i <= end <= blob@.len(),
            out@ == blob@.subrange(start as int, i as int),
        decreases end - i,
    {
        out.push(blob[i]);
        i = i + 1;
    }
    out
}

/// Recovers the blocks of a block file, in file order.
///
/// Fails at the first frame that is cut short or whose payload is no block.
pub fn parse_blocks(blob: &[u8], magic: u32) -> (res: Result<Vec<Block>, FramingError>)
    ensures
        match (res, frames_from(blob@, magic, 0, decodes())) {
            (Ok(blocks), Ok(frames)) => {
                &&& blocks@.len() == frames.len()
                &&& forall|i: int|
                    0 <= i < frames.len() ==> is_block_of(#[trigger] blocks@[i], blob@, frames[i])
            },
            (Err(e), Err(expected)) => e == expected,
            _ => false,
        },
{
    let len: usize = blob.len();
    let mut blocks: Vec<Block> = Vec::new();
    let ghost mut found: Seq<Frame> = Seq::empty();
    let mut pos: usize = 0;
    loop
        invariant
            pos <= len == blob@.len(),
            blocks@.len() == found.len(),
            forall|i: int|
                0 <= i < found.len() ==> is_block_of(#[trigger] blocks@[i], blob@, found[i]),
            match frames_from(blob@, magic, pos as int, decodes()) {
                Ok(rest) => frames_from(blob@, magic, 0, decodes()) == Ok::<
                    Seq<Frame>,
                    FramingError,
                >(found + rest),
                Err(e) => frames_from(blob@, magic, 0, decodes()) == Err::<
                    Seq<Frame>,
                    FramingError,
                >(e),
            },
        decreases blob@.len() - pos,
    {
        proof {
            lemma_frame_step_bounds(blob@, magic, pos as int);
        }
        match next_frame(blob, magic, pos) {
            FrameStep::End => {
                proof {
                    assert(found + Seq::<Frame>::empty() =~= found);
                }
                return Ok(blocks);
            },
            FrameStep::Broken(e) => {
                return Err(e);
            },
            FrameStep::Found(f) => {
                let raw = copy_window(blob, f.start, f.end);
                match decode_block_hash(raw.as_slice()) {
                    None => {
                        return Err(FramingError::BadBlock { start: f.start, end: f.end });
                    },
                    Some(hash) => {
                        blocks.push(Block { hash, raw });
                        proof {
                            let rest = frames_from(blob@, magic, f.end as int, decodes());
                            if rest is Ok {
                                assert(found + (seq![f] + rest->Ok_0) =~= found.push(f)
                                    + rest->Ok_0);
                            }
                            found = found.push(f);
                        }
                        pos = f.end;
                    },
                }
            },
        }
    }
}

/// A block file that is put together from encoded blocks, with padding
/// before each in which the magic does not start and a tail in which it
/// does not occur, parses to exactly these blocks, in order.
pub proof fn lemma_block_file_blocks(
    magic: u32,
    pads: Seq<Seq<u8>>,
    payloads: Seq<Seq<u8>>,
    tail: Seq<u8>,
)
    requires
        pads.len() == payloads.len(),
        forall|i: int| 0 <= i < pads.len() ==> clean_pad(#[trigger] pads[i], magic),
        forall|i: int| 0 <= i < payloads.len() ==> (#[trigger] payloads[i]).len() <= u32::MAX,
        forall|i: int| 0 <= i < payloads.len() ==> block_hash_of(#[trigger] payloads[i]) is Some,
        clean_tail(tail, magic),
        block_file(magic, pads, payloads, tail).len() <= usize::MAX,
    ensures
        ({
            let blob = block_file(magic, pads, payloads, tail);
            let frames = windows(pads, payloads, 0);
            &&& frames_from(blob, magic, 0, decodes()) == Ok::<Seq<Frame>, FramingError>(frames)
            &&& holds_payloads(blob, frames, payloads)
            &&& hashes_in(blob, magic) == Seq::new(
                payloads.len(),
                |i: int| block_hash_of(payloads[i])->Some_0,
            )
        }),
{
    let blob = block_file(magic, pads, payloads, tail);
    let frames = windows(pads, payloads, 0);
    assert forall|i: int| 0 <= i < payloads.len() implies decodes()(#[trigger] payloads[i]) by {
        assert(block_hash_of(payloads[i]) is Some);
    }
    lemma_block_file_frames(magic, pads, payloads, tail, decodes());
    assert(hashes_in(blob, magic) =~= Seq::new(
        payloads.len(),
        |i: int| block_hash_of(payloads[i])->Some_0,
    ));
}

/// What becomes of one block of a block file.
#[derive(Clone, Copy, Debug, PartialEq, Eq, Structural)]
pub enum Verdict {
    /// The block stands in the header chain at `height` and is indexed now.
    Indexed { height: usize },
    /// The block stands in the header chain and was indexed before.
    Duplicate,
    /// The block is not in the header chain: an orphan, or a block that the
    /// chain does not reach yet.
    Skipped,
}

/// How many blocks of a block file met each verdict.
#[derive(Clone, Copy, Debug, PartialEq, Eq, Structural)]
pub struct BlockCounts {
    pub indexed: usize,
    pub duplicate: usize,
    pub skipped: usize,
}

/// The hashes of `blocks`, in order.
pub open spec fn hashes_of(blocks: Seq<Block>) -> Seq<Seq<u8>> {
    Seq::new(blocks.len(), |i: int| blocks[i].hash@)
}

/// The verdict on the block at place `i` of a file whose blocks have the
/// hashes `hashes`, where `indexed` holds the hashes indexed before the file.
///
/// A block outside the chain is skipped. A block of the chain is a duplicate
/// where its hash was indexed before the file or stands earlier in the file,
/// and is indexed otherwise.
pub open spec fn verdict_at(
    chain: Seq<Seq<u8>>,
    indexed: Set<Seq<u8>>,
    hashes: Seq<Seq<u8>>,
    i: int,
) -> Verdict {
    match height_of(chain, hashes[i]) {
        None => Verdict::Skipped,
        Some(h) => {
            if indexed.contains(hashes[i]) || exists|k: int|
                0 <= k < i && hashes[k] == hashes[i] {
                Verdict::Duplicate
            } else {
                Verdict::Indexed { height: h as usize }
            }
        },
    }
}

/// The hashes indexed after a file: those indexed before it, and the hashes
/// of its blocks that stand in the chain.
pub open spec fn indexed_after(
    chain: Seq<Seq<u8>>,
    indexed: Set<Seq<u8>>,
    hashes: Seq<Seq<u8>>,
) -> Set<Seq<u8>> {
    Set::new(
        |hash: Seq<u8>|
            indexed.contains(hash) || (height_of(chain, hash) is Some && hashes.contains(hash)),
    )
}

/// The length of the longest prefix of `chain` whose every hash is in
/// `indexed`.
pub open spec fn is_indexed_prefix(chain: Seq<Seq<u8>>, indexed: Set<Seq<u8>>, n: int) -> bool {
    &&& 0 <= n <= chain.len()
    &&& forall|k: int| 0 <= k < n ==> indexed.contains(#[trigger] chain[k])
    &&& n < chain.len() ==> !indexed.contains(chain[n])
}

/// The state of the bulk indexer: the magic of the network, the header
/// chain from genesis to tip, and the hashes of the blocks indexed so far.
pub struct Parser {
    magic: u32,
    current_headers: HashList,
    indexed_blockhashes: HashList,
}

impl Parser {
    /// The two lists of hashes are in order with their indexes.
    pub closed spec fn wf(&self) -> bool {
        self.current_headers.wf() && self.indexed_blockhashes.wf()
    }

    /// The magic that starts every frame.
    pub closed spec fn magic(&self) -> u32 {
        self.magic
    }

    /// The hashes of the header chain, by height.
    pub closed spec fn chain(&self) -> Seq<Seq<u8>> {
        self.current_headers@
    }

    /// The hashes of the blocks indexed so far.
    pub closed spec fn indexed(&self) -> Set<Seq<u8>> {
        self.indexed_blockhashes@.to_set()
    }

    /// A parser for the network with this magic, over the header chain
    /// `current_headers` (hash by height), with `indexed_blockhashes` as the
    /// hashes that an earlier run has indexed.
    pub fn new(magic: u32, current_headers: Vec<Vec<u8>>, indexed_blockhashes: Vec<Vec<u8>>) -> (parser:
        Parser)
        ensures
            parser.wf(),
            parser.magic() == magic,
            parser.chain() == views(current_headers@),
            parser.indexed() == views(indexed_blockhashes@).to_set(),
    {
        Parser {
            magic,
            current_headers: HashList::from_vec(current_headers),
            indexed_blockhashes: HashList::from_vec(indexed_blockhashes),
        }
    }

    /// The length of the longest prefix of the chain that is indexed.
    pub fn indexed_prefix_len(&self) -> (n: usize)
        requires
            self.wf(),
        ensures
            is_indexed_prefix(self.chain(), self.indexed(), n as int),
    {
        let mut n: usize = 0;
        while n < self.current_headers.len()
            invariant
                self.wf(),
                n <= self.current_headers@.len(),
                forall|k: int| 0 <= k < n ==> self.indexed().contains(#[trigger] self.chain()[k]),
            decreases self.current_headers@.len() - n,
        {
            let found = self.indexed_blockhashes.find(self.current_headers.get(n).as_slice());
            if found.is_none() {
                return n;
            }
            n = n + 1;
        }
        n
    }

    /// The hash of the last header of the longest indexed prefix of the
    /// chain: the checkpoint from which a later run resumes.
    pub fn last_indexed_row(&self) -> (hash: Vec<u8>)
        requires
            self.wf(),
            self.chain().len() > 0,
            self.indexed().contains(self.chain()[0]),
        ensures
            is_checkpoint(self.chain(), self.indexed(), Some(hash@)),
    {
        let n = self.indexed_prefix_len();
        self.current_headers.get(n - 1).clone()
    }

    /// Gives each block of a file its verdict, in file order, and records
    /// the blocks that are indexed now.
    pub fn classify(&mut self, blocks: &Vec<Block>) -> (verdicts: Vec<Verdict>)
        requires
            old(self).wf(),
        ensures
            final(self).wf(),
            verdicts@.len() == blocks@.len(),
            forall|i: int|
                0 <= i < blocks@.len() ==> #[trigger] verdicts@[i] == verdict_at(
                    old(self).chain(),
                    old(self).indexed(),
                    hashes_of(blocks@),
                    i,
                ),
            final(self).indexed() == indexed_after(
                old(self).chain(),
                old(self).indexed(),
                hashes_of(blocks@),
            ),
            final(self).chain() == old(self).chain(),
            final(self).magic() == old(self).magic(),
    {
        let ghost hashes = hashes_of(blocks@);
        let ghost chain = self.chain();
        let ghost before = self.indexed();
        let mut verdicts: Vec<Verdict> = Vec::new();
        let mut i: usize = 0;
        while i < blocks.len()
            invariant
                i <= blocks@.len(),
                self.wf(),
                hashes == hashes_of(blocks@),
                self.chain() == chain,
                self.magic() == old(self).magic(),
                verdicts@.len() == i,
                forall|k: int|
                    0 <= k < i ==> #[trigger] verdicts@[k] == verdict_at(chain, before, hashes, k),
                self.indexed() == indexed_after(chain, before, hashes.subrange(0, i as int)),
            decreases blocks@.len() - i,
        {
            let hash: &Vec<u8> = &blocks[i].hash;
            assert(hash@ == hashes[i as int]);
            let ghost list = self.indexed_blockhashes@;
            let verdict = match self.current_headers.find(hash.as_slice()) {
                None => Verdict::Skipped,
                Some(height) => {
                    proof {
                        lemma_seen_before(chain, before, hashes, i as int);
                    }
                    if self.indexed_blockhashes.find(hash.as_slice()).is_some() {
                        Verdict::Duplicate
                    } else {
                        self.indexed_blockhashes.push(hash.clone());
                        proof {
                            lemma_push_to_set(list, hash@);
                        }
                        Verdict::Indexed { height }
                    }
                },
            };
            proof {
                lemma_indexed_after_step(chain, before, hashes, i as int);
            }
            verdicts.push(verdict);
            i = i + 1;
        }
        assert(hashes.subrange(0, i as int) =~= hashes);
        verdicts
    }
}

/// The hashes of a list that grew by one at its end.
proof fn lemma_push_to_set(list: Seq<Seq<u8>>, last: Seq<u8>)
    ensures
        list.push(last).to_set() == list.to_set().insert(last),
{
    assert forall|x: Seq<u8>|
        list.push(last).to_set().contains(x) <==> list.to_set().insert(last).contains(x) by {
        if list.push(last).contains(x) {
            let k = choose|k: int| 0 <= k < list.push(last).len() && list.push(last)[k] == x;
            if k < list.len() {
                assert(list[k] == x);
            }
        }
        if list.contains(x) {
            let k = choose|k: int| 0 <= k < list.len() && list[k] == x;
            assert(list.push(last)[k] == x);
        }
        if x == last {
            assert(list.push(last)[list.len() as int] == x);
        }
    }
    assert(list.push(last).to_set() =~= list.to_set().insert(last));
}

/// One more block of the file adds its hash to the indexed ones where it
/// stands in the chain, and nothing otherwise.
proof fn lemma_indexed_after_step(
    chain: Seq<Seq<u8>>,
    before: Set<Seq<u8>>,
    hashes: Seq<Seq<u8>>,
    i: int,
)
    requires
        0 <= i < hashes.len(),
    ensures
        indexed_after(chain, before, hashes.subrange(0, i + 1)) == if height_of(chain, hashes[i])
            is Some {
            indexed_after(chain, before, hashes.subrange(0, i)).insert(hashes[i])
        } else {
            indexed_after(chain, before, hashes.subrange(0, i))
        },
{
    let shorter = hashes.subrange(0, i);
    let longer = hashes.subrange(0, i + 1);
    assert(longer =~= shorter.push(hashes[i]));
    let target = if height_of(chain, hashes[i]) is Some {
        indexed_after(chain, before, shorter).insert(hashes[i])
    } else {
        indexed_after(chain, before, shorter)
    };
    assert forall|x: Seq<u8>| indexed_after(chain, before, longer).contains(x) <==> target.contains(
        x,
    ) by {
        if longer.contains(x) {
            let k = choose|k: int| 0 <= k < longer.len() && longer[k] == x;
            if k < i {
                assert(shorter[k] == x);
            }
        }
        if shorter.contains(x) {
            let k = choose|k: int| 0 <= k < shorter.len() && shorter[k] == x;
            assert(longer[k] == x);
        }
        assert(longer[i] == hashes[i]);
    }
    assert(indexed_after(chain, before, longer) =~= target);
}

/// The blocks of one block file with their verdicts, place by place.
#[derive(Debug)]
pub struct FileIndex {
    pub blocks: Vec<Block>,
    pub verdicts: Vec<Verdict>,
}

/// The hashes of the blocks that a block file holds, in file order; empty
/// where the file does not parse.
pub open spec fn hashes_in(blob: Seq<u8>, magic: u32) -> Seq<Seq<u8>> {
    match frames_from(blob, magic, 0, decodes()) {
        Ok(frames) => Seq::new(
            frames.len(),
            |i: int|
                block_hash_of(blob.subrange(frames[i].start as int, frames[i].end as int))->Some_0,
        ),
        Err(_) => Seq::empty(),
    }
}

/// `index` is what the file `blob` comes to for a parser that stands at
/// `chain` and `indexed`.
pub open spec fn is_index_of(
    index: FileIndex,
    blob: Seq<u8>,
    magic: u32,
    chain: Seq<Seq<u8>>,
    indexed: Set<Seq<u8>>,
) -> bool {
    &&& frames_from(blob, magic, 0, decodes()) matches Ok(frames)
    &&& index.blocks@.len() == frames.len()
    &&& index.verdicts@.len() == frames.len()
    &&& hashes_of(index.blocks@) == hashes_in(blob, magic)
    &&& forall|i: int|
        0 <= i < frames.len() ==> is_block_of(#[trigger] index.blocks@[i], blob, frames[i])
    &&& forall|i: int|
        0 <= i < frames.len() ==> #[trigger] index.verdicts@[i] == verdict_at(
            chain,
            indexed,
            hashes_in(blob, magic),
            i,
        )
}

impl Parser {
    /// Parses one block file and gives each of its blocks its verdict.
    ///
    /// A file that does not parse changes nothing and yields the error of
    /// the scan. The blocks with the verdict `Indexed` are those whose rows
    /// the caller computes and writes.
    pub fn index_blkfile(&mut self, blob: &[u8]) -> (res: Result<FileIndex, FramingError>)
        requires
            old(self).wf(),
        ensures
            final(self).wf(),
            final(self).chain() == old(self).chain(),
            final(self).magic() == old(self).magic(),
            match res {
                Ok(index) => {
                    &&& is_index_of(
                        index,
                        blob@,
                        old(self).magic(),
                        old(self).chain(),
                        old(self).indexed(),
                    )
                    &&& final(self).indexed() == indexed_after(
                        old(self).chain(),
                        old(self).indexed(),
                        hashes_in(blob@, old(self).magic()),
                    )
                },
                Err(e) => {
                    &&& frames_from(blob@, old(self).magic(), 0, decodes()) == Err::<
                        Seq<Frame>,
                        FramingError,
                    >(e)
                    &&& final(self).indexed() == old(self).indexed()
                },
            },
    {
        match parse_blocks(blob, self.magic) {
            Err(e) => Err(e),
            Ok(blocks) => {
                proof {
                    let frames = frames_from(blob@, self.magic, 0, decodes())->Ok_0;
                    assert(hashes_of(blocks@) =~= hashes_in(blob@, self.magic));
                }
                let verdicts = self.classify(&blocks);
                Ok(FileIndex { blocks, verdicts })
            },
        }
    }
}

/// How many of `verdicts` are of the kind that `pick` takes.
pub open spec fn count_of(verdicts: Seq<Verdict>, pick: spec_fn(Verdict) -> bool) -> nat
    decreases verdicts.len(),
{
    if verdicts.len() == 0 {
        0
    } else {
        count_of(verdicts.drop_last(), pick) + if pick(verdicts.last()) {
            1nat
        } else {
            0nat
        }
    }
}

/// The verdicts that index a block.
pub open spec fn is_indexed() -> spec_fn(Verdict) -> bool {
    |v: Verdict| v is Indexed
}

/// The verdicts that find a block indexed before.
pub open spec fn is_duplicate() -> spec_fn(Verdict) -> bool {
    |v: Verdict| v is Duplicate
}

/// The verdicts that leave a block out.
pub open spec fn is_skipped() -> spec_fn(Verdict) -> bool {
    |v: Verdict| v is Skipped
}

/// Counts the blocks of a file by verdict.
pub fn count_verdicts(verdicts: &Vec<Verdict>) -> (counts: BlockCounts)
    ensures
        counts.indexed == count_of(verdicts@, is_indexed()),
        counts.duplicate == count_of(verdicts@, is_duplicate()),
        counts.skipped == count_of(verdicts@, is_skipped()),
        counts.indexed + counts.duplicate + counts.skipped == verdicts@.len(),
{
    let mut counts = BlockCounts { indexed: 0, duplicate: 0, skipped: 0 };
    let mut i: usize = 0;
    while i < verdicts.len()
        invariant
            i <= verdicts@.len(),
            counts.indexed == count_of(verdicts@.subrange(0, i as int), is_indexed()),
            counts.duplicate == count_of(verdicts@.subrange(0, i as int), is_duplicate()),
            counts.skipped == count_of(verdicts@.subrange(0, i as int), is_skipped()),
            counts.indexed + counts.duplicate + counts.skipped == i,
        decreases verdicts@.len() - i,
    {
        assert(verdicts@.subrange(0, i + 1).drop_last() =~= verdicts@.subrange(0, i as int));
        match verdicts[i] {
            Verdict::Indexed { .. } => {
                counts.indexed = counts.indexed + 1;
            },
            Verdict::Duplicate => {
                counts.duplicate = counts.duplicate + 1;
            },
            Verdict::Skipped => {
                counts.skipped = counts.skipped + 1;
            },
        }
        i = i + 1;
    }
    assert(verdicts@.subrange(0, i as int) =~= verdicts@);
    counts
}

/// The longest indexed prefix of a chain has one length.
pub proof fn lemma_indexed_prefix_unique(
    chain: Seq<Seq<u8>>,
    indexed: Set<Seq<u8>>,
    n: int,
    m: int,
)
    requires
        is_indexed_prefix(chain, indexed, n),
        is_indexed_prefix(chain, indexed, m),
    ensures
        n == m,
{
    if n < m {
        assert(indexed.contains(chain[n]));
    } else if m < n {
        assert(indexed.contains(chain[m]));
    }
}

/// Every block of the chain that a file holds is indexed once: by the
/// verdict at the first place of its hash in the file where the hash was not
/// indexed before, and by no verdict where it was. No other block is
/// indexed.
pub proof fn lemma_indexed_once(
    chain: Seq<Seq<u8>>,
    indexed: Set<Seq<u8>>,
    hashes: Seq<Seq<u8>>,
    i: int,
)
    requires
        0 <= i < hashes.len(),
        chain.len() <= usize::MAX,
    ensures
        verdict_at(chain, indexed, hashes, i) is Indexed <==> {
            &&& chain.contains(hashes[i])
            &&& !indexed.contains(hashes[i])
            &&& first_at(hashes, hashes[i], i)
        },
        verdict_at(chain, indexed, hashes, i) matches Verdict::Indexed { height } ==> first_at(
            chain,
            hashes[i],
            height as int,
        ),
        chain.contains(hashes[i]) && !indexed.contains(hashes[i]) ==> exists|j: int|
            0 <= j <= i && hashes[j] == hashes[i] && verdict_at(chain, indexed, hashes, j)
                is Indexed,
{
    lemma_height_of_contains(chain, hashes[i]);
    if chain.contains(hashes[i]) && !indexed.contains(hashes[i]) {
        lemma_first_below(hashes, hashes[i], i);
        let j = choose|j: int| first_at(hashes, hashes[i], j);
        lemma_height_of_contains(chain, hashes[j]);
        assert(verdict_at(chain, indexed, hashes, j) is Indexed);
    }
}

/// A run that starts from what an earlier run over the same blocks has
/// indexed indexes nothing: every block of the chain is a duplicate.
pub proof fn lemma_rerun_indexes_nothing(
    chain: Seq<Seq<u8>>,
    indexed: Set<Seq<u8>>,
    hashes: Seq<Seq<u8>>,
    verdicts: Seq<Verdict>,
)
    requires
        verdicts.len() == hashes.len(),
        forall|i: int|
            0 <= i < hashes.len() ==> #[trigger] verdicts[i] == verdict_at(
                chain,
                indexed_after(chain, indexed, hashes),
                hashes,
                i,
            ),
    ensures
        forall|i: int| 0 <= i < verdicts.len() ==> !(#[trigger] verdicts[i] is Indexed),
        count_of(verdicts, is_indexed()) == 0,
    decreases verdicts.len(),
{
    assert forall|i: int| 0 <= i < verdicts.len() implies !(#[trigger] verdicts[i] is Indexed) by {
        assert(hashes.contains(hashes[i]));
    }
    lemma_count_none(verdicts, is_indexed());
}

/// The blocks that a file gets indexed are as many as the hashes by which
/// the set of indexed hashes grows.
pub proof fn lemma_indexed_count_is_growth(
    chain: Seq<Seq<u8>>,
    indexed: Set<Seq<u8>>,
    hashes: Seq<Seq<u8>>,
    verdicts: Seq<Verdict>,
)
    requires
        indexed.finite(),
        verdicts.len() == hashes.len(),
        forall|i: int|
            0 <= i < hashes.len() ==> #[trigger] verdicts[i] == verdict_at(
                chain,
                indexed,
                hashes,
                i,
            ),
    ensures
        indexed_after(chain, indexed, hashes).finite(),
        indexed_after(chain, indexed, hashes).len() == indexed.len() + count_of(
            verdicts,
            is_indexed(),
        ),
    decreases hashes.len(),
{
    if hashes.len() == 0 {
        assert(indexed_after(chain, indexed, hashes) =~= indexed);
    } else {
        let n = hashes.len() - 1;
        let fewer = hashes.drop_last();
        let earlier = verdicts.drop_last();
        assert forall|i: int| 0 <= i < fewer.len() implies #[trigger] earlier[i] == verdict_at(
            chain,
            indexed,
            fewer,
            i,
        ) by {
            assert(earlier[i] == verdicts[i]);
            assert(fewer[i] == hashes[i]);
            if exists|k: int| 0 <= k < i && hashes[k] == hashes[i] {
                let k = choose|k: int| 0 <= k < i && hashes[k] == hashes[i];
                assert(fewer[k] == fewer[i]);
            }
            if exists|k: int| 0 <= k < i && fewer[k] == fewer[i] {
                let k = choose|k: int| 0 <= k < i && fewer[k] == fewer[i];
                assert(hashes[k] == hashes[i]);
            }
        }
        lemma_indexed_count_is_growth(chain, indexed, fewer, earlier);
        assert(hashes.subrange(0, n) =~= fewer);
        assert(hashes.subrange(0, n + 1) =~= hashes);
        lemma_indexed_after_step(chain, indexed, hashes, n);
        if height_of(chain, hashes[n]) is Some {
            lemma_seen_before(chain, indexed, hashes, n);
        }
        assert(verdicts.last() == verdict_at(chain, indexed, hashes, n));
    }
}

/// Where `pick` takes none of the verdicts, their count is zero.
proof fn lemma_count_none(verdicts: Seq<Verdict>, pick: spec_fn(Verdict) -> bool)
    requires
        forall|i: int| 0 <= i < verdicts.len() ==> !pick(#[trigger] verdicts[i]),
    ensures
        count_of(verdicts, pick) == 0,
    decreases verdicts.len(),
{
    if verdicts.len() > 0 {
        lemma_count_none(verdicts.drop_last(), pick);
    }
}

/// The file at which a bulk run stopped, and why.
#[derive(Clone, Copy, Debug, PartialEq, Eq, Structural)]
pub struct BulkError {
    pub file: usize,
    pub error: FramingError,
}

/// What a bulk run over some block files comes to: the index of each file,
/// and the hash of the last header of the longest indexed prefix of the
/// chain, `None` where not even the first header is indexed.
#[derive(Debug)]
pub struct BulkIndex {
    pub files: Vec<FileIndex>,
    pub last_indexed: Option<Vec<u8>>,
}

/// The hashes indexed before the file at place `n` of a run over `blobs`
/// that started with `indexed`.
pub open spec fn indexed_before(
    chain: Seq<Seq<u8>>,
    indexed: Set<Seq<u8>>,
    magic: u32,
    blobs: Seq<Seq<u8>>,
    n: int,
) -> Set<Seq<u8>>
    decreases n,
{
    if n <= 0 {
        indexed
    } else {
        indexed_after(
            chain,
            indexed_before(chain, indexed, magic, blobs, n - 1),
            hashes_in(blobs[n - 1], magic),
        )
    }
}

/// The verdict on the block at place `at` of the file at place `file` of a
/// run over `blobs` that started with `indexed`.
pub open spec fn run_verdict(
    chain: Seq<Seq<u8>>,
    indexed: Set<Seq<u8>>,
    magic: u32,
    blobs: Seq<Seq<u8>>,
    file: int,
    at: int,
) -> Verdict {
    verdict_at(
        chain,
        indexed_before(chain, indexed, magic, blobs, file),
        hashes_in(blobs[file], magic),
        at,
    )
}

/// `hash` is the checkpoint of a parser that stands at `chain` and
/// `indexed`: the hash of the last header of the longest indexed prefix.
pub open spec fn is_checkpoint(
    chain: Seq<Seq<u8>>,
    indexed: Set<Seq<u8>>,
    hash: Option<Seq<u8>>,
) -> bool {
    exists|n: int|
        is_indexed_prefix(chain, indexed, n) && hash == if n == 0 {
            None
        } else {
            Some(chain[n - 1])
        }
}

/// Runs the bulk indexing over the block files `blobs`, one after the
/// other, and ends with the checkpoint.
///
/// The run stops at the first file that does not parse; the files before it
/// stay indexed.
pub fn index_blk_files(parser: &mut Parser, blobs: &Vec<Vec<u8>>) -> (res: Result<
    BulkIndex,
    BulkError,
>)
    requires
        old(parser).wf(),
    ensures
        final(parser).wf(),
        final(parser).chain() == old(parser).chain(),
        final(parser).magic() == old(parser).magic(),
        match res {
            Ok(bulk) => {
                &&& bulk.files@.len() == blobs@.len()
                &&& forall|i: int|
                    0 <= i < blobs@.len() ==> is_index_of(
                        #[trigger] bulk.files@[i],
                        blobs@[i]@,
                        old(parser).magic(),
                        old(parser).chain(),
                        indexed_before(
                            old(parser).chain(),
                            old(parser).indexed(),
                            old(parser).magic(),
                            views(blobs@),
                            i,
                        ),
                    )
                &&& final(parser).indexed() == indexed_before(
                    old(parser).chain(),
                    old(parser).indexed(),
                    old(parser).magic(),
                    views(blobs@),
                    blobs@.len() as int,
                )
                &&& is_checkpoint(
                    final(parser).chain(),
                    final(parser).indexed(),
                    match bulk.last_indexed {
                        Some(hash) => Some(hash@),
                        None => None,
                    },
                )
            },
            Err(e) => {
                &&& e.file < blobs@.len()
                &&& frames_from(blobs@[e.file as int]@, old(parser).magic(), 0, decodes()) == Err::<
                    Seq<Frame>,
                    FramingError,
                >(e.error)
                &&& forall|i: int|
                    0 <= i < e.file ==> frames_from(
                        #[trigger] blobs@[i]@,
                        old(parser).magic(),
                        0,
                        decodes(),
                    ) is Ok
                &&& final(parser).indexed() == indexed_before(
                    old(parser).chain(),
                    old(parser).indexed(),
                    old(parser).magic(),
                    views(blobs@),
                    e.file as int,
                )
            },
        },
{
    let ghost chain = parser.chain();
    let ghost magic = parser.magic();
    let ghost start = parser.indexed();
    let mut files: Vec<FileIndex> = Vec::new();
    let mut i: usize = 0;
    while i < blobs.len()
        invariant
            i <= blobs@.len(),
            parser.wf(),
            chain == old(parser).chain(),
            magic == old(parser).magic(),
            start == old(parser).indexed(),
            parser.chain() == chain,
            parser.magic() == magic,
            files@.len() == i,
            forall|k: int|
                0 <= k < i ==> is_index_of(
                    #[trigger] files@[k],
                    blobs@[k]@,
                    magic,
                    chain,
                    indexed_before(chain, start, magic, views(blobs@), k),
                ),
            forall|k: int|
                0 <= k < i ==> frames_from(#[trigger] blobs@[k]@, magic, 0, decodes()) is Ok,
            parser.indexed() == indexed_before(chain, start, magic, views(blobs@), i as int),
        decreases blobs@.len() - i,
    {
        match parser.index_blkfile(blobs[i].as_slice()) {
            Err(error) => {
                return Err(BulkError { file: i, error });
            },
            Ok(index) => {
                files.push(index);
            },
        }
        i = i + 1;
    }
    let n = parser.indexed_prefix_len();
    let last_indexed = if n == 0 {
        None
    } else {
        Some(parser.current_headers.get(n - 1).clone())
    };
    Ok(BulkIndex { files, last_indexed })
}

/// In a run over several files no block is indexed twice: two verdicts
/// `Indexed` on blocks of one hash are one verdict.
pub proof fn lemma_run_indexes_at_most_once(
    chain: Seq<Seq<u8>>,
    indexed: Set<Seq<u8>>,
    magic: u32,
    blobs: Seq<Seq<u8>>,
    file_a: int,
    at_a: int,
    file_b: int,
    at_b: int,
)
    requires
        0 <= file_a <= file_b < blobs.len(),
        0 <= at_a < hashes_in(blobs[file_a], magic).len(),
        0 <= at_b < hashes_in(blobs[file_b], magic).len(),
        hashes_in(blobs[file_a], magic)[at_a] == hashes_in(blobs[file_b], magic)[at_b],
        run_verdict(chain, indexed, magic, blobs, file_a, at_a) is Indexed,
        run_verdict(chain, indexed, magic, blobs, file_b, at_b) is Indexed,
    ensures
        file_a == file_b,
        at_a == at_b,
{
    let hash = hashes_in(blobs[file_a], magic)[at_a];
    if file_a < file_b {
        assert(hashes_in(blobs[file_a], magic).contains(hash));
        lemma_indexed_grows(chain, indexed, magic, blobs, file_a + 1, file_b);
    } else {
        if at_a < at_b {
        } else if at_b < at_a {
        }
    }
}

/// What is indexed before one file of a run is indexed before every later
/// file.
pub proof fn lemma_indexed_grows(
    chain: Seq<Seq<u8>>,
    indexed: Set<Seq<u8>>,
    magic: u32,
    blobs: Seq<Seq<u8>>,
    n: int,
    m: int,
)
    requires
        n <= m,
    ensures
        indexed_before(chain, indexed, magic, blobs, n).subset_of(
            indexed_before(chain, indexed, magic, blobs, m),
        ),
    decreases m - n,
{
    if n < m {
        lemma_indexed_grows(chain, indexed, magic, blobs, n, m - 1);
    }
}

/// In a run over several files every block of the chain that some file
/// holds, and that was not indexed before the run, is indexed by a verdict
/// of the run, and no block is that is outside the chain or was indexed
/// before.
pub proof fn lemma_run_indexes_resident_blocks(
    chain: Seq<Seq<u8>>,
    indexed: Set<Seq<u8>>,
    magic: u32,
    blobs: Seq<Seq<u8>>,
    file: int,
    at: int,
)
    requires
        0 <= file < blobs.len(),
        0 <= at < hashes_in(blobs[file], magic).len(),
    ensures
        ({
            let hash = hashes_in(blobs[file], magic)[at];
            &&& chain.contains(hash) && !indexed.contains(hash) ==> exists|f: int, a: int|
                0 <= f <= file && 0 <= a < hashes_in(blobs[f], magic).len() && hashes_in(
                    blobs[f],
                    magic,
                )[a] == hash && #[trigger] run_verdict(chain, indexed, magic, blobs, f, a)
                    is Indexed
            &&& run_verdict(chain, indexed, magic, blobs, file, at) is Indexed ==> chain.contains(
                hash,
            ) && !indexed.contains(hash)
        }),
    decreases file,
{
    let hashes = hashes_in(blobs[file], magic);
    let hash = hashes[at];
    let before = indexed_before(chain, indexed, magic, blobs, file);
    lemma_height_of_contains(chain, hash);
    lemma_indexed_grows(chain, indexed, magic, blobs, 0, file);
    if chain.contains(hash) && !indexed.contains(hash) {
        if before.contains(hash) {
            lemma_indexed_source(chain, indexed, magic, blobs, file, hash);
            let f = choose|f: int|
                0 <= f < file && hashes_in(blobs[f], magic).contains(hash);
            let earlier = hashes_in(blobs[f], magic);
            let a = choose|a: int| 0 <= a < earlier.len() && earlier[a] == hash;
            lemma_run_indexes_resident_blocks(chain, indexed, magic, blobs, f, a);
        } else {
            lemma_first_below(hashes, hash, at);
            let a = choose|a: int| first_at(hashes, hash, a);
            lemma_height_of_contains(chain, hashes[a]);
            assert(run_verdict(chain, indexed, magic, blobs, file, a) is Indexed);
        }
    }
}

/// A hash of the chain that is indexed before a file of a run, and was not
/// before the run, stands in an earlier file.
proof fn lemma_indexed_source(
    chain: Seq<Seq<u8>>,
    indexed: Set<Seq<u8>>,
    magic: u32,
    blobs: Seq<Seq<u8>>,
    n: int,
    hash: Seq<u8>,
)
    requires
        0 <= n,
        indexed_before(chain, indexed, magic, blobs, n).contains(hash),
        !indexed.contains(hash),
    ensures
        exists|f: int| 0 <= f < n && hashes_in(blobs[f], magic).contains(hash),
    decreases n,
{
    if n > 0 {
        if hashes_in(blobs[n - 1], magic).contains(hash) {
        } else {
            lemma_indexed_source(chain, indexed, magic, blobs, n - 1, hash);
        }
    }
}

/// What the set of indexed hashes holds in the middle of a file: a hash of
/// the chain is in it exactly where it was indexed before the file or stands
/// earlier in the file.
proof fn lemma_seen_before(
    chain: Seq<Seq<u8>>,
    before: Set<Seq<u8>>,
    hashes: Seq<Seq<u8>>,
    i: int,
)
    requires
        0 <= i < hashes.len(),
        height_of(chain, hashes[i]) is Some,
    ensures
        indexed_after(chain, before, hashes.subrange(0, i)).contains(hashes[i]) <==> (
        before.contains(hashes[i]) || exists|k: int| 0 <= k < i && hashes[k] == hashes[i]),
{
    let earlier = hashes.subrange(0, i);
    if earlier.contains(hashes[i]) {
        let k = choose|k: int| 0 <= k < earlier.len() && earlier[k] == hashes[i];
        assert(hashes[k] == hashes[i]);
    }
    if exists|k: int| 0 <= k < i && hashes[k] == hashes[i] {
        let k = choose|k: int| 0 <= k < i && hashes[k] == hashes[i];
        assert(earlier[k] == hashes[i]);
    }
}

} // verus!
