//! Computing, validating and ordering the delta of newly available blocks.
//!
//! A poll against the ledger proceeds in three steps.  First,
//! [`delta_heights`] turns the watermark (the height of the last block
//! already delivered) and the ledger's reported current height into the
//! exact list of heights to request, failing fast with
//! [`BlocksGettingError::TooManyBlocks`] when that list cannot be allocated.
//! Second, the caller requests every height — concurrently, in whatever
//! order its transport completes them — and hands the collected responses,
//! each paired with the height it was requested at, to
//! [`assemble_new_blocks`], which checks every response and rebuilds the
//! ascending, gap-free sequence of blocks whatever the completion order was.
//! Third, [`Poller::apply_delta`] advances the watermark, and only on a
//! fully successful delta.
//!
//! Policy choices, applied consistently throughout:
//! - a current height at or below the watermark is not an error; the delta
//!   is simply empty (the most permissive reading of a ledger that has not
//!   advanced);
//! - a response whose block data is missing its hash or its height fails
//!   the whole delta ([`BlockGettingError::Incomplete`]); no block is ever
//!   dropped silently, so a successful delta is always contiguous;
//! - a response reporting no block at a height the ledger claimed to have
//!   reached is a typed, recoverable error
//!   ([`BlockGettingError::NoSuchBlock`]), not an abort;
//! - a block answering the request for one height while calling itself
//!   another fails the whole delta ([`BlockGettingError::WrongHeight`]):
//!   accepting it would silently break the contiguity of what a poll
//!   delivers.

use vstd::prelude::*;

use crate::block::Block;
use crate::block::Hash256;
use std::collections::TryReserveError;

verus! {

/// An opaque description of a transport-level failure, as reported by
/// whatever RPC client the caller uses.
#[derive(Debug)]
pub struct TransportFault {
    pub message: String,
}

/// Why the ledger's current height could not be obtained.
#[derive(Debug)]
pub enum CurrentBlockIdGettingError {
    /// An error occurred when making a request to the blockchain RPC server.
    ServerRequestError(TransportFault),
}

/// Why a single block could not be obtained.
#[derive(Debug)]
pub enum BlockGettingError {
    /// The ledger reported no block at a height it had claimed to reach.
    NoSuchBlock,
    /// The received block information is missing its hash or its height.
    Incomplete,
    /// The received block carries a height other than the one requested.
    WrongHeight,
    /// An error occurred when making a request to the blockchain RPC server.
    ServerRequestError(TransportFault),
}

/// Why a whole delta of new blocks could not be obtained.
#[derive(Debug)]
pub enum BlocksGettingError {
    /// The ledger's current height could not be obtained.
    CurrentBlockId(CurrentBlockIdGettingError),
    /// One of the blocks of the delta could not be obtained; the error of
    /// the lowest failing height is reported.
    Block(BlockGettingError),
    /// The delta is too large for a result buffer to be allocated.  This is
    /// decided before any block is requested.
    TooManyBlocks,
}

/// Block data as the transport delivers it: every field that the ledger
/// might omit is optional here, and completeness is checked rather than
/// assumed.
#[derive(Debug)]
pub struct RawBlock {
    pub hash: Option<Hash256>,
    pub number: Option<u64>,
    pub transactions: Vec<Hash256>,
}

/// The outcome of requesting one block: the data (or its absence), or a
/// transport failure.
pub type BlockResponse = Result<Option<RawBlock>, TransportFault>;

/// How many blocks are newly available when the watermark is `after` and
/// the ledger reports `current`: the size of the height range
/// `(after, current]`.
pub open spec fn delta_count(after: u64, current: u64) -> int {
    if current > after {
        current - after
    } else {
        0
    }
}

/// Fallible pre-reservation: a collection that can refuse an oversized
/// capacity instead of aborting on allocation failure.
pub trait TryWithCapacity<T>: Sized {
    /// An empty collection with room for `capacity` elements, or the
    /// allocator's refusal.
    fn try_with_capacity(capacity: usize) -> (result: Result<Vec<T>, TryReserveError>)
        ensures
            result matches Ok(v) ==> v@.len() == 0,
    ;
}

impl<T> TryWithCapacity<T> for Vec<T> {
    fn try_with_capacity(capacity: usize) -> (result: Result<Vec<T>, TryReserveError>) {
        let mut new_blocks: Vec<T> = Vec::new();
        match new_blocks.try_reserve(capacity) {
            Ok(()) => Ok(new_blocks),
            Err(reserve_error) => Err(reserve_error),
        }
    }
}

/// The exact heights to request after watermark `after` when the ledger
/// reports current height `current`: the ascending contiguous range
/// `(after, current]`.
///
/// A `current` at or below `after` yields the empty delta, by policy.  The
/// size of the range is validated before anything is allocated: a range
/// that cannot even be indexed, or whose buffer the allocator refuses, is
/// answered with [`BlocksGettingError::TooManyBlocks`] — and the caller
/// then requests nothing at all.
pub fn delta_heights(after: u64, current: u64) -> (result: Result<Vec<u64>, BlocksGettingError>)
    ensures
        current <= after ==> result is Ok,
        result matches Ok(v) ==> v@.len() == delta_count(after, current),
        result matches Ok(v) ==> forall|i: int| 0 <= i < v@.len() ==> #[trigger] v@[i] == after + 1
            + i,
        result matches Err(e) ==> e == BlocksGettingError::TooManyBlocks && current > after,
        delta_count(after, current) > usize::MAX ==> result is Err,
{
    if current <= after {
        return Ok(Vec::new());
    }
    let count_wide: u64 = current - after;
    if count_wide > usize::MAX as u64 {
        return Err(BlocksGettingError::TooManyBlocks);
    }
    let count: usize = count_wide as usize;
    let mut heights: Vec<u64> = match <Vec<u64> as TryWithCapacity<u64>>::try_with_capacity(count) {
        Ok(buffer) => buffer,
        Err(_refused) => {
            return Err(BlocksGettingError::TooManyBlocks);
        },
    };
    let mut height: u64 = after;
    while height < current
        invariant
            after <= height <= current,
            heights@.len() == height - after,
            forall|i: int| 0 <= i < heights@.len() ==> #[trigger] heights@[i] == after + 1 + i,
        decreases current - height,
    {
        height = height + 1;
        heights.push(height);
    }
    Ok(heights)
}

/// Whether a response is a complete block for the height it was requested
/// at: data present, hash present, and the block's own height equal to the
/// requested one.
pub open spec fn response_ok(requested: u64, response: BlockResponse) -> bool {
    response matches Ok(Some(raw)) && raw.hash is Some && raw.number == Some(requested)
}

/// The block a complete response describes.
pub open spec fn block_of_response(requested: u64, response: BlockResponse) -> Block
    recommends
        response_ok(requested, response),
{
    match response {
        Ok(Some(raw)) => Block {
            hash: raw.hash.unwrap(),
            number: requested,
            transaction_ids: raw.transactions,
        },
        _ => vstd::pervasive::arbitrary(),
    }
}

/// The error an unusable response is classified as.
pub open spec fn response_error_spec(requested: u64, response: BlockResponse) -> BlockGettingError
    recommends
        !response_ok(requested, response),
{
    match response {
        Err(fault) => BlockGettingError::ServerRequestError(fault),
        Ok(None) => BlockGettingError::NoSuchBlock,
        Ok(Some(raw)) => if raw.number is Some && raw.hash is Some {
            BlockGettingError::WrongHeight
        } else {
            BlockGettingError::Incomplete
        },
    }
}

/// Classify the response for one requested height: either the complete
/// block it describes, or exactly which way it is unusable.
pub fn interpret_block_response(requested: u64, response: BlockResponse) -> (result: Result<
    Block,
    BlockGettingError,
>)
    ensures
        result is Ok <==> response_ok(requested, response),
        result matches Ok(block) ==> block == block_of_response(requested, response),
        result matches Err(e) ==> e == response_error_spec(requested, response),
{
    match response {
        Err(fault) => Err(BlockGettingError::ServerRequestError(fault)),
        Ok(None) => Err(BlockGettingError::NoSuchBlock),
        Ok(Some(raw)) => match (raw.number, raw.hash) {
            (Some(number), Some(hash)) => {
                if number == requested {
                    Ok(Block { hash, number, transaction_ids: raw.transactions })
                } else {
                    Err(BlockGettingError::WrongHeight)
                }
            },
            _ => Err(BlockGettingError::Incomplete),
        },
    }
}

/// Every response in `rs` was requested at a height in `(after, current]`.
pub open spec fn in_range(after: u64, current: u64, rs: Seq<(u64, BlockResponse)>) -> bool {
    forall|i: int| 0 <= i < rs.len() ==> after < (#[trigger] rs[i]).0 <= current
}

/// No two responses in `rs` were requested at the same height.
pub open spec fn distinct_heights(rs: Seq<(u64, BlockResponse)>) -> bool {
    forall|i: int, j: int|
        0 <= i < j < rs.len() ==> (#[trigger] rs[i]).0 != (#[trigger] rs[j]).0
}

/// One of the first `upto` responses of `rs` was requested at height `h`.
pub open spec fn seen(rs: Seq<(u64, BlockResponse)>, upto: int, h: u64) -> bool {
    exists|j: int| 0 <= j < upto && (#[trigger] rs[j]).0 == h
}

/// Every height in `(after, current]` has a response in `rs`.
pub open spec fn covers_range(after: u64, current: u64, rs: Seq<(u64, BlockResponse)>) -> bool {
    forall|h: u64| after < h <= current ==> #[trigger] seen(rs, rs.len() as int, h)
}

/// `rs` holds exactly one response for each height of the delta
/// `(after, current]`, in whatever order, and nothing else — the shape in
/// which a concurrent fan-out hands its joined results back.
pub open spec fn covers_delta(after: u64, current: u64, rs: Seq<(u64, BlockResponse)>) -> bool {
    &&& rs.len() == delta_count(after, current)
    &&& in_range(after, current, rs)
    &&& distinct_heights(rs)
    &&& covers_range(after, current, rs)
}

/// The position in `rs` of the response requested at height `h`.
pub open spec fn height_index(rs: Seq<(u64, BlockResponse)>, h: u64) -> int {
    choose|i: int| 0 <= i < rs.len() && (#[trigger] rs[i]).0 == h
}

/// The response requested at height `h`.
pub open spec fn resp_at(rs: Seq<(u64, BlockResponse)>, h: u64) -> BlockResponse {
    rs[height_index(rs, h)].1
}

/// Every height of the delta `(after, current]` got a complete block.
pub open spec fn all_responses_ok(after: u64, current: u64, rs: Seq<(u64, BlockResponse)>) -> bool {
    forall|h: u64| after < h <= current ==> #[trigger] response_ok(h, resp_at(rs, h))
}

/// The lowest height of the delta whose response is unusable.
pub open spec fn first_failing_height(after: u64, current: u64, rs: Seq<(u64, BlockResponse)>) -> u64 {
    choose|h: u64|
        after < h <= current && !response_ok(h, resp_at(rs, h)) && (forall|g: u64|
            after < g < h ==> #[trigger] response_ok(g, resp_at(rs, g)))
}

/// The error a partially unusable delta is answered with: the
/// classification of the response at the lowest failing height.
pub open spec fn delta_error(after: u64, current: u64, rs: Seq<(u64, BlockResponse)>) -> BlocksGettingError {
    BlocksGettingError::Block(
        response_error_spec(
            first_failing_height(after, current, rs),
            resp_at(rs, first_failing_height(after, current, rs)),
        ),
    )
}

/// With distinct heights, the response at a position is the response at
/// its height: position and height determine each other.
proof fn lemma_height_index_of(rs: Seq<(u64, BlockResponse)>, j: int)
    requires
        distinct_heights(rs),
        0 <= j < rs.len(),
    ensures
        height_index(rs, rs[j].0) == j,
        resp_at(rs, rs[j].0) == rs[j].1,
        seen(rs, rs.len() as int, rs[j].0),
{
    let h = rs[j].0;
    assert(0 <= j < rs.len() && rs[j].0 == h);
    assert(exists|i: int| 0 <= i < rs.len() && (#[trigger] rs[i]).0 == h);
    let i0 = height_index(rs, h);
    assert(0 <= i0 < rs.len() && rs[i0].0 == h);
    if i0 != j {
        assert(rs[i0].0 != rs[j].0);
        assert(false);
    }
}

/// Extending the processed prefix by one response extends the set of seen
/// heights by exactly that response's height.
proof fn lemma_seen_extend(rs: Seq<(u64, BlockResponse)>, p: int, h: u64)
    requires
        0 <= p < rs.len(),
    ensures
        seen(rs, p + 1, h) <==> (seen(rs, p, h) || rs[p].0 == h),
{
    if seen(rs, p, h) {
        let j = choose|j: int| 0 <= j < p && (#[trigger] rs[j]).0 == h;
        assert(0 <= j < p + 1 && rs[j].0 == h);
    }
    if rs[p].0 == h {
        assert(0 <= p < p + 1 && rs[p].0 == h);
    }
    if seen(rs, p + 1, h) && !seen(rs, p, h) {
        let j = choose|j: int| 0 <= j < p + 1 && (#[trigger] rs[j]).0 == h;
        if j < p {
            assert(seen(rs, p, h));
        }
        assert(j == p);
    }
}

/// Replace one slot of a buffer of optional blocks.
fn set_slot(slots: &mut Vec<Option<Block>>, index: usize, value: Option<Block>)
    requires
        index < old(slots)@.len(),
    ensures
        final(slots)@ == old(slots)@.update(index as int, value),
{
    let _replaced = slots.remove(index);
    slots.insert(index, value);
    proof {
        assert(final(slots)@ =~= old(slots)@.update(index as int, value));
    }
}

/// Check and order the joined responses of one delta fetch.
///
/// `responses` holds, for every height of `(after, current]`, the response
/// the transport gave, paired with the height it was requested at — in any
/// order, since concurrent requests complete in any order.  When every
/// response is a complete block for its height, the result is the full
/// delta in ascending height order: completion order never shows through.
/// Otherwise the whole delta fails with the classification of the lowest
/// failing height, and no partial result is surfaced.
pub fn assemble_new_blocks(
    after: u64,
    current: u64,
    responses: Vec<(u64, BlockResponse)>,
) -> (result: Result<Vec<Block>, BlocksGettingError>)
    requires
        covers_delta(after, current, responses@),
    ensures
        result is Ok <==> all_responses_ok(after, current, responses@),
        result matches Ok(v) ==> v@.len() == delta_count(after, current),
        result matches Ok(v) ==> forall|k: int|
            0 <= k < v@.len() ==> #[trigger] v@[k] == block_of_response(
                (after + 1 + k) as u64,
                resp_at(responses@, (after + 1 + k) as u64),
            ),
        result matches Err(e) ==> e == delta_error(after, current, responses@),
{
    let ghost rs = responses@;
    let count: usize = responses.len();

    let mut slots: Vec<Option<Block>> = Vec::new();
    while slots.len() < count
        invariant
            slots@.len() <= count,
            forall|k: int| 0 <= k < slots@.len() ==> (#[trigger] slots@[k]) is None,
        decreases count - slots@.len(),
    {
        slots.push(None);
    }

    let mut failure: Option<(u64, BlockGettingError)> = None;
    let mut rest = responses;
    let mut processed: usize = 0;
    while rest.len() > 0
        invariant
            covers_delta(after, current, rs),
            rs.len() == count,
            processed + rest@.len() == count,
            rest@ == rs.subrange(processed as int, count as int),
            slots@.len() == count,
            forall|k: int|
                0 <= k < count ==> ((#[trigger] slots@[k]) is Some <==> seen(
                    rs,
                    processed as int,
                    (after + 1 + k) as u64,
                ) && response_ok((after + 1 + k) as u64, resp_at(rs, (after + 1 + k) as u64))),
            forall|k: int|
                0 <= k < count ==> ((#[trigger] slots@[k]) matches Some(b) ==> b
                    == block_of_response(
                    (after + 1 + k) as u64,
                    resp_at(rs, (after + 1 + k) as u64),
                )),
            failure is None ==> forall|j: int|
                0 <= j < processed ==> response_ok((#[trigger] rs[j]).0, rs[j].1),
            failure matches Some(p) ==> {
                &&& after < p.0 <= current
                &&& seen(rs, processed as int, p.0)
                &&& !response_ok(p.0, resp_at(rs, p.0))
                &&& p.1 == response_error_spec(p.0, resp_at(rs, p.0))
                &&& forall|j: int|
                    0 <= j < processed && (#[trigger] rs[j]).0 < p.0 ==> response_ok(
                        rs[j].0,
                        rs[j].1,
                    )
            },
        decreases rest@.len(),
    {
        let ghost p_old = processed as int;
        let ghost slots_old = slots@;
        let ghost failure_old = failure;
        let (h, resp) = rest.remove(0);
        proof {
            assert(rs.subrange(p_old, count as int)[0] == rs[p_old]);
            assert(rs[p_old].0 == h && rs[p_old].1 == resp);
            assert(after < rs[p_old].0 <= current);
            lemma_height_index_of(rs, p_old);
            assert(rest@ =~= rs.subrange(p_old + 1, count as int));
        }
        let slot_index: usize = (h - after - 1) as usize;
        proof {
            assert(h - after - 1 < count);
            assert(slot_index == h - after - 1);
            assert((after + 1 + slot_index) as u64 == h);
        }
        match interpret_block_response(h, resp) {
            Ok(block) => {
                set_slot(&mut slots, slot_index, Some(block));
            },
            Err(block_error) => {
                let replace = match &failure {
                    Option::None => true,
                    Option::Some(prior) => h < prior.0,
                };
                if replace {
                    failure = Some((h, block_error));
                }
            },
        }
        processed = processed + 1;
        proof {
            assert forall|k: int| 0 <= k < count implies (#[trigger] seen(
                rs,
                p_old + 1,
                (after + 1 + k) as u64,
            ) <==> (seen(rs, p_old, (after + 1 + k) as u64) || (k == h - after - 1))) by {
                lemma_seen_extend(rs, p_old, (after + 1 + k) as u64);
                assert(rs[p_old].0 == h);
                assert((after + 1 + k) as u64 == h <==> k == h - after - 1);
            }
            if response_ok(h, resp) {
                assert(slots@ == slots_old.update(slot_index as int, slots@[slot_index as int]));
            } else {
                assert(slots@ == slots_old);
                assert(!seen(rs, p_old, h) || !response_ok(h, resp_at(rs, h)));
            }
        }
    }
    proof {
        assert(processed == count);
    }
    match failure {
        Option::None => {
            proof {
                assert forall|h: u64| after < h <= current implies #[trigger] response_ok(
                    h,
                    resp_at(rs, h),
                ) by {
                    assert(seen(rs, count as int, h));
                    let j = choose|j: int| 0 <= j < count as int && (#[trigger] rs[j]).0 == h;
                    assert(response_ok(rs[j].0, rs[j].1));
                    lemma_height_index_of(rs, j);
                }
                assert forall|k: int| 0 <= k < count implies (#[trigger] slots@[k]) is Some by {
                    let h = (after + 1 + k) as u64;
                    assert(after < h <= current);
                    assert(seen(rs, count as int, h));
                    assert(response_ok(h, resp_at(rs, h)));
                }
            }
            let ghost snap = slots@;
            let mut new_blocks: Vec<Block> = Vec::new();
            while slots.len() > 0
                invariant
                    new_blocks@.len() + slots@.len() == count,
                    snap.len() == count,
                    slots@ == snap.subrange(new_blocks@.len() as int, count as int),
                    forall|k: int| 0 <= k < count ==> (#[trigger] snap[k]) is Some,
                    forall|k: int|
                        0 <= k < count ==> ((#[trigger] snap[k]) matches Some(b) ==> b
                            == block_of_response(
                            (after + 1 + k) as u64,
                            resp_at(rs, (after + 1 + k) as u64),
                        )),
                    forall|k: int|
                        0 <= k < new_blocks@.len() ==> #[trigger] new_blocks@[k] == snap[k].unwrap(),
                decreases slots@.len(),
            {
                let ghost done = new_blocks@.len() as int;
                let slot = slots.remove(0);
                proof {
                    assert(snap.subrange(done, count as int)[0] == snap[done]);
                    assert(slots@ =~= snap.subrange(done + 1, count as int));
                }
                let block = slot.unwrap();
                new_blocks.push(block);
            }
            Ok(new_blocks)
        },
        Option::Some((failing_height, block_error)) => {
            proof {
                assert forall|g: u64| after < g < failing_height implies #[trigger] response_ok(
                    g,
                    resp_at(rs, g),
                ) by {
                    assert(g <= current);
                    assert(seen(rs, count as int, g));
                    let j = choose|j: int| 0 <= j < count as int && (#[trigger] rs[j]).0 == g;
                    assert(rs[j].0 < failing_height);
                    assert(response_ok(rs[j].0, rs[j].1));
                    lemma_height_index_of(rs, j);
                }
                assert(!response_ok(failing_height, resp_at(rs, failing_height)));
                assert(!all_responses_ok(after, current, rs));
                let ff = first_failing_height(after, current, rs);
                assert(after < failing_height <= current && !response_ok(
                    failing_height,
                    resp_at(rs, failing_height),
                ) && (forall|g: u64|
                    after < g < failing_height ==> #[trigger] response_ok(g, resp_at(rs, g))));
                assert(after < ff <= current && !response_ok(ff, resp_at(rs, ff)) && (forall|g: u64|
                    after < g < ff ==> #[trigger] response_ok(g, resp_at(rs, g))));
                if ff < failing_height {
                    assert(response_ok(ff, resp_at(rs, ff)));
                    assert(false);
                }
                if failing_height < ff {
                    assert(response_ok(failing_height, resp_at(rs, failing_height)));
                    assert(false);
                }
                assert(ff == failing_height);
            }
            Err(BlocksGettingError::Block(block_error))
        },
    }
}

/// The heights of a sequence of blocks, in sequence order.
pub open spec fn heights_of(blocks: Seq<Block>) -> Seq<u64> {
    blocks.map_values(|b: Block| b.number)
}

/// `heights` is exactly the ascending contiguous range
/// `(w, w + heights.len()]`: no gap, no duplicate, no stray height.
pub open spec fn contiguous_after(heights: Seq<u64>, w: u64) -> bool {
    forall|i: int| 0 <= i < heights.len() ==> #[trigger] heights[i] == w + 1 + i
}

/// The stateful cursor over the ledger: it remembers the height of the
/// last block already delivered and advances it by exactly the blocks of
/// each fully successful delta — never on a failure, so a failed poll can
/// be retried without missing or duplicating a block.
pub struct Poller {
    /// The watermark: the height of the last block already delivered, or
    /// the configured starting height before the first delivery.
    pub latest_known_block_number: u64,
}

impl Poller {
    /// A cursor that considers everything up to and including
    /// `latest_known_block_number` as already delivered.
    pub fn new(latest_known_block_number: u64) -> (poller: Self)
        ensures
            poller.latest_known_block_number == latest_known_block_number,
    {
        Self { latest_known_block_number }
    }

    /// The current watermark; a pure read for diagnostics or persistence.
    pub fn current_watermark(&self) -> (watermark: u64)
        ensures
            watermark == self.latest_known_block_number,
    {
        self.latest_known_block_number
    }

    /// Record the outcome of one delta fetch.  A successful, non-empty
    /// delta moves the watermark to the height of its last block; an empty
    /// delta and every failure leave the watermark exactly as it was.  The
    /// outcome itself is handed back unchanged.
    pub fn apply_delta(&mut self, delta: Result<Vec<Block>, BlocksGettingError>) -> (result: Result<
        Vec<Block>,
        BlocksGettingError,
    >)
        ensures
            result == delta,
            result is Ok && result->Ok_0@.len() > 0 ==> final(self).latest_known_block_number
                == result->Ok_0@.last().number,
            result is Ok && result->Ok_0@.len() == 0 ==> *final(self) == *old(self),
            result is Err ==> *final(self) == *old(self),
    {
        match delta {
            Ok(new_blocks) => {
                if new_blocks.len() > 0 {
                    self.latest_known_block_number = new_blocks[new_blocks.len() - 1].number;
                }
                Ok(new_blocks)
            },
            Err(error) => Err(error),
        }
    }

    /// The decision core of one poll: check and order the joined responses
    /// of a delta fetch against the current watermark, and advance the
    /// watermark exactly when the whole delta is usable.
    ///
    /// On success the returned blocks carry exactly the heights
    /// `(watermark, current]`, ascending, and the watermark moves to
    /// `current` (or stays, when the ledger has not advanced — the empty
    /// delta).  On any failure the watermark stays, so the identical poll
    /// can be retried; and the same responses are always answered with the
    /// same result, the error being that of the lowest failing height.
    pub fn ingest_responses(&mut self, current: u64, responses: Vec<(u64, BlockResponse)>) -> (result:
        Result<Vec<Block>, BlocksGettingError>)
        requires
            covers_delta(old(self).latest_known_block_number, current, responses@),
        ensures
            result is Ok <==> all_responses_ok(
                old(self).latest_known_block_number,
                current,
                responses@,
            ),
            result matches Ok(v) ==> {
                &&& v@.len() == delta_count(old(self).latest_known_block_number, current)
                &&& forall|k: int|
                    0 <= k < v@.len() ==> (#[trigger] v@[k]).number == old(
                        self,
                    ).latest_known_block_number + 1 + k
                &&& forall|k: int|
                    0 <= k < v@.len() ==> #[trigger] v@[k] == block_of_response(
                        (old(self).latest_known_block_number + 1 + k) as u64,
                        resp_at(responses@, (old(self).latest_known_block_number + 1 + k) as u64),
                    )
                &&& contiguous_after(heights_of(v@), old(self).latest_known_block_number)
                &&& final(self).latest_known_block_number == (if current > old(
                    self,
                ).latest_known_block_number {
                    current
                } else {
                    old(self).latest_known_block_number
                })
            },
            result matches Err(e) ==> e == delta_error(
                old(self).latest_known_block_number,
                current,
                responses@,
            ) && *final(self) == *old(self),
    {
        let after = self.latest_known_block_number;
        let assembled = assemble_new_blocks(after, current, responses);
        let result = self.apply_delta(assembled);
        proof {
            if result is Ok {
                let v = result->Ok_0;
                assert forall|k: int| 0 <= k < v@.len() implies (#[trigger] v@[k]).number == after
                    + 1 + k by {
                    let h = (after + 1 + k) as u64;
                    assert(response_ok(h, resp_at(responses@, h)));
                    assert(v@[k] == block_of_response(h, resp_at(responses@, h)));
                }
                assert forall|k: int|
                    0 <= k < v@.len() implies #[trigger] heights_of(v@)[k] == after + 1 + k by {
                    assert(heights_of(v@)[k] == v@[k].number);
                }
                if v@.len() > 0 {
                    assert(v@.last().number == after + delta_count(after, current));
                }
            }
        }
        result
    }
}

/// Empty-delta stability: while the ledger's reported height stays at or
/// below the watermark `w`, the only response set covering the delta is
/// the empty one, and it is wholly usable — so by the contract of
/// [`Poller::ingest_responses`] such a poll succeeds with the empty delta
/// and moves nothing.  The watermark it leaves behind is again `w`, so the
/// next poll against the unchanged ledger satisfies the same hypotheses
/// and repeats the same empty answer, as often as wanted.
pub proof fn lemma_empty_delta_stability(w: u64, current: u64, rs: Seq<(u64, BlockResponse)>)
    requires
        current <= w,
        covers_delta(w, current, rs),
    ensures
        rs =~= Seq::<(u64, BlockResponse)>::empty(),
        delta_count(w, current) == 0,
        all_responses_ok(w, current, rs),
{
}

/// No gaps, no duplicates across a whole run of polls: given the watermark
/// before and after each of a run of successful polls (`w[i]` before the
/// `i`-th, `w[i + 1]` after it) and the height list each returned, the
/// concatenation of all the height lists is exactly the contiguous
/// ascending range from just above the starting watermark `w.first()` up
/// to and including the final watermark `w.last()`.
///
/// The hypothesis is exactly what [`Poller::ingest_responses`] ensures of
/// every successful poll: the returned heights continue contiguously from
/// the watermark, and the watermark moves to the last returned height (or
/// stays, on an empty delta).
pub open spec fn successful_poll_run(w: Seq<u64>, deltas: Seq<Seq<u64>>) -> bool {
    &&& w.len() == deltas.len() + 1
    &&& forall|i: int|
        0 <= i < deltas.len() ==> contiguous_after(#[trigger] deltas[i], w[i]) && w[i + 1] == (
        if deltas[i].len() == 0 {
            w[i]
        } else {
            deltas[i].last()
        })
}

/// The concatenation of a run's height lists, in run order.
pub open spec fn concat_heights(deltas: Seq<Seq<u64>>) -> Seq<u64>
    decreases deltas.len(),
{
    if deltas.len() == 0 {
        Seq::empty()
    } else {
        deltas.first() + concat_heights(deltas.drop_first())
    }
}

/// See [`successful_poll_run`]: a run of successful polls delivers exactly
/// the range `(w.first(), w.last()]`, in order, without gap or duplicate.
pub proof fn lemma_no_gap_no_duplicate(w: Seq<u64>, deltas: Seq<Seq<u64>>)
    requires
        successful_poll_run(w, deltas),
    ensures
        contiguous_after(concat_heights(deltas), w.first()),
        w.last() == w.first() + concat_heights(deltas).len(),
    decreases deltas.len(),
{
    if deltas.len() == 0 {
        assert(concat_heights(deltas) =~= Seq::<u64>::empty());
    } else {
        let d0 = deltas.first();
        let w1 = w.drop_first();
        let rest = deltas.drop_first();
        assert forall|i: int| 0 <= i < rest.len() implies contiguous_after(
            #[trigger] rest[i],
            w1[i],
        ) && w1[i + 1] == (if rest[i].len() == 0 {
            w1[i]
        } else {
            rest[i].last()
        }) by {
            assert(rest[i] == deltas[i + 1]);
            assert(w1[i] == w[i + 1] && w1[i + 1] == w[i + 2]);
            assert(contiguous_after(deltas[i + 1], w[i + 1]));
        }
        assert(successful_poll_run(w1, rest));
        lemma_no_gap_no_duplicate(w1, rest);
        let tail = concat_heights(rest);
        assert(contiguous_after(d0, w[0]));
        if d0.len() == 0 {
            assert(w[1] == w[0]);
        } else {
            assert(d0.last() == d0[d0.len() - 1]);
            assert(d0[d0.len() - 1] == w[0] + 1 + (d0.len() - 1));
            assert(w[1] == w[0] + d0.len());
        }
        assert(concat_heights(deltas) == d0 + tail);
        assert(w1.first() == w[1] && w1.last() == w.last());
        assert forall|i: int| 0 <= i < (d0 + tail).len() implies #[trigger] (d0 + tail)[i] == w[0]
            + 1 + i by {
            if i < d0.len() {
                assert((d0 + tail)[i] == d0[i]);
            } else {
                assert((d0 + tail)[i] == tail[i - d0.len()]);
                assert(tail[i - d0.len()] == w[1] + 1 + (i - d0.len()));
            }
        }
        assert(w.last() == w[1] + tail.len());
        assert((d0 + tail).len() == d0.len() + tail.len());
    }
}

} // verus!
