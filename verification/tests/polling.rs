use block_poller::block::Block;
use block_poller::block::Hash256;
use block_poller::polling::assemble_new_blocks;
use block_poller::polling::delta_heights;
use block_poller::polling::interpret_block_response;
use block_poller::polling::BlockGettingError;
use block_poller::polling::BlockResponse;
use block_poller::polling::BlocksGettingError;
use block_poller::polling::CurrentBlockIdGettingError;
use block_poller::polling::Poller;
use block_poller::polling::RawBlock;
use block_poller::polling::TransportFault;
use block_poller::polling::TryWithCapacity;

fn hash(byte: u8) -> Hash256 {
    Hash256 { bytes: [byte; 32] }
}

fn complete_response(height: u64) -> (u64, BlockResponse) {
    (
        height,
        Ok(Some(RawBlock {
            hash: Some(hash(height as u8)),
            number: Some(height),
            transactions: vec![hash(1), hash(2)],
        })),
    )
}

#[test]
fn delta_heights_empty_when_ledger_not_advanced() {
    assert_eq!(delta_heights(10, 10).unwrap(), Vec::<u64>::new());
    assert_eq!(delta_heights(10, 7).unwrap(), Vec::<u64>::new());
    assert_eq!(delta_heights(0, 0).unwrap(), Vec::<u64>::new());
}

#[test]
fn delta_heights_exact_range() {
    assert_eq!(delta_heights(5, 8).unwrap(), vec![6, 7, 8]);
    assert_eq!(delta_heights(0, 1).unwrap(), vec![1]);
}

#[test]
fn delta_heights_fast_fail_on_oversized_delta() {
    let result = delta_heights(0, u64::MAX);
    assert!(matches!(result, Err(BlocksGettingError::TooManyBlocks)));
}

#[test]
fn try_with_capacity_small_allocation() {
    let buffer: Vec<u64> = Vec::try_with_capacity(16).unwrap();
    assert!(buffer.is_empty());
}

#[test]
fn interpret_complete_block() {
    let (height, response) = complete_response(7);
    let block = interpret_block_response(height, response).unwrap();
    assert_eq!(block.number, 7);
    assert_eq!(block.hash, hash(7));
    assert_eq!(block.transaction_ids, vec![hash(1), hash(2)]);
}

#[test]
fn interpret_absent_block() {
    let result = interpret_block_response(7, Ok(None));
    assert!(matches!(result, Err(BlockGettingError::NoSuchBlock)));
}

#[test]
fn interpret_block_missing_hash() {
    let raw = RawBlock { hash: None, number: Some(7), transactions: vec![] };
    let result = interpret_block_response(7, Ok(Some(raw)));
    assert!(matches!(result, Err(BlockGettingError::Incomplete)));
}

#[test]
fn interpret_block_missing_number() {
    let raw = RawBlock { hash: Some(hash(7)), number: None, transactions: vec![] };
    let result = interpret_block_response(7, Ok(Some(raw)));
    assert!(matches!(result, Err(BlockGettingError::Incomplete)));
}

#[test]
fn interpret_block_with_wrong_height() {
    let raw = RawBlock { hash: Some(hash(9)), number: Some(9), transactions: vec![] };
    let result = interpret_block_response(7, Ok(Some(raw)));
    assert!(matches!(result, Err(BlockGettingError::WrongHeight)));
}

#[test]
fn interpret_transport_failure() {
    let fault = TransportFault { message: String::from("connection refused") };
    let result = interpret_block_response(7, Err(fault));
    match result {
        Err(BlockGettingError::ServerRequestError(f)) => {
            assert_eq!(f.message, "connection refused");
        }
        other => panic!("expected a server request error, got {:?}", other),
    }
}

#[test]
fn assemble_orders_reversed_completions_ascending() {
    // The stub transport completed the requests in reverse height order;
    // the assembled delta must come out ascending all the same.
    let responses: Vec<(u64, BlockResponse)> =
        vec![complete_response(8), complete_response(7), complete_response(6)];
    let blocks = assemble_new_blocks(5, 8, responses).unwrap();
    let numbers: Vec<u64> = blocks.iter().map(|b| b.number).collect();
    assert_eq!(numbers, vec![6, 7, 8]);
    assert_eq!(blocks[0].hash, hash(6));
    assert_eq!(blocks[2].hash, hash(8));
}

#[test]
fn assemble_empty_delta() {
    let blocks = assemble_new_blocks(5, 5, Vec::new()).unwrap();
    assert!(blocks.is_empty());
}

#[test]
fn assemble_single_block_delta() {
    let blocks = assemble_new_blocks(5, 6, vec![complete_response(6)]).unwrap();
    assert_eq!(blocks.len(), 1);
    assert_eq!(blocks[0].number, 6);
}

#[test]
fn assemble_reports_lowest_failing_height() {
    // Heights 6 and 8 both failed; the reported error must be that of
    // height 6, the lowest one, however the completions were ordered.
    let responses: Vec<(u64, BlockResponse)> = vec![
        (8, Ok(None)),
        complete_response(7),
        (6, Err(TransportFault { message: String::from("timeout") })),
    ];
    let result = assemble_new_blocks(5, 8, responses);
    match result {
        Err(BlocksGettingError::Block(BlockGettingError::ServerRequestError(f))) => {
            assert_eq!(f.message, "timeout");
        }
        other => panic!("expected the transport failure of height 6, got {:?}", other),
    }
}

#[test]
fn assemble_fails_whole_delta_on_one_absent_block() {
    let responses: Vec<(u64, BlockResponse)> =
        vec![complete_response(6), (7, Ok(None)), complete_response(8)];
    let result = assemble_new_blocks(5, 8, responses);
    assert!(matches!(
        result,
        Err(BlocksGettingError::Block(BlockGettingError::NoSuchBlock))
    ));
}

#[test]
fn assemble_fails_whole_delta_on_one_incomplete_block() {
    let incomplete = RawBlock { hash: None, number: Some(7), transactions: vec![] };
    let responses: Vec<(u64, BlockResponse)> =
        vec![complete_response(6), (7, Ok(Some(incomplete))), complete_response(8)];
    let result = assemble_new_blocks(5, 8, responses);
    assert!(matches!(
        result,
        Err(BlocksGettingError::Block(BlockGettingError::Incomplete))
    ));
}

#[test]
fn assemble_fails_whole_delta_on_mislabelled_block() {
    // The ledger answered the request for height 7 with a block calling
    // itself 9: the delta fails rather than silently mislabel or reorder.
    let mislabelled = RawBlock { hash: Some(hash(9)), number: Some(9), transactions: vec![] };
    let responses: Vec<(u64, BlockResponse)> =
        vec![complete_response(6), (7, Ok(Some(mislabelled))), complete_response(8)];
    let result = assemble_new_blocks(5, 8, responses);
    assert!(matches!(
        result,
        Err(BlocksGettingError::Block(BlockGettingError::WrongHeight))
    ));
}

#[test]
fn poller_advances_watermark_to_last_height() {
    let mut poller = Poller::new(5);
    let responses = vec![complete_response(7), complete_response(6), complete_response(8)];
    let blocks = poller.ingest_responses(8, responses).unwrap();
    assert_eq!(blocks.len(), 3);
    assert_eq!(poller.current_watermark(), 8);
}

#[test]
fn poller_concatenates_contiguous_deltas() {
    // Two successful polls in a row: together they deliver exactly the
    // range (5, 9], without gap or duplicate.
    let mut poller = Poller::new(5);
    let first = poller
        .ingest_responses(7, vec![complete_response(7), complete_response(6)])
        .unwrap();
    let second = poller
        .ingest_responses(9, vec![complete_response(9), complete_response(8)])
        .unwrap();
    let all: Vec<u64> = first.iter().chain(second.iter()).map(|b| b.number).collect();
    assert_eq!(all, vec![6, 7, 8, 9]);
    assert_eq!(poller.current_watermark(), 9);
}

#[test]
fn poller_failure_keeps_watermark_and_retry_recovers() {
    let mut poller = Poller::new(5);
    let failing = vec![complete_response(6), (7, Ok(None))];
    let result = poller.ingest_responses(7, failing);
    assert!(result.is_err());
    assert_eq!(poller.current_watermark(), 5);

    // The same poll, repeated against an unchanged ledger, fails the same
    // way and still moves nothing.
    let failing_again = vec![complete_response(6), (7, Ok(None))];
    let result_again = poller.ingest_responses(7, failing_again);
    assert!(matches!(
        result_again,
        Err(BlocksGettingError::Block(BlockGettingError::NoSuchBlock))
    ));
    assert_eq!(poller.current_watermark(), 5);

    // Once the ledger serves the block, the identical range is recovered
    // in full: nothing was missed, nothing is duplicated.
    let fixed = vec![complete_response(7), complete_response(6)];
    let blocks = poller.ingest_responses(7, fixed).unwrap();
    let numbers: Vec<u64> = blocks.iter().map(|b| b.number).collect();
    assert_eq!(numbers, vec![6, 7]);
    assert_eq!(poller.current_watermark(), 7);
}

#[test]
fn poller_empty_delta_twice_changes_nothing() {
    let mut poller = Poller::new(5);
    let first = poller.ingest_responses(5, Vec::new()).unwrap();
    assert!(first.is_empty());
    assert_eq!(poller.current_watermark(), 5);
    let second = poller.ingest_responses(5, Vec::new()).unwrap();
    assert!(second.is_empty());
    assert_eq!(poller.current_watermark(), 5);
}

#[test]
fn poller_transport_failure_on_height_query_keeps_watermark() {
    let mut poller = Poller::new(5);
    let failure: Result<Vec<Block>, BlocksGettingError> =
        Err(BlocksGettingError::CurrentBlockId(CurrentBlockIdGettingError::ServerRequestError(
            TransportFault { message: String::from("rate limited") },
        )));
    let result = poller.apply_delta(failure);
    assert!(result.is_err());
    assert_eq!(poller.current_watermark(), 5);
}
