use swap_history::calendar::Day;
use swap_history::cursor::Cursor;
use swap_history::cursor::Strategy;
use swap_history::fetch::fetch_day;
use swap_history::fetch::swaps;
use swap_history::fetch::DayAccumulator;
use swap_history::fetch::DayError;
use swap_history::fetch::DayProgress;
use swap_history::fetch::FetchOutcome;
use swap_history::fetch::PageFetcher;
use swap_history::fetch::PageStep;
use swap_history::fetch::TransientError;
use swap_history::fetch::PAGE_CAPACITY;
use swap_history::fetch::RETRY_BUDGET;
use swap_history::record::SwapsSwaps;
use swap_history::record::SwapsSwapsPair;
use swap_history::record::SwapsSwapsPairToken0;
use swap_history::record::SwapsSwapsPairToken1;
use swap_history::record::SwapsSwapsTransaction;

fn swap(id: &str) -> SwapsSwaps {
    SwapsSwaps {
        id: id.to_string(),
        to: [1u8; 20],
        sender: [2u8; 20],
        log_index: Some("7".to_string()),
        timestamp: "1589673600".to_string(),
        amount0_in: "1.5".to_string(),
        amount1_in: "0".to_string(),
        amount0_out: "0".to_string(),
        amount1_out: "3.25".to_string(),
        amount_usd: "12.000000000000000001".to_string(),
        pair: SwapsSwapsPair {
            token0: SwapsSwapsPairToken0 { id: "0xaaa".to_string() },
            token1: SwapsSwapsPairToken1 { id: "0xbbb".to_string() },
        },
        transaction: SwapsSwapsTransaction {
            id: format!("tx-{}", id),
            block_number: "10092190".to_string(),
        },
    }
}

fn page(first: usize, count: usize) -> Vec<SwapsSwaps> {
    (first..first + count).map(|i| swap(&format!("0x{:08x}", i))).collect()
}

fn the_day() -> Day {
    Day::new(2020, 5, 17).unwrap()
}

fn failure() -> FetchOutcome {
    FetchOutcome::Transient(TransientError::Transport)
}

fn pending(progress: DayProgress) -> DayAccumulator {
    match progress {
        DayProgress::Pending(accumulator) => accumulator,
        other => panic!("the fetch ended: {:?}", other),
    }
}

#[test]
fn the_constants_are_those_of_the_service() {
    assert_eq!(PAGE_CAPACITY, 100);
    assert_eq!(RETRY_BUDGET, 10);
}

#[test]
fn pages_of_100_100_42_give_242_records_in_3_calls() {
    let outcomes = vec![
        FetchOutcome::Page(page(0, 100)),
        FetchOutcome::Page(page(100, 100)),
        FetchOutcome::Page(page(200, 42)),
    ];
    let (progress, calls) = fetch_day(the_day(), Strategy::LastId, outcomes);
    assert_eq!(calls, 3);
    match progress {
        DayProgress::Complete(result) => {
            assert_eq!(result.day, the_day());
            assert_eq!(result.records.len(), 242);
            assert_eq!(result.records, page(0, 242));
        }
        other => panic!("not complete: {:?}", other),
    }
}

#[test]
fn pages_of_100_100_42_with_offsets() {
    let outcomes = vec![
        FetchOutcome::Page(page(0, 100)),
        FetchOutcome::Page(page(100, 100)),
        FetchOutcome::Page(page(200, 42)),
    ];
    let (progress, calls) = fetch_day(the_day(), Strategy::Offset, outcomes);
    assert_eq!(calls, 3);
    match progress {
        DayProgress::Complete(result) => assert_eq!(result.records, page(0, 242)),
        other => panic!("not complete: {:?}", other),
    }
}

#[test]
fn answers_after_the_last_page_are_not_asked_for() {
    let outcomes = vec![
        FetchOutcome::Page(page(0, 100)),
        FetchOutcome::Page(page(100, 3)),
        FetchOutcome::Page(page(103, 100)),
        failure(),
    ];
    let (progress, calls) = fetch_day(the_day(), Strategy::Offset, outcomes);
    assert_eq!(calls, 2);
    match progress {
        DayProgress::Complete(result) => assert_eq!(result.records, page(0, 103)),
        other => panic!("not complete: {:?}", other),
    }
}

#[test]
fn a_fetch_without_answers_is_pending_with_nothing_read() {
    let (progress, calls) = fetch_day(the_day(), Strategy::Offset, vec![]);
    assert_eq!(calls, 0);
    let accumulator = pending(progress);
    assert_eq!(accumulator.len(), 0);
    assert_eq!(accumulator.failures(), 0);
    assert_eq!(accumulator.day(), the_day());
}

#[test]
fn an_empty_first_page_completes_an_empty_day() {
    let (progress, calls) = fetch_day(the_day(), Strategy::LastId, vec![FetchOutcome::Page(vec![])]);
    assert_eq!(calls, 1);
    match progress {
        DayProgress::Complete(result) => assert!(result.records.is_empty()),
        other => panic!("not complete: {:?}", other),
    }
}

#[test]
fn a_page_of_99_is_the_last_and_one_of_100_is_not() {
    let short = DayAccumulator::begin(the_day(), Strategy::Offset).on_outcome(FetchOutcome::Page(page(0, 99)));
    assert!(matches!(short, DayProgress::Complete(_)));
    let full = DayAccumulator::begin(the_day(), Strategy::Offset).on_outcome(FetchOutcome::Page(page(0, 100)));
    assert!(matches!(full, DayProgress::Pending(_)));
    let over = DayAccumulator::begin(the_day(), Strategy::Offset).on_outcome(FetchOutcome::Page(page(0, 101)));
    assert_eq!(pending(over).len(), 101);
}

#[test]
fn the_first_request_starts_at_the_start_of_the_day() {
    let by_id = DayAccumulator::begin(the_day(), Strategy::LastId).request();
    assert_eq!(by_id.cursor, Cursor::LastId("0x0".to_string()));
    assert_eq!(by_id.start, Some(1_589_673_600));
    assert_eq!(by_id.end, Some(1_589_760_000));
    let by_offset = DayAccumulator::begin(the_day(), Strategy::Offset).request();
    assert_eq!(by_offset.cursor, Cursor::Offset(0));
    assert_eq!(by_offset.start, Some(1_589_673_600));
    assert_eq!(by_offset.end, Some(1_589_760_000));
}

#[test]
fn identifier_cursor_is_the_last_id_of_the_previous_page() {
    let mut accumulator = DayAccumulator::begin(the_day(), Strategy::LastId);
    assert_eq!(accumulator.strategy(), Strategy::LastId);
    let mut first = 0;
    for _ in 0..5 {
        let arrived = page(first, 100);
        let last_id = arrived[99].id.clone();
        accumulator = pending(accumulator.on_outcome(FetchOutcome::Page(arrived)));
        let request = accumulator.request();
        assert_eq!(request.cursor, Cursor::LastId(last_id));
        assert_eq!(request.start, Some(1_589_673_600));
        assert_eq!(request.end, Some(1_589_760_000));
        first += 100;
    }
}

#[test]
fn offset_cursor_is_the_count_of_records_so_far() {
    let mut accumulator = DayAccumulator::begin(the_day(), Strategy::Offset);
    assert_eq!(accumulator.strategy(), Strategy::Offset);
    let mut total = 0usize;
    for size in [100usize, 100, 130, 100] {
        accumulator = pending(accumulator.on_outcome(FetchOutcome::Page(page(total, size))));
        total += size;
        assert_eq!(accumulator.len(), total);
        assert_eq!(accumulator.request().cursor, Cursor::Offset(total as u64));
    }
}

#[test]
fn a_failed_attempt_repeats_the_request() {
    let accumulator = pending(
        DayAccumulator::begin(the_day(), Strategy::LastId).on_outcome(FetchOutcome::Page(page(0, 100))),
    );
    let before = accumulator.request();
    let accumulator = pending(accumulator.on_outcome(failure()));
    assert_eq!(accumulator.failures(), 1);
    assert_eq!(accumulator.len(), 100);
    assert_eq!(accumulator.request(), before);
}

#[test]
fn nine_failures_then_a_page_reset_the_counter() {
    let mut accumulator = DayAccumulator::begin(the_day(), Strategy::LastId);
    for failed in 1..=9u32 {
        accumulator = pending(accumulator.on_outcome(failure()));
        assert_eq!(accumulator.failures(), failed);
    }
    accumulator = pending(accumulator.on_outcome(FetchOutcome::Page(page(0, 100))));
    assert_eq!(accumulator.failures(), 0);
    assert_eq!(accumulator.len(), 100);
}

#[test]
fn nine_failures_then_a_short_page_complete_the_day() {
    let mut outcomes: Vec<FetchOutcome> = (0..9).map(|_| failure()).collect();
    outcomes.push(FetchOutcome::Page(page(0, 42)));
    let (progress, calls) = fetch_day(the_day(), Strategy::Offset, outcomes);
    assert_eq!(calls, 10);
    match progress {
        DayProgress::Complete(result) => assert_eq!(result.records, page(0, 42)),
        other => panic!("not complete: {:?}", other),
    }
}

#[test]
fn ten_failures_in_a_row_exceed_the_budget() {
    let outcomes: Vec<FetchOutcome> = (0..10).map(|_| failure()).collect();
    let (progress, calls) = fetch_day(the_day(), Strategy::LastId, outcomes);
    assert_eq!(calls, 10);
    assert_eq!(progress, DayProgress::Failed(DayError::RetryBudgetExceeded));
}

#[test]
fn the_budget_is_spent_by_the_tenth_failure_and_not_before() {
    let mut accumulator = DayAccumulator::begin(the_day(), Strategy::Offset);
    for _ in 0..9 {
        accumulator = pending(accumulator.on_outcome(failure()));
    }
    assert_eq!(accumulator.on_outcome(failure()), DayProgress::Failed(DayError::RetryBudgetExceeded));
}

#[test]
fn the_budget_bounds_consecutive_failures_only() {
    let mut outcomes: Vec<FetchOutcome> = Vec::new();
    let mut first = 0;
    for _ in 0..4 {
        for _ in 0..9 {
            outcomes.push(failure());
        }
        outcomes.push(FetchOutcome::Page(page(first, 100)));
        first += 100;
    }
    outcomes.push(FetchOutcome::Page(page(first, 1)));
    let (progress, calls) = fetch_day(the_day(), Strategy::LastId, outcomes);
    assert_eq!(calls, 41);
    match progress {
        DayProgress::Complete(result) => assert_eq!(result.records, page(0, 401)),
        other => panic!("not complete: {:?}", other),
    }
}

#[test]
fn a_day_that_fails_after_pages_keeps_none_of_them() {
    let mut outcomes = vec![FetchOutcome::Page(page(0, 100)), FetchOutcome::Page(page(100, 100))];
    for _ in 0..10 {
        outcomes.push(failure());
    }
    outcomes.push(FetchOutcome::Page(page(200, 5)));
    let (progress, calls) = fetch_day(the_day(), Strategy::Offset, outcomes);
    assert_eq!(calls, 12);
    assert_eq!(progress, DayProgress::Failed(DayError::RetryBudgetExceeded));
}

#[test]
fn every_kind_of_transient_failure_is_retried_alike() {
    for kind in [TransientError::Transport, TransientError::Status, TransientError::MissingData] {
        let accumulator = pending(
            DayAccumulator::begin(the_day(), Strategy::Offset).on_outcome(FetchOutcome::Transient(kind)),
        );
        assert_eq!(accumulator.failures(), 1);
        assert_eq!(accumulator.len(), 0);
        assert_eq!(accumulator.request().cursor, Cursor::Offset(0));
    }
    let mixed = vec![
        FetchOutcome::Transient(TransientError::Transport),
        FetchOutcome::Transient(TransientError::Status),
        FetchOutcome::Transient(TransientError::MissingData),
        FetchOutcome::Transient(TransientError::Status),
        FetchOutcome::Transient(TransientError::Transport),
        FetchOutcome::Transient(TransientError::MissingData),
        FetchOutcome::Transient(TransientError::MissingData),
        FetchOutcome::Transient(TransientError::Transport),
        FetchOutcome::Transient(TransientError::Status),
        FetchOutcome::Transient(TransientError::Status),
    ];
    let (progress, _) = fetch_day(the_day(), Strategy::Offset, mixed);
    assert_eq!(progress, DayProgress::Failed(DayError::RetryBudgetExceeded));
}

#[test]
fn page_fetcher_delivers_counts_and_gives_up() {
    let fetcher = PageFetcher::new();
    assert_eq!(fetcher.failures(), 0);
    let mut fetcher = match fetcher.next_page(failure()) {
        PageStep::Retry(fetcher) => fetcher,
        other => panic!("no retry: {:?}", other),
    };
    assert_eq!(fetcher.failures(), 1);
    for expected in 2..=9u32 {
        fetcher = match fetcher.next_page(failure()) {
            PageStep::Retry(fetcher) => fetcher,
            other => panic!("no retry: {:?}", other),
        };
        assert_eq!(fetcher.failures(), expected);
    }
    assert_eq!(fetcher.next_page(failure()), PageStep::RetryBudgetExceeded);

    let fetcher = match PageFetcher::new().next_page(failure()) {
        PageStep::Retry(fetcher) => fetcher,
        other => panic!("no retry: {:?}", other),
    };
    match fetcher.next_page(FetchOutcome::Page(page(0, 3))) {
        PageStep::Delivered(delivered, fetcher) => {
            assert_eq!(delivered, page(0, 3));
            assert_eq!(fetcher.failures(), 0);
        }
        other => panic!("not delivered: {:?}", other),
    }
}

#[test]
fn cursor_starts_at_zero() {
    assert_eq!(Cursor::start(Strategy::Offset), Cursor::Offset(0));
    assert_eq!(Cursor::start(Strategy::LastId), Cursor::LastId("0x0".to_string()));
    assert_eq!(Cursor::start(Strategy::Offset).strategy(), Strategy::Offset);
    assert_eq!(Cursor::start(Strategy::LastId).strategy(), Strategy::LastId);
}

#[test]
fn cursor_advances_behind_a_page() {
    assert_eq!(Cursor::Offset(0).advance(&page(0, 100)), Cursor::Offset(100));
    assert_eq!(Cursor::Offset(200).advance(&page(0, 42)), Cursor::Offset(242));
    assert_eq!(Cursor::Offset(7).advance(&[]), Cursor::Offset(7));
    let arrived = page(0, 100);
    assert_eq!(
        Cursor::LastId("0x0".to_string()).advance(&arrived),
        Cursor::LastId(arrived[99].id.clone())
    );
    assert_eq!(Cursor::LastId("0xabc".to_string()).advance(&[]), Cursor::LastId("0xabc".to_string()));
}

#[test]
fn cursor_clone_is_equal() {
    let cursor = Cursor::LastId("0xdeadbeef".to_string());
    assert_eq!(cursor.clone(), cursor);
    assert_eq!(Cursor::Offset(300).clone(), Cursor::Offset(300));
}

#[test]
fn swaps_carries_cursor_and_window() {
    let request = swaps(Cursor::LastId("0x12".to_string()), Some(10), Some(20));
    assert_eq!(request.cursor, Cursor::LastId("0x12".to_string()));
    assert_eq!(request.start, Some(10));
    assert_eq!(request.end, Some(20));
    let open = swaps(Cursor::Offset(300), None, None);
    assert_eq!(open.cursor, Cursor::Offset(300));
    assert_eq!(open.start, None);
    assert_eq!(open.end, None);
}
