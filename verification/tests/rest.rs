use aleo_client::blocks::{
    check_block_range, epoch_plan, scan_limit_reached, scan_windows, BlockRangeError, EpochPlan,
};
use aleo_client::network::{network_prefix, NetworkError};
use aleo_client::route::{rest_url, Route};
use aleo_client::text::{decimal_string, has_prefix, is_valid_target_url, strip_quotes, text_eq};

#[test]
fn network_prefixes() {
    assert_eq!(network_prefix("Aleo Mainnet (v0)").unwrap(), "mainnet");
    assert_eq!(network_prefix("Aleo Testnet (v0)").unwrap(), "testnet");
    assert_eq!(network_prefix("Aleo Canary (v0)").unwrap(), "canary");
    assert_eq!(network_prefix("Aleo Mainnet"), Err(NetworkError::UnsupportedNetwork));
    assert_eq!(network_prefix(""), Err(NetworkError::UnsupportedNetwork));
}

#[test]
fn urls_of_every_route() {
    let e = "http://localhost:3030";
    let n = "mainnet";
    let cases = vec![
        (Route::LatestHeight, "http://localhost:3030/mainnet/latest/height"),
        (Route::LatestHash, "http://localhost:3030/mainnet/latest/hash"),
        (Route::LatestBlock, "http://localhost:3030/mainnet/latest/block"),
        (Route::Block(0), "http://localhost:3030/mainnet/block/0"),
        (Route::Block(4294967295), "http://localhost:3030/mainnet/block/4294967295"),
        (Route::Blocks(100, 150), "http://localhost:3030/mainnet/blocks?start=100&end=150"),
        (
            Route::Transaction("at1abc".to_string()),
            "http://localhost:3030/mainnet/transaction/at1abc",
        ),
        (
            Route::MemoryPoolTransactions,
            "http://localhost:3030/mainnet/memoryPool/transactions",
        ),
        (Route::Program("credits.aleo".to_string()), "http://localhost:3030/mainnet/program/credits.aleo"),
        (
            Route::ProgramMappings("credits.aleo".to_string()),
            "http://localhost:3030/mainnet/program/credits.aleo/mappings",
        ),
        (
            Route::MappingValue(
                "credits.aleo".to_string(),
                "account".to_string(),
                "aleo1xyz".to_string(),
            ),
            "http://localhost:3030/mainnet/program/credits.aleo/mapping/account/aleo1xyz",
        ),
        (
            Route::FindBlockHash("at1abc".to_string()),
            "http://localhost:3030/mainnet/find/blockHash/at1abc",
        ),
        (
            Route::FindTransitionId("123field".to_string()),
            "http://localhost:3030/mainnet/find/transitionID/123field",
        ),
        (Route::SolutionBroadcast, "http://localhost:3030/mainnet/solution/broadcast"),
        (Route::Deploy, "http://localhost:3030/mainnet/deploy"),
    ];
    for (route, url) in cases {
        assert_eq!(rest_url(e, n, &route), url);
    }
}

#[test]
fn transaction_urls_lose_their_quotes() {
    assert_eq!(
        rest_url("http://\"host\"", "testnet", &Route::Transaction("\"at1abc\"".to_string())),
        "http://host/testnet/transaction/at1abc"
    );
    // Other routes keep them.
    assert_eq!(
        rest_url("http://h", "testnet", &Route::Program("\"p\"".to_string())),
        "http://h/testnet/program/\"p\""
    );
}

#[test]
fn text_helpers() {
    assert_eq!(strip_quotes("a\"b\"\"c"), "abc");
    assert_eq!(strip_quotes(""), "");
    assert_eq!(decimal_string(0), "0");
    assert_eq!(decimal_string(3030), "3030");
    assert_eq!(decimal_string(u32::MAX), "4294967295");
    assert!(has_prefix("https://x", "https://"));
    assert!(!has_prefix("http", "http://"));
    assert!(text_eq("abc", "abc"));
    assert!(!text_eq("abc", "abd"));
    assert!(!text_eq("abc", "ab"));
    assert!(is_valid_target_url("http://a"));
    assert!(is_valid_target_url("https://a"));
    assert!(!is_valid_target_url("localhost:3030"));
    assert!(!is_valid_target_url("HTTP://a"));
}

#[test]
fn block_ranges() {
    assert_eq!(check_block_range(10, 10), Err(BlockRangeError::StartNotBeforeEnd));
    assert_eq!(check_block_range(11, 10), Err(BlockRangeError::StartNotBeforeEnd));
    assert_eq!(check_block_range(10, 61), Err(BlockRangeError::TooManyBlocks));
    assert_eq!(check_block_range(10, 60), Ok(()));
    assert_eq!(check_block_range(0, 1), Ok(()));
}

#[test]
fn epochs() {
    assert_eq!(epoch_plan(0, 360), EpochPlan { epoch_number: 0, hash_height: None });
    assert_eq!(epoch_plan(359, 360), EpochPlan { epoch_number: 0, hash_height: None });
    assert_eq!(epoch_plan(360, 360), EpochPlan { epoch_number: 1, hash_height: Some(359) });
    assert_eq!(epoch_plan(725, 360), EpochPlan { epoch_number: 2, hash_height: Some(719) });
    assert_eq!(
        epoch_plan(u32::MAX, 1),
        EpochPlan { epoch_number: u32::MAX, hash_height: Some(u32::MAX - 1) }
    );
}

#[test]
fn scan_windows_of_ranges() {
    assert_eq!(scan_windows(70, 160), vec![(50, 100), (100, 150), (150, 160)]);
    assert_eq!(scan_windows(0, 50), vec![(0, 50)]);
    assert_eq!(scan_windows(0, 0), Vec::<(u32, u32)>::new());
    assert_eq!(scan_windows(120, 110), vec![(100, 110)]);
    assert_eq!(scan_windows(160, 110), Vec::<(u32, u32)>::new());
    for (lo, hi) in scan_windows(3, 1000) {
        assert_eq!(check_block_range(lo, hi), Ok(()));
    }
}

#[test]
fn scan_limits() {
    assert!(!scan_limit_reached(3, None));
    assert!(scan_limit_reached(usize::MAX, None));
    assert!(scan_limit_reached(3, Some(3)));
    assert!(!scan_limit_reached(2, Some(3)));
    assert!(scan_limit_reached(0, Some(0)));
}

use aleo_client::broadcast::{
    broadcast_failure_message, malformed_response_message, status_detail, transport_detail,
    BroadcastKind,
};

#[test]
fn broadcast_messages() {
    let url = "http://localhost:3030/mainnet/deploy";
    assert_eq!(
        broadcast_failure_message(BroadcastKind::Deploy, url, "(status code 500: \"boom\")"),
        "❌ Failed to deploy program to http://localhost:3030/mainnet/deploy: (status code 500: \"boom\")"
    );
    assert_eq!(
        broadcast_failure_message(BroadcastKind::Execute, "u", "d"),
        "❌ Failed to broadcast execution to u: d"
    );
    assert_eq!(
        broadcast_failure_message(BroadcastKind::Fee, "u", "d"),
        "❌ Failed to broadcast fee execution to u: d"
    );
    assert_eq!(
        broadcast_failure_message(BroadcastKind::Solution, "u", "d"),
        "❌ Failed to broadcast solution to u: d"
    );
    assert_eq!(
        malformed_response_message(BroadcastKind::Solution, "eof"),
        "❌ Solution response was malformed eof"
    );
    assert_eq!(
        malformed_response_message(BroadcastKind::Fee, "eof"),
        "❌ Transaction response was malformed eof"
    );
    assert_eq!(status_detail(404, "\"missing\""), "(status code 404: \"missing\")");
    assert_eq!(status_detail(0, ""), "(status code 0: )");
    assert_eq!(transport_detail("refused"), "(refused)");
}
