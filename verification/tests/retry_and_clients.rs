use aleo_client::http_client::{HTTPClient, HTTPClientError};
use aleo_client::imports::{import_order, ImportTree};
use aleo_client::retry::{RetryState, RetryStep};

fn attempts_until_give_up(max_retries: u32) -> u32 {
    let mut state = RetryState::new(max_retries);
    let mut attempts = 1;
    while state.record_failure() == RetryStep::TryAgain {
        attempts += 1;
    }
    attempts
}

#[test]
fn retries_make_max_retries_attempts() {
    assert_eq!(attempts_until_give_up(0), 1);
    assert_eq!(attempts_until_give_up(1), 1);
    assert_eq!(attempts_until_give_up(2), 2);
    assert_eq!(attempts_until_give_up(5), 5);
}

#[test]
fn http_client_kinds() {
    let blocking = HTTPClient::Blocking(ureq::AgentBuilder::new().build());
    assert!(blocking.blocking_client().is_ok());
    assert_eq!(blocking.async_client().err(), Some(HTTPClientError::NotAsync));
    let asynchronous = HTTPClient::Async(reqwest::Client::new());
    assert!(asynchronous.async_client().is_ok());
    assert_eq!(asynchronous.blocking_client().err(), Some(HTTPClientError::NotBlocking));
    let copy = blocking.clone();
    assert!(copy.blocking_client().is_ok());
}

fn leaf(id: &str, fetch: usize) -> ImportTree {
    ImportTree { id: id.to_string(), fetch, imports: vec![] }
}

#[test]
fn imports_are_listed_after_their_own_imports() {
    // a imports b and c; b imports d; c imports d.
    let trees = vec![
        ImportTree {
            id: "b.aleo".to_string(),
            fetch: 0,
            imports: vec![leaf("d.aleo", 1)],
        },
        ImportTree {
            id: "c.aleo".to_string(),
            fetch: 2,
            imports: vec![leaf("d.aleo", 3)],
        },
    ];
    let order: Vec<(String, usize)> = import_order(&trees)
        .into_iter()
        .collect();
    assert_eq!(
        order,
        vec![
            ("d.aleo".to_string(), 3),
            ("b.aleo".to_string(), 0),
            ("c.aleo".to_string(), 2),
        ]
    );
    assert_eq!(import_order(&vec![]).len(), 0);
}

#[test]
fn an_import_listed_earlier_keeps_its_place() {
    let trees = vec![
        leaf("x.aleo", 0),
        ImportTree {
            id: "y.aleo".to_string(),
            fetch: 1,
            imports: vec![leaf("x.aleo", 2), leaf("z.aleo", 3)],
        },
    ];
    let order: Vec<(String, usize)> = import_order(&trees).into_iter().collect();
    assert_eq!(
        order,
        vec![
            ("x.aleo".to_string(), 2),
            ("z.aleo".to_string(), 3),
            ("y.aleo".to_string(), 1),
        ]
    );
}
