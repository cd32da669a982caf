use wows_player_stats::pipeline::{normalize_players, PrefixEnumerator};
use wows_player_stats::scraper::{classify_reply, ReplyStep, SearchState, PAGE_CAP};
use wows_player_stats::wows_data::{GenericReply, GenericReplyError, PlayerRecord};

fn player(nickname: &str, account_id: u64) -> PlayerRecord {
    PlayerRecord { nickname: nickname.to_string(), account_id }
}

fn players(n: usize) -> Vec<PlayerRecord> {
    (0..n).map(|i| player(&format!("Player{}", i), i as u64)).collect()
}

#[test]
fn prefixes_enumerate_in_order() {
    let mut e = PrefixEnumerator::new();
    assert_eq!(e.next_prefix(), "aaa");
    assert_eq!(e.next_prefix(), "aab");
    let mut e2 = PrefixEnumerator::new();
    for _ in 0..26 {
        e2.next_prefix();
    }
    assert_eq!(e2.next_prefix(), "aa_");
    assert_eq!(e2.next_prefix(), "aba");
}

#[test]
fn prefixes_cycle_forever() {
    let mut e = PrefixEnumerator::new();
    let first = e.next_prefix();
    let mut last = String::new();
    for _ in 0..19_682 {
        last = e.next_prefix();
    }
    assert_eq!(last, "___");
    assert_eq!(e.next_prefix(), first);
}

#[test]
fn normalize_lowercases_nicknames() {
    let batch = vec![player("AdmiralFoo", 7), player("BAR_baz", 8)];
    let out = normalize_players(&batch);
    assert_eq!(out.len(), 2);
    assert_eq!(out[0].nickname, "admiralfoo");
    assert_eq!(out[0].account_id, 7);
    assert_eq!(out[1].nickname, "bar_baz");
    assert_eq!(out[1].account_id, 8);
}

#[test]
fn truncated_page_triggers_exactly_26_subsearches() {
    // A page of exactly 100 records for "ab" enqueues "aba" .. "abz".
    let mut s = SearchState::new("ab");
    assert_eq!(s.next_search().unwrap(), "ab");
    s.step(players(PAGE_CAP));
    let mut subs = Vec::new();
    while let Some(q) = s.next_search() {
        subs.push(q);
        s.step(Vec::new());
    }
    let expected: Vec<String> = ('a'..='z').map(|c| format!("ab{}", c)).collect();
    assert_eq!(subs, expected);
    assert!(s.finish().is_empty());
}

#[test]
fn final_page_is_collected_without_subsearches() {
    // A page of 99 records is final: no refinement, records collected.
    let mut s = SearchState::new("ab");
    assert_eq!(s.next_search().unwrap(), "ab");
    s.step(players(99));
    assert!(s.next_search().is_none());
    let result = s.finish();
    assert_eq!(result.len(), 99);
    assert_eq!(result[0].nickname, "Player0");
}

#[test]
fn reply_with_data_hands_it_on() {
    let reply: GenericReply<u32> = GenericReply { status: "ok".to_string(), meta: None, error: None, data: Some(17) };
    assert!(matches!(classify_reply(reply), ReplyStep::Data(17)));
}

#[test]
fn transient_error_asks_for_retry() {
    let reply: GenericReply<u32> = GenericReply {
        status: "error".to_string(),
        meta: None,
        error: Some(GenericReplyError { code: 504, message: "SOURCE_NOT_AVAILABLE".to_string() }),
        data: None,
    };
    assert!(matches!(classify_reply(reply), ReplyStep::RetryTransient));
}

#[test]
fn other_api_errors_are_fatal() {
    let reply: GenericReply<u32> = GenericReply {
        status: "error".to_string(),
        meta: None,
        error: Some(GenericReplyError { code: 407, message: "INVALID_APPLICATION_ID".to_string() }),
        data: None,
    };
    assert!(matches!(classify_reply(reply), ReplyStep::Fatal(407)));
}

#[test]
fn empty_envelope_is_malformed() {
    let reply: GenericReply<u32> = GenericReply { status: "error".to_string(), meta: None, error: None, data: None };
    assert!(matches!(classify_reply(reply), ReplyStep::Malformed));
}
