use rust_load_balancer::client::{
    after_failure, RetryStep, SenderClient, MAX_RETRIES, RETRY_DELAY_MS,
};
use rust_load_balancer::generator::{render_post_body, requests_per_client};
use rust_load_balancer::names::NameMap;
use rust_load_balancer::server::{Server, ServerArgs};
use rust_load_balancer::text::{
    decimal_string, find_byte, find_bytes, push_bytes, push_decimal, push_percent, share_in_tenths,
};

fn percent(part: u64, whole: u128) -> String {
    let mut out = String::new();
    push_percent(&mut out, share_in_tenths(part, whole));
    out
}

#[test]
fn decimal_of_small_and_large_numbers() {
    assert_eq!(decimal_string(0), "0");
    assert_eq!(decimal_string(7), "7");
    assert_eq!(decimal_string(10), "10");
    assert_eq!(decimal_string(1024), "1024");
    assert_eq!(decimal_string(9876543210), "9876543210");
    assert_eq!(decimal_string(u64::MAX as u128), "18446744073709551615");
    assert_eq!(decimal_string(u128::MAX), "340282366920938463463374607431768211455");
}

#[test]
fn decimal_agrees_with_the_standard_formatting() {
    let mut n: u128 = 0;
    while n < 100_000 {
        assert_eq!(decimal_string(n), n.to_string());
        n += 37;
    }
}

#[test]
fn push_decimal_appends() {
    let mut out = String::from("n=");
    push_decimal(&mut out, 42);
    push_decimal(&mut out, 0);
    assert_eq!(out, "n=420");
}

#[test]
fn share_is_rounded_to_the_nearest_tenth() {
    assert_eq!(share_in_tenths(0, 0), 0);
    assert_eq!(share_in_tenths(0, 5), 0);
    assert_eq!(share_in_tenths(5, 5), 1000);
    assert_eq!(share_in_tenths(1, 2), 500);
    assert_eq!(share_in_tenths(1, 3), 333);
    assert_eq!(share_in_tenths(2, 3), 667);
    assert_eq!(share_in_tenths(1, 7), 143);
    assert_eq!(share_in_tenths(1, 1000), 1);
    assert_eq!(share_in_tenths(1, 3000), 0);
    assert_eq!(share_in_tenths(u64::MAX, u64::MAX as u128), 1000);
    assert_eq!(share_in_tenths(u64::MAX, u128::MAX), 0);
}

#[test]
fn share_halfway_goes_to_the_even_tenth() {
    // 1/16 is 6.25 %, 3/16 is 18.75 %.
    assert_eq!(share_in_tenths(1, 16), 62);
    assert_eq!(share_in_tenths(3, 16), 188);
    // 1/2000 is 0.05 %, 3/2000 is 0.15 %.
    assert_eq!(share_in_tenths(1, 2000), 0);
    assert_eq!(share_in_tenths(3, 2000), 2);
}

#[test]
fn percent_has_one_fractional_digit() {
    assert_eq!(percent(0, 0), "0.0%");
    assert_eq!(percent(1, 3), "33.3%");
    assert_eq!(percent(2, 3), "66.7%");
    assert_eq!(percent(1, 1), "100.0%");
    assert_eq!(percent(1, 16), "6.2%");
    assert_eq!(percent(1, 200), "0.5%");
}

#[test]
fn percent_agrees_with_float_formatting_away_from_ties() {
    for whole in 1u64..=60 {
        for part in 0..=whole {
            let scaled = part as u128 * 2000;
            if scaled % whole as u128 == 0 && (scaled / whole as u128) % 2 == 1 {
                // Exactly halfway between two tenths.
                continue;
            }
            let expected = format!("{:.1}%", (part as f64 / whole as f64) * 100.0);
            assert_eq!(percent(part, whole as u128), expected);
        }
    }
}

#[test]
fn find_bytes_finds_every_position() {
    assert!(find_bytes(b"hello world", b"hello"));
    assert!(find_bytes(b"hello world", b"o w"));
    assert!(find_bytes(b"hello world", b"world"));
    assert!(find_bytes(b"hello world", b"hello world"));
    assert!(find_bytes(b"hello world", b""));
    assert!(find_bytes(b"", b""));
    assert!(!find_bytes(b"", b"a"));
    assert!(!find_bytes(b"hello world", b"worlds"));
    assert!(!find_bytes(b"hello world", b"hello world!"));
    assert!(!find_bytes(b"aab", b"ba"));
    assert!(find_bytes(b"aaab", b"aab"));
}

#[test]
fn find_byte_gives_the_first_position_or_the_length() {
    assert_eq!(find_byte(b"a b c", b' '), 1);
    assert_eq!(find_byte(b" a", b' '), 0);
    assert_eq!(find_byte(b"abc", b' '), 3);
    assert_eq!(find_byte(b"", b' '), 0);
}

#[test]
fn push_bytes_appends() {
    let mut out = vec![1u8, 2];
    push_bytes(&mut out, &[3, 4, 5]);
    push_bytes(&mut out, &[]);
    assert_eq!(out, vec![1, 2, 3, 4, 5]);
}

#[test]
fn name_map_keeps_insertion_order_and_last_value() {
    let mut map: NameMap<u32> = NameMap::new();
    assert_eq!(map.len(), 0);
    map.insert(&"b".to_string(), 1);
    map.insert(&"a".to_string(), 2);
    map.insert(&"b".to_string(), 3);
    assert_eq!(map.len(), 2);
    assert_eq!(map.find(&"b".to_string()), Some(0));
    assert_eq!(map.find(&"a".to_string()), Some(1));
    assert_eq!(map.find(&"c".to_string()), None);
    assert_eq!(map.get(&"b".to_string()), Some(&3));
    assert_eq!(map.get(&"c".to_string()), None);
    assert_eq!(map.key_at(1), "a");
    assert_eq!(*map.value_at(1), 2);
}

#[test]
fn counters_start_at_zero_and_add_up() {
    let mut counters: NameMap<u64> = NameMap::new();
    assert_eq!(counters.count(&"a".to_string()), 0);
    assert_eq!(counters.total(), 0);
    counters.increment(&"a".to_string());
    counters.increment(&"b".to_string());
    counters.increment(&"a".to_string());
    assert_eq!(counters.count(&"a".to_string()), 2);
    assert_eq!(counters.count(&"b".to_string()), 1);
    assert_eq!(counters.total(), 3);
    assert!(counters.has_headroom());
    counters.insert(&"c".to_string(), u64::MAX);
    assert!(!counters.has_headroom());
    assert_eq!(counters.total(), 3 + u64::MAX as u128);
}

#[test]
fn server_keeps_its_settings() {
    let args = ServerArgs { port: 8001, get_delay: 100, post_delay: 50 };
    let server = Server::new(args.port, args.get_delay, args.post_delay);
    assert_eq!(server.port(), 8001);
    assert_eq!(server.get_delay(), 100);
    assert_eq!(server.post_delay(), 50);
}

#[test]
fn server_answers_get_and_post_after_their_delays() {
    let server = Server::new(8001, 100, 50);
    let reply = server.reply_to(b"GET / HTTP/1.1\r\nHost: x\r\n\r\n");
    assert_eq!(reply.delay_ms, Some(100));
    assert_eq!(
        reply.response,
        b"HTTP/1.1 200 OK\r\nConnection: close\r\nContent-Length: 29\r\n\r\nRequest Received of type: GET"
            .to_vec()
    );
    let reply = server.reply_to(b"POST /items HTTP/1.1\r\n\r\nbody");
    assert_eq!(reply.delay_ms, Some(50));
    assert_eq!(
        reply.response,
        b"HTTP/1.1 200 OK\r\nConnection: close\r\nContent-Length: 30\r\n\r\nRequest Received of type: POST"
            .to_vec()
    );
}

#[test]
fn server_answers_other_methods_at_once() {
    let server = Server::new(8001, 100, 50);
    let reply = server.reply_to(b"DELETE /items/1 HTTP/1.1\r\n\r\n");
    assert_eq!(reply.delay_ms, None);
    assert_eq!(
        reply.response,
        b"HTTP/1.1 200 OK\r\nConnection: close\r\nContent-Length: 32\r\n\r\nRequest Received of type: DELETE"
            .to_vec()
    );
    let reply = server.reply_to(b"get / HTTP/1.1\r\n\r\n");
    assert_eq!(reply.delay_ms, None);
}

#[test]
fn server_finds_no_method_without_a_space_on_the_first_line() {
    let server = Server::new(8001, 100, 50);
    let empty = b"HTTP/1.1 200 OK\r\nConnection: close\r\nContent-Length: 26\r\n\r\nRequest Received of type: "
        .to_vec();
    for request in [&b""[..], &b"GET"[..], &b"GET\r\nHost: x y\r\n"[..], &b"\nGET / HTTP/1.1"[..]] {
        let reply = server.reply_to(request);
        assert_eq!(reply.delay_ms, None);
        assert_eq!(reply.response, empty);
    }
    let reply = server.reply_to(b" / HTTP/1.1");
    assert_eq!(reply.delay_ms, None);
    assert_eq!(reply.response, empty);
}

#[test]
fn client_builds_endpoint_addresses() {
    let client = SenderClient::new("7", "http://127.0.0.1:8000");
    assert_eq!(client.id, "7");
    assert_eq!(client.url, "http://127.0.0.1:8000");
    assert_eq!(client.endpoint_url(""), "http://127.0.0.1:8000/");
    assert_eq!(client.endpoint_url("items"), "http://127.0.0.1:8000/items");
}

#[test]
fn client_gives_up_after_the_allowed_tries() {
    assert_eq!(MAX_RETRIES, 3);
    assert_eq!(RETRY_DELAY_MS, 100);
    assert_eq!(after_failure(0, 3), RetryStep::RetryAfter { attempt: 1, delay_ms: 100 });
    assert_eq!(after_failure(1, 3), RetryStep::RetryAfter { attempt: 2, delay_ms: 100 });
    assert_eq!(after_failure(2, 3), RetryStep::GiveUp);
    assert_eq!(after_failure(3, 3), RetryStep::GiveUp);
    assert_eq!(after_failure(0, 0), RetryStep::GiveUp);
    assert_eq!(after_failure(0, 1), RetryStep::GiveUp);
    assert_eq!(after_failure(u32::MAX, u32::MAX), RetryStep::GiveUp);
    assert_eq!(
        after_failure(u32::MAX - 2, u32::MAX),
        RetryStep::RetryAfter { attempt: u32::MAX - 1, delay_ms: 100 }
    );
}

#[test]
fn generator_spreads_the_requests() {
    assert_eq!(requests_per_client(100, 10), 10);
    assert_eq!(requests_per_client(10, 5), 2);
    assert_eq!(requests_per_client(7, 2), 3);
    assert_eq!(requests_per_client(3, 5), 0);
    assert_eq!(render_post_body(0), "test0");
    assert_eq!(render_post_body(12), "test12");
}
