use udp_balancer::client::poller::LoadPoller;
use udp_balancer::client::sender::{
    check_reply, client_name, hello_message, worker_ports, RequestSender,
};
use udp_balancer::config::{load_servers, ConfigError};
use udp_balancer::wire::{receive_into, REQUEST_BUFFER_LEN};

fn servers() -> Vec<String> {
    vec![
        String::from("127.0.0.1:7878"),
        String::from("127.0.0.1:7879"),
        String::from("127.0.0.1:7880"),
    ]
}

#[test]
fn poller_starts_at_first_server() {
    let p = LoadPoller::new();
    assert_eq!(p.min_server, 0);
    assert_eq!(p.min_server_load, u16::MAX);
}

#[test]
fn poller_picks_first_least_loaded() {
    let mut p = LoadPoller::new();
    p.observe(0, Some(5));
    p.observe(1, Some(3));
    p.observe(2, Some(3));
    assert_eq!(p.min_server(), 1);
    assert_eq!(p.min_server_load, 3);
    p.end_round();
    assert_eq!(p.min_server(), 1);
    assert_eq!(p.min_server_load, u16::MAX);
    // next round: server 1 silent, server 2 lowest
    p.observe(0, Some(9));
    p.observe(1, None);
    p.observe(2, Some(4));
    assert_eq!(p.min_server(), 2);
}

#[test]
fn poller_keeps_choice_without_answers() {
    let mut p = LoadPoller::new();
    p.observe(2, Some(1));
    p.end_round();
    p.observe(0, None);
    p.observe(1, Some(u16::MAX));
    p.observe(2, None);
    assert_eq!(p.min_server(), 2);
}

#[test]
fn sender_counts_sends_and_successes() {
    let mut s = RequestSender::new(String::from("Client 0"), servers());
    assert!(s.consistent());
    s.record_send(1);
    assert_eq!(s.pending(), Some(1));
    s.record_success(100);
    assert_eq!(s.pending(), None);
    s.record_send(1);
    s.record_success(200);
    s.record_send(0);
    assert_eq!(s.total_sent(), 3);
    assert_eq!(s.total_successful(), 2);
    assert_eq!(s.avg_response_time(), 150);
    assert_eq!(s.server_counts(0), (1, 0));
    assert_eq!(s.server_counts(1), (2, 2));
    assert_eq!(s.server_counts(2), (0, 0));
}

#[test]
fn running_mean_is_integer_mean() {
    let mut s = RequestSender::new(String::from("c"), servers());
    for (i, e) in [10u128, 11, 13].iter().enumerate() {
        s.record_send(2);
        s.record_success(*e);
        let _ = i;
    }
    // (10) -> 10; (11 + 1*10)/2 = 10; (13 + 2*10)/3 = 11
    assert_eq!(s.avg_response_time(), 11);
}

#[test]
fn stats_have_three_servers() {
    let mut s = RequestSender::new(String::from("Client 7"), servers());
    s.record_send(0);
    s.record_success(40);
    s.record_send(2);
    let st = s.get_stats();
    assert_eq!(st.name, "Client 7");
    assert_eq!(st.total_sent, 2);
    assert_eq!(st.total_successful, 1);
    assert_eq!(st.avg_response_time, 40);
    assert_eq!(st.server_stats.len(), 3);
    assert_eq!(st.server_stats[0].name, "0");
    assert_eq!(st.server_stats[0].num_sent, 1);
    assert_eq!(st.server_stats[0].num_ackd, 1);
    assert_eq!(st.server_stats[2].name, "2");
    assert_eq!(st.server_stats[2].num_sent, 1);
    assert_eq!(st.server_stats[2].num_ackd, 0);
}

#[test]
fn stats_report_text() {
    let mut s = RequestSender::new(String::from("Client 3"), servers());
    s.record_send(1);
    s.record_success(5);
    s.record_send(1);
    assert_eq!(
        s.stats_report(),
        "\nClient 3 :\nServer\tSent\tAcknowledged\n0\t0\t0\n1\t2\t1\n2\t0\t0"
    );
}

#[test]
fn reply_matching() {
    let msg = "Hello from 127.0.0.1:5000 [3]";
    let echo = receive_into(msg.as_bytes(), REQUEST_BUFFER_LEN);
    assert_eq!(check_reply(&echo, msg), Some(true));
    assert_eq!(check_reply(b"  Hello from 127.0.0.1:5000 [3]\n\0\0", msg), Some(true));
    assert_eq!(check_reply(b"Hello from 127.0.0.1:5000 [4]", msg), Some(false));
    assert_eq!(check_reply(&[0xff, 0xfe], msg), None);
    assert_eq!(check_reply(&[0u8; 100], ""), Some(true));
}

#[test]
fn client_texts_and_ports() {
    assert_eq!(hello_message("127.0.0.1:5000", 12), "Hello from 127.0.0.1:5000 [12]");
    assert_eq!(client_name(499), "Client 499");
    assert_eq!(worker_ports(5000, 3), (5003, 6003));
}

#[test]
fn server_list_from_json() {
    let v = load_servers("[\"127.0.0.1:7878\", \"127.0.0.1:7879\"]").unwrap();
    assert_eq!(v, vec![String::from("127.0.0.1:7878"), String::from("127.0.0.1:7879")]);
    assert_eq!(load_servers("{\"a\": 1}"), Err(ConfigError::InvalidServerList));
    assert_eq!(load_servers("[1, 2]"), Err(ConfigError::InvalidServerList));
    assert_eq!(load_servers("not json"), Err(ConfigError::InvalidServerList));
    let s = RequestSender::from_server_list(String::from("c"), "[\"a\",\"b\",\"c\"]").ok().unwrap();
    assert_eq!(s.server_count(), 3);
    assert_eq!(s.server(2), "c");
    assert!(RequestSender::from_server_list(String::from("c"), "[").is_err());
}

#[test]
fn mean_over_a_run_stays_within_bounds() {
    let mut s = RequestSender::new(String::from("c"), servers());
    let times = [30u128, 7, 19, 100, 12];
    for e in times {
        s.record_send(0);
        s.record_success(e);
        let m = s.avg_response_time();
        assert!(7 <= m && m <= 100);
    }
    assert_eq!(s.total_successful(), 5);
}

#[test]
fn choice_stays_in_list_across_rounds() {
    let mut p = LoadPoller::new();
    let rounds: [[Option<u16>; 3]; 3] = [
        [Some(4), Some(2), None],
        [None, None, None],
        [Some(9), Some(9), Some(1)],
    ];
    let expected = [1u16, 1, 2];
    for (r, round) in rounds.iter().enumerate() {
        for (i, l) in round.iter().enumerate() {
            p.observe(i as u16, *l);
            assert!((p.min_server() as usize) < 3);
        }
        p.end_round();
        assert_eq!(p.min_server(), expected[r]);
        assert_eq!(p.min_server_load, u16::MAX);
    }
}
