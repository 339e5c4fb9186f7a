use udp_balancer::client::sender::check_reply;
use udp_balancer::peer::receiver::{ack_port, RequestReceiver as PeerReceiver};
use udp_balancer::peer::sender::{request_frame, RequestSender as PeerSender};
use udp_balancer::server::receiver::{request_port, ListenAction, RequestReceiver};
use udp_balancer::text::decode_text;
use udp_balancer::wire::{decode_load, receive_into, REQUEST_BUFFER_LEN};

#[test]
fn server_answers_load_queries() {
    let mut r: RequestReceiver<u32> = RequestReceiver::new(String::from("127.0.0.1:7878"));
    match r.on_datagram(&[2, 2], 7) {
        ListenAction::ReplyLoad(report, to) => {
            assert_eq!(decode_load(report), 0);
            assert_eq!(to, 7);
        }
        _ => panic!("expected a load report"),
    }
    assert!(matches!(r.on_datagram(b"req one", 1), ListenAction::Queued));
    assert!(matches!(r.on_datagram(b"req two", 2), ListenAction::Queued));
    assert!(matches!(r.on_datagram(&[1, 9], 3), ListenAction::Ignore));
    assert_eq!(r.load(), 2);
    match r.on_datagram(&[2], 9) {
        ListenAction::ReplyLoad(report, _) => assert_eq!(report, [0, 2]),
        _ => panic!("expected a load report"),
    }
}

#[test]
fn server_echoes_in_arrival_order() {
    let mut r: RequestReceiver<&str> = RequestReceiver::new(String::from("a:1"));
    r.on_datagram(b"first", "x");
    r.on_datagram(b"second", "y");
    let (b1, a1) = r.next_request().unwrap();
    assert_eq!(a1, "x");
    assert_eq!(b1.len(), 100);
    assert_eq!(&b1[..5], b"first");
    assert!(b1[5..].iter().all(|b| *b == 0));
    assert_eq!(r.load(), 1);
    let (b2, a2) = r.next_request().unwrap();
    assert_eq!(a2, "y");
    assert_eq!(&b2[..6], b"second");
    assert_eq!(r.load(), 0);
    assert!(r.next_request().is_none());
    assert!(r.consistent());
}

#[test]
fn empty_datagram_is_a_request() {
    let mut r: RequestReceiver<()> = RequestReceiver::new(String::from("s"));
    assert!(matches!(r.on_datagram(&[], ()), ListenAction::Queued));
    let (b, _) = r.next_request().unwrap();
    assert_eq!(b, vec![0u8; 100]);
}

#[test]
fn server_file_name_and_ports() {
    let r: RequestReceiver<()> = RequestReceiver::new(String::from("127.0.0.1:7878"));
    assert_eq!(r.stats_file_name(), "127.0.0.1-7878.txt");
    assert_eq!(request_port(7878), 7978);
}

#[test]
fn echo_is_acknowledged_end_to_end() {
    let msg = "Hello from 127.0.0.1:5003 [17]";
    let mut r: RequestReceiver<u8> = RequestReceiver::new(String::from("127.0.0.1:7878"));
    assert!(matches!(r.on_datagram(msg.as_bytes(), 0), ListenAction::Queued));
    let (echo, _) = r.next_request().unwrap();
    assert_eq!(decode_text(&echo).unwrap().trim_matches('\0'), msg);
    let received = receive_into(&echo, REQUEST_BUFFER_LEN);
    assert_eq!(check_reply(&received, msg), Some(true));
}

#[test]
fn long_request_is_cut_and_may_not_decode() {
    // 99 ASCII bytes then a two-byte character: cut inside the character
    let mut msg = "a".repeat(99);
    msg.push('é');
    let mut r: RequestReceiver<u8> = RequestReceiver::new(String::from("s"));
    r.on_datagram(msg.as_bytes(), 0);
    let (echo, _) = r.next_request().unwrap();
    assert_eq!(decode_text(&echo), None);
    assert_eq!(check_reply(&echo, &msg), None);
}

#[test]
fn peer_frames() {
    assert_eq!(request_frame("  hi there \n"), b"\0hi there".to_vec());
    assert_eq!(request_frame("\n"), vec![0u8]);
    let s = PeerSender::new(String::from("127.0.0.1:5656"), String::from("127.0.0.1:7878"));
    assert_eq!(s.recepient_addr, "127.0.0.1:7878");
    assert_eq!(s.addr, "127.0.0.1:5656");
}

#[test]
fn peer_receiver_acknowledges_requests_only() {
    let r = PeerReceiver::new(String::from("127.0.0.1:7878"));
    let rc = r.receive(&request_frame("hello\n")).unwrap();
    assert_eq!(rc.text.trim_end_matches('\0'), "hello");
    assert_eq!(rc.text.len(), 999);
    let ack = rc.ack.unwrap();
    assert_eq!(ack[0], 1);
    assert_eq!(&ack[1..], b"Message Recieved By 127.0.0.1:7878");
    // the acknowledgement itself is printed but not acknowledged
    let rc2 = r.receive(&ack).unwrap();
    assert!(rc2.ack.is_none());
    assert_eq!(rc2.text.trim_end_matches('\0'), "Message Recieved By 127.0.0.1:7878");
    // invalid text after the tag is refused
    assert!(r.receive(&[0, 0xff]).is_none());
    assert_eq!(ack_port(5656), 5657);
}
