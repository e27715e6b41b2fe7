use pwlp::client::{next_action, Client, VmAction};
use pwlp::program::Program;
use pwlp::protocol::{MacAddr, Message, MessageError, MessageType};
use pwlp::server::{DeviceConfig, Server};
use pwlp::strip::DummyStrip;
use pwlp::vm::{Outcome, VMError, VM};

fn mac(last: u8) -> MacAddr {
    MacAddr { b0: 0xAA, b1: 0xBB, b2: 0xCC, b3: 0xDD, b4: 0xEE, b5: last }
}

fn ping(from: MacAddr, secret: &[u8]) -> Vec<u8> {
    Message::new(MessageType::Ping, from, None).signed(secret)
}

#[test]
fn signed_frames_round_trip() {
    let payload = vec![0x11, 0x2A, 0x01];
    let msg = Message {
        mac_address: mac(1),
        unix_time: 123456789,
        message_type: MessageType::Run,
        payload: Some(payload.clone()),
    };
    let wire = msg.signed(b"secret");
    assert_eq!(wire.len(), 6 + 4 + 1 + payload.len() + 20);
    let parsed = Message::from_buffer(&wire, b"secret").unwrap();
    assert_eq!(parsed.mac_address, mac(1));
    assert_eq!(parsed.unix_time, 123456789);
    assert!(matches!(parsed.message_type, MessageType::Run));
    assert_eq!(parsed.payload, Some(payload));

    // an empty payload parses back as no payload
    let msg = Message {
        mac_address: mac(2),
        unix_time: 7,
        message_type: MessageType::Pong,
        payload: None,
    };
    let wire = msg.signed(b"secret");
    assert_eq!(wire.len(), 31);
    let parsed = Message::from_buffer(&wire, b"secret").unwrap();
    assert_eq!(parsed.payload, None);
    assert!(matches!(parsed.message_type, MessageType::Pong));
}

#[test]
fn wrong_key_is_rejected() {
    let msg = Message {
        mac_address: mac(1),
        unix_time: 1,
        message_type: MessageType::Ping,
        payload: None,
    };
    let wire = msg.signed(b"right");
    assert!(matches!(
        Message::from_buffer(&wire, b"wrong"),
        Err(MessageError::SignatureInvalid)
    ));
    assert!(Message::from_buffer(&wire, b"right").is_ok());
}

#[test]
fn tampering_any_byte_invalidates_the_signature() {
    let msg = Message {
        mac_address: mac(1),
        unix_time: 99,
        message_type: MessageType::Run,
        payload: Some(vec![1, 2, 3, 4]),
    };
    let wire = msg.signed(b"secret");
    for i in 0..wire.len() {
        let mut tampered = wire.clone();
        tampered[i] ^= 0x01;
        assert!(
            matches!(
                Message::from_buffer(&tampered, b"secret"),
                Err(MessageError::SignatureInvalid)
            ),
            "byte {i} altered"
        );
    }
}

#[test]
fn short_frames_are_rejected() {
    assert!(matches!(
        Message::from_buffer(&[0u8; 30], b"secret"),
        Err(MessageError::MessageTooShort)
    ));
    assert!(matches!(
        Message::from_buffer(&[], b"secret"),
        Err(MessageError::MessageTooShort)
    ));
    assert!(matches!(
        Message::peek_mac_address(&[0u8; 25]),
        Err(MessageError::MessageTooShort)
    ));
    let peeked = Message::peek_mac_address(&ping(mac(9), b"s")).unwrap();
    assert_eq!(peeked, mac(9));
}

#[test]
fn unknown_type_byte_parses_as_unknown() {
    // build a run frame, then flip its type byte to something unassigned and
    // re-sign the data by hand through a fresh message of the same layout
    let msg = Message {
        mac_address: mac(1),
        unix_time: 5,
        message_type: MessageType::SetProgram,
        payload: None,
    };
    let wire = msg.signed(b"k");
    let parsed = Message::from_buffer(&wire, b"k").unwrap();
    assert!(matches!(parsed.message_type, MessageType::SetProgram));
    assert_eq!(MessageType::from(9) as u8, MessageType::Unknown as u8);
    assert!(matches!(MessageType::from(0), MessageType::Unknown));
}

#[test]
fn ping_with_wrong_secret_creates_no_device() {
    let default_program = Program::from_binary(vec![0xFE]);
    let mut server: Server<u32> = Server::new(Vec::new(), b"server-secret", default_program);
    let frame = ping(mac(1), b"wrong-secret");
    let replies = server.handle_datagram(&frame, 7, 1000);
    assert_eq!(replies.len(), 0);
    assert_eq!(server.devices.len(), 0);
}

#[test]
fn two_pings_two_pong_run_pairs() {
    let default_program = Program::from_binary(vec![0xFE]);
    let mut server: Server<u32> = Server::new(Vec::new(), b"secret", default_program);

    let first = server.handle_datagram(&ping(mac(1), b"secret"), 7, 1000);
    assert_eq!(first.len(), 2);
    assert_eq!(server.devices.len(), 1);
    let seen_first = server.devices[0].1.last_seen;
    assert_eq!(seen_first, 1000);

    let second = server.handle_datagram(&ping(mac(1), b"secret"), 7, 2000);
    assert_eq!(second.len(), 2);
    assert_eq!(server.devices.len(), 1);
    let seen_second = server.devices[0].1.last_seen;
    assert_eq!(seen_second, 2000);
    assert!(seen_second > seen_first);

    // each pair is a pong then a run carrying the device's program
    for replies in [&first, &second] {
        let pong = Message::from_buffer(&replies[0].1, b"secret").unwrap();
        assert!(matches!(pong.message_type, MessageType::Pong));
        assert_eq!(pong.mac_address, MacAddr::nil());
        assert_eq!(pong.payload, None);
        let run = Message::from_buffer(&replies[1].1, b"secret").unwrap();
        assert!(matches!(run.message_type, MessageType::Run));
        assert_eq!(run.payload, Some(vec![0xFE]));
    }

    // the pong echoes the ping's own timestamp
    let frame = ping(mac(1), b"secret");
    let sent = Message::from_buffer(&frame, b"secret").unwrap();
    let replies = server.handle_datagram(&frame, 7, 3000);
    let pong = Message::from_buffer(&replies[0].1, b"secret").unwrap();
    assert_eq!(pong.unix_time, sent.unix_time);
}

#[test]
fn device_specific_secret_and_program() {
    let device = mac(5);
    let config = vec![(
        device,
        DeviceConfig {
            program: Some(vec![0x10, 0x01]),
            secret: Some(b"device-secret".to_vec()),
        },
    )];
    let default_program = Program::from_binary(vec![0xFE]);
    let mut server: Server<u32> = Server::new(config, b"default", default_program);

    // the default secret no longer authenticates this device
    let replies = server.handle_datagram(&ping(device, b"default"), 1, 10);
    assert_eq!(replies.len(), 0);
    assert_eq!(server.devices.len(), 0);

    // its own secret does, and its configured program is served
    let replies = server.handle_datagram(&ping(device, b"device-secret"), 1, 10);
    assert_eq!(replies.len(), 2);
    let run = Message::from_buffer(&replies[1].1, b"device-secret").unwrap();
    assert_eq!(run.payload, Some(vec![0x10, 0x01]));

    // an unconfigured device still authenticates under the default secret
    let replies = server.handle_datagram(&ping(mac(6), b"default"), 2, 20);
    assert_eq!(replies.len(), 2);
    let run = Message::from_buffer(&replies[1].1, b"default").unwrap();
    assert_eq!(run.payload, Some(vec![0xFE]));
    assert_eq!(server.devices.len(), 2);
}

#[test]
fn non_ping_frames_are_recorded_but_unanswered() {
    let default_program = Program::from_binary(vec![0xFE]);
    let mut server: Server<u32> = Server::new(Vec::new(), b"secret", default_program);
    let pong = Message {
        mac_address: mac(3),
        unix_time: 4,
        message_type: MessageType::Pong,
        payload: None,
    }
    .signed(b"secret");
    let replies = server.handle_datagram(&pong, 9, 77);
    assert_eq!(replies.len(), 0);
    assert_eq!(server.devices.len(), 1);
    assert_eq!(server.devices[0].1.last_seen, 77);
}

#[test]
fn client_session_decisions() {
    let strip = DummyStrip::new(1, false);
    let vm = VM::new(strip);
    let client = Client::new(vm, b"secret", Some(60));

    // the keepalive announces this client and parses as a ping
    let frame = client.ping_frame(mac(8));
    let parsed = Message::from_buffer(&frame, b"secret").unwrap();
    assert!(matches!(parsed.message_type, MessageType::Ping));
    assert_eq!(parsed.mac_address, mac(8));

    // an authentic run frame delivers its bytecode
    let run = Message {
        mac_address: MacAddr::nil(),
        unix_time: 0,
        message_type: MessageType::Run,
        payload: Some(vec![0xFE, 0x00]),
    }
    .signed(b"secret");
    let program = client.handle_frame(&run).unwrap();
    assert_eq!(program.code, vec![0xFE, 0x00]);

    // an empty run payload is an empty program
    let run = Message {
        mac_address: MacAddr::nil(),
        unix_time: 0,
        message_type: MessageType::Run,
        payload: None,
    }
    .signed(b"secret");
    let program = client.handle_frame(&run).unwrap();
    assert_eq!(program.code, Vec::<u8>::new());

    // a frame under the wrong key, or of another type, is ignored
    let bad = Message {
        mac_address: MacAddr::nil(),
        unix_time: 0,
        message_type: MessageType::Run,
        payload: Some(vec![1]),
    }
    .signed(b"other");
    assert!(client.handle_frame(&bad).is_none());
    let pong = Message {
        mac_address: MacAddr::nil(),
        unix_time: 0,
        message_type: MessageType::Pong,
        payload: None,
    }
    .signed(b"secret");
    assert!(client.handle_frame(&pong).is_none());

    // the machine loop's moves
    assert_eq!(
        next_action(Outcome::LocalInstructionLimitReached),
        VmAction::ContinueSlice
    );
    assert_eq!(next_action(Outcome::Yielded), VmAction::PaceFrame);
    assert_eq!(next_action(Outcome::Ended), VmAction::AwaitProgram);
    assert_eq!(
        next_action(Outcome::GlobalInstructionLimitReached),
        VmAction::AwaitProgram
    );
    assert_eq!(
        next_action(Outcome::Error(VMError::StackUnderflow)),
        VmAction::AwaitProgram
    );
}

#[test]
fn mac_keys_are_distinct() {
    assert_ne!(mac(1).key(), mac(2).key());
    assert_eq!(mac(1).key(), mac(1).key());
    assert_eq!(MacAddr::nil().key(), 0);
}
