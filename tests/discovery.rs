use cast_speak::address::DeviceAddr;
use cast_speak::discovery::{discover_from, Unique};
use cast_speak::error::Failure;
use cast_speak::record::{extract, RawRecord, RawResponse, Target};
use std::collections::VecDeque;

const LIVING_ROOM_IP: u32 = 0xC0A8_012A; // 192.168.1.42

fn text(items: &[&str]) -> RawRecord {
    RawRecord::Text(items.iter().map(|s| s.to_string()).collect())
}

fn device(name: &str, ip: u32, port: u16) -> RawResponse {
    RawResponse {
        additional: vec![
            text(&["id=abc", &format!("fn={}", name)]),
            RawRecord::Address(ip),
            RawRecord::Service { port },
        ],
    }
}

fn io_failure() -> mdns::Error {
    mdns::Error::Io(std::io::Error::new(std::io::ErrorKind::Other, "no interface"))
}

fn addrs(out: &[Result<Target, Failure>]) -> Vec<Option<(String, DeviceAddr)>> {
    out.iter()
        .map(|o| match o {
            Ok(t) => Some((t.name().to_string(), t.addr())),
            Err(_) => None,
        })
        .collect()
}

#[test]
fn extracts_living_room() {
    let resp = RawResponse {
        additional: vec![
            text(&["fn=LivingRoom"]),
            RawRecord::Address(LIVING_ROOM_IP),
            RawRecord::Service { port: 8009 },
        ],
    };
    let t = extract(&resp).expect("a complete answer describes a receiver");
    assert_eq!(t.name(), "LivingRoom");
    assert_eq!(t.addr(), DeviceAddr { ip: LIVING_ROOM_IP, port: 8009 });
}

#[test]
fn missing_pieces_yield_nothing() {
    let no_name = RawResponse {
        additional: vec![
            text(&["id=abc"]),
            RawRecord::Address(LIVING_ROOM_IP),
            RawRecord::Service { port: 8009 },
        ],
    };
    let no_address = RawResponse {
        additional: vec![text(&["fn=Den"]), RawRecord::Service { port: 8009 }, RawRecord::Other],
    };
    let no_port = RawResponse {
        additional: vec![text(&["fn=Den"]), RawRecord::Address(LIVING_ROOM_IP)],
    };
    let empty = RawResponse { additional: vec![] };
    assert!(extract(&no_name).is_none());
    assert!(extract(&no_address).is_none());
    assert!(extract(&no_port).is_none());
    assert!(extract(&empty).is_none());
}

#[test]
fn name_keeps_later_equals_signs() {
    let resp = RawResponse {
        additional: vec![
            text(&["fn=Living=Room"]),
            RawRecord::Address(0x0A00_0001),
            RawRecord::Service { port: 8009 },
        ],
    };
    assert_eq!(extract(&resp).unwrap().name(), "Living=Room");
}

#[test]
fn first_record_of_each_kind_wins() {
    let resp = RawResponse {
        additional: vec![
            RawRecord::Service { port: 8009 },
            RawRecord::Address(1),
            text(&["fn=First"]),
            RawRecord::Address(2),
            RawRecord::Service { port: 9000 },
            text(&["fn=Second"]),
        ],
    };
    let t = extract(&resp).unwrap();
    assert_eq!(t.name(), "First");
    assert_eq!(t.addr(), DeviceAddr { ip: 1, port: 8009 });
}

#[test]
fn name_item_rules() {
    let with = |items: &[&str]| RawResponse {
        additional: vec![text(items), RawRecord::Address(7), RawRecord::Service { port: 1 }],
    };
    // the value is everything after the first `=`
    assert_eq!(extract(&with(&["fn=a=b"])).unwrap().name(), "a=b");
    // an empty value is a name
    assert_eq!(extract(&with(&["fn="])).unwrap().name(), "");
    // only the key `fn` counts
    assert!(extract(&with(&["fnx=a", "f=b", "name=c"])).is_none());
    // the first `fn` item of a record decides it, even without a value
    assert!(extract(&with(&["fn", "fn=late"])).is_none());
    // a record whose `fn` item has no value leaves the name to a later record
    let resp = RawResponse {
        additional: vec![
            text(&["fn"]),
            text(&["fn=Kitchen"]),
            RawRecord::Address(7),
            RawRecord::Service { port: 1 },
        ],
    };
    assert_eq!(extract(&resp).unwrap().name(), "Kitchen");
}

#[test]
fn seen_key_packs_address_and_port() {
    let a = DeviceAddr { ip: LIVING_ROOM_IP, port: 8009 };
    assert_eq!(a.seen_key(), 0xC0A8_012A_u64 * 65536 + 8009);
    assert_ne!(a.seen_key(), DeviceAddr { ip: LIVING_ROOM_IP, port: 8010 }.seen_key());
}

#[test]
fn repeats_are_emitted_once_in_first_seen_order() {
    let mut up = VecDeque::new();
    up.push_back(Ok(device("A", 10, 8009)));
    up.push_back(Ok(device("B", 11, 8009)));
    up.push_back(Ok(device("A again", 10, 8009)));
    up.push_back(Ok(RawResponse { additional: vec![RawRecord::Other] }));
    up.push_back(Ok(device("C", 10, 8010)));
    up.push_back(Ok(device("B again", 11, 8009)));
    let out = discover_from(up);
    assert_eq!(
        addrs(&out),
        vec![
            Some(("A".to_string(), DeviceAddr { ip: 10, port: 8009 })),
            Some(("B".to_string(), DeviceAddr { ip: 11, port: 8009 })),
            Some(("C".to_string(), DeviceAddr { ip: 10, port: 8010 })),
        ]
    );
}

#[test]
fn single_failure_is_passed_on() {
    let mut up = VecDeque::new();
    up.push_back(Err(io_failure()));
    let out = discover_from(up);
    assert_eq!(out.len(), 1);
    assert!(matches!(&out[0], Err(Failure::Mdns(mdns::Error::Io(_)))));
}

#[test]
fn failures_are_never_deduplicated() {
    let mut up = VecDeque::new();
    up.push_back(Err(io_failure()));
    up.push_back(Ok(device("A", 10, 8009)));
    up.push_back(Err(io_failure()));
    let out = discover_from(up);
    assert_eq!(out.len(), 3);
    assert!(out[0].is_err() && out[1].is_ok() && out[2].is_err());
}

#[test]
fn equality_is_by_address_not_name() {
    let first = device("Living Room", LIVING_ROOM_IP, 8009);
    let reordered = RawResponse {
        additional: vec![
            RawRecord::Service { port: 8009 },
            RawRecord::Other,
            RawRecord::Address(LIVING_ROOM_IP),
            text(&["fn=Salon"]),
        ],
    };
    let mut up = VecDeque::new();
    up.push_back(Ok(first));
    up.push_back(Ok(reordered));
    let out = discover_from(up);
    assert_eq!(
        addrs(&out),
        vec![Some(("Living Room".to_string(), DeviceAddr { ip: LIVING_ROOM_IP, port: 8009 }))]
    );
}

#[test]
fn next_pulls_until_a_new_address() {
    let mut unique = Unique::new();
    let mut up = VecDeque::new();
    up.push_back(Ok(device("A", 10, 8009)));
    up.push_back(Ok(device("A", 10, 8009)));
    up.push_back(Ok(RawResponse { additional: vec![] }));
    up.push_back(Ok(device("B", 12, 8009)));
    up.push_back(Ok(device("D", 13, 8009)));
    let a = unique.next(&mut up).unwrap().ok().unwrap();
    assert_eq!(a.name(), "A");
    assert_eq!(up.len(), 4);
    let b = unique.next(&mut up).unwrap().ok().unwrap();
    assert_eq!(b.name(), "B");
    assert_eq!(up.len(), 1);
    assert!(unique.next(&mut up).is_some());
    assert!(unique.next(&mut up).is_none());
    assert!(up.is_empty());
}

#[test]
fn take_in_filters_one_item() {
    let mut unique = Unique::new();
    assert!(unique.take_in(Ok(device("A", 10, 8009))).is_some());
    assert!(unique.take_in(Ok(device("A2", 10, 8009))).is_none());
    assert!(matches!(unique.take_in(Err(io_failure())), Some(Err(Failure::Mdns(_)))));
}
