use cast_speak::address::DeviceAddr;
use cast_speak::error::Failure;
use cast_speak::record::Target;
use cast_speak::session::{ConnectStep, Joining, LaunchedApp, Loading, SpeakStep, Speaking};

fn cast_failure() -> rust_cast::errors::Error {
    rust_cast::errors::Error::Internal("no answer".to_string())
}

fn target() -> Target {
    Target { name: "LivingRoom".to_string(), addr: DeviceAddr { ip: 0xC0A8_012A, port: 8009 } }
}

fn joining(s: Option<Speaking>) -> Joining {
    match s {
        Some(Speaking::Joining(j)) => j,
        _ => panic!("expected to wait for the transport"),
    }
}

fn loading(s: Option<Speaking>) -> Loading {
    match s {
        Some(Speaking::Loading(l)) => l,
        _ => panic!("expected to wait for the media to load"),
    }
}

fn app() -> LaunchedApp {
    LaunchedApp { transport_id: "web-5".to_string(), session_id: "sess-1".to_string() }
}

#[test]
fn connect_walks_open_address_probe() {
    let t = target();
    let (c, step) = t.connect();
    assert!(matches!(step, ConnectStep::Open { addr } if addr == t.addr()));
    let (c, step) = c.advance(Ok(()));
    assert!(matches!(&step, ConnectStep::Address { destination } if destination == "receiver-0"));
    let (c, step) = c.unwrap().advance(Ok(()));
    assert!(matches!(step, ConnectStep::Probe));
    let (c, step) = c.unwrap().advance(Ok(()));
    assert!(c.is_none());
    assert!(matches!(step, ConnectStep::Ready));
}

#[test]
fn failed_probe_gives_no_session() {
    let (c, _) = target().connect();
    let (c, _) = c.advance(Ok(()));
    let (c, _) = c.unwrap().advance(Ok(()));
    let (c, step) = c.unwrap().advance(Err(cast_failure()));
    assert!(c.is_none());
    assert!(matches!(step, ConnectStep::Abort(Failure::Cast(_))));
}

#[test]
fn failed_open_aborts_at_once() {
    let (c, _) = target().connect();
    let (c, step) = c.advance(Err(cast_failure()));
    assert!(c.is_none());
    assert!(matches!(step, ConnectStep::Abort(Failure::Cast(_))));
}

#[test]
fn speaking_hello_launches_joins_and_loads() {
    let (s, step) = Speaking::start("hello");
    assert!(matches!(&step, SpeakStep::Launch { app_id } if app_id == "CC1AD845"));
    let (s, step) = s.launched(Ok(app()));
    assert!(matches!(&step, SpeakStep::Join { transport_id } if transport_id == "web-5"));
    let (s, step) = joining(s).joined(Ok(()));
    match &step {
        SpeakStep::Load { transport_id, session_id, media } => {
            assert_eq!(transport_id, "web-5");
            assert_eq!(session_id, "sess-1");
            assert_eq!(media.content_id, google_translate_tts::url("hello", "en"));
            assert_ne!(media.content_id, "hello");
            assert_eq!(media.content_type, "audio/mp3");
            assert!(media.buffered);
        }
        _ => panic!("expected a load step"),
    }
    let (s, step) = loading(s).loaded(Ok(()));
    assert!(s.is_none());
    assert!(matches!(step, SpeakStep::Spoken));
}

#[test]
fn failed_launch_takes_no_further_step() {
    let (s, _) = Speaking::start("hello");
    let (s, step) = s.launched(Err(cast_failure()));
    assert!(s.is_none());
    assert!(matches!(step, SpeakStep::Abort(Failure::Cast(_))));
}

#[test]
fn failed_join_and_load_abort() {
    let (s, _) = Speaking::from_locator("http://x/a.mp3".to_string());
    let (s, _) = s.launched(Ok(app()));
    let (s, step) = joining(s).joined(Err(cast_failure()));
    assert!(s.is_none() && matches!(step, SpeakStep::Abort(_)));

    let (s, _) = Speaking::from_locator("http://x/a.mp3".to_string());
    let (s, _) = s.launched(Ok(app()));
    let (s, step) = joining(s).joined(Ok(()));
    match &step {
        SpeakStep::Load { media, .. } => assert_eq!(media.content_id, "http://x/a.mp3"),
        _ => panic!("expected a load step"),
    }
    let (s, step) = loading(s).loaded(Err(cast_failure()));
    assert!(s.is_none() && matches!(step, SpeakStep::Abort(_)));
}
