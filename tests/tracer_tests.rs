use rust_hdl::bits::Bits;
use rust_hdl::tracer::{log, InMemoryTracer, NullTracer, TraceMessage, TracerLevel, TracerModule};

#[test]
fn log_appends_one_message_per_value() {
    let mut tr = InMemoryTracer::new();
    log(&mut tr, TracerLevel::Info, "a", &true);
    log(&mut tr, TracerLevel::Info, "b", &7_u8);
    log(&mut tr, TracerLevel::Info, "c", &300_u16);
    assert_eq!(tr.len(), 3);
    assert!(matches!(tr.messages[0], TraceMessage::Bool("a", true)));
    assert!(matches!(tr.messages[1], TraceMessage::Short("b", 8, 7)));
    assert!(matches!(tr.messages[2], TraceMessage::Short("c", 16, 300)));
}

#[test]
fn bits_serialize_by_width() {
    let mut tr = InMemoryTracer::new();
    log(&mut tr, TracerLevel::Debug, "one", &Bits::<1>::from_u64(1));
    log(&mut tr, TracerLevel::Debug, "short", &Bits::<12>::from_u64(0xABC));
    log(&mut tr, TracerLevel::Debug, "long", &Bits::<40>::from_u64(5));
    assert!(matches!(tr.messages[0], TraceMessage::Bool("one", true)));
    assert!(matches!(tr.messages[1], TraceMessage::Short("short", 12, 0xABC)));
    match &tr.messages[2] {
        TraceMessage::Vector(t, v) => {
            assert_eq!(*t, "long");
            assert_eq!(v.len(), 40);
            assert!(v[0] && !v[1] && v[2] && !v[39]);
        }
        _ => panic!("expected a bit vector"),
    }
}

#[test]
fn modules_are_entered_and_left() {
    let m = TracerModule::enter(InMemoryTracer::new(), "top");
    let tr = m.exit();
    assert!(matches!(tr.messages[0], TraceMessage::EnterModule("top")));
    assert!(matches!(tr.messages[1], TraceMessage::ExitModule));
    let n = TracerModule::enter(NullTracer::new(), "top").exit();
    let _ = n;
}
