use rust_hdl::bits::Bits;
use rust_hdl::logger::{BasicLoggerBuilder, BitCounter, TagID};

#[test]
fn test_counter_with_bits_argument() {
    let mut logger_builder = BasicLoggerBuilder::new();
    let counter: BitCounter<24> = BitCounter::new(&mut logger_builder);
    assert_eq!(counter.tag_input, TagID { context: 0, id: 0 });
    assert_eq!(counter.tag_output, TagID { context: 0, id: 1 });
    assert_eq!(logger_builder.scopes[0].tags[0].tag, "input");
    assert_eq!(logger_builder.scopes[0].tags[1].tag, "output");
    let mut logger = logger_builder.build();
    let mut state: Bits<24> = Bits::zero();
    let mut last_output: Bits<24> = Bits::zero();
    for cycle in 0..100_000_000u64 {
        let (output, new_state) = counter.compute(&mut logger, cycle % 2 == 0, state);
        state = new_state;
        last_output = output;
    }
    println!("Last output {:x}", last_output.to_u64());
    assert_eq!(last_output.to_u64(), 50_000_000 % (1 << 24));
    assert_eq!(logger.scopes[0].tags[0].count, 100_000_000);
    assert_eq!(logger.scopes[0].tags[1].last, last_output.to_u64());
    assert_eq!(logger.scopes[0].tags[0].last, 0);
}

#[test]
fn builder_scopes_and_namespaces() {
    let mut b = BasicLoggerBuilder::new();
    b.namespace("outer");
    b.scope("top");
    assert!(b.path.is_empty());
    b.namespace("a");
    b.namespace("b");
    let t = b.tag::<bool>("flag");
    assert_eq!(t.context, 1);
    assert_eq!(t.id, 0);
    assert_eq!(b.scopes[1].name, "root::top");
    assert_eq!(b.scopes[1].tags[0].data[0].name, "a::b");
    assert_eq!(b.scopes[1].tags[0].data[0].width, 1);
    b.leave_namespace();
    let u = b.tag::<Bits<12>>("word");
    assert_eq!(b.scopes[1].tags[1].data[0].name, "a");
    assert_eq!(b.scopes[1].tags[1].data[0].width, 12);
    let mut logger = b.build();
    assert!(logger.log(u, &Bits::<12>::from_u64(7)));
    assert_eq!(logger.scopes[1].tags[1].last, 7);
    let bad = rust_hdl::logger::TagID { context: 5, id: 0 };
    assert!(!logger.log(bad, &true));
}
