use selectme::entry::{same_bytes, Block, EntryKind, RuntimeFlavor, SupportsThreading};

#[test]
fn entry_kinds_name_their_attribute() {
    assert_eq!(EntryKind::Main.name(), "tokio::main");
    assert_eq!(EntryKind::Test.name(), "tokio::test");
    assert_ne!(SupportsThreading::Supported, SupportsThreading::NotSupported);
}

#[test]
fn flavors_are_parsed_with_their_quotes() {
    assert_eq!(RuntimeFlavor::from_literal("\"current_thread\""), Ok(RuntimeFlavor::CurrentThread));
    assert_eq!(RuntimeFlavor::from_literal("\"multi_thread\""), Ok(RuntimeFlavor::Threaded));
    assert_eq!(
        RuntimeFlavor::from_literal("\"single_thread\""),
        Err("the single threaded runtime flavor is called \"current_thread\"")
    );
    assert_eq!(
        RuntimeFlavor::from_literal("\"basic_scheduler\""),
        Err("the \"basic_scheduler\" runtime flavor has been renamed to \"current_thread\"")
    );
    assert_eq!(
        RuntimeFlavor::from_literal("\"threaded_scheduler\""),
        Err("the \"threaded_scheduler\" runtime flavor has been renamed to \"multi_thread\"")
    );
}

#[test]
fn anything_else_is_no_flavor() {
    let none = Err("no such runtime flavor, the runtime flavors are: \"current_thread\", \"multi_thread\"");
    assert_eq!(RuntimeFlavor::from_literal("current_thread"), none);
    assert_eq!(RuntimeFlavor::from_literal("\"current_thread"), none);
    assert_eq!(RuntimeFlavor::from_literal(""), none);
    assert_eq!(RuntimeFlavor::from_literal("\"Multi_thread\""), none);
}

#[test]
fn same_bytes_compares_length_and_content() {
    assert!(same_bytes(b"", b""));
    assert!(same_bytes(b"abc", b"abc"));
    assert!(!same_bytes(b"abc", b"abd"));
    assert!(!same_bytes(b"abc", b"ab"));
    assert!(!same_bytes(b"", b"a"));
}

#[test]
fn a_block_is_a_group_or_an_expression() {
    assert!(Block::Expr(0..3).is_expr());
    assert!(!Block::Group(2..5).is_expr());
}
