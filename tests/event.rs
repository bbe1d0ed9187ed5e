use exposure::{canonicalize, Event, EventType};

#[test]
fn test_format_class() {
    let event = Event::Class("Regular::Ruby::Class".to_string());
    assert_eq!(event.format(), "Regular::Ruby::Class");

    let event = Event::Class("#<Some::SingletonClass:0xF2F5EAB2B2D35910>".to_string());
    assert_eq!(event.format(), "#<Some::SingletonClass:(generated)>");
}

#[test]
fn test_format_call() {
    let event = Event::Call("Regular::Ruby::Class".to_string(), "just_do_it".to_string());
    assert_eq!(event.format(), "Regular::Ruby::Class#just_do_it");

    let event = Event::Call("#<Class:Object>".to_string(), "compute".to_string());
    assert_eq!(event.format(), "Object.compute");
}

#[test]
fn canonicalize_generated_tag() {
    assert_eq!(canonicalize("X:0xF2F5EAB2B2D35910"), "X:(generated)");
}

#[test]
fn canonicalize_generated_tag_in_context() {
    assert_eq!(
        canonicalize("#<Foo:0x00000000deadbeef bar>"),
        "#<Foo:(generated) bar>"
    );
    assert_eq!(
        canonicalize("a:0x0123456789abcdefb:0xFFFFFFFFFFFFFFFF"),
        "a:(generated)b:(generated)"
    );
    assert_eq!(canonicalize(":0x0123456789ABCDEF"), ":(generated)");
}

#[test]
fn canonicalize_tag_needs_sixteen_digits() {
    assert_eq!(canonicalize("X:0x0123456789ABCDE"), "X:0x0123456789ABCDE");
    assert_eq!(canonicalize("X:0x0123456789ABCDEF1"), "X:(generated)1");
    assert_eq!(canonicalize("X:0x0123456789ABCDEG"), "X:0x0123456789ABCDEG");
    assert_eq!(canonicalize("X0x0123456789ABCDEF"), "X0x0123456789ABCDEF");
}

#[test]
fn canonicalize_special_classes() {
    assert_eq!(canonicalize("NilClass"), "nil");
    assert_eq!(canonicalize("TrueClass"), "Boolean");
    assert_eq!(canonicalize("FalseClass"), "Boolean");
    assert_eq!(canonicalize("NilClassy"), "NilClassy");
}

#[test]
fn canonicalize_leaves_plain_names() {
    assert_eq!(canonicalize(""), "");
    assert_eq!(canonicalize("Integer"), "Integer");
    assert_eq!(canonicalize("Ünïcödé::Klasse"), "Ünïcödé::Klasse");
}

#[test]
fn format_call_instance_method() {
    let event = Event::Call("Foo".to_string(), "bar".to_string());
    assert_eq!(event.format(), "Foo#bar");
}

#[test]
fn format_call_singleton_without_hash() {
    let event = Event::Call("<Class:Widget>".to_string(), "build".to_string());
    assert_eq!(event.format(), "Widget.build");
}

#[test]
fn format_call_singleton_name_stops_at_space() {
    let event = Event::Call("#<Class:Foo bar>".to_string(), "go".to_string());
    assert_eq!(event.format(), "Foo.go");
}

#[test]
fn format_call_empty_singleton_name() {
    let event = Event::Call("#<Class:>".to_string(), "go".to_string());
    assert_eq!(event.format(), "#<Class:>#go");
}

#[test]
fn format_call_canonicalizes_before_matching() {
    let event = Event::Call(
        "#<Class:#<Foo:0xF2F5EAB2B2D35910>>".to_string(),
        "go".to_string(),
    );
    assert_eq!(event.format(), "#<Foo:(generated).go");
    let event = Event::Call("NilClass".to_string(), "to_s".to_string());
    assert_eq!(event.format(), "nil#to_s");
}

#[test]
fn format_class_special_name() {
    let event = Event::Class("TrueClass".to_string());
    assert_eq!(event.format(), "Boolean");
}

#[test]
fn format_block_last_two_segments() {
    let event = Event::BCall("/home/user/project/lib/foo.rb".to_string(), 12);
    assert_eq!(event.format(), "lib/foo.rb 12");
}

#[test]
fn format_block_short_paths() {
    assert_eq!(Event::BCall("foo.rb".to_string(), 3).format(), "foo.rb 3");
    assert_eq!(Event::BCall("/foo.rb".to_string(), 0).format(), "/foo.rb 0");
    assert_eq!(Event::BCall("".to_string(), 7).format(), " 7");
}

#[test]
fn format_block_separators() {
    assert_eq!(Event::BCall("a//b/c/".to_string(), 40).format(), "b/c 40");
    assert_eq!(Event::BCall("lib/x.rb".to_string(), -5).format(), "lib/x.rb -5");
    assert_eq!(
        Event::BCall("a/b.rb".to_string(), i32::MIN).format(),
        "a/b.rb -2147483648"
    );
    assert_eq!(
        Event::BCall("a/b.rb".to_string(), i32::MAX).format(),
        "a/b.rb 2147483647"
    );
}

#[test]
fn event_type_codes() {
    assert!(matches!(EventType::from_int(1), EventType::BCall));
    assert!(matches!(EventType::from_int(2), EventType::Class));
    assert!(matches!(EventType::from_int(3), EventType::Call));
    assert!(matches!(EventType::from_int(4), EventType::Return));
    assert!(matches!(EventType::from_int(5), EventType::BReturn));
    assert!(matches!(EventType::from_int(6), EventType::End));
}

#[test]
fn event_type_symbols() {
    assert_eq!(EventType::BCall.symbol(), ":b_call");
    assert_eq!(EventType::Class.symbol(), ":class");
    assert_eq!(EventType::Call.symbol(), ":call");
    assert_eq!(EventType::Return.symbol(), ":return");
    assert_eq!(EventType::BReturn.symbol(), ":b_return");
    assert_eq!(EventType::End.symbol(), ":end");
}

fn entry(kind: EventType) -> Option<Event> {
    Event::for_entry(
        kind,
        "lib/a.rb".to_string(),
        9,
        "Foo".to_string(),
        "bar".to_string(),
        "Baz".to_string(),
    )
}

#[test]
fn entry_events_by_kind() {
    assert_eq!(entry(EventType::BCall).unwrap().format(), "lib/a.rb 9");
    assert_eq!(entry(EventType::Class).unwrap().format(), "Baz");
    assert_eq!(entry(EventType::Call).unwrap().format(), "Foo#bar");
    assert!(entry(EventType::Return).is_none());
    assert!(entry(EventType::BReturn).is_none());
    assert!(entry(EventType::End).is_none());
}
