use exposure::{merge, Event, Frame, Record, RecordKind, Trace};

fn strings(v: &[&str]) -> Vec<String> {
    v.iter().map(|s| s.to_string()).collect()
}

fn sorted(mut v: Vec<String>) -> Vec<String> {
    v.sort();
    v
}

fn record(kind: RecordKind, name: &str, types: &[&str]) -> Record {
    Record { kind, name: name.to_string(), types: strings(types) }
}

#[test]
fn merge_into_missing_record_writes() {
    let rec = record(RecordKind::Locals, "Foo#bar%x", &["Integer"]);
    assert_eq!(merge(&vec![], &rec), Some(strings(&["Integer"])));
    let rec = record(RecordKind::Returns, "Foo#bar", &["nil"]);
    assert_eq!(merge(&vec![], &rec), Some(strings(&["nil"])));
}

#[test]
fn merge_twice_writes_once() {
    let rec = record(RecordKind::Locals, "Foo#bar%x", &["Integer"]);
    let first = merge(&strings(&["String"]), &rec).unwrap();
    assert_eq!(sorted(first.clone()), strings(&["Integer", "String"]));
    assert_eq!(merge(&first, &rec), None);

    let rec = record(RecordKind::Returns, "Foo#bar", &["nil"]);
    let first = merge(&vec![], &rec).unwrap();
    assert_eq!(merge(&first, &rec), None);
}

#[test]
fn merge_locals_adds_new_types() {
    let rec = record(RecordKind::Locals, "K%v", &["Integer", "String"]);
    let out = merge(&strings(&["Integer"]), &rec).unwrap();
    assert_eq!(sorted(out), strings(&["Integer", "String"]));
}

#[test]
fn merge_locals_nothing_new_is_no_write() {
    let rec = record(RecordKind::Locals, "K%v", &["Integer"]);
    assert_eq!(merge(&strings(&["Integer", "String"]), &rec), None);
}

#[test]
fn merge_returns_rewrites_unless_exactly_that_type() {
    let rec = record(RecordKind::Returns, "K", &["nil"]);
    assert_eq!(merge(&strings(&["nil"]), &rec), None);
    assert_eq!(merge(&strings(&["nil", "nil"]), &rec), None);
    let out = merge(&strings(&["Integer", "nil"]), &rec).unwrap();
    assert_eq!(sorted(out), strings(&["Integer", "nil"]));
}

#[test]
fn merge_drops_duplicate_lines() {
    let rec = record(RecordKind::Locals, "K%v", &["A", "A", "B"]);
    let out = merge(&strings(&["B", "B"]), &rec).unwrap();
    assert_eq!(sorted(out), strings(&["A", "B"]));
}

#[test]
fn merge_sequence_only_grows() {
    let steps = [&["A"][..], &["B"][..], &["A"][..], &["C", "B"][..]];
    let mut held: Vec<String> = vec![];
    for step in steps.iter() {
        let rec = record(RecordKind::Locals, "K%v", step);
        if let Some(next) = merge(&held, &rec) {
            for t in held.iter() {
                assert!(next.contains(t));
            }
            held = next;
        }
    }
    assert_eq!(sorted(held), strings(&["A", "B", "C"]));
}

fn call(class: &str, method: &str) -> Frame {
    Frame::new(Event::Call(class.to_string(), method.to_string()), "main.rb".to_string(), 1)
}

#[test]
fn frame_starts_empty() {
    let f = call("Foo", "bar");
    assert_eq!(f.format(), "Foo#bar");
    assert_eq!(f.caller_file(), "main.rb");
    assert_eq!(f.caller_line(), 1);
    assert_eq!(f.return_type(), "");
    assert!(f.records().is_empty());
}

#[test]
fn frame_records_locals_and_return() {
    let mut f = call("Foo", "bar");
    f.add_local("x", "Integer");
    f.add_local("x", "Integer");
    f.add_local("y", "String");
    f.set_return_type("nil".to_string());
    let mut recs = f.records();
    recs.sort_by(|a, b| a.name.cmp(&b.name));
    assert_eq!(recs.len(), 3);
    assert!(matches!(recs[0].kind, RecordKind::Returns));
    assert_eq!(recs[0].name, "Foo#bar");
    assert_eq!(recs[0].types, strings(&["nil"]));
    assert!(matches!(recs[1].kind, RecordKind::Locals));
    assert_eq!(recs[1].name, "Foo#bar%x");
    assert_eq!(recs[1].types, strings(&["Integer"]));
    assert_eq!(recs[2].name, "Foo#bar%y");
    assert_eq!(recs[2].types, strings(&["String"]));
}

fn pushed(trace: &mut Trace, class: &str, method: &str) {
    trace.push(call(class, method));
}

#[test]
fn stack_pops_in_reverse_order() {
    let mut trace = Trace::new();
    pushed(&mut trace, "A", "one");
    pushed(&mut trace, "B", "two");
    pushed(&mut trace, "C", "three");
    assert_eq!(trace.top().unwrap().format(), "C#three");
    assert_eq!(trace.pop().unwrap().format(), "C#three");
    assert_eq!(trace.pop().unwrap().format(), "B#two");
    assert_eq!(trace.pop().unwrap().format(), "A#one");
    assert!(trace.pop().is_none());
    assert!(trace.top().is_none());
}

#[test]
fn empty_stack_ignores_locals_and_pops() {
    let mut trace = Trace::new();
    trace.add_local("x", "Integer");
    assert!(trace.pop_and_write("NilClass").is_none());
    assert!(trace.pop().is_none());
}

#[test]
fn locals_go_to_the_top_frame() {
    let mut trace = Trace::new();
    pushed(&mut trace, "Outer", "run");
    pushed(&mut trace, "Inner", "run");
    trace.add_local("v", "TrueClass");
    let inner = trace.pop_and_write("").unwrap();
    assert_eq!(inner.return_type(), "");
    let recs = inner.records();
    assert_eq!(recs.len(), 1);
    assert_eq!(recs[0].name, "Inner#run%v");
    assert_eq!(recs[0].types, strings(&["Boolean"]));
    let outer = trace.pop_and_write("Integer").unwrap();
    let recs = outer.records();
    assert_eq!(recs.len(), 1);
    assert_eq!(recs[0].name, "Outer#run");
}

#[test]
fn end_to_end_call_with_locals_and_return() {
    let mut trace = Trace::new();
    trace.push(call("Foo", "bar"));
    trace.add_local("x", "Integer");
    trace.add_local("x", "String");
    let frame = trace.pop_and_write("NilClass").unwrap();
    assert_eq!(frame.return_type(), "nil");
    let mut written: Vec<(String, Vec<String>)> = vec![];
    for rec in frame.records() {
        let dir = match rec.kind {
            RecordKind::Locals => "locals",
            RecordKind::Returns => "returns",
        };
        if let Some(lines) = merge(&vec![], &rec) {
            written.push((format!("{}/{}", dir, rec.name), sorted(lines)));
        }
    }
    written.sort();
    assert_eq!(
        written,
        vec![
            ("locals/Foo#bar%x".to_string(), strings(&["Integer", "String"])),
            ("returns/Foo#bar".to_string(), strings(&["nil"])),
        ]
    );
}
