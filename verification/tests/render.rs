use rskm::inventory::{HostEntry, Inventory};
use rskm::render::{end_line, push_host, render, start_line};
use rskm::resolver::{check_host, key_known, validate};
use rskm::text::{join_lines, number_text, split_lines};

fn host(name: &str, key: Option<&str>) -> HostEntry {
    HostEntry {
        name: name.to_string(),
        hostname: format!("{}.example.com", name),
        user: None,
        key: key.map(|k| k.to_string()),
        port: None,
        proxy_jump: None,
    }
}

fn inventory(hosts: Vec<HostEntry>) -> Inventory {
    Inventory::from_entries(hosts).unwrap()
}

#[test]
fn markers_are_fixed_lines() {
    assert_eq!(start_line(), "# >>> rskm managed hosts >>>");
    assert_eq!(end_line(), "# <<< rskm managed hosts <<<");
}

#[test]
fn empty_inventory_renders_the_two_markers() {
    let lines = render(&Inventory::new(), "~/.ssh");
    assert_eq!(lines, vec!["# >>> rskm managed hosts >>>", "# <<< rskm managed hosts <<<"]);
}

#[test]
fn full_host_renders_every_field_in_canonical_order() {
    let h = HostEntry {
        name: "web".to_string(),
        hostname: "web.example.com".to_string(),
        user: Some("deploy".to_string()),
        key: Some("work".to_string()),
        port: Some(2222),
        proxy_jump: Some("bastion".to_string()),
    };
    let lines = render(&inventory(vec![h]), "~/.ssh/keys");
    assert_eq!(
        lines,
        vec![
            "# >>> rskm managed hosts >>>",
            "Host web",
            "    HostName web.example.com",
            "    User deploy",
            "    IdentityFile ~/.ssh/keys/work",
            "    Port 2222",
            "    ProxyJump bastion",
            "# <<< rskm managed hosts <<<",
        ]
    );
}

#[test]
fn absent_fields_leave_no_line() {
    let mut h = host("db", None);
    h.port = Some(22);
    let mut out = vec!["kept".to_string()];
    push_host(&mut out, &h, "~/.ssh");
    assert_eq!(out, vec!["kept", "Host db", "    HostName db.example.com", "    Port 22"]);
}

#[test]
fn hosts_render_in_insertion_order() {
    let inv = inventory(vec![host("B", None), host("A", None), host("C", None)]);
    let lines = render(&inv, "~/.ssh");
    let names: Vec<&String> = lines.iter().filter(|l| l.starts_with("Host ")).collect();
    assert_eq!(names, vec!["Host B", "Host A", "Host C"]);
    assert_eq!(lines.len(), 8);
    assert_eq!(lines[1], "Host B");
    assert_eq!(lines[3], "Host A");
    assert_eq!(lines[5], "Host C");
}

#[test]
fn rendering_twice_gives_the_same_text() {
    let first = inventory(vec![host("B", Some("k1")), host("A", None)]);
    let second = inventory(vec![host("B", Some("k1")), host("A", None)]);
    let a = render(&first, "~/.ssh");
    let b = render(&first, "~/.ssh");
    let c = render(&second, "~/.ssh");
    assert_eq!(a, b);
    assert_eq!(a, c);
    assert_eq!(join_lines(&a).into_bytes(), join_lines(&c).into_bytes());
}

#[test]
fn numbers_are_written_in_decimal() {
    assert_eq!(number_text(0), "0");
    assert_eq!(number_text(7), "7");
    assert_eq!(number_text(10), "10");
    assert_eq!(number_text(22), "22");
    assert_eq!(number_text(909), "909");
    assert_eq!(number_text(65535), "65535");
}

#[test]
fn validate_reports_every_unknown_key_in_one_pass() {
    let inv = inventory(vec![
        host("one", Some("missing-a")),
        host("two", Some("work")),
        host("three", Some("missing-b")),
    ]);
    let keys = vec!["work".to_string(), "home".to_string()];
    let found = validate(&inv, &keys);
    assert_eq!(found.len(), 2);
    assert_eq!(found[0].host, "one");
    assert_eq!(found[0].key, "missing-a");
    assert_eq!(found[1].host, "three");
    assert_eq!(found[1].key, "missing-b");
    assert_eq!(found[0].to_error().message(), "Key 'missing-a' not found");
}

#[test]
fn validate_accepts_known_and_absent_keys() {
    let inv = inventory(vec![host("one", None), host("two", Some("work"))]);
    let keys = vec!["work".to_string()];
    assert!(validate(&inv, &keys).is_empty());
    assert!(validate(&Inventory::new(), &Vec::new()).is_empty());
    assert_eq!(validate(&inv, &Vec::new()).len(), 1);
}

#[test]
fn single_host_check() {
    let keys = vec!["work".to_string()];
    assert!(key_known(&keys, &"work".to_string()));
    assert!(!key_known(&keys, &"wor".to_string()));
    assert!(check_host(&host("a", Some("work")), &keys).is_none());
    assert!(check_host(&host("a", None), &keys).is_none());
    let v = check_host(&host("a", Some("lost")), &keys).unwrap();
    assert_eq!(v.host, "a");
    assert_eq!(v.key, "lost");
}

#[test]
fn split_and_join_lines() {
    assert_eq!(split_lines(""), Vec::<String>::new());
    assert_eq!(split_lines("a\nb\n"), vec!["a", "b"]);
    assert_eq!(split_lines("a\n\nb"), vec!["a", "", "b"]);
    assert_eq!(split_lines("\n"), vec![""]);
    assert_eq!(split_lines("h\u{e9}llo\nw\u{f6}rld"), vec!["h\u{e9}llo", "w\u{f6}rld"]);
    assert_eq!(join_lines(&vec!["a".to_string(), "".to_string(), "b".to_string()]), "a\n\nb\n");
    assert_eq!(join_lines(&Vec::new()), "");
    let text = "Host x\n    Port 1\n";
    assert_eq!(join_lines(&split_lines(text)), text);
    assert_eq!(join_lines(&split_lines("no end")), "no end\n");
}

#[test]
fn line_feed_detection() {
    assert!(rskm::text::is_single_line(""));
    assert!(rskm::text::is_single_line("Host web"));
    assert!(!rskm::text::is_single_line("a\nb"));
    assert!(!rskm::text::is_single_line("\n"));
    assert!(rskm::text::is_single_line("a\rb"));
}

#[test]
fn generate_through_text_is_idempotent() {
    let inv = inventory(vec![host("B", Some("k1")), host("A", None)]);
    let before = "# mine\nHost own\n    User me\n";
    let block = render(&inv, "~/.ssh/rskm");
    let first = join_lines(&rskm::reconcile::reconcile(&split_lines(before), &block));
    assert_eq!(
        first,
        "# mine\nHost own\n    User me\n# >>> rskm managed hosts >>>\nHost B\n    HostName B.example.com\n    IdentityFile ~/.ssh/rskm/k1\nHost A\n    HostName A.example.com\n# <<< rskm managed hosts <<<\n"
    );
    let read_back = split_lines(&first);
    assert_eq!(rskm::reconcile::split_managed(&read_back).managed, block);
    let second = join_lines(&rskm::reconcile::reconcile(&read_back, &block));
    assert_eq!(second.into_bytes(), first.into_bytes());
}
