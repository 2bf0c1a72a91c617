use rskm::diff::diff_lines;
use rskm::generate::{backup_path, diff, generate, plan_apply, temp_path, ApplyOptions, ApplyPlan};
use rskm::inventory::{HostEntry, Inventory};
use rskm::reconcile::{append_range, locate, reconcile, split_managed};
use rskm::render::render;

const START: &str = "# >>> rskm managed hosts >>>";
const END: &str = "# <<< rskm managed hosts <<<";

fn lines(items: &[&str]) -> Vec<String> {
    items.iter().map(|s| s.to_string()).collect()
}

fn inventory(names: &[&str]) -> Inventory {
    let mut inv = Inventory::new();
    for n in names {
        inv.add(HostEntry {
            name: n.to_string(),
            hostname: format!("{}.example.com", n),
            user: None,
            key: None,
            port: None,
            proxy_jump: None,
        })
        .unwrap();
    }
    inv
}

fn run() -> ApplyOptions {
    ApplyOptions { dry_run: false, no_backup: false }
}

#[test]
fn locate_finds_the_block() {
    assert_eq!(locate(&lines(&["a", START, "x", END, "b"])), Some((1, 3)));
    assert_eq!(locate(&lines(&[START, END])), Some((0, 1)));
    assert_eq!(locate(&lines(&[])), None);
    assert_eq!(locate(&lines(&["a", "b"])), None);
    assert_eq!(locate(&lines(&[START, "x"])), None);
    assert_eq!(locate(&lines(&[END, START])), None);
}

#[test]
fn locate_takes_the_last_opening_before_the_first_closing() {
    assert_eq!(locate(&lines(&[START, "a", START, "x", END, "b", END])), Some((2, 4)));
    assert_eq!(locate(&lines(&[END, START, END, START, END])), Some((1, 2)));
}

#[test]
fn split_gives_the_three_parts() {
    let parts = split_managed(&lines(&["before", START, "Host x", END, "after", "more"]));
    assert_eq!(parts.prefix, lines(&["before"]));
    assert_eq!(parts.managed, lines(&[START, "Host x", END]));
    assert_eq!(parts.suffix, lines(&["after", "more"]));
    let parts = split_managed(&lines(&["only", "mine"]));
    assert_eq!(parts.prefix, lines(&["only", "mine"]));
    assert!(parts.managed.is_empty());
    assert!(parts.suffix.is_empty());
}

#[test]
fn reconcile_replaces_only_the_block() {
    let existing = lines(&["# my own", "Host old", "", START, "Host gone", END, "", "Host mine", "    Port 9"]);
    let block = lines(&[START, "Host new", "    HostName n", END]);
    let out = reconcile(&existing, &block);
    assert_eq!(
        out,
        lines(&["# my own", "Host old", "", START, "Host new", "    HostName n", END, "", "Host mine", "    Port 9"])
    );
}

#[test]
fn reconcile_appends_where_there_is_no_block() {
    let block = lines(&[START, END]);
    assert_eq!(reconcile(&lines(&["Host mine"]), &block), lines(&["Host mine", START, END]));
    assert_eq!(reconcile(&lines(&[]), &block), lines(&[START, END]));
}

#[test]
fn append_range_copies_the_chosen_lines() {
    let mut out = lines(&["z"]);
    append_range(&mut out, &lines(&["a", "b", "c", "d"]), 1, 3);
    assert_eq!(out, lines(&["z", "b", "c"]));
    append_range(&mut out, &lines(&["a"]), 1, 1);
    assert_eq!(out, lines(&["z", "b", "c"]));
}

#[test]
fn diff_of_equal_lists_is_empty() {
    let d = diff_lines(&lines(&["a", "b"]), &lines(&["a", "b"]));
    assert!(d.is_empty());
    assert_eq!(d.kept_before, 2);
    assert_eq!(d.kept_after, 0);
    assert!(diff_lines(&lines(&[]), &lines(&[])).is_empty());
}

#[test]
fn diff_names_the_changed_middle() {
    let d = diff_lines(&lines(&["s", "a", "b", "e"]), &lines(&["s", "a", "x", "y", "e"]));
    assert!(!d.is_empty());
    assert_eq!(d.kept_before, 2);
    assert_eq!(d.kept_after, 1);
    assert_eq!(d.removed, lines(&["b"]));
    assert_eq!(d.added, lines(&["x", "y"]));
    let d = diff_lines(&lines(&[]), &lines(&["s", "e"]));
    assert_eq!(d.kept_before, 0);
    assert_eq!(d.kept_after, 0);
    assert!(d.removed.is_empty());
    assert_eq!(d.added, lines(&["s", "e"]));
    let d = diff_lines(&lines(&["a", "a"]), &lines(&["a"]));
    assert_eq!(d.kept_before, 1);
    assert_eq!(d.kept_after, 0);
    assert_eq!(d.removed, lines(&["a"]));
    assert!(d.added.is_empty());
}

#[test]
fn generate_twice_gives_an_empty_diff_and_the_same_file() {
    let inv = inventory(&["B", "A"]);
    let existing = lines(&["# mine", START, "Host stale", END, "Host own"]);
    let first = generate(&inv, "~/.ssh", Some(&existing), &run());
    assert!(!first.diff.is_empty());
    assert_eq!(first.diff.removed, lines(&["Host stale"]));
    let second = generate(&inv, "~/.ssh", Some(&first.content), &run());
    assert!(second.diff.is_empty());
    assert_eq!(second.content, first.content);
    assert_eq!(split_managed(&second.content).managed, render(&inv, "~/.ssh"));
}

#[test]
fn generate_is_idempotent_beside_stray_markers() {
    let inv = inventory(&["x"]);
    let existing = lines(&[START, "left open", END.trim_end_matches('<')]);
    let first = generate(&inv, "k", Some(&existing), &run());
    let second = generate(&inv, "k", Some(&first.content), &run());
    assert!(second.diff.is_empty());
    assert_eq!(second.content, first.content);
    assert_eq!(&first.content[..2], &existing[..2]);
}

#[test]
fn generate_keeps_hand_written_lines() {
    let inv = inventory(&["web"]);
    let existing = lines(&["Host mine", "    User me", START, "Host old", END, "", "Host tail"]);
    let g = generate(&inv, "~/.ssh", Some(&existing), &run());
    assert_eq!(
        g.content,
        lines(&[
            "Host mine",
            "    User me",
            START,
            "Host web",
            "    HostName web.example.com",
            END,
            "",
            "Host tail",
        ])
    );
    assert_eq!(g.block, render(&inv, "~/.ssh"));
}

#[test]
fn generate_without_a_target_file_starts_from_nothing() {
    let inv = inventory(&["web"]);
    let g = generate(&inv, "~/.ssh", None, &run());
    assert_eq!(g.content, render(&inv, "~/.ssh"));
    assert_eq!(g.diff.added, render(&inv, "~/.ssh"));
    assert!(g.diff.removed.is_empty());
    assert_eq!(g.plan, ApplyPlan { print: false, backup: false, write: true });
}

#[test]
fn backup_only_of_an_existing_target_and_unless_suppressed() {
    let keep = ApplyOptions { dry_run: false, no_backup: false };
    let skip = ApplyOptions { dry_run: false, no_backup: true };
    assert_eq!(plan_apply(true, &keep), ApplyPlan { print: false, backup: true, write: true });
    assert_eq!(plan_apply(true, &skip), ApplyPlan { print: false, backup: false, write: true });
    assert_eq!(plan_apply(false, &keep), ApplyPlan { print: false, backup: false, write: true });
    assert_eq!(plan_apply(false, &skip), ApplyPlan { print: false, backup: false, write: true });
}

#[test]
fn dry_run_touches_no_file() {
    for exists in [true, false] {
        for no_backup in [true, false] {
            let plan = plan_apply(exists, &ApplyOptions { dry_run: true, no_backup });
            assert_eq!(plan, ApplyPlan { print: true, backup: false, write: false });
        }
    }
    let inv = inventory(&["web"]);
    let existing = lines(&["Host mine"]);
    let g = generate(&inv, "~/.ssh", Some(&existing), &ApplyOptions { dry_run: true, no_backup: false });
    assert!(g.plan.print && !g.plan.write && !g.plan.backup);
    assert!(!g.diff.is_empty());
}

#[test]
fn backup_and_temporary_paths() {
    assert_eq!(backup_path("/home/u/.ssh/config"), "/home/u/.ssh/config.bak");
    assert_eq!(temp_path("/home/u/.ssh/config"), "/home/u/.ssh/config.tmp");
}

#[test]
fn diff_against_the_existing_file() {
    let inv = inventory(&["web"]);
    let block = render(&inv, "k");
    let d = diff(&inv, "k", None);
    assert_eq!(d.added, block);
    assert!(d.removed.is_empty());
    let d = diff(&inv, "k", Some(&lines(&["mine", "too"])));
    assert_eq!(d.added, block);
    let current = reconcile(&lines(&["mine"]), &block);
    assert!(diff(&inv, "k", Some(&current)).is_empty());
    let stale = lines(&["mine", START, "Host web", "    HostName old", END]);
    let d = diff(&inv, "k", Some(&stale));
    assert_eq!(d.kept_before, 2);
    assert_eq!(d.kept_after, 1);
    assert_eq!(d.removed, lines(&["    HostName old"]));
    assert_eq!(d.added, lines(&["    HostName web.example.com"]));
}
