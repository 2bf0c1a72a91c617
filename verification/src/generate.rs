//! One run of configuration generation: render the inventory, compare it
//! with the managed block of the existing file, build the new content, and
//! decide which file operations the caller is to perform.

use crate::diff::{diff_lines, Diff};
use crate::inventory::{fields_single_line, valid_hosts, HostView, Inventory};
use crate::reconcile::{
    block_of, lemma_markers_differ, lemma_reconcile_idempotent, managed_of, merged, prefix_of,
    reconcile, split_managed, suffix_of, well_formed_block,
};
use crate::render::{
    body, end_marker, host_block, is_marker, opt_line, render, rendered, start_marker,
};
use crate::text::{
    all_single_line, decimal, joined, lemma_lines_are_single, lemma_split_join, lines_of,
    single_line, texts,
};
use vstd::prelude::*;
use vstd::string::*;

verus! {

/// What the operator asked of a generation.
#[derive(Debug, Clone, Copy, PartialEq, Eq)]
pub struct ApplyOptions {
    /// Show the rendered block and touch no file.
    pub dry_run: bool,
    /// Keep no copy of the existing file.
    pub no_backup: bool,
}

/// The file operations of a generation.
#[derive(Debug, Clone, Copy, PartialEq, Eq)]
pub struct ApplyPlan {
    /// Write the rendered block to standard output.
    pub print: bool,
    /// Copy the existing target file to its backup path first.
    pub backup: bool,
    /// Replace the target file by the new content.
    pub write: bool,
}

/// A dry run prints and touches nothing. Any other run replaces the target
/// file, after a backup unless backups are switched off or there is no
/// target file yet.
pub open spec fn planned(target_exists: bool, options: ApplyOptions) -> ApplyPlan {
    ApplyPlan {
        print: options.dry_run,
        backup: !options.dry_run && !options.no_backup && target_exists,
        write: !options.dry_run,
    }
}

/// Decides the file operations of a generation.
pub fn plan_apply(target_exists: bool, options: &ApplyOptions) -> (r: ApplyPlan)
    ensures
        r == planned(target_exists, *options),
        options.dry_run ==> !r.write && !r.backup,
        !target_exists ==> !r.backup,
        options.no_backup ==> !r.backup,
        r.backup ==> r.write,
{
    ApplyPlan {
        print: options.dry_run,
        backup: !options.dry_run && !options.no_backup && target_exists,
        write: !options.dry_run,
    }
}

/// Where the copy of the target file is kept: the target's path with `.bak`
/// behind it.
pub fn backup_path(target: &str) -> (r: String)
    ensures
        r@ == target@ + ".bak"@,
{
    String::from_str(target).concat(".bak")
}

/// Where the new content is written before it replaces the target file: the
/// target's path with `.tmp` behind it.
pub fn temp_path(target: &str) -> (r: String)
    ensures
        r@ == target@ + ".tmp"@,
{
    String::from_str(target).concat(".tmp")
}

/// The lines to compare against: those of the existing file, or none where
/// there is no file.
pub open spec fn baseline(existing: Option<&Vec<String>>) -> Seq<Seq<char>> {
    match existing {
        Some(lines) => texts(lines@),
        None => Seq::empty(),
    }
}

/// The outcome of one generation.
#[derive(Debug)]
pub struct Generation {
    /// The freshly rendered managed block.
    pub block: Vec<String>,
    /// How it differs from the managed block of the existing file.
    pub diff: Diff,
    /// The new content of the target file.
    pub content: Vec<String>,
    /// The file operations to perform.
    pub plan: ApplyPlan,
}

/// Renders the inventory and reconciles it with the existing file, if any.
pub fn generate(
    inv: &Inventory,
    key_dir: &str,
    existing: Option<&Vec<String>>,
    options: &ApplyOptions,
) -> (r: Generation)
    ensures
        texts(r.block@) == rendered(inv@, key_dir@),
        r.diff.describes(managed_of(baseline(existing)), rendered(inv@, key_dir@)),
        r.diff.empty() <==> managed_of(baseline(existing)) == rendered(inv@, key_dir@),
        texts(r.content@) == merged(baseline(existing), rendered(inv@, key_dir@)),
        r.plan == planned(existing is Some, *options),
{
    let block = render(inv, key_dir);
    let none: Vec<String> = Vec::new();
    assert(texts(none@) =~= Seq::<Seq<char>>::empty());
    let lines = match existing {
        Some(lines) => lines,
        None => &none,
    };
    assert(texts(lines@) == baseline(existing));
    let parts = split_managed(lines);
    let diff = diff_lines(&parts.managed, &block);
    let content = reconcile(lines, &block);
    let plan = plan_apply(existing.is_some(), options);
    Generation { block, diff, content, plan }
}

/// How the freshly rendered block differs from the managed block of the
/// existing file. No file, or a file without a block, counts as an empty
/// block.
pub fn diff(inv: &Inventory, key_dir: &str, existing: Option<&Vec<String>>) -> (r: Diff)
    ensures
        r.describes(managed_of(baseline(existing)), rendered(inv@, key_dir@)),
        r.empty() <==> managed_of(baseline(existing)) == rendered(inv@, key_dir@),
{
    let block = render(inv, key_dir);
    let none: Vec<String> = Vec::new();
    assert(texts(none@) =~= Seq::<Seq<char>>::empty());
    let lines = match existing {
        Some(lines) => lines,
        None => &none,
    };
    let parts = split_managed(lines);
    diff_lines(&parts.managed, &block)
}

/// Every line that is not empty and does not begin with `#`.
pub open spec fn all_plain(lines: Seq<Seq<char>>) -> bool {
    forall|k: int| 0 <= k < lines.len() ==> (#[trigger] lines[k]).len() > 0 && lines[k][0] != '#'
}

proof fn lemma_opt_line_plain(label: Seq<char>, value: Option<Seq<char>>)
    requires
        label.len() > 0,
        label[0] != '#',
    ensures
        all_plain(opt_line(label, value)),
{
    match value {
        Some(v) => {
            assert((label + v)[0] == label[0]);
        },
        None => {},
    }
}

proof fn lemma_host_block_plain(h: HostView, key_dir: Seq<char>)
    ensures
        all_plain(host_block(h, key_dir)),
{
    reveal_strlit("Host ");
    reveal_strlit("    HostName ");
    reveal_strlit("    User ");
    reveal_strlit("    IdentityFile ");
    reveal_strlit("    Port ");
    reveal_strlit("    ProxyJump ");
    let head = seq!["Host "@ + h.name, "    HostName "@ + h.hostname];
    assert(("Host "@ + h.name)[0] == 'H');
    assert(("    HostName "@ + h.hostname)[0] == ' ');
    assert(all_plain(head));
    let identity = "    IdentityFile "@ + key_dir + "/"@;
    assert(identity[0] == ' ');
    lemma_opt_line_plain("    User "@, h.user);
    lemma_opt_line_plain(identity, h.key);
    lemma_opt_line_plain("    Port "@, crate::render::port_numeral(h.port));
    lemma_opt_line_plain("    ProxyJump "@, h.proxy_jump);
}

proof fn lemma_body_plain(hosts: Seq<HostView>, key_dir: Seq<char>)
    ensures
        all_plain(body(hosts, key_dir)),
    decreases hosts.len(),
{
    if hosts.len() > 0 {
        lemma_body_plain(hosts.drop_last(), key_dir);
        lemma_host_block_plain(hosts.last(), key_dir);
    }
}

/// What the renderer writes is a well-formed block: no line between its
/// markers is itself a marker.
pub proof fn lemma_rendered_well_formed(hosts: Seq<HostView>, key_dir: Seq<char>)
    ensures
        well_formed_block(rendered(hosts, key_dir)),
{
    lemma_markers_differ();
    lemma_body_plain(hosts, key_dir);
    let r = rendered(hosts, key_dir);
    let b = body(hosts, key_dir);
    assert(r.len() == b.len() + 2);
    assert(r[0] == start_marker());
    assert(r[r.len() - 1] == end_marker());
    assert forall|k: int| 0 < k < r.len() - 1 implies !is_marker(#[trigger] r[k]) by {
        assert(r[k] == b[k - 1]);
    }
}

/// Rendering depends on the hosts and the key directory alone: two
/// renderings of equal inventories are the same lines and the same text.
pub proof fn lemma_render_deterministic(
    a: Seq<HostView>,
    b: Seq<HostView>,
    key_dir: Seq<char>,
    first: Vec<String>,
    second: Vec<String>,
)
    requires
        a == b,
        texts(first@) == rendered(a, key_dir),
        texts(second@) == rendered(b, key_dir),
    ensures
        texts(first@) == texts(second@),
        joined(texts(first@)) == joined(texts(second@)),
{
}

proof fn lemma_decimal_single(n: nat)
    ensures
        single_line(decimal(n)),
    decreases n,
{
    if n >= 10 {
        lemma_decimal_single(n / 10);
    }
}

proof fn lemma_opt_line_single(label: Seq<char>, value: Option<Seq<char>>)
    requires
        single_line(label),
        value matches Some(v) ==> single_line(v),
    ensures
        all_single_line(opt_line(label, value)),
{
}

proof fn lemma_host_block_single(h: HostView, key_dir: Seq<char>)
    requires
        fields_single_line(h),
        single_line(key_dir),
    ensures
        all_single_line(host_block(h, key_dir)),
{
    reveal_strlit("Host ");
    reveal_strlit("    HostName ");
    reveal_strlit("    User ");
    reveal_strlit("    IdentityFile ");
    reveal_strlit("    Port ");
    reveal_strlit("    ProxyJump ");
    reveal_strlit("/");
    assert(single_line("Host "@));
    assert(single_line("    HostName "@));
    assert(single_line("    User "@));
    assert(single_line("    IdentityFile "@));
    assert(single_line("    Port "@));
    assert(single_line("    ProxyJump "@));
    assert(single_line("/"@));
    let head = seq!["Host "@ + h.name, "    HostName "@ + h.hostname];
    assert(all_single_line(head));
    let identity = "    IdentityFile "@ + key_dir + "/"@;
    assert(single_line(identity));
    match h.port {
        Some(p) => {
            lemma_decimal_single(p as nat);
        },
        None => {},
    }
    lemma_opt_line_single("    User "@, h.user);
    lemma_opt_line_single(identity, h.key);
    lemma_opt_line_single("    Port "@, crate::render::port_numeral(h.port));
    lemma_opt_line_single("    ProxyJump "@, h.proxy_jump);
}

proof fn lemma_body_single(hosts: Seq<HostView>, key_dir: Seq<char>)
    requires
        valid_hosts(hosts),
        single_line(key_dir),
    ensures
        all_single_line(body(hosts, key_dir)),
    decreases hosts.len(),
{
    if hosts.len() > 0 {
        let front = hosts.drop_last();
        assert forall|i: int| 0 <= i < front.len() implies crate::inventory::valid_host(
            #[trigger] front[i],
        ) by {
            assert(front[i] == hosts[i]);
        }
        assert forall|i: int, j: int| 0 <= i < j < front.len() implies (#[trigger] front[i]).name
            != (#[trigger] front[j]).name by {
            assert(front[i] == hosts[i]);
            assert(front[j] == hosts[j]);
        }
        lemma_body_single(front, key_dir);
        assert(crate::inventory::valid_host(hosts[hosts.len() - 1]));
        lemma_host_block_single(hosts.last(), key_dir);
    }
}

/// The block rendered from a well-formed inventory holds no line feed
/// inside a line.
pub proof fn lemma_rendered_single(hosts: Seq<HostView>, key_dir: Seq<char>)
    requires
        valid_hosts(hosts),
        single_line(key_dir),
    ensures
        all_single_line(rendered(hosts, key_dir)),
{
    reveal_strlit("# >>> rskm managed hosts >>>");
    reveal_strlit("# <<< rskm managed hosts <<<");
    assert(single_line(start_marker()));
    assert(single_line(end_marker()));
    lemma_body_single(hosts, key_dir);
}

/// Generating twice through the file: the content of the first run is
/// written as text and read back for the second. The second run finds the
/// rendered block as the file's managed block and writes the same text.
pub proof fn lemma_generate_idempotent_on_text(
    hosts: Seq<HostView>,
    key_dir: Seq<char>,
    text: Seq<char>,
)
    requires
        valid_hosts(hosts),
        single_line(key_dir),
    ensures
        ({
            let block = rendered(hosts, key_dir);
            let first = merged(lines_of(text), block);
            let read_back = lines_of(joined(first));
            &&& read_back == first
            &&& managed_of(read_back) == block
            &&& joined(merged(read_back, block)) == joined(first)
        }),
{
    let block = rendered(hosts, key_dir);
    let lines = lines_of(text);
    let first = merged(lines, block);
    lemma_lines_are_single(text);
    lemma_rendered_single(hosts, key_dir);
    lemma_rendered_well_formed(hosts, key_dir);
    lemma_reconcile_idempotent(lines, block);
    let p = prefix_of(lines);
    let x = suffix_of(lines);
    match block_of(lines) {
        Some((s, e)) => {
            let q = choose|q: (int, int)| crate::reconcile::is_block(lines, q.0, q.1);
            assert(crate::reconcile::is_block(lines, q.0, q.1));
            assert(all_single_line(p));
            assert(all_single_line(x));
        },
        None => {},
    }
    assert(all_single_line(first));
    lemma_split_join(first);
}

/// Generating twice from an unchanged inventory: after the first run the
/// file's managed block is the rendered block, so the second run finds no
/// difference and produces the same content again.
pub proof fn lemma_generate_idempotent(
    hosts: Seq<HostView>,
    key_dir: Seq<char>,
    lines: Seq<Seq<char>>,
    second: Diff,
)
    requires
        second.describes(
            managed_of(merged(lines, rendered(hosts, key_dir))),
            rendered(hosts, key_dir),
        ),
    ensures
        managed_of(merged(lines, rendered(hosts, key_dir))) == rendered(hosts, key_dir),
        second.empty(),
        merged(merged(lines, rendered(hosts, key_dir)), rendered(hosts, key_dir)) == merged(
            lines,
            rendered(hosts, key_dir),
        ),
{
    lemma_rendered_well_formed(hosts, key_dir);
    lemma_reconcile_idempotent(lines, rendered(hosts, key_dir));
    crate::diff::lemma_empty_iff_equal(
        second,
        managed_of(merged(lines, rendered(hosts, key_dir))),
        rendered(hosts, key_dir),
    );
}

} // verus!
