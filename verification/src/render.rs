//! Rendering of the inventory into the managed block of an SSH client
//! configuration.
//!
//! The block opens with the line `# >>> rskm managed hosts >>>` and closes
//! with the line `# <<< rskm managed hosts <<<`. Between them each host takes
//! a `Host` line followed by its indented options in a fixed order.

use crate::inventory::{opt_view, HostEntry, HostView, Inventory};
use crate::text::{decimal, number_text, push_line, texts};
use vstd::prelude::*;
use vstd::string::*;

verus! {

/// The line that opens the managed block.
pub open spec fn start_marker() -> Seq<char> {
    "# >>> rskm managed hosts >>>"@
}

/// The line that closes the managed block.
pub open spec fn end_marker() -> Seq<char> {
    "# <<< rskm managed hosts <<<"@
}

/// Whether a line is one of the two markers.
pub open spec fn is_marker(line: Seq<char>) -> bool {
    line == start_marker() || line == end_marker()
}

/// No line at all for an absent value, else the label followed by the value.
pub open spec fn opt_line(label: Seq<char>, value: Option<Seq<char>>) -> Seq<Seq<char>> {
    match value {
        Some(v) => seq![label + v],
        None => Seq::empty(),
    }
}

/// The numeral of an optional port.
pub open spec fn port_numeral(port: Option<u16>) -> Option<Seq<char>> {
    match port {
        Some(p) => Some(decimal(p as nat)),
        None => None,
    }
}

/// The lines of one host: its name, its address, then user, identity file,
/// port and jump host, each only if present.
pub open spec fn host_block(h: HostView, key_dir: Seq<char>) -> Seq<Seq<char>> {
    seq!["Host "@ + h.name, "    HostName "@ + h.hostname] + opt_line("    User "@, h.user)
        + opt_line("    IdentityFile "@ + key_dir + "/"@, h.key) + opt_line(
        "    Port "@,
        port_numeral(h.port),
    ) + opt_line("    ProxyJump "@, h.proxy_jump)
}

/// The blocks of all hosts, in inventory order.
pub open spec fn body(hosts: Seq<HostView>, key_dir: Seq<char>) -> Seq<Seq<char>>
    decreases hosts.len(),
{
    if hosts.len() == 0 {
        Seq::empty()
    } else {
        body(hosts.drop_last(), key_dir) + host_block(hosts.last(), key_dir)
    }
}

/// The managed block: the opening marker, the body, the closing marker.
pub open spec fn rendered(hosts: Seq<HostView>, key_dir: Seq<char>) -> Seq<Seq<char>> {
    seq![start_marker()] + body(hosts, key_dir) + seq![end_marker()]
}

/// The opening marker line.
pub fn start_line() -> (r: String)
    ensures
        r@ == start_marker(),
{
    String::from_str("# >>> rskm managed hosts >>>")
}

/// The closing marker line.
pub fn end_line() -> (r: String)
    ensures
        r@ == end_marker(),
{
    String::from_str("# <<< rskm managed hosts <<<")
}

fn push_opt(out: &mut Vec<String>, label: &String, value: &Option<String>)
    ensures
        texts(final(out)@) == texts(old(out)@) + opt_line(label@, opt_view(*value)),
{
    match value {
        Some(v) => {
            let line = label.clone().concat(v.as_str());
            push_line(out, line);
            assert(texts(out@) =~= texts(old(out)@) + opt_line(label@, opt_view(*value)));
        },
        None => {
            assert(texts(out@) =~= texts(old(out)@) + opt_line(label@, opt_view(*value)));
        },
    }
}

/// Appends the lines of one host.
pub fn push_host(out: &mut Vec<String>, host: &HostEntry, key_dir: &str)
    ensures
        texts(final(out)@) == texts(old(out)@) + host_block(host@, key_dir@),
{
    let ghost start = texts(out@);
    push_line(out, String::from_str("Host ").concat(host.name.as_str()));
    push_line(out, String::from_str("    HostName ").concat(host.hostname.as_str()));
    assert(texts(out@) =~= start + seq!["Host "@ + host@.name, "    HostName "@ + host@.hostname]);
    push_opt(out, &String::from_str("    User "), &host.user);
    let identity = String::from_str("    IdentityFile ").concat(key_dir).concat("/");
    push_opt(out, &identity, &host.key);
    let port = match host.port {
        Some(p) => Some(number_text(p)),
        None => None,
    };
    assert(opt_view(port) == port_numeral(host@.port));
    push_opt(out, &String::from_str("    Port "), &port);
    push_opt(out, &String::from_str("    ProxyJump "), &host.proxy_jump);
    assert(texts(out@) =~= start + host_block(host@, key_dir@));
}

/// Renders the inventory as the managed block. The hosts come in inventory
/// order; the text depends on the inventory and the key directory alone.
pub fn render(inv: &Inventory, key_dir: &str) -> (r: Vec<String>)
    ensures
        texts(r@) == rendered(inv@, key_dir@),
{
    let mut out: Vec<String> = Vec::new();
    push_line(&mut out, start_line());
    let n: usize = inv.len();
    let mut i: usize = 0;
    assert(inv@.subrange(0, 0) =~= Seq::<HostView>::empty());
    assert(texts(out@) =~= seq![start_marker()] + body(inv@.subrange(0, 0), key_dir@));
    while i < n
        invariant
            i <= n,
            n == inv@.len(),
            texts(out@) == seq![start_marker()] + body(inv@.subrange(0, i as int), key_dir@),
        decreases n - i,
    {
        push_host(&mut out, inv.entry(i), key_dir);
        proof {
            let next = inv@.subrange(0, i + 1);
            assert(next.drop_last() =~= inv@.subrange(0, i as int));
            assert(next.last() == inv@[i as int]);
            assert(texts(out@) =~= seq![start_marker()] + body(next, key_dir@));
        }
        i += 1;
    }
    assert(inv@.subrange(0, n as int) =~= inv@);
    push_line(&mut out, end_line());
    assert(texts(out@) =~= rendered(inv@, key_dir@));
    out
}

} // verus!
