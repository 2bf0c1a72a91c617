//! Validation of key references against the set of known managed keys.
//! Every host is checked; each check yields no violation or one, and the
//! violations are collected in inventory order.

use crate::errors::RskmError;
use crate::inventory::{HostEntry, HostView, Inventory};
use crate::text::texts;
use vstd::prelude::*;
use vstd::string::*;

verus! {

/// A host that refers to a key which is not known.
#[derive(Debug)]
pub struct Violation {
    pub host: String,
    pub key: String,
}

/// The mathematical value of a violation.
pub struct ViolationView {
    pub host: Seq<char>,
    pub key: Seq<char>,
}

impl View for Violation {
    type V = ViolationView;

    open spec fn view(&self) -> ViolationView {
        ViolationView { host: self.host@, key: self.key@ }
    }
}

/// The views of a list of violations, in order.
pub open spec fn violation_views(v: Seq<Violation>) -> Seq<ViolationView> {
    Seq::new(v.len(), |i: int| v[i]@)
}

/// Whether the host's key reference, if it has one, names a known key.
pub open spec fn resolves(h: HostView, keys: Seq<Seq<char>>) -> bool {
    match h.key {
        Some(k) => keys.contains(k),
        None => true,
    }
}

/// The outcome of checking one host: nothing, or one violation.
pub open spec fn violation_of(h: HostView, keys: Seq<Seq<char>>) -> Seq<ViolationView> {
    match h.key {
        Some(k) => if keys.contains(k) {
            Seq::empty()
        } else {
            seq![ViolationView { host: h.name, key: k }]
        },
        None => Seq::empty(),
    }
}

/// The outcomes of all checks, concatenated in inventory order.
pub open spec fn violations(hosts: Seq<HostView>, keys: Seq<Seq<char>>) -> Seq<ViolationView>
    decreases hosts.len(),
{
    if hosts.len() == 0 {
        Seq::empty()
    } else {
        violations(hosts.drop_last(), keys) + violation_of(hosts.last(), keys)
    }
}

/// Validation reports nothing exactly when every key reference resolves,
/// and never more violations than there are hosts.
pub proof fn lemma_validation_complete(hosts: Seq<HostView>, keys: Seq<Seq<char>>)
    ensures
        violations(hosts, keys).len() == 0 <==> forall|i: int|
            0 <= i < hosts.len() ==> resolves(#[trigger] hosts[i], keys),
        violations(hosts, keys).len() <= hosts.len(),
    decreases hosts.len(),
{
    if hosts.len() > 0 {
        let front = hosts.drop_last();
        lemma_validation_complete(front, keys);
        if violations(hosts, keys).len() == 0 {
            assert forall|i: int| 0 <= i < hosts.len() implies resolves(
                #[trigger] hosts[i],
                keys,
            ) by {
                if i < front.len() {
                    assert(front[i] == hosts[i]);
                }
            }
        }
        if forall|i: int| 0 <= i < hosts.len() ==> resolves(#[trigger] hosts[i], keys) {
            assert forall|i: int| 0 <= i < front.len() implies resolves(
                #[trigger] front[i],
                keys,
            ) by {
                assert(front[i] == hosts[i]);
            }
            assert(resolves(hosts[hosts.len() - 1], keys));
        }
    }
}

/// Every reported violation names a host of the inventory and the unknown
/// key that this host refers to.
pub proof fn lemma_violations_are_sound(hosts: Seq<HostView>, keys: Seq<Seq<char>>, k: int)
    requires
        0 <= k < violations(hosts, keys).len(),
    ensures
        exists|i: int|
            0 <= i < hosts.len() && (#[trigger] hosts[i]).name == violations(hosts, keys)[k].host
                && hosts[i].key == Some(violations(hosts, keys)[k].key) && !keys.contains(
                violations(hosts, keys)[k].key,
            ),
    decreases hosts.len(),
{
    let front = hosts.drop_last();
    let before = violations(front, keys);
    if k < before.len() {
        lemma_violations_are_sound(front, keys, k);
        let i = choose|i: int|
            0 <= i < front.len() && (#[trigger] front[i]).name == before[k].host && front[i].key
                == Some(before[k].key) && !keys.contains(before[k].key);
        assert(hosts[i] == front[i]);
    } else {
        let i = hosts.len() - 1;
        assert(hosts[i] == hosts.last());
        assert(violations(hosts, keys)[k] == violation_of(hosts.last(), keys)[k - before.len()]);
    }
}

/// Whether `key` is among the known keys.
pub fn key_known(keys: &Vec<String>, key: &String) -> (r: bool)
    ensures
        r == texts(keys@).contains(key@),
{
    let n: usize = keys.len();
    let mut i: usize = 0;
    while i < n
        invariant
            i <= n,
            n == keys@.len(),
            forall|j: int| 0 <= j < i ==> (#[trigger] texts(keys@)[j]) != key@,
        decreases n - i,
    {
        assert(texts(keys@)[i as int] == keys@[i as int]@);
        if keys[i] == *key {
            return true;
        }
        i += 1;
    }
    false
}

/// Checks one host.
pub fn check_host(host: &HostEntry, keys: &Vec<String>) -> (r: Option<Violation>)
    ensures
        match r {
            Some(v) => violation_of(host@, texts(keys@)) == seq![v@],
            None => violation_of(host@, texts(keys@)) == Seq::<ViolationView>::empty(),
        },
{
    match &host.key {
        Some(k) => {
            if key_known(keys, k) {
                None
            } else {
                Some(Violation { host: host.name.clone(), key: k.clone() })
            }
        },
        None => None,
    }
}

/// Checks every host and collects all violations, in inventory order.
pub fn validate(inv: &Inventory, keys: &Vec<String>) -> (r: Vec<Violation>)
    ensures
        violation_views(r@) == violations(inv@, texts(keys@)),
{
    let mut out: Vec<Violation> = Vec::new();
    let n: usize = inv.len();
    let mut i: usize = 0;
    assert(inv@.subrange(0, 0) =~= Seq::<HostView>::empty());
    assert(violation_views(out@) =~= violations(inv@.subrange(0, 0), texts(keys@)));
    while i < n
        invariant
            i <= n,
            n == inv@.len(),
            violation_views(out@) == violations(inv@.subrange(0, i as int), texts(keys@)),
        decreases n - i,
    {
        let ghost before = violation_views(out@);
        let ghost next = inv@.subrange(0, i + 1);
        proof {
            assert(next.drop_last() =~= inv@.subrange(0, i as int));
            assert(next.last() == inv@[i as int]);
        }
        match check_host(inv.entry(i), keys) {
            Some(v) => {
                let ghost vv = v@;
                out.push(v);
                assert(violation_views(out@) =~= before + seq![vv]);
            },
            None => {
                assert(before + Seq::<ViolationView>::empty() =~= before);
            },
        }
        i += 1;
    }
    assert(inv@.subrange(0, n as int) =~= inv@);
    out
}

impl Violation {
    /// The error that reports this violation.
    pub fn to_error(&self) -> (r: RskmError)
        ensures
            r matches RskmError::KeyNotFound(k) && k@ == self.key@,
    {
        RskmError::KeyNotFound(self.key.clone())
    }
}

} // verus!
