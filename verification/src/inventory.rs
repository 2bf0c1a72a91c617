//! The host inventory: an ordered list of host entries with unique names.

use crate::errors::RskmError;
use crate::text::{is_single_line, single_line};
use vstd::prelude::*;
use vstd::string::*;

verus! {

/// One host record.
#[derive(Debug)]
pub struct HostEntry {
    pub name: String,
    pub hostname: String,
    pub user: Option<String>,
    pub key: Option<String>,
    pub port: Option<u16>,
    pub proxy_jump: Option<String>,
}

/// The mathematical value of a host record.
pub struct HostView {
    pub name: Seq<char>,
    pub hostname: Seq<char>,
    pub user: Option<Seq<char>>,
    pub key: Option<Seq<char>>,
    pub port: Option<u16>,
    pub proxy_jump: Option<Seq<char>>,
}

/// The fields that an edit supplies; an absent field is left as it was.
#[derive(Debug)]
pub struct HostEdit {
    pub hostname: Option<String>,
    pub user: Option<String>,
    pub key: Option<String>,
    pub port: Option<u16>,
    pub proxy_jump: Option<String>,
}

/// The mathematical value of an edit.
pub struct HostEditView {
    pub hostname: Option<Seq<char>>,
    pub user: Option<Seq<char>>,
    pub key: Option<Seq<char>>,
    pub port: Option<u16>,
    pub proxy_jump: Option<Seq<char>>,
}

/// The characters of an optional string.
pub open spec fn opt_view(o: Option<String>) -> Option<Seq<char>> {
    match o {
        Some(s) => Some(s@),
        None => None,
    }
}

impl View for HostEntry {
    type V = HostView;

    open spec fn view(&self) -> HostView {
        HostView {
            name: self.name@,
            hostname: self.hostname@,
            user: opt_view(self.user),
            key: opt_view(self.key),
            port: self.port,
            proxy_jump: opt_view(self.proxy_jump),
        }
    }
}

impl View for HostEdit {
    type V = HostEditView;

    open spec fn view(&self) -> HostEditView {
        HostEditView {
            hostname: opt_view(self.hostname),
            user: opt_view(self.user),
            key: opt_view(self.key),
            port: self.port,
            proxy_jump: opt_view(self.proxy_jump),
        }
    }
}

/// An optional value that, if present, holds no line feed.
pub open spec fn opt_single_line(o: Option<Seq<char>>) -> bool {
    match o {
        Some(s) => single_line(s),
        None => true,
    }
}

/// No text field of the record holds a line feed.
pub open spec fn fields_single_line(h: HostView) -> bool {
    &&& single_line(h.name)
    &&& single_line(h.hostname)
    &&& opt_single_line(h.user)
    &&& opt_single_line(h.key)
    &&& opt_single_line(h.proxy_jump)
}

/// An edit is acceptable when its port, if any, is not 0 and no text field
/// that it supplies holds a line feed.
pub open spec fn valid_edit(e: HostEditView) -> bool {
    &&& e.port != Some(0u16)
    &&& opt_single_line(e.hostname)
    &&& opt_single_line(e.user)
    &&& opt_single_line(e.key)
    &&& opt_single_line(e.proxy_jump)
}

/// A record is acceptable when it has a name, its port, if any, is not 0,
/// and no text field holds a line feed.
pub open spec fn valid_host(h: HostView) -> bool {
    h.name.len() > 0 && h.port != Some(0u16) && fields_single_line(h)
}

/// An inventory is well formed when every record is acceptable and no name
/// occurs twice.
pub open spec fn valid_hosts(s: Seq<HostView>) -> bool {
    &&& forall|i: int| 0 <= i < s.len() ==> valid_host(#[trigger] s[i])
    &&& forall|i: int, j: int| 0 <= i < j < s.len() ==> (#[trigger] s[i]).name != (#[trigger] s[j]).name
}

/// Whether some record carries `name`.
pub open spec fn has_name(s: Seq<HostView>, name: Seq<char>) -> bool {
    exists|i: int| 0 <= i < s.len() && (#[trigger] s[i]).name == name
}

/// The record `h` after the edit `e`: each supplied field replaces the old
/// one, each absent field keeps it.
pub open spec fn edited(h: HostView, e: HostEditView) -> HostView {
    HostView {
        name: h.name,
        hostname: match e.hostname {
            Some(x) => x,
            None => h.hostname,
        },
        user: if e.user is Some { e.user } else { h.user },
        key: if e.key is Some { e.key } else { h.key },
        port: if e.port is Some { e.port } else { h.port },
        proxy_jump: if e.proxy_jump is Some { e.proxy_jump } else { h.proxy_jump },
    }
}

/// What `add` says of a record without a name.
pub open spec fn name_missing_text() -> Seq<char> {
    "host name must not be empty"@
}

/// What `add` and `edit` say of port 0.
pub open spec fn bad_port_text() -> Seq<char> {
    "port must be between 1 and 65535"@
}

/// What `add` and `edit` say of a line feed in a field.
pub open spec fn line_break_text() -> Seq<char> {
    "fields must not contain line breaks"@
}

/// The error `e` is the one that refuses the record `h` beside the records
/// `present`: invalid input for a missing name, else for port 0, else for a
/// line feed in a field, else an existing host of that name.
pub open spec fn refusal(present: Seq<HostView>, h: HostView, e: RskmError) -> bool {
    if h.name.len() == 0 {
        e matches RskmError::InvalidInput(m) && m@ == name_missing_text()
    } else if h.port == Some(0u16) {
        e matches RskmError::InvalidInput(m) && m@ == bad_port_text()
    } else if !fields_single_line(h) {
        e matches RskmError::InvalidInput(m) && m@ == line_break_text()
    } else {
        has_name(present, h.name) && (e matches RskmError::HostExists(n) && n@ == h.name)
    }
}

/// The records before position `i` make a well-formed inventory and `e`
/// refuses the record at `i` beside them.
pub open spec fn refused_at(all: Seq<HostView>, i: int, e: RskmError) -> bool {
    &&& 0 <= i < all.len()
    &&& valid_hosts(all.subrange(0, i))
    &&& refusal(all.subrange(0, i), all[i], e)
}

/// The record `h` with its port set to `port` and nothing else changed.
pub open spec fn with_port(h: HostView, port: u16) -> HostView {
    HostView { port: Some(port), ..h }
}

/// An edit that supplies only a port changes only the port.
pub proof fn lemma_edit_port_only(h: HostView, port: u16)
    ensures
        edited(
            h,
            HostEditView {
                hostname: None,
                user: None,
                key: None,
                port: Some(port),
                proxy_jump: None,
            },
        ) == with_port(h, port),
        with_port(h, port).name == h.name,
        with_port(h, port).hostname == h.hostname,
        with_port(h, port).user == h.user,
        with_port(h, port).key == h.key,
        with_port(h, port).proxy_jump == h.proxy_jump,
{
}

/// The views of a list of records, in order.
pub open spec fn host_views(hosts: Seq<HostEntry>) -> Seq<HostView> {
    Seq::new(hosts.len(), |i: int| hosts[i]@)
}

fn clone_opt(o: &Option<String>) -> (r: Option<String>)
    ensures
        opt_view(r) == opt_view(*o),
{
    match o {
        Some(s) => Some(s.clone()),
        None => None,
    }
}

fn opt_is_single_line(o: &Option<String>) -> (r: bool)
    ensures
        r == opt_single_line(opt_view(*o)),
{
    match o {
        Some(s) => is_single_line(s.as_str()),
        None => true,
    }
}

fn pick(new: Option<String>, current: &Option<String>) -> (r: Option<String>)
    ensures
        opt_view(r) == if new is Some { opt_view(new) } else { opt_view(*current) },
{
    match new {
        Some(s) => Some(s),
        None => clone_opt(current),
    }
}

impl HostEdit {
    /// Whether the edit is acceptable.
    pub fn is_valid(&self) -> (r: bool)
        ensures
            r == valid_edit(self@),
    {
        port_in_range(self.port) && opt_is_single_line(&self.hostname) && opt_is_single_line(
            &self.user,
        ) && opt_is_single_line(&self.key) && opt_is_single_line(&self.proxy_jump)
    }
}

impl HostEntry {
    /// Whether no text field holds a line feed.
    pub fn on_single_lines(&self) -> (r: bool)
        ensures
            r == fields_single_line(self@),
    {
        is_single_line(self.name.as_str()) && is_single_line(self.hostname.as_str())
            && opt_is_single_line(&self.user) && opt_is_single_line(&self.key)
            && opt_is_single_line(&self.proxy_jump)
    }

    /// A copy of the record.
    pub fn duplicate(&self) -> (r: HostEntry)
        ensures
            r@ == self@,
    {
        HostEntry {
            name: self.name.clone(),
            hostname: self.hostname.clone(),
            user: clone_opt(&self.user),
            key: clone_opt(&self.key),
            port: self.port,
            proxy_jump: clone_opt(&self.proxy_jump),
        }
    }

    /// The record with the supplied fields of `edit` put in place.
    pub fn apply(&self, edit: HostEdit) -> (r: HostEntry)
        ensures
            r@ == edited(self@, edit@),
    {
        let hostname = match edit.hostname {
            Some(h) => h,
            None => self.hostname.clone(),
        };
        HostEntry {
            name: self.name.clone(),
            hostname,
            user: pick(edit.user, &self.user),
            key: pick(edit.key, &self.key),
            port: match edit.port {
                Some(p) => Some(p),
                None => self.port,
            },
            proxy_jump: pick(edit.proxy_jump, &self.proxy_jump),
        }
    }
}

/// The ordered host list. Insertion order is kept and decides render order.
#[derive(Debug)]
pub struct Inventory {
    hosts: Vec<HostEntry>,
}

impl View for Inventory {
    type V = Seq<HostView>;

    closed spec fn view(&self) -> Seq<HostView> {
        host_views(self.hosts@)
    }
}

impl Inventory {
    /// Well-formedness: every record is acceptable and no name occurs
    /// twice. The constructors establish it and every method keeps it.
    pub open spec fn wf(&self) -> bool {
        valid_hosts(self@)
    }

    /// What stands for an inventory file that does not exist: the empty
    /// inventory where a default is permitted, else the error that names
    /// the file.
    pub fn when_missing(path: &str, permit_default: bool) -> (r: Result<Inventory, RskmError>)
        ensures
            permit_default ==> (r matches Ok(inv) && inv@ == Seq::<HostView>::empty() && inv.wf()),
            !permit_default ==> (r matches Err(RskmError::ConfigNotFound(p)) && p@ == path@),
    {
        if permit_default {
            Ok(Inventory::new())
        } else {
            Err(RskmError::ConfigNotFound(String::from_str(path)))
        }
    }

    /// The empty inventory.
    pub fn new() -> (r: Inventory)
        ensures
            r@ == Seq::<HostView>::empty(),
            r.wf(),
    {
        let r = Inventory { hosts: Vec::new() };
        assert(r@ =~= Seq::<HostView>::empty());
        r
    }

    /// The number of records.
    pub fn len(&self) -> (r: usize)
        ensures
            r == self@.len(),
    {
        self.hosts.len()
    }

    /// The record at position `i`, if there is one.
    pub fn get(&self, i: usize) -> (r: Option<&HostEntry>)
        ensures
            i < self@.len() ==> (r matches Some(h) && h@ == self@[i as int]),
            i >= self@.len() ==> r is None,
    {
        if i < self.hosts.len() {
            Some(&self.hosts[i])
        } else {
            None
        }
    }

    /// The record at position `i`.
    pub fn entry(&self, i: usize) -> (r: &HostEntry)
        requires
            i < self@.len(),
        ensures
            r@ == self@[i as int],
    {
        &self.hosts[i]
    }

    /// The position of the record named `name`.
    pub fn find(&self, name: &str) -> (r: Option<usize>)
        ensures
            match r {
                Some(i) => i < self@.len() && self@[i as int].name == name@ && forall|j: int|
                    0 <= j < i ==> (#[trigger] self@[j]).name != name@,
                None => !has_name(self@, name@),
            },
    {
        let wanted = String::from_str(name);
        let n: usize = self.hosts.len();
        let mut i: usize = 0;
        while i < n
            invariant
                i <= n,
                n == self.hosts@.len(),
                n == self@.len(),
                wanted@ == name@,
                forall|j: int| 0 <= j < i ==> (#[trigger] self@[j]).name != name@,
            decreases n - i,
        {
            if self.hosts[i].name == wanted {
                return Some(i);
            }
            i += 1;
        }
        None
    }

    /// The record named `name`, if there is one.
    pub fn lookup(&self, name: &str) -> (r: Option<&HostEntry>)
        ensures
            has_name(self@, name@) <==> r is Some,
            r matches Some(h) ==> h@.name == name@ && self@.contains(h@),
    {
        match self.find(name) {
            Some(i) => {
                assert(self@[i as int] == self.hosts@[i as int]@);
                Some(&self.hosts[i])
            },
            None => None,
        }
    }

    /// Appends `entry`. A record without a name, with port 0 or with a line
    /// feed in a field is refused as invalid input; a name that is already
    /// present is refused as existing. On refusal the inventory is unchanged.
    pub fn add(&mut self, entry: HostEntry) -> (r: Result<(), RskmError>)
        requires
            old(self).wf(),
        ensures
            final(self).wf(),
            r is Ok <==> valid_host(entry@) && !has_name(old(self)@, entry@.name),
            r is Ok ==> final(self)@ == old(self)@.push(entry@),
            r matches Err(e) ==> final(self)@ == old(self)@ && refusal(old(self)@, entry@, e),
    {
        if entry.name.as_str().unicode_len() == 0 {
            return Err(RskmError::InvalidInput(String::from_str("host name must not be empty")));
        }
        if !port_in_range(entry.port) {
            return Err(RskmError::InvalidInput(String::from_str("port must be between 1 and 65535")));
        }
        if !entry.on_single_lines() {
            return Err(
                RskmError::InvalidInput(String::from_str("fields must not contain line breaks")),
            );
        }
        match self.find(entry.name.as_str()) {
            Some(_) => Err(RskmError::HostExists(entry.name)),
            None => {
                let ghost before = self@;
                let ghost added = entry@;
                self.hosts.push(entry);
                assert(self@ =~= before.push(added));
                Ok(())
            },
        }
    }

    /// Applies `edit` to the record named `name`, leaving every field that
    /// the edit does not supply, and every other record, as it was.
    pub fn edit(&mut self, name: &str, edit: HostEdit) -> (r: Result<(), RskmError>)
        requires
            old(self).wf(),
        ensures
            final(self).wf(),
            edit@.port == Some(0u16) ==> (r matches Err(RskmError::InvalidInput(m)) && m@
                == bad_port_text()),
            edit@.port != Some(0u16) && !valid_edit(edit@) ==> (r matches Err(
                RskmError::InvalidInput(m),
            ) && m@ == line_break_text()),
            valid_edit(edit@) && !has_name(old(self)@, name@) ==> (r matches Err(
                RskmError::HostNotFound(n),
            ) && n@ == name@),
            valid_edit(edit@) && has_name(old(self)@, name@) ==> r is Ok,
            r is Err ==> final(self)@ == old(self)@,
            r is Ok ==> exists|i: int|
                0 <= i < old(self)@.len() && (#[trigger] old(self)@[i]).name == name@ && final(self)@
                    == old(self)@.update(i, edited(old(self)@[i], edit@)),
    {
        if !port_in_range(edit.port) {
            return Err(RskmError::InvalidInput(String::from_str("port must be between 1 and 65535")));
        }
        if !edit.is_valid() {
            return Err(
                RskmError::InvalidInput(String::from_str("fields must not contain line breaks")),
            );
        }
        match self.find(name) {
            None => Err(RskmError::HostNotFound(String::from_str(name))),
            Some(i) => {
                let ghost before = self@;
                let ghost change = edit@;
                let updated = self.hosts[i].apply(edit);
                assert(before[i as int] == self.hosts@[i as int]@);
                self.hosts.set(i, updated);
                assert(self@ =~= before.update(i as int, edited(before[i as int], change)));
                Ok(())
            },
        }
    }

    /// Takes out the record named `name` and returns it; the others keep
    /// their order.
    pub fn remove(&mut self, name: &str) -> (r: Result<HostEntry, RskmError>)
        requires
            old(self).wf(),
        ensures
            final(self).wf(),
            match r {
                Ok(h) => exists|i: int|
                    0 <= i < old(self)@.len() && (#[trigger] old(self)@[i]).name == name@ && h@
                        == old(self)@[i] && final(self)@ == old(self)@.remove(i),
                Err(e) => !has_name(old(self)@, name@) && final(self)@ == old(self)@ && (e matches RskmError::HostNotFound(
                    n,
                ) && n@ == name@),
            },
    {
        match self.find(name) {
            None => Err(RskmError::HostNotFound(String::from_str(name))),
            Some(i) => {
                let ghost before = self@;
                assert(before[i as int] == self.hosts@[i as int]@);
                let taken = self.hosts.remove(i);
                assert(self@ =~= before.remove(i as int));
                Ok(taken)
            },
        }
    }

    /// Builds an inventory from records in order, refusing the first record
    /// that `add` refuses.
    pub fn from_entries(entries: Vec<HostEntry>) -> (r: Result<Inventory, RskmError>)
        ensures
            valid_hosts(host_views(entries@)) <==> r is Ok,
            r matches Ok(inv) ==> inv.wf() && inv@ == host_views(entries@),
            r matches Err(e) ==> exists|i: int| refused_at(host_views(entries@), i, e),
    {
        let mut inv = Inventory::new();
        let ghost all = host_views(entries@);
        let n: usize = entries.len();
        let mut i: usize = 0;
        while i < n
            invariant
                i <= n,
                n == entries@.len(),
                n == all.len(),
                inv.wf(),
                inv@ == all.subrange(0, i as int),
                all == host_views(entries@),
            decreases n - i,
        {
            let entry = entries[i].duplicate();
            let ghost before = inv@;
            let ghost current = entry@;
            assert(current == all[i as int]);
            match inv.add(entry) {
                Ok(()) => {
                    assert(inv@ =~= all.subrange(0, i + 1));
                },
                Err(e) => {
                    proof {
                        if valid_hosts(all) {
                            assert(valid_host(all[i as int]));
                            assert(has_name(before, current.name));
                            let k = choose|k: int|
                                0 <= k < before.len() && (#[trigger] before[k]).name
                                    == current.name;
                            assert(before[k] == all[k]);
                            assert(all[k].name != all[i as int].name);
                        }
                        assert(refused_at(all, i as int, e));
                    }
                    return Err(e);
                },
            }
            i += 1;
        }
        assert(inv@ =~= all);
        Ok(inv)
    }
}

/// Whether an optional port lies in 1 to 65535.
pub fn port_in_range(port: Option<u16>) -> (r: bool)
    ensures
        r == (port != Some(0u16)),
{
    match port {
        Some(p) => p != 0,
        None => true,
    }
}

} // verus!
