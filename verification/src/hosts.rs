//! The host inventory: the saved servers, in the order they were added.

use vstd::prelude::*;

use crate::error::CoreError;
use crate::ids::new_id;
use crate::model::{HostEntry, HostEntryView};
use crate::text::{is_blank, trim};

verus! {

/// The views of a vector of host entries.
pub open spec fn host_views(v: Seq<HostEntry>) -> Seq<HostEntryView> {
    v.map_values(|h: HostEntry| h@)
}

/// Index of the first entry of `hs` with id `id`, or `hs.len()` if none.
pub open spec fn first_with_id(hs: Seq<HostEntryView>, id: Seq<char>) -> int
    decreases hs.len(),
{
    if hs.len() == 0 {
        0
    } else {
        let r = first_with_id(hs.drop_last(), id);
        if r < hs.len() - 1 {
            r
        } else if hs.last().id == id {
            hs.len() - 1
        } else {
            hs.len() as int
        }
    }
}

/// The entry that a lookup of `id` finds in `hs`.
pub open spec fn lookup_host(hs: Seq<HostEntryView>, id: Seq<char>) -> Option<HostEntryView> {
    let i = first_with_id(hs, id);
    if i < hs.len() {
        Some(hs[i])
    } else {
        None
    }
}

/// `h` with its id replaced by `id`.
pub open spec fn with_id(h: HostEntryView, id: Seq<char>) -> HostEntryView {
    HostEntryView { id, ..h }
}

/// An entry saved under a fresh id keeps every other field as given: name,
/// host, port, user, method, key path, tags, notes and health settings.
pub proof fn law_fresh_id_keeps_fields(h: HostEntryView, id: Seq<char>)
    ensures
        with_id(h, id).id == id,
        with_id(h, id).name == h.name,
        with_id(h, id).host == h.host,
        with_id(h, id).port == h.port,
        with_id(h, id).username == h.username,
        with_id(h, id).auth_method == h.auth_method,
        with_id(h, id).key_path == h.key_path,
        with_id(h, id).tags == h.tags,
        with_id(h, id).notes == h.notes,
        with_id(h, id).health_enabled == h.health_enabled,
        with_id(h, id).health_interval_secs == h.health_interval_secs,
{
}

/// Why `h` cannot be saved: a blank name or host, or port 0.
pub open spec fn invalid_reason(h: HostEntryView) -> Option<Seq<char>> {
    if trim(h.name).len() == 0 || trim(h.host).len() == 0 {
        Some("name and host are required"@)
    } else if h.port == 0 {
        Some("port must be between 1 and 65535"@)
    } else {
        None
    }
}

/// `hs` after saving `h` under the id `id` it was given: an entry with a new
/// id goes last, an entry with a known id replaces the first with that id.
pub open spec fn saved_list(hs: Seq<HostEntryView>, h: HostEntryView) -> Seq<HostEntryView> {
    let i = first_with_id(hs, h.id);
    if i < hs.len() {
        hs.update(i, h)
    } else {
        hs.push(h)
    }
}

/// `hs` without the entries with id `id`.
pub open spec fn hosts_without(hs: Seq<HostEntryView>, id: Seq<char>) -> Seq<HostEntryView> {
    hs.filter(|h: HostEntryView| h.id != id)
}

pub proof fn lemma_first_with_id_bound(hs: Seq<HostEntryView>, id: Seq<char>)
    ensures
        0 <= first_with_id(hs, id) <= hs.len(),
        first_with_id(hs, id) < hs.len() ==> hs[first_with_id(hs, id)].id == id,
        forall|j: int| 0 <= j < first_with_id(hs, id) ==> #[trigger] hs[j].id != id,
    decreases hs.len(),
{
    if hs.len() > 0 {
        lemma_first_with_id_bound(hs.drop_last(), id);
        assert forall|j: int| 0 <= j < first_with_id(hs, id) implies #[trigger] hs[j].id != id by {
            if j < hs.len() - 1 {
                assert(hs.drop_last()[j] == hs[j]);
            }
        }
    }
}

pub proof fn lemma_first_with_id_prefix(hs: Seq<HostEntryView>, j: int, id: Seq<char>)
    requires
        0 <= j <= hs.len(),
        first_with_id(hs.take(j), id) < j,
    ensures
        first_with_id(hs, id) == first_with_id(hs.take(j), id),
    decreases hs.len() - j,
{
    if j < hs.len() {
        assert(hs.take(j + 1).drop_last() =~= hs.take(j));
        lemma_first_with_id_prefix(hs, j + 1, id);
    } else {
        assert(hs.take(j) =~= hs);
    }
}

pub proof fn lemma_first_with_id_none(hs: Seq<HostEntryView>, id: Seq<char>)
    requires
        forall|j: int| 0 <= j < hs.len() ==> #[trigger] hs[j].id != id,
    ensures
        first_with_id(hs, id) == hs.len(),
    decreases hs.len(),
{
    if hs.len() > 0 {
        assert forall|j: int| 0 <= j < hs.drop_last().len() implies #[trigger] hs.drop_last()[j].id
            != id by {
            assert(hs.drop_last()[j] == hs[j]);
        }
        lemma_first_with_id_none(hs.drop_last(), id);
    }
}

pub proof fn lemma_first_with_id_at(hs: Seq<HostEntryView>, id: Seq<char>, i: int)
    requires
        0 <= i < hs.len(),
        hs[i].id == id,
        forall|j: int| 0 <= j < i ==> #[trigger] hs[j].id != id,
    ensures
        first_with_id(hs, id) == i,
    decreases hs.len(),
{
    if i < hs.len() - 1 {
        assert forall|j: int| 0 <= j < i implies #[trigger] hs.drop_last()[j].id != id by {
            assert(hs.drop_last()[j] == hs[j]);
        }
        assert(hs.drop_last()[i] == hs[i]);
        lemma_first_with_id_at(hs.drop_last(), id, i);
    } else {
        assert forall|j: int| 0 <= j < hs.drop_last().len() implies #[trigger] hs.drop_last()[j].id
            != id by {
            assert(hs.drop_last()[j] == hs[j]);
        }
        lemma_first_with_id_none(hs.drop_last(), id);
    }
}

pub proof fn lemma_lookup_push(t: Seq<HostEntryView>, x: HostEntryView, id: Seq<char>)
    ensures
        lookup_host(t.push(x), id) == (if lookup_host(t, id) is Some {
            lookup_host(t, id)
        } else if x.id == id {
            Some(x)
        } else {
            None
        }),
{
    assert(t.push(x).drop_last() =~= t);
    lemma_first_with_id_bound(t, id);
    let i = first_with_id(t, id);
    if i < t.len() {
        assert(t.push(x)[i] == t[i]);
    }
}

pub proof fn lemma_lookup_without(s: Seq<HostEntryView>, id: Seq<char>, id2: Seq<char>)
    ensures
        lookup_host(hosts_without(s, id), id2) == (if id2 == id {
            None
        } else {
            lookup_host(s, id2)
        }),
    decreases s.len(),
{
    reveal(Seq::filter);
    let pred = |h: HostEntryView| h.id != id;
    if s.len() > 0 {
        lemma_lookup_without(s.drop_last(), id, id2);
        assert(s.drop_last().push(s.last()) =~= s);
        lemma_lookup_push(s.drop_last(), s.last(), id2);
        assert(s.filter(pred) == (if pred(s.last()) {
            s.drop_last().filter(pred).push(s.last())
        } else {
            s.drop_last().filter(pred)
        }));
        if pred(s.last()) {
            lemma_lookup_push(s.drop_last().filter(pred), s.last(), id2);
        }
    } else {
        assert(s.filter(pred) =~= s);
    }
}

/// Reading after saving gives the saved entry; the entry of every other id
/// stays as it was. A new entry goes last, which is the same as saving
/// when no entry has its id yet.
pub proof fn law_save_then_get(hs: Seq<HostEntryView>, h: HostEntryView, id2: Seq<char>)
    ensures
        lookup_host(saved_list(hs, h), h.id) == Some(h),
        id2 != h.id ==> lookup_host(saved_list(hs, h), id2) == lookup_host(hs, id2),
        first_with_id(hs, h.id) == hs.len() ==> saved_list(hs, h) == hs.push(h),
{
    lemma_first_with_id_bound(hs, h.id);
    lemma_first_with_id_bound(hs, id2);
    let i = first_with_id(hs, h.id);
    if i < hs.len() {
        let u = hs.update(i, h);
        assert forall|j: int| 0 <= j < i implies #[trigger] u[j].id != h.id by {
            assert(u[j] == hs[j]);
        }
        lemma_first_with_id_at(u, h.id, i);
        if id2 != h.id {
            let k = first_with_id(hs, id2);
            if k < hs.len() {
                assert forall|j: int| 0 <= j < k implies #[trigger] u[j].id != id2 by {
                    if j != i {
                        assert(u[j] == hs[j]);
                    }
                }
                assert(u[k] == hs[k]);
                lemma_first_with_id_at(u, id2, k);
            } else {
                assert forall|j: int| 0 <= j < u.len() implies #[trigger] u[j].id != id2 by {
                    if j != i {
                        assert(u[j] == hs[j]);
                    }
                }
                lemma_first_with_id_none(u, id2);
            }
        }
    } else {
        lemma_lookup_push(hs, h, h.id);
        lemma_lookup_push(hs, h, id2);
    }
}

/// After deleting an id nothing is found under it; the entry of every
/// other id stays as it was.
pub proof fn law_delete_then_get(hs: Seq<HostEntryView>, id: Seq<char>, id2: Seq<char>)
    ensures
        lookup_host(hosts_without(hs, id), id) is None,
        id2 != id ==> lookup_host(hosts_without(hs, id), id2) == lookup_host(hs, id2),
{
    lemma_lookup_without(hs, id, id);
    lemma_lookup_without(hs, id, id2);
}

/// The saved servers.
pub struct HostStore {
    pub hosts: Vec<HostEntry>,
}

impl View for HostStore {
    type V = Seq<HostEntryView>;

    open spec fn view(&self) -> Seq<HostEntryView> {
        host_views(self.hosts@)
    }
}

impl HostStore {
    /// A store holding `hosts`, as read back from disk.
    pub fn from_hosts(hosts: Vec<HostEntry>) -> (s: Self)
        ensures
            s@ == host_views(hosts@),
    {
        HostStore { hosts }
    }

    /// All saved servers, in order.
    pub fn list(&self) -> (r: Vec<HostEntry>)
        ensures
            host_views(r@) == self@,
    {
        let mut r: Vec<HostEntry> = Vec::new();
        let mut i: usize = 0;
        while i < self.hosts.len()
            invariant
                i <= self.hosts.len(),
                host_views(r@) == host_views(self.hosts@).take(i as int),
            decreases self.hosts.len() - i,
        {
            let h = self.hosts[i].clone();
            let ghost before = host_views(r@);
            r.push(h);
            assert(host_views(r@) =~= before.push(self.hosts@[i as int]@));
            assert(host_views(r@) =~= host_views(self.hosts@).take(i + 1));
            i = i + 1;
        }
        assert(host_views(self.hosts@).take(i as int) =~= host_views(self.hosts@));
        r
    }

    /// Index of the first entry with id `id`, or the number of entries.
    fn position(&self, id: &str) -> (i: usize)
        ensures
            i == first_with_id(self@, id@),
    {
        let ghost s = self@;
        let wanted = id.to_owned();
        let mut i: usize = 0;
        while i < self.hosts.len()
            invariant
                i <= self.hosts.len(),
                s == host_views(self.hosts@),
                wanted@ == id@,
                first_with_id(s.take(i as int), id@) == i,
            decreases self.hosts.len() - i,
        {
            assert(s.take(i + 1).drop_last() =~= s.take(i as int));
            assert(s[i as int] == self.hosts@[i as int]@);
            if self.hosts[i].id == wanted {
                proof {
                    lemma_first_with_id_prefix(s, i + 1, id@);
                }
                return i;
            }
            i = i + 1;
        }
        assert(s.take(i as int) =~= s);
        i
    }

    /// The server with id `id`.
    pub fn get(&self, id: &str) -> (r: Result<HostEntry, CoreError>)
        ensures
            match r {
                Ok(h) => lookup_host(self@, id@) == Some(h@),
                Err(e) => lookup_host(self@, id@) is None && (e matches CoreError::HostNotFound(m)
                    && m@ == id@),
            },
    {
        let i = self.position(id);
        if i < self.hosts.len() {
            Ok(self.hosts[i].clone())
        } else {
            Err(CoreError::HostNotFound(id.to_owned()))
        }
    }

    /// Saves `host`: an entry with an empty id gets a fresh id and is added,
    /// an entry with a known id replaces the stored one. Returns the saved
    /// entry. A blank name or host, a zero port and an unknown id are
    /// refused and leave the store as it was.
    pub fn save(&mut self, host: HostEntry) -> (r: Result<HostEntry, CoreError>)
        ensures
            match invalid_reason(host@) {
                Some(reason) => final(self)@ == old(self)@ && (r matches Err(CoreError::Other(m))
                    && m@ == reason),
                None => if host.id@.len() == 0 {
                    r matches Ok(saved) && saved.id@.len() == 36 && saved@ == with_id(host@, saved.id@)
                        && final(self)@ == old(self)@.push(saved@)
                        && saved@.name == host@.name && saved@.host == host@.host
                        && saved@.port == host@.port && saved@.username == host@.username
                        && saved@.auth_method == host@.auth_method
                        && saved@.key_path == host@.key_path && saved@.tags == host@.tags
                        && saved@.notes == host@.notes
                        && saved@.health_enabled == host@.health_enabled
                        && saved@.health_interval_secs == host@.health_interval_secs
                } else if first_with_id(old(self)@, host.id@) < old(self)@.len() {
                    r matches Ok(saved) && saved@ == host@ && final(self)@ == saved_list(old(self)@, host@)
                } else {
                    final(self)@ == old(self)@ && (r matches Err(CoreError::HostNotFound(m)) && m@
                        == host.id@)
                },
            },
    {
        if is_blank(host.name.as_str()) || is_blank(host.host.as_str()) {
            return Err(CoreError::other("name and host are required"));
        }
        if host.port == 0 {
            return Err(CoreError::other("port must be between 1 and 65535"));
        }
        let mut host = host;
        if host.id.as_str().is_empty() {
            let ghost given = host@;
            host.id = new_id();
            assert(host@ == with_id(given, host.id@));
            let saved = host.clone();
            let ghost before = self@;
            self.hosts.push(host);
            assert(self@ =~= before.push(saved@));
            Ok(saved)
        } else {
            let i = self.position(host.id.as_str());
            if i < self.hosts.len() {
                let saved = host.clone();
                let ghost before = self@;
                proof {
                    lemma_first_with_id_bound(before, host.id@);
                }
                self.hosts.set(i, host);
                assert(self@ =~= before.update(i as int, saved@));
                Ok(saved)
            } else {
                Err(CoreError::HostNotFound(host.id))
            }
        }
    }

    /// Deletes every entry with id `id`; fails if there is none.
    pub fn delete(&mut self, id: &str) -> (r: Result<(), CoreError>)
        ensures
            lookup_host(old(self)@, id@) is Some ==> r is Ok && final(self)@ == hosts_without(
                old(self)@,
                id@,
            ),
            lookup_host(old(self)@, id@) is None ==> final(self)@ == old(self)@ && (r matches Err(
                CoreError::HostNotFound(m),
            ) && m@ == id@),
    {
        let ghost s = old(self)@;
        let ghost pred = |h: HostEntryView| h.id != id@;
        let wanted = id.to_owned();
        let mut kept: Vec<HostEntry> = Vec::new();
        let mut removed = false;
        let mut i: usize = 0;
        while i < self.hosts.len()
            invariant
                i <= self.hosts.len(),
                s == host_views(self.hosts@),
                wanted@ == id@,
                pred == (|h: HostEntryView| h.id != id@),
                host_views(kept@) == s.take(i as int).filter(pred),
                removed == (first_with_id(s.take(i as int), id@) < i),
            decreases self.hosts.len() - i,
        {
            assert(s.take(i + 1).drop_last() =~= s.take(i as int));
            assert(s[i as int] == self.hosts@[i as int]@);
            assert(s.take(i + 1).last() == s[i as int]);
            proof {
                reveal(Seq::filter);
                lemma_first_with_id_bound(s.take(i as int), id@);
            }
            assert(s.take(i + 1).filter(pred) == (if pred(s[i as int]) {
                s.take(i as int).filter(pred).push(s[i as int])
            } else {
                s.take(i as int).filter(pred)
            }));
            let ghost before = host_views(kept@);
            if self.hosts[i].id == wanted {
                removed = true;
            } else {
                kept.push(self.hosts[i].clone());
                assert(host_views(kept@) =~= before.push(s[i as int]));
            }
            i = i + 1;
        }
        assert(s.take(i as int) =~= s);
        proof {
            lemma_first_with_id_bound(s, id@);
        }
        if !removed {
            return Err(CoreError::HostNotFound(wanted));
        }
        self.hosts = kept;
        Ok(())
    }
}

} // verus!
