//! Plain data shared by the stores, the registry and the UI shell.

use vstd::prelude::*;

verus! {

/// How a host authenticates.
#[derive(Debug, Clone, Copy, PartialEq, Eq, Structural)]
pub enum AuthMethod {
    Password,
    Key,
    Agent,
}

/// One saved server.
#[derive(Debug)]
pub struct HostEntry {
    pub id: String,
    pub name: String,
    pub host: String,
    pub port: u16,
    pub username: String,
    pub auth_method: AuthMethod,
    pub key_path: Option<String>,
    pub tags: Vec<String>,
    pub notes: Option<String>,
    pub health_enabled: bool,
    pub health_interval_secs: u64,
}

/// The contents of an optional string.
pub open spec fn opt_view(o: Option<String>) -> Option<Seq<char>> {
    match o {
        Some(s) => Some(s@),
        None => None,
    }
}

/// What a `HostEntry` holds, as plain values.
pub struct HostEntryView {
    pub id: Seq<char>,
    pub name: Seq<char>,
    pub host: Seq<char>,
    pub port: u16,
    pub username: Seq<char>,
    pub auth_method: AuthMethod,
    pub key_path: Option<Seq<char>>,
    pub tags: Seq<Seq<char>>,
    pub notes: Option<Seq<char>>,
    pub health_enabled: bool,
    pub health_interval_secs: u64,
}

impl View for HostEntry {
    type V = HostEntryView;

    open spec fn view(&self) -> HostEntryView {
        HostEntryView {
            id: self.id@,
            name: self.name@,
            host: self.host@,
            port: self.port,
            username: self.username@,
            auth_method: self.auth_method,
            key_path: opt_view(self.key_path),
            tags: self.tags@.map_values(|t: String| t@),
            notes: opt_view(self.notes),
            health_enabled: self.health_enabled,
            health_interval_secs: self.health_interval_secs,
        }
    }
}

/// A copy of an optional string.
pub fn copy_opt_string(o: &Option<String>) -> (r: Option<String>)
    ensures
        r == *o,
{
    match o {
        Some(s) => Some(s.clone()),
        None => None,
    }
}

/// A copy of a vector of strings.
pub fn copy_strings(v: &Vec<String>) -> (r: Vec<String>)
    ensures
        r@ == v@,
{
    let mut r: Vec<String> = Vec::new();
    let mut i: usize = 0;
    while i < v.len()
        invariant
            i <= v.len(),
            r@ == v@.subrange(0, i as int),
        decreases v.len() - i,
    {
        r.push(v[i].clone());
        i = i + 1;
    }
    assert(r@ =~= v@);
    r
}

impl Clone for HostEntry {
    fn clone(&self) -> (r: Self)
        ensures
            r@ == self@,
    {
        let tags = copy_strings(&self.tags);
        assert(tags@.map_values(|t: String| t@) =~= self.tags@.map_values(|t: String| t@));
        HostEntry {
            id: self.id.clone(),
            name: self.name.clone(),
            host: self.host.clone(),
            port: self.port,
            username: self.username.clone(),
            auth_method: self.auth_method,
            key_path: copy_opt_string(&self.key_path),
            tags,
            notes: copy_opt_string(&self.notes),
            health_enabled: self.health_enabled,
            health_interval_secs: self.health_interval_secs,
        }
    }
}

/// An open SSH session, as the UI sees it.
#[derive(Debug)]
pub struct SessionInfo {
    pub id: String,
    pub host_id: String,
    pub host_name: String,
    pub connected_at: u64,
}

/// What a `SessionInfo` holds, as plain values.
pub struct SessionInfoView {
    pub id: Seq<char>,
    pub host_id: Seq<char>,
    pub host_name: Seq<char>,
    pub connected_at: u64,
}

impl View for SessionInfo {
    type V = SessionInfoView;

    open spec fn view(&self) -> SessionInfoView {
        SessionInfoView {
            id: self.id@,
            host_id: self.host_id@,
            host_name: self.host_name@,
            connected_at: self.connected_at,
        }
    }
}

impl Clone for SessionInfo {
    fn clone(&self) -> (r: Self)
        ensures
            r@ == self@,
    {
        SessionInfo {
            id: self.id.clone(),
            host_id: self.host_id.clone(),
            host_name: self.host_name.clone(),
            connected_at: self.connected_at,
        }
    }
}

} // verus!
