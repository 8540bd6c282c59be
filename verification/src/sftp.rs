//! SFTP browsing and transfers: remote path arithmetic, directory entries,
//! the order of a recursive delete, and the bookkeeping of transfers.

use vstd::prelude::*;
use vstd::string::*;

use crate::error::prefixed;
use crate::model::opt_view;
use crate::text::{chars_of, decimal, decimal_string, string_of, views};

verus! {

/// `s` without its trailing slashes (`str::trim_end_matches('/')`).
pub open spec fn strip_slashes(s: Seq<char>) -> Seq<char>
    decreases s.len(),
{
    if s.len() > 0 && s.last() == '/' {
        strip_slashes(s.drop_last())
    } else {
        s
    }
}

/// The remote path of `name` inside directory `dir`.
pub open spec fn joined_path(dir: Seq<char>, name: Seq<char>) -> Seq<char> {
    if dir == seq!['/'] {
        seq!['/'] + name
    } else {
        strip_slashes(dir) + seq!['/'] + name
    }
}

/// The remote path of `name` inside directory `dir`.
pub fn join_path(dir: &str, name: &str) -> (p: String)
    ensures
        p@ == joined_path(dir@, name@),
{
    proof {
        reveal_strlit("/");
    }
    let v = chars_of(dir);
    if v.len() == 1 && v[0] == '/' {
        assert(dir@ =~= seq!['/']);
        return prefixed("/", name);
    }
    assert(dir@ != seq!['/']);
    let mut e: usize = v.len();
    assert(v@.subrange(0, v.len() as int) =~= v@);
    while e > 0 && v[e - 1] == '/'
        invariant
            e <= v.len(),
            strip_slashes(v@) == strip_slashes(v@.subrange(0, e as int)),
        decreases e,
    {
        assert(v@.subrange(0, e as int).drop_last() =~= v@.subrange(0, e - 1));
        e = e - 1;
    }
    assert(v@.subrange(0, v.len() as int) =~= v@);
    let mut s = string_of(&v, 0, e);
    s.append("/");
    s.append(name);
    s
}

/// The last `/`-separated component of `path` (`path.rsplit('/').next()`).
pub open spec fn last_component(path: Seq<char>) -> Seq<char>
    decreases path.len(),
{
    if path.len() == 0 || path.last() == '/' {
        Seq::empty()
    } else {
        last_component(path.drop_last()).push(path.last())
    }
}

/// The last `/`-separated component of `path`.
pub fn last_component_of(path: &str) -> (c: String)
    ensures
        c@ == last_component(path@),
{
    let v = chars_of(path);
    let mut b: usize = v.len();
    assert(v@.subrange(0, v.len() as int) =~= v@);
    assert(v@.subrange(v.len() as int, v.len() as int) =~= Seq::<char>::empty());
    assert(v@ + Seq::<char>::empty() =~= v@);
    while b > 0 && v[b - 1] != '/'
        invariant
            b <= v.len(),
            last_component(v@) == last_component(v@.subrange(0, b as int)) + v@.subrange(
                b as int,
                v.len() as int,
            ),
        decreases b,
    {
        let ghost pre = v@.subrange(0, b as int);
        assert(pre.drop_last() =~= v@.subrange(0, b - 1));
        assert(v@.subrange(b - 1, v.len() as int) =~= seq![v@[b - 1]] + v@.subrange(
            b as int,
            v.len() as int,
        ));
        assert(last_component(pre) == last_component(pre.drop_last()).push(v@[b - 1]));
        assert(last_component(pre.drop_last()).push(v@[b - 1]) + v@.subrange(b as int, v.len() as int)
            =~= last_component(pre.drop_last()) + v@.subrange(b - 1, v.len() as int));
        b = b - 1;
    }
    assert(v@.subrange(0, v.len() as int) =~= v@);
    assert(v@.subrange(v.len() as int, v.len() as int) =~= Seq::<char>::empty());
    assert(last_component(v@.subrange(0, b as int)) =~= Seq::<char>::empty());
    string_of(&v, b, v.len())
}

/// The job label of a download of `remote`.
pub fn download_label(remote: &str) -> (l: String)
    ensures
        l@ == "Download "@ + last_component(remote@),
{
    prefixed("Download ", last_component_of(remote).as_str())
}

/// The job label of an upload of `local`.
pub fn upload_label(local: &str) -> (l: String)
    ensures
        l@ == "Upload "@ + last_component(local@),
{
    prefixed("Upload ", last_component_of(local).as_str())
}

/// The detail of a finished transfer of `bytes` bytes to `dest`.
pub fn transfer_detail(bytes: u64, dest: &str) -> (d: String)
    ensures
        d@ == decimal(bytes as nat) + " bytes → "@ + dest@,
{
    let mut d = decimal_string(bytes);
    d.append(" bytes → ");
    d.append(dest);
    d
}

/// One entry of a remote directory listing.
#[derive(Debug)]
pub struct FileEntry {
    pub name: String,
    pub path: String,
    pub is_dir: bool,
    pub is_symlink: bool,
    pub size: u64,
    pub modified: Option<u64>,
    pub permissions: Option<String>,
}

/// The listing entry for `name` in directory `dir`, with its own metadata
/// (`is_dir`, `len`, `is_symlink`, `modified`, `permissions`) and, for a
/// symlink, what stat-ing its target gave (`None` when that failed). A
/// symlink shows its target's kind and size, or a plain empty file.
pub fn file_entry(
    dir: &str,
    name: String,
    is_dir: bool,
    len: u64,
    is_symlink: bool,
    target: Option<(bool, u64)>,
    modified: Option<u64>,
    permissions: String,
) -> (e: FileEntry)
    ensures
        e.name == name,
        e.path@ == joined_path(dir@, name@),
        e.is_symlink == is_symlink,
        (e.is_dir, e.size) == (if is_symlink {
            match target {
                Some(t) => t,
                None => (false, 0u64),
            }
        } else {
            (is_dir, len)
        }),
        e.modified == modified,
        e.permissions == Some(permissions),
{
    let (d, s) = if is_symlink {
        match target {
            Some(t) => t,
            None => (false, 0),
        }
    } else {
        (is_dir, len)
    };
    let path = join_path(dir, name.as_str());
    FileEntry { name, path, is_dir: d, is_symlink, size: s, modified, permissions: Some(permissions) }
}

/// The running count of a transfer of `total` bytes.
#[derive(Debug)]
pub struct TransferCounter {
    pub done: u64,
    pub total: u64,
}

impl TransferCounter {
    /// A transfer of `total` bytes, none done.
    pub fn new(total: u64) -> (c: Self)
        ensures
            c.done == 0,
            c.total == total,
    {
        TransferCounter { done: 0, total }
    }

    /// Counts a chunk of `n` bytes; returns the progress `(done, total)`
    /// to report, or `None` when the size is unknown (0).
    pub fn add(&mut self, n: u64) -> (r: Option<(u64, u64)>)
        requires
            old(self).done + n <= u64::MAX,
        ensures
            final(self).done == old(self).done + n,
            final(self).total == old(self).total,
            r == (if old(self).total > 0 {
                Some((final(self).done, final(self).total))
            } else {
                None
            }),
    {
        self.done = self.done + n;
        if self.total > 0 {
            Some((self.done, self.total))
        } else {
            None
        }
    }
}

/// The bytes counted after the chunks `chunks`.
pub open spec fn bytes_of(chunks: Seq<u64>) -> int
    decreases chunks.len(),
{
    if chunks.len() == 0 {
        0
    } else {
        bytes_of(chunks.drop_last()) + chunks.last()
    }
}

proof fn lemma_bytes_take_step(chunks: Seq<u64>, k: int)
    requires
        0 <= k < chunks.len(),
    ensures
        bytes_of(chunks.take(k + 1)) == bytes_of(chunks.take(k)) + chunks[k],
{
    assert(chunks.take(k + 1).drop_last() =~= chunks.take(k));
}

proof fn lemma_bytes_rise(chunks: Seq<u64>, i: int, j: int)
    requires
        forall|k: int| 0 <= k < chunks.len() ==> #[trigger] chunks[k] > 0,
        0 <= i < j <= chunks.len(),
    ensures
        bytes_of(chunks.take(i)) < bytes_of(chunks.take(j)),
    decreases j - i,
{
    lemma_bytes_take_step(chunks, j - 1);
    if i < j - 1 {
        lemma_bytes_rise(chunks, i, j - 1);
    }
}

/// A transfer counted chunk by chunk, each chunk non-empty, of a file of
/// `total` bytes that it reads whole: the progress reported after each
/// chunk (`bytes_of` its prefix, over `total`, as `TransferCounter::add`
/// counts it) rises strictly, stays within `(0, total]`, and ends at
/// `total`.
pub proof fn law_transfer_progress_rises(chunks: Seq<u64>, total: u64, i: int, j: int)
    requires
        forall|k: int| 0 <= k < chunks.len() ==> #[trigger] chunks[k] > 0,
        bytes_of(chunks) == total,
        1 <= i < j <= chunks.len(),
    ensures
        0 < bytes_of(chunks.take(i)) < bytes_of(chunks.take(j)) <= total,
        bytes_of(chunks.take(chunks.len() as int)) == total,
{
    assert(chunks.take(chunks.len() as int) =~= chunks);
    assert(chunks.take(0) =~= Seq::<u64>::empty());
    lemma_bytes_rise(chunks, 0, i);
    lemma_bytes_rise(chunks, i, j);
    if j < chunks.len() {
        lemma_bytes_rise(chunks, j, chunks.len() as int);
    }
}

/// Whether `child` names an entry inside directory `parent`.
pub open spec fn is_child(child: Seq<char>, parent: Seq<char>) -> bool {
    exists|name: Seq<char>| child == #[trigger] joined_path(parent, name)
}

/// Every path of `r` but the last is inside a directory that comes later.
pub open spec fn children_first(r: Seq<Seq<char>>) -> bool {
    forall|k: int| 0 <= k < r.len() - 1 ==> #[trigger] inside_later(r, k)
}

/// `r[k]` is inside a directory that comes later in `r`.
pub open spec fn inside_later(r: Seq<Seq<char>>, k: int) -> bool {
    exists|m: int| k < m < r.len() && #[trigger] is_child(r[k], r[m])
}

pub proof fn lemma_reversed_children_first(dirs: Seq<Seq<char>>, parent: Seq<int>, r: Seq<Seq<char>>)
    requires
        r.len() == dirs.len(),
        parent.len() == dirs.len(),
        forall|k: int| 0 <= k < r.len() ==> #[trigger] r[k] == dirs[r.len() - 1 - k],
        forall|k: int|
            0 < k < dirs.len() ==> 0 <= #[trigger] parent[k] < k && is_child(dirs[k], dirs[parent[k]]),
    ensures
        children_first(r),
{
    let n = r.len();
    assert forall|k: int| 0 <= k < r.len() - 1 implies #[trigger] inside_later(r, k) by {
        let d = n - 1 - k;
        let p = parent[d];
        assert(0 <= p < d);
        assert(r[k] == dirs[d]);
        assert(r[n - 1 - p] == dirs[p]);
        assert(is_child(r[k], r[n - 1 - p]));
    }
}

/// The walk of a recursive delete: directories still to list, and the
/// directories listed so far, in the order they were listed.
pub struct DeleteWalk {
    stack: Vec<String>,
    dirs: Vec<String>,
    /// For each listed directory after the first, the index of the listed
    /// directory it was found in.
    dir_parent: Ghost<Seq<int>>,
    /// For each directory still to list, the index of the listed directory
    /// it was found in (the starting directory has none: -1).
    stack_parent: Ghost<Seq<int>>,
}

impl DeleteWalk {
    /// The walk's bookkeeping is consistent: every directory except the
    /// starting one was found inside a directory listed before it.
    pub closed spec fn wf(&self) -> bool {
        &&& self.dir_parent@.len() == self.dirs@.len()
        &&& self.stack_parent@.len() == self.stack@.len()
        &&& forall|k: int|
            0 < k < self.dirs@.len() ==> 0 <= #[trigger] self.dir_parent@[k] < k && is_child(
                self.dirs@[k]@,
                self.dirs@[self.dir_parent@[k]]@,
            )
        &&& forall|j: int|
            0 <= j < self.stack@.len() ==> (#[trigger] self.stack_parent@[j] == -1 && self.dirs@.len()
                == 0 && self.stack@.len() == 1) || (0 <= self.stack_parent@[j] < self.dirs@.len()
                && is_child(self.stack@[j]@, self.dirs@[self.stack_parent@[j]]@))
    }

    /// The directories listed so far, in order.
    pub closed spec fn listed(&self) -> Seq<Seq<char>> {
        views(self.dirs@)
    }

    /// The directories still to list; the last one is listed next.
    pub closed spec fn pending(&self) -> Seq<Seq<char>> {
        views(self.stack@)
    }

    /// A walk of the tree under `path`.
    pub fn new(path: String) -> (w: Self)
        ensures
            w.wf(),
            w.listed() == Seq::<Seq<char>>::empty(),
            w.pending() == seq![path@],
    {
        let mut stack: Vec<String> = Vec::new();
        stack.push(path);
        let dp: Ghost<Seq<int>> = Ghost(Seq::empty());
        let sp: Ghost<Seq<int>> = Ghost(Seq::<int>::empty().push(-1int));
        let w = DeleteWalk { stack, dirs: Vec::new(), dir_parent: dp, stack_parent: sp };
        assert(w.listed() =~= Seq::<Seq<char>>::empty());
        assert(w.pending() =~= seq![w.stack@[0]@]);
        w
    }

    /// The next directory to list (it is recorded as listed), or `None`
    /// when the walk is over.
    pub fn next_dir(&mut self) -> (r: Option<String>)
        requires
            old(self).wf(),
        ensures
            final(self).wf(),
            r is None <==> old(self).pending().len() == 0,
            match r {
                Some(d) => d@ == old(self).pending().last() && final(self).pending() == old(
                    self,
                ).pending().drop_last() && final(self).listed() == old(self).listed().push(d@),
                None => final(self).pending() == old(self).pending() && final(self).listed() == old(
                    self,
                ).listed(),
            },
    {
        let ghost before = self.pending();
        match self.stack.pop() {
            None => None,
            Some(d) => {
                let ghost sp = self.stack_parent@;
                let ghost p = sp.last();
                let ghost old_dirs = self.dirs@;
                proof {
                    assert(p == -1 ==> old_dirs.len() == 0);
                }
                let r = d.clone();
                self.dirs.push(d);
                self.stack_parent = Ghost(sp.drop_last());
                self.dir_parent = Ghost(self.dir_parent@.push(p));
                assert(self.listed() =~= old(self).listed().push(r@));
                assert(self.pending() =~= before.drop_last());
                assert forall|j: int| 0 <= j < self.stack@.len() implies (#[trigger] self.stack_parent@[j]
                    == -1 && self.dirs@.len() == 0 && self.stack@.len() == 1) || (0
                    <= self.stack_parent@[j] < self.dirs@.len() && is_child(
                    self.stack@[j]@,
                    self.dirs@[self.stack_parent@[j]]@,
                )) by {
                    assert(self.stack@[j] == old(self).stack@[j]);
                    assert(self.stack_parent@[j] == sp[j]);
                    if sp[j] >= 0 {
                        assert(self.dirs@[sp[j]] == old_dirs[sp[j]]);
                    }
                }
                assert forall|k: int| 0 < k < self.dirs@.len() implies 0 <= #[trigger] self.dir_parent@[k]
                    < k && is_child(self.dirs@[k]@, self.dirs@[self.dir_parent@[k]]@) by {
                    if k < old_dirs.len() {
                        assert(self.dirs@[k] == old_dirs[k]);
                        assert(self.dirs@[self.dir_parent@[k]] == old_dirs[self.dir_parent@[k]]);
                    } else {
                        assert(self.dirs@[p] == old_dirs[p]);
                    }
                }
                Some(r)
            },
        }
    }

    /// Handles entry `name` of the directory `dir` just listed: a directory
    /// is queued for listing, a file is returned to be removed.
    pub fn entry(&mut self, dir: &str, name: &str, is_dir: bool) -> (r: Option<String>)
        requires
            old(self).wf(),
            old(self).listed().len() > 0,
            old(self).listed().last() == dir@,
        ensures
            final(self).wf(),
            final(self).listed() == old(self).listed(),
            is_dir ==> final(self).pending() == old(self).pending().push(joined_path(dir@, name@)),
            !is_dir ==> final(self).pending() == old(self).pending(),
            is_dir ==> r is None,
            !is_dir ==> (r matches Some(f) && f@ == joined_path(dir@, name@)),
    {
        let child = join_path(dir, name);
        if is_dir {
            let ghost idx = self.dirs@.len() - 1;
            assert(self.dirs@[idx]@ == dir@);
            assert(is_child(child@, self.dirs@[idx]@));
            let ghost before = self.pending();
            let ghost cv = child@;
            self.stack.push(child);
            self.stack_parent = Ghost(self.stack_parent@.push(idx));
            assert(self.pending() =~= before.push(cv));
            assert forall|j: int| 0 <= j < self.stack@.len() implies (#[trigger] self.stack_parent@[j]
                == -1 && self.dirs@.len() == 0 && self.stack@.len() == 1) || (0
                <= self.stack_parent@[j] < self.dirs@.len() && is_child(
                self.stack@[j]@,
                self.dirs@[self.stack_parent@[j]]@,
            )) by {
                if j < self.stack@.len() - 1 {
                    assert(self.stack@[j] == old(self).stack@[j]);
                    assert(self.stack_parent@[j] == old(self).stack_parent@[j]);
                }
            }
            None
        } else {
            Some(child)
        }
    }

    /// The directories to remove once every file is gone: the listed ones,
    /// last listed first, so that each goes before the directory it was
    /// found in.
    pub fn removal_order(&self) -> (r: Vec<String>)
        requires
            self.wf(),
        ensures
            r@.len() == self.listed().len(),
            forall|k: int| 0 <= k < r@.len() ==> #[trigger] r@[k]@ == self.listed()[self.listed().len() - 1 - k],
            children_first(views(r@)),
    {
        let n = self.dirs.len();
        let mut r: Vec<String> = Vec::new();
        let mut i: usize = 0;
        while i < n
            invariant
                n == self.dirs.len(),
                i <= n,
                r@.len() == i,
                forall|k: int| 0 <= k < i ==> #[trigger] r@[k] == self.dirs@[n - 1 - k],
            decreases n - i,
        {
            r.push(self.dirs[n - 1 - i].clone());
            i = i + 1;
        }
        let ghost rv = views(r@);
        proof {
            assert forall|k: int| 0 <= k < rv.len() implies #[trigger] rv[k] == self.listed()[rv.len() - 1 - k] by {
                assert(r@[k] == self.dirs@[n - 1 - k]);
            }
            lemma_reversed_children_first(self.listed(), self.dir_parent@, rv);
        }
        r
    }
}

} // verus!
