//! Supervision of the external static-site generator: a registry of running
//! preview servers keyed by project root, the decision logic of start/stop/
//! status, and the interpretation of a finished one-shot command. Spawning
//! and killing processes is I/O and stays with the caller; the registry and
//! every decision about it are verified here.

use vstd::prelude::*;
use vstd::string::StringExecFns;

use crate::error::Error;
use crate::text::str_eq;

verus! {

/// A Hexo project, identified by its root path (forward-slash string).
pub struct HexoProject {
    pub path: String,
}

/// The registry of running preview servers: project root -> process handle
/// token. At most one entry per key, insertion order kept. The caller owns
/// the actual child processes and finds them by the stored token.
pub struct ServerRegistry {
    entries: Vec<(String, u64)>,
}

/// The captured outcome of a finished one-shot generator command. A non-zero
/// exit is data here, never an error.
pub struct CommandOutput {
    pub success: bool,
    pub stdout: String,
    pub stderr: String,
    pub exit_code: i32,
}

/// Whether a key is present.
pub open spec fn reg_contains(s: Seq<(Seq<char>, u64)>, k: Seq<char>) -> bool {
    exists|i: int| 0 <= i < s.len() && s[i].0 == k
}

/// The handle stored under a present key.
pub open spec fn reg_lookup(s: Seq<(Seq<char>, u64)>, k: Seq<char>) -> u64 {
    s[choose|i: int| 0 <= i < s.len() && s[i].0 == k].1
}

/// Keys are pairwise distinct.
pub open spec fn reg_unique(s: Seq<(Seq<char>, u64)>) -> bool {
    forall|i: int, j: int| 0 <= i < j < s.len() ==> (#[trigger] s[i]).0 != (#[trigger] s[j]).0
}

/// The registry without the entry of key `k`.
pub open spec fn reg_remove(s: Seq<(Seq<char>, u64)>, k: Seq<char>) -> Seq<(Seq<char>, u64)> {
    s.filter(|e: (Seq<char>, u64)| e.0 != k)
}

impl View for ServerRegistry {
    type V = Seq<(Seq<char>, u64)>;

    closed spec fn view(&self) -> Seq<(Seq<char>, u64)> {
        self.entries.deep_view()
    }
}

impl ServerRegistry {
    /// The registry's invariant: no key twice.
    pub open spec fn wf(&self) -> bool {
        reg_unique(self@)
    }

    /// An empty registry.
    pub fn new() -> (r: ServerRegistry)
        ensures
            r.wf(),
            r@ == Seq::<(Seq<char>, u64)>::empty(),
    {
        let r = ServerRegistry { entries: Vec::new() };
        assert(r@ =~= Seq::<(Seq<char>, u64)>::empty());
        r
    }

    /// Membership test for a project root.
    pub fn contains_key(&self, key: &str) -> (r: bool)
        ensures
            r == reg_contains(self@, key@),
    {
        let mut i: usize = 0;
        while i < self.entries.len()
            invariant
                i <= self@.len(),
                self@.len() == self.entries@.len(),
                forall|j: int| 0 <= j < i ==> (#[trigger] self@[j]).0 != key@,
            decreases self@.len() - i,
        {
            assert(self@[i as int].0 == self.entries@[i as int].0@);
            if str_eq(self.entries[i].0.as_str(), key) {
                return true;
            }
            i = i + 1;
        }
        false
    }

    /// Atomic insert-if-absent: the one operation that closes the race
    /// between checking for a running server and registering a new one. On
    /// success the key now maps to `handle`; when the key is present nothing
    /// changes and the present handle is untouched.
    pub fn try_insert(&mut self, key: &str, handle: u64) -> (r: Result<(), Error>)
        requires
            old(self).wf(),
        ensures
            final(self).wf(),
            match r {
                Ok(()) => !reg_contains(old(self)@, key@) && final(self)@ == old(self)@.push(
                    (key@, handle),
                ),
                Err(e) => reg_contains(old(self)@, key@) && final(self)@ == old(self)@ && (
                e matches Error::AlreadyRunning),
            },
    {
        if self.contains_key(key) {
            return Err(Error::AlreadyRunning);
        }
        let owned = str_owned(key);
        self.entries.push((owned, handle));
        proof {
            assert(self@ =~= old(self)@.push((key@, handle)));
            assert forall|i: int, j: int| 0 <= i < j < self@.len() implies (
            #[trigger] self@[i]).0 != (#[trigger] self@[j]).0 by {
                if j == self@.len() - 1 {
                    assert(self@[j].0 == key@);
                    assert(!reg_contains(old(self)@, key@));
                    assert(self@[i] == old(self)@[i]);
                }
            }
        }
        Ok(())
    }

    /// Remove the entry of `key` and hand its handle back; `ServerNotFound`
    /// when no entry exists. The entry leaves the registry in every case.
    pub fn take(&mut self, key: &str) -> (r: Result<u64, Error>)
        requires
            old(self).wf(),
        ensures
            final(self).wf(),
            match r {
                Ok(h) => reg_contains(old(self)@, key@) && h == reg_lookup(old(self)@, key@)
                    && final(self)@ == reg_remove(old(self)@, key@),
                Err(e) => !reg_contains(old(self)@, key@) && final(self)@ == old(self)@ && (
                e matches Error::ServerNotFound),
            },
    {
        let ghost orig = old(self)@;
        assert(self@ == orig);
        let mut i: usize = 0;
        while i < self.entries.len()
            invariant
                old(self)@ == orig,
                self@ == orig,
                self.wf(),
                i <= orig.len(),
                orig.len() == self.entries@.len(),
                forall|j: int| 0 <= j < i ==> (#[trigger] orig[j]).0 != key@,
            decreases orig.len() - i,
        {
            assert(self@[i as int].0 == self.entries@[i as int].0@);
            assert(self@[i as int].1 == self.entries@[i as int].1);
            if str_eq(self.entries[i].0.as_str(), key) {
                let (_, h) = self.entries.remove(i);
                proof {
                    assert(h == orig[i as int].1);
                    assert(orig[i as int].0 == key@);
                    assert(reg_contains(orig, key@));
                    lemma_reg_remove_at(orig, i as int, key@);
                    assert(self@ =~~= orig.remove(i as int));
                    assert(reg_lookup(orig, key@) == orig[i as int].1) by {
                        let w = choose|w: int| 0 <= w < orig.len() && orig[w].0 == key@;
                        if w != i {
                            assert(orig[w].0 != orig[i as int].0);
                        }
                    }
                    lemma_reg_unique_remove(orig, i as int);
                }
                return Ok(h);
            }
            i = i + 1;
        }
        Err(Error::ServerNotFound)
    }
}

/// Removing the one entry with key `k` from a registry with unique keys is
/// the same as filtering that key out.
proof fn lemma_reg_remove_at(s: Seq<(Seq<char>, u64)>, i: int, k: Seq<char>)
    requires
        reg_unique(s),
        0 <= i < s.len(),
        s[i].0 == k,
    ensures
        s.remove(i) == reg_remove(s, k),
    decreases s.len(),
{
    reveal(Seq::filter);
    if s.len() == 0 {
    } else {
        let last = s.last();
        let front = s.drop_last();
        if i == s.len() - 1 {
            assert(forall|j: int| 0 <= j < front.len() ==> (#[trigger] front[j]) == s[j]);
            lemma_reg_filter_absent(front, k);
            assert(s.remove(i) =~= front);
            assert(reg_remove(s, k) =~= front);
        } else {
            assert(reg_unique(front)) by {
                assert(forall|j: int| 0 <= j < front.len() ==> (#[trigger] front[j]) == s[j]);
            }
            lemma_reg_remove_at(front, i, k);
            assert(last.0 != k);
            assert(reg_remove(s, k) =~= reg_remove(front, k).push(last));
            assert(s.remove(i) =~= front.remove(i).push(last));
        }
    }
}

/// Filtering out an absent key changes nothing.
proof fn lemma_reg_filter_absent(s: Seq<(Seq<char>, u64)>, k: Seq<char>)
    requires
        !reg_contains(s, k),
    ensures
        reg_remove(s, k) == s,
    decreases s.len(),
{
    reveal(Seq::filter);
    if s.len() == 0 {
        assert(reg_remove(s, k) =~= s);
    } else {
        let front = s.drop_last();
        assert(!reg_contains(front, k)) by {
            assert(forall|j: int| 0 <= j < front.len() ==> (#[trigger] front[j]) == s[j]);
        }
        lemma_reg_filter_absent(front, k);
        assert(s.last().0 != k);
        assert(reg_remove(s, k) =~= front.push(s.last()));
        assert(front.push(s.last()) =~= s);
    }
}

/// Removing an element keeps keys unique.
proof fn lemma_reg_unique_remove(s: Seq<(Seq<char>, u64)>, i: int)
    requires
        reg_unique(s),
        0 <= i < s.len(),
    ensures
        reg_unique(s.remove(i)),
{
    let r = s.remove(i);
    assert forall|a: int, b: int| 0 <= a < b < r.len() implies (#[trigger] r[a]).0 != (
    #[trigger] r[b]).0 by {
        let a0 = if a < i {
            a
        } else {
            a + 1
        };
        let b0 = if b < i {
            b
        } else {
            b + 1
        };
        assert(r[a] == s[a0] && r[b] == s[b0]);
    }
}

/// Owned copy of a string slice, by way of `str::to_owned` of std.
fn str_owned(s: &str) -> (r: String)
    ensures
        r@ == s@,
{
    s.to_owned()
}

impl HexoProject {
    /// A project handle for the given root path.
    pub fn new(path: String) -> (r: HexoProject)
        ensures
            r.path@ == path@,
    {
        HexoProject { path }
    }

    /// Decide whether the root looks like a generator project. The caller
    /// probes the filesystem and reports whether `_config.yml` exists and
    /// whether `source/` is a directory; the verdict and its error wording
    /// are decided here, the configuration probe first.
    pub fn validate(&self, config_exists: bool, source_is_dir: bool) -> (r: Result<bool, Error>)
        ensures
            match r {
                Ok(b) => b && config_exists && source_is_dir,
                Err(e) => !(config_exists && source_is_dir) && (e matches Error::Io(m) && m@ == (
                if !config_exists {
                    "_config.yml not found"@
                } else {
                    "source/ directory not found"@
                })),
            },
    {
        if !config_exists {
            return Err(Error::Io(str_owned("_config.yml not found")));
        }
        if !source_is_dir {
            return Err(Error::Io(str_owned("source/ directory not found")));
        }
        Ok(true)
    }

    /// The posts directory of the project.
    pub fn get_posts_dir(&self) -> (r: String)
        ensures
            r@ == self.path@ + "/source/_posts"@,
    {
        concat_path(&self.path, "/source/_posts")
    }

    /// The pages directory of the project.
    pub fn get_pages_dir(&self) -> (r: String)
        ensures
            r@ == self.path@ + "/source"@,
    {
        concat_path(&self.path, "/source")
    }

    /// The images directory of the project.
    pub fn get_images_dir(&self) -> (r: String)
        ensures
            r@ == self.path@ + "/source/images"@,
    {
        concat_path(&self.path, "/source/images")
    }

    /// Register a freshly spawned preview server under this project's root:
    /// the atomic insert-if-absent of the supervisor. `Ok` returns the root
    /// as the server identifier; `AlreadyRunning` leaves the registry
    /// unchanged, and the caller must then discard the spawned process.
    pub fn start_server(&self, registry: &mut ServerRegistry, handle: u64) -> (r: Result<
        String,
        Error,
    >)
        requires
            old(registry).wf(),
        ensures
            final(registry).wf(),
            match r {
                Ok(id) => id@ == self.path@ && !reg_contains(old(registry)@, self.path@)
                    && final(registry)@ == old(registry)@.push((self.path@, handle)),
                Err(e) => reg_contains(old(registry)@, self.path@)
                    && final(registry)@ == old(registry)@ && (e matches Error::AlreadyRunning),
            },
    {
        match registry.try_insert(self.path.as_str(), handle) {
            Ok(()) => Ok(str_owned(self.path.as_str())),
            Err(e) => Err(e),
        }
    }

    /// Deregister the server of `server_id` and hand its process handle to
    /// the caller for termination. The entry leaves the registry even when
    /// the subsequent kill fails, as the supervisor's contract says.
    pub fn stop_server(registry: &mut ServerRegistry, server_id: &str) -> (r: Result<u64, Error>)
        requires
            old(registry).wf(),
        ensures
            final(registry).wf(),
            match r {
                Ok(h) => reg_contains(old(registry)@, server_id@) && h == reg_lookup(
                    old(registry)@,
                    server_id@,
                ) && final(registry)@ == reg_remove(old(registry)@, server_id@),
                Err(e) => !reg_contains(old(registry)@, server_id@)
                    && final(registry)@ == old(registry)@ && (e matches Error::ServerNotFound),
            },
    {
        registry.take(server_id)
    }

    /// Whether a preview server is registered for this project's root.
    pub fn is_server_running(&self, registry: &ServerRegistry) -> (r: bool)
        ensures
            r == reg_contains(registry@, self.path@),
    {
        registry.contains_key(self.path.as_str())
    }
}

impl CommandOutput {
    /// Interpret a finished one-shot command: `success` is a zero exit
    /// status, a missing exit code (termination by signal) reads as -1, and
    /// the captured streams pass through unchanged.
    pub fn from_status(code: Option<i32>, stdout: String, stderr: String) -> (r: CommandOutput)
        ensures
            r.success == (code == Some(0i32)),
            r.exit_code == match code {
                Some(c) => c,
                None => -1i32,
            },
            r.stdout@ == stdout@,
            r.stderr@ == stderr@,
    {
        let (success, exit_code) = match code {
            Some(c) => (c == 0, c),
            None => (false, -1),
        };
        CommandOutput { success, stdout, stderr, exit_code }
    }
}

/// A project root with a path suffix appended.
fn concat_path(base: &String, suffix: &str) -> (r: String)
    ensures
        r@ == base@ + suffix@,
{
    let mut r = str_owned(base.as_str());
    r.append(suffix);
    r
}

/// Starting, then starting again: the second call reports `AlreadyRunning`
/// and the registry still holds exactly the first server.
pub proof fn lemma_start_twice(reg: Seq<(Seq<char>, u64)>, root: Seq<char>, handle: u64)
    requires
        !reg_contains(reg, root),
    ensures
        reg_contains(reg.push((root, handle)), root),
{
    let after = reg.push((root, handle));
    assert(after[after.len() - 1].0 == root);
}

/// A server is absent before `start_server`, present right after it, and
/// absent again after a successful `stop_server` of the same root.
pub proof fn lemma_start_stop_cycle(reg: Seq<(Seq<char>, u64)>, root: Seq<char>, handle: u64)
    requires
        reg_unique(reg),
        !reg_contains(reg, root),
    ensures
        reg_contains(reg.push((root, handle)), root),
        !reg_contains(reg_remove(reg.push((root, handle)), root), root),
        reg_remove(reg.push((root, handle)), root) == reg,
    decreases reg.len(),
{
    let after = reg.push((root, handle));
    assert(after[after.len() - 1].0 == root);
    let removed = reg_remove(after, root);
    reveal(Seq::filter);
    assert(after.drop_last() =~= reg);
    lemma_reg_filter_absent(reg, root);
    assert(removed =~= reg);
    assert forall|i: int| 0 <= i < removed.len() implies (#[trigger] removed[i]).0 != root by {}
}

} // verus!
