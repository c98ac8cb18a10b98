//! Where the game's files lie in an installation directory, and the search for one.
//!
//! Paths are handled as text with `/` as separator, the way `Path::join` composes them on Linux.
//! What the file system holds is looked up by the caller and handed in.

use vstd::prelude::*;
use vstd::string::StringExecFns;
use crate::text::{
    extend_chars, slice_range, str_chars, string_from_chars, trim, trim_ws,
};

verus! {

/// `base.join(rel)`: `rel` itself when it is absolute, otherwise `rel` appended to `base` with a
/// `/` between them unless `base` is empty or already ends with one.
pub open spec fn join_path_spec(base: Seq<char>, rel: Seq<char>) -> Seq<char> {
    if rel.len() > 0 && rel[0] == '/' {
        rel
    } else if base.len() > 0 && base.last() != '/' {
        base + seq!['/'] + rel
    } else {
        base + rel
    }
}

/// `Path::new(base).join(rel)` as text.
pub fn join_path(base: &str, rel: &str) -> (r: String)
    ensures
        r@ == join_path_spec(base@, rel@),
{
    let b = str_chars(base);
    let rl = str_chars(rel);
    if rl.len() > 0 && rl[0] == '/' {
        return string_from_chars(rl.as_slice());
    }
    let mut out = b.clone();
    if b.len() > 0 && b[b.len() - 1] != '/' {
        out.push('/');
    }
    extend_chars(&mut out, rl.as_slice());
    proof {
        if b@.len() > 0 && b@.last() != '/' {
            assert(out@ =~= base@ + seq!['/'] + rel@);
        } else {
            assert(out@ =~= base@ + rel@);
        }
    }
    string_from_chars(out.as_slice())
}

/// Path of `GfxEngine.dll` in an installation.
pub fn get_dll_path(game_path: &str) -> (r: String)
    ensures
        r@ == join_path_spec(game_path@, "Exe/GfxEngine.dll"@),
{
    join_path(game_path, "Exe/GfxEngine.dll")
}

/// Path of `GameSettings.cfg` in an installation.
pub fn get_config_path(game_path: &str) -> (r: String)
    ensures
        r@ == join_path_spec(game_path@, "Config/GameSettings.cfg"@),
{
    join_path(game_path, "Config/GameSettings.cfg")
}

/// Path of `S4.exe` in an installation.
pub fn get_exe_path(game_path: &str) -> (r: String)
    ensures
        r@ == join_path_spec(game_path@, "S4.exe"@),
{
    join_path(game_path, "S4.exe")
}

/// The files an installation must hold, relative to its directory.
pub open spec fn required_files() -> Seq<Seq<char>> {
    seq!["S4.exe"@, "Config/GameSettings.cfg"@, "Exe/GfxEngine.dll"@]
}

/// The paths of the required files in an installation, in the order of [`required_files`].
pub fn required_file_paths(game_path: &str) -> (r: Vec<String>)
    ensures
        r@.len() == 3,
        forall|i: int| 0 <= i < 3 ==> (#[trigger] r@[i])@ == join_path_spec(game_path@, required_files()[i]),
{
    let r = vec![get_exe_path(game_path), get_config_path(game_path), get_dll_path(game_path)];
    r
}

/// Whether an installation is complete, given whether each required file exists (in the order
/// of [`required_files`]).
pub fn is_valid_game_directory(required_present: &[bool]) -> (r: bool)
    requires
        required_present@.len() == 3,
    ensures
        r == (forall|i: int| 0 <= i < 3 ==> #[trigger] required_present@[i]),
{
    required_present[0] && required_present[1] && required_present[2]
}

/// What the file system says of a candidate installation directory.
pub struct DirectoryFacts {
    pub exists: bool,
    pub is_dir: bool,
    /// Whether each required file exists, in the order of [`required_files`].
    pub required_present: Vec<bool>,
}

/// Facts read from one state of the file system: a directory counts as a directory only if it
/// exists, and a file can be found in it only if it exists and is a directory.
pub open spec fn facts_consistent(f: &DirectoryFacts) -> bool {
    &&& f.is_dir ==> f.exists
    &&& (exists|i: int| 0 <= i < f.required_present@.len() && #[trigger] f.required_present@[i])
        ==> f.exists && f.is_dir
}

/// Why a directory is not an installation.
#[derive(Debug, PartialEq, Eq)]
pub enum GameDirError {
    NotFound(String),
    NotADirectory(String),
    MissingFile(String),
}

impl GameDirError {
    /// The text the user is shown.
    pub fn message(&self) -> (r: String)
        ensures
            r@ == match self {
                GameDirError::NotFound(p) => "Game directory does not exist: "@ + p@,
                GameDirError::NotADirectory(p) => "Path is not a directory: "@ + p@,
                GameDirError::MissingFile(p) => "Required file not found: "@ + p@,
            },
    {
        match self {
            GameDirError::NotFound(p) => {
                let mut s = String::from_str("Game directory does not exist: ");
                s.append(p.as_str());
                s
            },
            GameDirError::NotADirectory(p) => {
                let mut s = String::from_str("Path is not a directory: ");
                s.append(p.as_str());
                s
            },
            GameDirError::MissingFile(p) => {
                let mut s = String::from_str("Required file not found: ");
                s.append(p.as_str());
                s
            },
        }
    }
}

/// The verdict on a candidate installation: it must exist, be a directory, and hold every
/// required file; the first check that fails is reported, and for a missing file the first
/// missing one in the order of [`required_files`]. On facts read from one state of the file
/// system, it succeeds exactly when [`is_valid_game_directory`] holds of the same facts.
pub fn validate_game_directory(game_path: &str, facts: &DirectoryFacts) -> (r: Result<
    (),
    GameDirError,
>)
    requires
        facts.required_present@.len() == 3,
    ensures
        !facts.exists ==> (r matches Err(GameDirError::NotFound(p)) && p@ == game_path@),
        facts.exists && !facts.is_dir ==> (r matches Err(GameDirError::NotADirectory(p)) && p@
            == game_path@),
        facts.exists && facts.is_dir ==> match r {
            Ok(()) => forall|i: int| 0 <= i < 3 ==> #[trigger] facts.required_present@[i],
            Err(GameDirError::MissingFile(p)) => exists|i: int|
                0 <= i < 3 && !facts.required_present@[i] && (forall|j: int|
                    0 <= j < i ==> #[trigger] facts.required_present@[j]) && p@ == join_path_spec(
                    game_path@,
                    required_files()[i],
                ),
            Err(_) => false,
        },
        facts_consistent(facts) ==> (r is Ok <==> forall|i: int|
            0 <= i < 3 ==> #[trigger] facts.required_present@[i]),
{
    proof {
        if facts_consistent(facts) && facts.required_present@[0] {
            assert(facts.exists && facts.is_dir);
        }
    }
    if !facts.exists {
        return Err(GameDirError::NotFound(String::from_str(game_path)));
    }
    if !facts.is_dir {
        return Err(GameDirError::NotADirectory(String::from_str(game_path)));
    }
    let mut paths = required_file_paths(game_path);
    let mut i: usize = 0;
    while i < 3
        invariant
            i <= 3,
            facts.exists && facts.is_dir,
            facts.required_present@.len() == 3,
            paths@.len() == 3,
            forall|k: int| 0 <= k < 3 ==> (#[trigger] paths@[k])@ == join_path_spec(game_path@, required_files()[k]),
            forall|j: int| 0 <= j < i ==> #[trigger] facts.required_present@[j],
        decreases 3 - i,
    {
        if !facts.required_present[i] {
            let p = paths.swap_remove(i);
            return Err(GameDirError::MissingFile(p));
        }
        i += 1;
    }
    Ok(())
}

/// Expands the text a user typed for the installation directory: it is trimmed, and `~` or a
/// leading `~/` stands for the home directory when one is known.
pub open spec fn resolve_game_path_spec(input: Seq<char>, home: Option<Seq<char>>) -> Seq<char> {
    let t = trim_ws(input);
    match home {
        Some(h) => if t == "~"@ {
            h
        } else if t.len() >= 2 && t[0] == '~' && t[1] == '/' {
            join_path_spec(h, t.skip(2))
        } else {
            t
        },
        None => t,
    }
}

/// The installation directory a user's input names (see [`resolve_game_path_spec`]).
pub fn resolve_game_path(input: &str, home: Option<String>) -> (r: String)
    ensures
        r@ == resolve_game_path_spec(input@, match home {
            Some(h) => Some(h@),
            None => None,
        }),
{
    let cs = str_chars(input);
    let t = trim(cs.as_slice());
    match home {
        Some(h) => {
            if t.len() == 1 && t[0] == '~' {
                proof {
                    reveal_strlit("~");
                    assert(t@ =~= "~"@);
                }
                return h;
            }
            proof {
                reveal_strlit("~");
                if t@ == "~"@ {
                    assert(t@.len() == 1);
                }
            }
            if t.len() >= 2 && t[0] == '~' && t[1] == '/' {
                let rest = slice_range(t.as_slice(), 2, t.len());
                let rest_s = string_from_chars(rest.as_slice());
                assert(rest@ =~= t@.skip(2));
                return join_path(h.as_str(), rest_s.as_str());
            }
            string_from_chars(t.as_slice())
        },
        None => string_from_chars(t.as_slice()),
    }
}

// ---------------------------------------------------------------------------
// Searching a directory tree for an installation

/// How deep below the search root directories are entered.
pub const MAX_DEPTH: usize = 5;

/// What a directory entry is, following symbolic links for the last two kinds.
#[derive(Debug, Clone, Copy, PartialEq, Eq, Structural)]
pub enum EntryKind {
    Directory,
    SymlinkToDirectory,
    Other,
    /// Its type could not be read.
    Unknown,
}

/// What the file system says of one entry of a listed directory.
pub struct EntryFacts {
    pub path: String,
    /// The entry's name, when it is valid UTF-8.
    pub file_name: Option<String>,
    /// Whether the entry is (or links to) a regular file.
    pub is_file: bool,
    pub kind: EntryKind,
}

/// The entry is a file named `S4.exe`.
pub open spec fn is_game_exe(e: EntryFacts) -> bool {
    e.is_file && match e.file_name {
        Some(n) => n@ == "S4.exe"@,
        None => false,
    }
}

/// The directories below a listed directory at `depth` that the search enters, in order.
pub open spec fn subdirectories(entries: Seq<EntryFacts>, depth: usize) -> Seq<(Seq<char>, usize)>
    decreases entries.len(),
{
    if entries.len() == 0 {
        Seq::empty()
    } else {
        let rest = subdirectories(entries.drop_last(), depth);
        let e = entries.last();
        if e.kind == EntryKind::Directory || e.kind == EntryKind::SymlinkToDirectory {
            rest.push((e.path@, (depth + 1) as usize))
        } else {
            rest
        }
    }
}

/// The order a breadth-first search keeps: the directories waiting to be listed have depths
/// that never decrease along the queue, lie between the depth `current` of the directory listed
/// last and one more, and never exceed [`MAX_DEPTH`].
pub open spec fn search_order(pending: Seq<(Seq<char>, usize)>, current: usize) -> bool {
    &&& current <= MAX_DEPTH
    &&& forall|i: int|
        0 <= i < pending.len() ==> current <= (#[trigger] pending[i]).1 <= current + 1
            && pending[i].1 <= MAX_DEPTH
    &&& forall|i: int, j: int|
        0 <= i < j < pending.len() ==> (#[trigger] pending[i]).1 <= (#[trigger] pending[j]).1
}

/// A breadth-first search for an installation: a queue of directories still to list, each with
/// its depth below the root, and the depth of the directory listed last.
pub struct GameSearch {
    queue: Vec<(String, usize)>,
    head: usize,
    current: usize,
}

impl GameSearch {
    pub closed spec fn wf(&self) -> bool {
        &&& self.head <= self.queue@.len()
        &&& search_order(self.pending(), self.current)
    }

    /// The directories still to list, in order, with their depths.
    pub closed spec fn pending(&self) -> Seq<(Seq<char>, usize)> {
        self.queue@.skip(self.head as int).map_values(|e: (String, usize)| (e.0@, e.1))
    }

    /// The depth of the directory taken last (0 before the first).
    pub closed spec fn current_depth(&self) -> usize {
        self.current
    }

    /// The search's law: directories are taken in order of depth, never deeper than
    /// [`MAX_DEPTH`]. So the first installation found is a shallowest one, and the search ends
    /// (each listing being finite) even when symbolic links form a cycle.
    pub proof fn lemma_search_order(&self)
        requires
            self.wf(),
        ensures
            search_order(self.pending(), self.current_depth()),
    {
    }

    /// A search that starts at `root`, at depth 0.
    pub fn new(root: String) -> (r: GameSearch)
        ensures
            r.wf(),
            r.pending() == seq![(root@, 0usize)],
            r.current_depth() == 0,
    {
        let ghost rv = root@;
        let r = GameSearch { queue: vec![(root, 0)], head: 0, current: 0 };
        assert(r.pending() =~= seq![(rv, 0usize)]);
        r
    }

    /// The next directory to list, taken off the queue; its depth becomes the current one.
    pub fn next_directory(&mut self) -> (r: Option<(String, usize)>)
        requires
            old(self).wf(),
        ensures
            final(self).wf(),
            old(self).pending().len() == 0 ==> r is None && final(self).pending() == old(
                self,
            ).pending() && final(self).current_depth() == old(self).current_depth(),
            old(self).pending().len() > 0 ==> (r matches Some((d, k)) && (d@, k) == old(
                self,
            ).pending()[0] && final(self).pending() == old(self).pending().drop_first()
                && final(self).current_depth() == k),
    {
        if self.head >= self.queue.len() {
            assert(self.pending().len() == 0);
            return None;
        }
        let dir = self.queue[self.head].0.clone();
        let depth = self.queue[self.head].1;
        let ghost before = self.pending();
        assert(before[0].1 == depth);
        self.head = self.head + 1;
        self.current = depth;
        assert(self.pending() =~= before.drop_first());
        assert forall|i: int| 0 <= i < self.pending().len() implies depth <= (
        #[trigger] self.pending()[i]).1 by {
            assert(self.pending()[i] == before[i + 1]);
            assert(before[0].1 <= before[i + 1].1);
        }
        Some((dir, depth))
    }

    /// Looks at the listing of `dir`, the directory taken last. When it holds a file `S4.exe` and
    /// `dir` is a complete installation, `dir` is the answer. Otherwise the subdirectories to
    /// enter are queued, one level deeper, if the current depth is below [`MAX_DEPTH`].
    pub fn visit_directory(
        &mut self,
        dir: String,
        dir_is_game_dir: bool,
        entries: &[EntryFacts],
    ) -> (r: Option<String>)
        requires
            old(self).wf(),
        ensures
            final(self).wf(),
            final(self).current_depth() == old(self).current_depth(),
            dir_is_game_dir && (exists|i: int| 0 <= i < entries@.len() && is_game_exe(
                #[trigger] entries@[i],
            )) ==> (r matches Some(d) && d@ == dir@),
            !(dir_is_game_dir && (exists|i: int| 0 <= i < entries@.len() && is_game_exe(
                #[trigger] entries@[i],
            ))) ==> r is None && final(self).pending() == old(self).pending() + if old(
                self,
            ).current_depth() < MAX_DEPTH {
                subdirectories(entries@, old(self).current_depth())
            } else {
                Seq::empty()
            },
    {
        let depth = self.current;
        let exe_name = String::from_str("S4.exe");
        let ghost start = self.pending();
        let mut i: usize = 0;
        assert(entries@.take(0) =~= Seq::<EntryFacts>::empty());
        while i < entries.len()
            invariant
                self.wf(),
                self.current == depth,
                depth == old(self).current_depth(),
                i <= entries@.len(),
                exe_name@ == "S4.exe"@,
                !dir_is_game_dir || forall|j: int| 0 <= j < i ==> !is_game_exe(#[trigger] entries@[j]),
                self.pending() == start + if depth < MAX_DEPTH {
                    subdirectories(entries@.take(i as int), depth)
                } else {
                    Seq::empty()
                },
            decreases entries@.len() - i,
        {
            let e = &entries[i];
            let named_exe = match &e.file_name {
                Some(n) => *n == exe_name,
                None => false,
            };
            if named_exe && e.is_file && dir_is_game_dir {
                return Some(dir);
            }
            let ghost before = self.pending();
            assert(entries@.take(i + 1).drop_last() =~= entries@.take(i as int));
            if depth < MAX_DEPTH && (e.kind == EntryKind::Directory || e.kind
                == EntryKind::SymlinkToDirectory) {
                let p = e.path.clone();
                self.queue.push((p, depth + 1));
                let ghost item = (e.path@, (depth + 1) as usize);
                assert(self.pending() =~= before.push(item));
                assert forall|x: int, y: int|
                    0 <= x < y < self.pending().len() implies (#[trigger] self.pending()[x]).1
                    <= (#[trigger] self.pending()[y]).1 by {
                    if y == before.len() {
                        assert(before[x].1 <= depth + 1);
                    } else {
                        assert(before[x].1 <= before[y].1);
                    }
                }
            } else {
                assert(self.pending() =~= before);
            }
            i += 1;
        }
        assert(entries@.take(entries@.len() as int) =~= entries@);
        None
    }
}
} // verus!
