//! Persistence with backup-before-overwrite. The directory the documents
//! live in is modeled as an in-memory store from file names to file
//! contents; saving and loading are decided and verified against this model,
//! and a thin outer layer mirrors each step to the real file system in the
//! same order.

use vstd::prelude::*;

use crate::document::{LoadError, RegionData, SaveError};
use crate::format::{parse_doc, parse_region, render_region, spec_render_doc};

verus! {

/// The map an association list of files stands for; a later entry for the
/// same name wins.
pub open spec fn as_file_map(s: Seq<(String, String)>) -> Map<Seq<char>, Seq<char>>
    decreases s.len(),
{
    if s.len() == 0 {
        Map::empty()
    } else {
        as_file_map(s.drop_last()).insert(s.last().0@, s.last().1@)
    }
}

pub open spec fn unique_names(s: Seq<(String, String)>) -> bool {
    forall|i: int, j: int| 0 <= i < j < s.len() ==> s[i].0@ != s[j].0@
}

/// An entry's name and content are in the map.
proof fn lemma_as_file_map_lookup(s: Seq<(String, String)>, i: int)
    requires
        0 <= i < s.len(),
        unique_names(s),
    ensures
        as_file_map(s).contains_key(s[i].0@),
        as_file_map(s)[s[i].0@] == s[i].1@,
    decreases s.len(),
{
    if i < s.len() - 1 {
        assert(unique_names(s.drop_last()));
        lemma_as_file_map_lookup(s.drop_last(), i);
        assert(s[i].0@ != s.last().0@);
    }
}

/// A name no entry holds is not in the map.
proof fn lemma_as_file_map_absent(s: Seq<(String, String)>, name: Seq<char>)
    requires
        forall|i: int| 0 <= i < s.len() ==> (#[trigger] s[i]).0@ != name,
    ensures
        !as_file_map(s).contains_key(name),
    decreases s.len(),
{
    if s.len() > 0 {
        lemma_as_file_map_absent(s.drop_last(), name);
    }
}

/// Replacing the entry that holds a name is an insert for that name.
proof fn lemma_as_file_map_update(s: Seq<(String, String)>, i: int, p: (String, String))
    requires
        0 <= i < s.len(),
        s[i].0@ == p.0@,
        unique_names(s),
    ensures
        as_file_map(s.update(i, p)) == as_file_map(s).insert(p.0@, p.1@),
    decreases s.len(),
{
    let u = s.update(i, p);
    if i == s.len() - 1 {
        assert(u.drop_last() =~= s.drop_last());
        assert(u.last() == p);
        assert(as_file_map(s).insert(p.0@, p.1@) =~= as_file_map(s.drop_last()).insert(
            p.0@,
            p.1@,
        ));
    } else {
        assert(unique_names(s.drop_last()));
        assert(u.drop_last() =~= s.drop_last().update(i, p));
        assert(u.last() == s.last());
        lemma_as_file_map_update(s.drop_last(), i, p);
        assert(s[i].0@ != s.last().0@);
        assert(as_file_map(s.drop_last()).insert(p.0@, p.1@).insert(s.last().0@, s.last().1@)
            =~= as_file_map(s.drop_last()).insert(s.last().0@, s.last().1@).insert(p.0@, p.1@));
    }
}

/// An in-memory model of the directory the documents live in.
pub struct FileStore {
    files: Vec<(String, String)>,
}

impl View for FileStore {
    type V = Map<Seq<char>, Seq<char>>;

    closed spec fn view(&self) -> Map<Seq<char>, Seq<char>> {
        as_file_map(self.files@)
    }
}

impl FileStore {
    /// Each name appears at most once, so a write replaces rather than
    /// shadows.
    pub closed spec fn wf(&self) -> bool {
        unique_names(self.files@)
    }

    /// An empty store.
    pub fn new() -> (st: FileStore)
        ensures
            st@ == Map::<Seq<char>, Seq<char>>::empty(),
            st.wf(),
    {
        FileStore { files: Vec::new() }
    }

    /// The index of the entry holding `name`, if any.
    fn find(&self, name: &str) -> (r: Option<usize>)
        requires
            self.wf(),
        ensures
            match r {
                Some(i) => {
                    &&& (i as int) < self.files@.len()
                    &&& self.files@[i as int].0@ == name@
                    &&& self@.contains_key(name@)
                    &&& self@[name@] == self.files@[i as int].1@
                },
                None => !self@.contains_key(name@),
            },
    {
        let name_s = name.to_owned();
        let n = self.files.len();
        let mut i: usize = 0;
        while i < n
            invariant
                i <= n,
                n == self.files@.len(),
                self.wf(),
                name_s@ == name@,
                forall|j: int| 0 <= j < i ==> (#[trigger] self.files@[j]).0@ != name@,
            decreases n - i,
        {
            if self.files[i].0 == name_s {
                proof {
                    lemma_as_file_map_lookup(self.files@, i as int);
                }
                return Some(i);
            }
            i = i + 1;
        }
        proof {
            lemma_as_file_map_absent(self.files@, name@);
        }
        None
    }

    /// The content of the file at `name`, if it exists.
    pub fn read(&self, name: &str) -> (r: Option<String>)
        requires
            self.wf(),
        ensures
            match r {
                Some(c) => self@.contains_key(name@) && c@ == self@[name@],
                None => !self@.contains_key(name@),
            },
    {
        match self.find(name) {
            Some(i) => Some(self.files[i].1.clone()),
            None => None,
        }
    }

    /// Whether a file exists at `name`.
    pub fn contains(&self, name: &str) -> (r: bool)
        requires
            self.wf(),
        ensures
            r == self@.contains_key(name@),
    {
        self.find(name).is_some()
    }

    /// Creates or overwrites the file at `name`.
    pub fn write(&mut self, name: &str, content: String)
        requires
            old(self).wf(),
        ensures
            final(self).wf(),
            final(self)@ == old(self)@.insert(name@, content@),
    {
        let name_s = name.to_owned();
        let ghost name_v = name@;
        match self.find(name) {
            Some(i) => {
                self.files.set(i, (name_s, content));
                proof {
                    let p = self.files@[i as int];
                    assert(p.0@ == name_v && p.1@ == content@);
                    lemma_as_file_map_update(old(self).files@, i as int, p);
                    assert(unique_names(self.files@)) by {
                        assert forall|a: int, b: int|
                            0 <= a < b < self.files@.len() implies (#[trigger] self.files@[a]).0@
                            != (#[trigger] self.files@[b]).0@ by {
                            assert(old(self).files@[a].0@ != old(self).files@[b].0@);
                        }
                    }
                }
            },
            None => {
                self.files.push((name_s, content));
                proof {
                    assert(self.files@.drop_last() =~= old(self).files@);
                    assert(self.files@.last().0@ == name_v);
                    assert(unique_names(self.files@)) by {
                        assert forall|a: int, b: int|
                            0 <= a < b < self.files@.len() implies (#[trigger] self.files@[a]).0@
                            != (#[trigger] self.files@[b]).0@ by {
                            if b == self.files@.len() - 1 {
                                if old(self).files@[a].0@ == name_v {
                                    lemma_as_file_map_lookup(old(self).files@, a);
                                }
                            } else {
                                assert(old(self).files@[a].0@ != old(self).files@[b].0@);
                            }
                        }
                    }
                }
            },
        }
    }
}

/// The backup file's extension.
pub open spec fn lit_backup_ext() -> Seq<char> {
    seq!['.', 'b', 'a', 'c', 'k', 'u', 'p']
}

/// The index of the last dot in a path, or -1 when it has none.
pub open spec fn last_dot(p: Seq<char>) -> int
    decreases p.len(),
{
    if p.len() == 0 {
        -1
    } else if p.last() == '.' {
        p.len() - 1
    } else {
        last_dot(p.drop_last())
    }
}

/// The sibling backup path of a document path: the extension after the last
/// dot is replaced by `backup`; a path without a dot gets `.backup`
/// appended.
pub open spec fn spec_backup_path(p: Seq<char>) -> Seq<char> {
    if last_dot(p) >= 0 {
        p.take(last_dot(p)) + lit_backup_ext()
    } else {
        p + lit_backup_ext()
    }
}

/// The position of the last dot of a path, if it has one.
fn find_last_dot(path: &str) -> (r: Option<usize>)
    ensures
        match r {
            Some(d) => last_dot(path@) == d as int && (d as int) < path@.len(),
            None => last_dot(path@) == -1,
        },
{
    let n = path.unicode_len();
    let mut i = n;
    proof {
        assert(path@.take(n as int) =~= path@);
    }
    while i > 0
        invariant
            i <= n,
            n == path@.len(),
            last_dot(path@) == last_dot(path@.take(i as int)),
        decreases i,
    {
        let c = path.get_char(i - 1);
        proof {
            assert(path@.take(i as int).last() == path@[i as int - 1]);
        }
        if c == '.' {
            return Some(i - 1);
        }
        proof {
            assert(path@.take(i as int).drop_last() =~= path@.take(i as int - 1));
        }
        i = i - 1;
    }
    proof {
        assert(path@.take(0) =~= Seq::<char>::empty());
    }
    None
}

/// Computes the sibling backup path of a document path.
pub fn backup_path(path: &str) -> (r: String)
    ensures
        r@ == spec_backup_path(path@),
{
    let mut out = String::new();
    match find_last_dot(path) {
        Some(d) => {
            let prefix = path.substring_char(0, d);
            out.append(prefix);
            proof {
                assert(path@.subrange(0, d as int) =~= path@.take(d as int));
            }
        },
        None => {
            out.append(path);
        },
    }
    out.append(".backup");
    proof {
        reveal_strlit(".backup");
        assert(".backup"@ =~= lit_backup_ext());
        assert(out@ =~= spec_backup_path(path@));
    }
    out
}

/// Saves a document at `path`: the file already there is first copied to the
/// sibling backup path, and only then does the rendered document overwrite
/// `path`. When there is nothing to back up, the save fails and the store is
/// left untouched; when the save succeeds, the backup holds the document's
/// pre-save content.
pub fn save_region(store: &mut FileStore, path: &str, doc: &RegionData) -> (r: Result<
    (),
    SaveError,
>)
    requires
        old(store).wf(),
    ensures
        final(store).wf(),
        old(store)@.contains_key(path@) ==> {
            &&& r is Ok
            &&& final(store)@ == old(store)@.insert(
                spec_backup_path(path@),
                old(store)@[path@],
            ).insert(path@, spec_render_doc(doc@))
            &&& (spec_backup_path(path@) != path@ ==> final(store)@.contains_key(
                spec_backup_path(path@),
            ) && final(store)@[spec_backup_path(path@)] == old(store)@[path@])
        },
        !old(store)@.contains_key(path@) ==> r == Result::<(), SaveError>::Err(
            SaveError::BackupFailed,
        ) && *final(store) == *old(store),
{
    let existing = match store.read(path) {
        Some(c) => c,
        None => {
            return Err(SaveError::BackupFailed);
        },
    };
    let bp = backup_path(path);
    store.write(bp.as_str(), existing);
    let text = render_region(doc);
    store.write(path, text);
    Ok(())
}

/// Loads the document at `path`; the error says whether the file was missing
/// or its content did not match the schema.
pub fn load_region(store: &FileStore, path: &str) -> (r: Result<RegionData, LoadError>)
    requires
        store.wf(),
    ensures
        !store@.contains_key(path@) ==> r == Result::<RegionData, LoadError>::Err(
            LoadError::FileNotFound,
        ),
        store@.contains_key(path@) ==> match r {
            Ok(d) => parse_doc(store@[path@]) == Some(d@),
            Err(e) => e == LoadError::Malformed && parse_doc(store@[path@]) is None,
        },
{
    let text = match store.read(path) {
        Some(c) => c,
        None => {
            return Err(LoadError::FileNotFound);
        },
    };
    parse_region(text.as_str())
}

} // verus!
