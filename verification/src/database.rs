use vstd::hash_map::StringHashMap;
use vstd::prelude::*;
use vstd::string::*;

verus! {

/// A store of texts under string keys: what was saved in this run is kept
/// in memory, and every key has a file of its own below a directory.
///
/// The store itself touches no file. `save_data` names the file that the
/// text belongs in, and `load_data` answers from memory; for a key that is
/// not in memory the text is to be read from the file that `file_path`
/// names.
pub struct Database {
    data: StringHashMap<String>,
    data_dir: String,
}

/// The file that holds the text saved under `key` below the directory
/// `directory`.
pub open spec fn spec_file_path(directory: Seq<char>, key: Seq<char>) -> Seq<char> {
    directory + "/"@ + key + ".json"@
}

impl Database {
    /// The texts kept in memory, by key.
    pub closed spec fn cached(&self) -> Map<Seq<char>, Seq<char>> {
        self.data@.map_values(|text: String| text@)
    }

    /// The directory of the files.
    pub closed spec fn directory(&self) -> Seq<char> {
        self.data_dir@
    }

    /// A store over the directory `data_dir` with nothing in memory.
    pub fn new(data_dir: String) -> (store: Self)
        ensures
            store.cached() == Map::<Seq<char>, Seq<char>>::empty(),
            store.directory() == data_dir@,
    {
        let store = Database { data: StringHashMap::new(), data_dir };
        assert(store.cached() =~= Map::<Seq<char>, Seq<char>>::empty());
        store
    }

    /// The file of `key`.
    pub fn file_path(&self, key: &str) -> (path: String)
        ensures
            path@ == spec_file_path(self.directory(), key@),
    {
        let mut path = self.data_dir.clone();
        path.append("/");
        path.append(key);
        path.append(".json");
        path
    }

    /// Keeps `value` under `key`, in place of what was kept there, and
    /// returns the file that `value` is to be written to.
    pub fn save_data(&mut self, key: &str, value: &str) -> (path: String)
        ensures
            final(self).cached() == old(self).cached().insert(key@, value@),
            final(self).directory() == old(self).directory(),
            path@ == spec_file_path(old(self).directory(), key@),
    {
        self.data.insert(key.to_owned(), value.to_owned());
        assert(self.cached() =~= old(self).cached().insert(key@, value@));
        self.file_path(key)
    }

    /// The text kept in memory under `key`, if there is one.
    pub fn load_data(&self, key: &str) -> (value: Option<String>)
        ensures
            match value {
                Some(text) => self.cached().contains_key(key@) && text@ == self.cached()[key@],
                None => !self.cached().contains_key(key@),
            },
    {
        match self.data.get(key) {
            Some(text) => Some(text.clone()),
            None => None,
        }
    }
}

/// Saving and loading round-trip: once a text is saved under a key, that
/// key holds exactly that text, and every other key holds what it held
/// before.
pub proof fn lemma_save_then_load(
    cached: Map<Seq<char>, Seq<char>>,
    key: Seq<char>,
    value: Seq<char>,
    other: Seq<char>,
)
    ensures
        cached.insert(key, value).contains_key(key),
        cached.insert(key, value)[key] == value,
        other != key ==> cached.insert(key, value).contains_key(other) == cached.contains_key(
            other,
        ),
        other != key && cached.contains_key(other) ==> cached.insert(key, value)[other]
            == cached[other],
{
}

} // verus!
