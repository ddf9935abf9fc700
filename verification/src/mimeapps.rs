//! The default application for a MIME type.
//!
//! The files `mimeapps.list` associate MIME types with desktop entries;
//! a desktop entry is a file that holds, among other things, the command
//! line of an application. The files are looked at in the order of their
//! precedence, and the first association that leads to a command line is
//! the answer.
//!
//! Nothing here touches the disk: the files and directories that a
//! resolution may look at are handed over as a [`FileSystem`], and the
//! environment as an [`Environment`].

use crate::parser::ini::{parse, parse_str, Pair, PairView};
use crate::seqs::{
    first_some, lemma_first_some_add, lemma_first_some_exhausted, lemma_first_some_found,
    lemma_first_some_none, lemma_first_some_same, lemma_first_some_take_succ,
    lemma_first_some_witness, lemma_flatten_contains,
};
use crate::text::{chars_of, find_char, index_of, same_text, string_of, tokens, tokens_of};
use crate::xdg::{
    config_candidates, data_candidates, dirs_of, search_paths, with_home, Dirs, Environment,
    EnvironmentView,
};
use vstd::prelude::*;
use vstd::string::StringExecFns;

verus! {

/// A file that can be read, and the text in it.
#[derive(Debug)]
pub struct File {
    pub path: String,
    pub contents: String,
}

/// A directory and the names of what lies directly in it.
#[derive(Debug)]
pub struct Directory {
    pub path: String,
    pub entries: Vec<String>,
}

/// The files and directories that a resolution can see. A path that is
/// not among the files is a file that is absent or cannot be read.
#[derive(Debug)]
pub struct FileSystem {
    files: Vec<File>,
    directories: Vec<Directory>,
}

/// What a [`FileSystem`] holds: the text of each file and the entries of
/// each directory, by path.
pub struct FileSystemView {
    pub files: Map<Seq<char>, Seq<char>>,
    pub directories: Map<Seq<char>, Seq<Seq<char>>>,
}

/// The table that a list of keys and values stands for. A later entry
/// replaces an earlier one with the same key.
pub open spec fn table_of<V>(entries: Seq<(Seq<char>, V)>) -> Map<Seq<char>, V>
    decreases entries.len(),
{
    if entries.len() == 0 {
        Map::empty()
    } else {
        table_of(entries.drop_last()).insert(entries.last().0, entries.last().1)
    }
}

/// A key that no entry from position `i` on has is looked up among the
/// entries before `i`.
pub proof fn lemma_table_lookup<V>(entries: Seq<(Seq<char>, V)>, key: Seq<char>, i: int)
    requires
        0 <= i <= entries.len(),
        forall|j: int| i <= j < entries.len() ==> entries[j].0 != key,
    ensures
        table_of(entries).dom().contains(key) == table_of(entries.take(i)).dom().contains(key),
        table_of(entries).dom().contains(key) ==> table_of(entries)[key] == table_of(
            entries.take(i),
        )[key],
    decreases entries.len() - i,
{
    if i == entries.len() {
        assert(entries.take(i) =~= entries);
    } else {
        assert(entries.drop_last().take(i) =~= entries.take(i));
        lemma_table_lookup(entries.drop_last(), key, i);
    }
}

impl View for FileSystem {
    type V = FileSystemView;

    closed spec fn view(&self) -> FileSystemView {
        FileSystemView {
            files: table_of(self.files@.map_values(|f: File| (f.path@, f.contents@))),
            directories: table_of(
                self.directories@.map_values(|d: Directory| (d.path@, d.entries.deep_view())),
            ),
        }
    }
}

impl FileSystem {
    /// A file system without files or directories.
    pub fn new() -> (fs: FileSystem)
        ensures
            fs@.files == Map::<Seq<char>, Seq<char>>::empty(),
            fs@.directories == Map::<Seq<char>, Seq<Seq<char>>>::empty(),
    {
        FileSystem { files: Vec::new(), directories: Vec::new() }
    }

    /// Puts the file `path` with the text `contents` in place, instead of
    /// any file that was at that path.
    pub fn add_file(&mut self, path: &str, contents: &str)
        ensures
            final(self)@.files == old(self)@.files.insert(path@, contents@),
            final(self)@.directories == old(self)@.directories,
    {
        let ghost before = self.files@.map_values(|f: File| (f.path@, f.contents@));
        self.files.push(File { path: String::from_str(path), contents: String::from_str(contents) });
        assert(self.files@.map_values(|f: File| (f.path@, f.contents@)).drop_last() =~= before);
    }

    /// Puts the directory `path` with the entries `entries` in place,
    /// instead of any directory that was at that path.
    pub fn add_directory(&mut self, path: &str, entries: Vec<String>)
        ensures
            final(self)@.files == old(self)@.files,
            final(self)@.directories == old(self)@.directories.insert(path@, entries.deep_view()),
    {
        let ghost before = self.directories@.map_values(
            |d: Directory| (d.path@, d.entries.deep_view()),
        );
        self.directories.push(Directory { path: String::from_str(path), entries });
        assert(self.directories@.map_values(
            |d: Directory| (d.path@, d.entries.deep_view()),
        ).drop_last() =~= before);
    }

    /// The text of the file `path`, if there is such a file.
    pub fn read(&self, path: &str) -> (r: Option<&String>)
        ensures
            match r {
                Some(text) => self@.files.dom().contains(path@) && text@ == self@.files[path@],
                None => !self@.files.dom().contains(path@),
            },
    {
        let ghost table = self.files@.map_values(|f: File| (f.path@, f.contents@));
        let mut i: usize = self.files.len();
        while i > 0
            invariant
                i <= self.files.len(),
                table == self.files@.map_values(|f: File| (f.path@, f.contents@)),
                forall|j: int| i <= j < table.len() ==> table[j].0 != path@,
            decreases i,
        {
            i -= 1;
            if same_text(self.files[i].path.as_str(), path) {
                proof {
                    lemma_table_lookup(table, path@, i + 1);
                    assert(table.take(i + 1).drop_last() =~= table.take(i as int));
                }
                return Some(&self.files[i].contents);
            }
        }
        proof {
            lemma_table_lookup(table, path@, 0);
        }
        None
    }

    /// Whether there is a file `path`.
    pub fn is_file(&self, path: &str) -> (b: bool)
        ensures
            b == self@.files.dom().contains(path@),
    {
        self.read(path).is_some()
    }

    /// The entries of the directory `path`, if there is such a directory.
    pub fn entries(&self, path: &str) -> (r: Option<&Vec<String>>)
        ensures
            match r {
                Some(names) => self@.directories.dom().contains(path@) && names.deep_view()
                    == self@.directories[path@],
                None => !self@.directories.dom().contains(path@),
            },
    {
        let ghost table = self.directories@.map_values(
            |d: Directory| (d.path@, d.entries.deep_view()),
        );
        let mut i: usize = self.directories.len();
        while i > 0
            invariant
                i <= self.directories.len(),
                table == self.directories@.map_values(
                    |d: Directory| (d.path@, d.entries.deep_view()),
                ),
                forall|j: int| i <= j < table.len() ==> table[j].0 != path@,
            decreases i,
        {
            i -= 1;
            if same_text(self.directories[i].path.as_str(), path) {
                proof {
                    lemma_table_lookup(table, path@, i + 1);
                    assert(table.take(i + 1).drop_last() =~= table.take(i as int));
                }
                return Some(&self.directories[i].entries);
            }
        }
        proof {
            lemma_table_lookup(table, path@, 0);
        }
        None
    }
}

/// The path of `name` directly inside `dir`.
pub open spec fn below(dir: Seq<char>, name: Seq<char>) -> Seq<char> {
    dir + seq!['/'] + name
}

/// `path` if there is such a file.
pub open spec fn if_file(fs: FileSystemView, path: Seq<char>) -> Option<Seq<char>> {
    if fs.files.dom().contains(path) {
        Some(path)
    } else {
        None
    }
}

/// The desktop entry `id` inside one subdirectory of `apps`.
pub open spec fn in_subdirectory(fs: FileSystemView, apps: Seq<char>, id: Seq<char>) -> spec_fn(
    Seq<char>,
) -> Option<Seq<char>> {
    |entry: Seq<char>| if_file(fs, below(below(apps, entry), id))
}

/// The file of the desktop entry `id` below the data directory `dir`. With
/// `apps` for `dir/applications`, it is the first of these that is a file:
/// for an id `vendor-rest`, split at its first `-`, `apps/vendor/rest`;
/// `apps/id`; and `apps/entry/id` for the entries of `apps`, in their
/// order.
pub open spec fn locate_in(fs: FileSystemView, dir: Seq<char>, id: Seq<char>) -> Option<Seq<char>> {
    let apps = below(dir, "applications"@);
    let dash = index_of(id, '-');
    let vendored = below(below(apps, id.take(dash)), id.skip(dash + 1));
    let direct = below(apps, id);
    if dash < id.len() && fs.files.dom().contains(vendored) {
        Some(vendored)
    } else if fs.files.dom().contains(direct) {
        Some(direct)
    } else if fs.directories.dom().contains(apps) {
        first_some(fs.directories[apps], in_subdirectory(fs, apps, id))
    } else {
        None
    }
}

/// The desktop entry `id` below one data directory.
pub open spec fn in_data_dir(fs: FileSystemView, id: Seq<char>) -> spec_fn(Seq<char>) -> Option<
    Seq<char>,
> {
    |dir: Seq<char>| locate_in(fs, dir, id)
}

/// The file of the desktop entry `id`. An id that begins with `/` is the
/// path itself, whatever the data directories are. Any other id is looked
/// for below each of `data_dirs`, in their order.
pub open spec fn locate(fs: FileSystemView, data_dirs: Seq<Seq<char>>, id: Seq<char>) -> Option<
    Seq<char>,
> {
    if id.len() > 0 && id[0] == '/' {
        if_file(fs, id)
    } else {
        first_some(data_dirs, in_data_dir(fs, id))
    }
}

/// What [`locate`] finds is a file.
pub proof fn lemma_located_is_file(fs: FileSystemView, data_dirs: Seq<Seq<char>>, id: Seq<char>)
    ensures
        locate(fs, data_dirs, id) matches Some(path) ==> fs.files.dom().contains(path),
{
    if !(id.len() > 0 && id[0] == '/') && locate(fs, data_dirs, id) is Some {
        let i = lemma_first_some_witness(data_dirs, in_data_dir(fs, id));
        let apps = below(data_dirs[i], "applications"@);
        let dash = index_of(id, '-');
        let vendored = below(below(apps, id.take(dash)), id.skip(dash + 1));
        if !(dash < id.len() && fs.files.dom().contains(vendored)) && !fs.files.dom().contains(
            below(apps, id),
        ) {
            let k = lemma_first_some_witness(fs.directories[apps], in_subdirectory(fs, apps, id));
        }
    }
}

/// The value of a pair that is the key `Exec` of the section
/// `Desktop Entry`.
pub open spec fn exec_value(p: PairView) -> Option<Seq<char>> {
    if p.section == "Desktop Entry"@ && p.key == "Exec"@ {
        Some(p.value)
    } else {
        None
    }
}

/// The command line of a desktop entry with the text `text`: the value of
/// the first key `Exec` in the section `Desktop Entry`, as it stands.
pub open spec fn exec_of(text: Seq<char>) -> Option<Seq<char>> {
    first_some(parse(text), |p: PairView| exec_value(p))
}

/// The command line of the desktop entry `id`: that of its file, if it has
/// a file and the file has a command line.
pub open spec fn command_of(fs: FileSystemView, data_dirs: Seq<Seq<char>>, id: Seq<char>)
    -> Option<Seq<char>> {
    match locate(fs, data_dirs, id) {
        Some(path) => exec_of(fs.files[path]),
        None => None,
    }
}

/// The command line of one desktop entry.
pub open spec fn by_id(fs: FileSystemView, data_dirs: Seq<Seq<char>>) -> spec_fn(Seq<char>)
    -> Option<Seq<char>> {
    |id: Seq<char>| command_of(fs, data_dirs, id)
}

/// Whether a pair associates the type `mime` with desktop entries.
pub open spec fn associates(p: PairView, mime: Seq<char>) -> bool {
    (p.section == "Added Associations"@ || p.section == "Default Applications"@) && p.key == mime
}

/// The command line that a pair leads to: where the pair associates `mime`,
/// its value is a list of desktop entry ids between `;`, and the first of
/// them that has a command line gives it. Empty ids are passed over.
pub open spec fn command_of_pair(
    fs: FileSystemView,
    data_dirs: Seq<Seq<char>>,
    mime: Seq<char>,
    p: PairView,
) -> Option<Seq<char>> {
    if associates(p, mime) {
        first_some(tokens(p.value, ';'), by_id(fs, data_dirs))
    } else {
        None
    }
}

/// The command line that one pair leads to.
pub open spec fn by_pair(fs: FileSystemView, data_dirs: Seq<Seq<char>>, mime: Seq<char>)
    -> spec_fn(PairView) -> Option<Seq<char>> {
    |p: PairView| command_of_pair(fs, data_dirs, mime, p)
}

/// The command line that the association file `path` leads to: that of its
/// first pair that leads to one. A file that is absent leads to none.
pub open spec fn command_in_file(
    fs: FileSystemView,
    data_dirs: Seq<Seq<char>>,
    mime: Seq<char>,
    path: Seq<char>,
) -> Option<Seq<char>> {
    if fs.files.dom().contains(path) {
        first_some(parse(fs.files[path]), by_pair(fs, data_dirs, mime))
    } else {
        None
    }
}

/// The command line that one association file leads to.
pub open spec fn by_file(fs: FileSystemView, data_dirs: Seq<Seq<char>>, mime: Seq<char>)
    -> spec_fn(Seq<char>) -> Option<Seq<char>> {
    |path: Seq<char>| command_in_file(fs, data_dirs, mime, path)
}

/// The command line that the association files `paths` lead to: that of
/// the first file that leads to one.
pub open spec fn command_in_files(
    fs: FileSystemView,
    data_dirs: Seq<Seq<char>>,
    mime: Seq<char>,
    paths: Seq<Seq<char>>,
) -> Option<Seq<char>> {
    first_some(paths, by_file(fs, data_dirs, mime))
}

/// The data directories of an environment, the user's own first.
pub open spec fn data_dirs_in(env: EnvironmentView) -> Seq<Seq<char>> {
    with_home(dirs_of(env, None).data_home, dirs_of(env, None).data_dirs)
}

/// The command line of the default application for `mime`: what the
/// association files lead to, taken in the order of their precedence; and
/// if that is nothing, what the files below the data directories lead to
/// when they are looked at once more.
pub open spec fn default_app(env: EnvironmentView, fs: FileSystemView, mime: Seq<char>) -> Option<
    Seq<char>,
> {
    let d = dirs_of(env, None);
    match command_in_files(fs, data_dirs_in(env), mime, search_paths(d)) {
        Some(command) => Some(command),
        None => command_in_files(fs, data_dirs_in(env), mime, data_candidates(d)),
    }
}

/// The desktop entries that one pair names for the type `mime`.
pub open spec fn ids_of_pair(mime: Seq<char>) -> spec_fn(PairView) -> Seq<Seq<char>> {
    |p: PairView|
        if associates(p, mime) {
            tokens(p.value, ';')
        } else {
            Seq::empty()
        }
}

/// The desktop entries that an association file with the text `text`
/// names for the type `mime`, in the order in which they are tried.
pub open spec fn association_ids_of(text: Seq<char>, mime: Seq<char>) -> Seq<Seq<char>> {
    parse(text).map_values(ids_of_pair(mime)).flatten()
}

/// The paths at which the desktop entry `id` may lie below the data
/// directory `dir`, apart from the subdirectories of `dir/applications`:
/// the id itself where it begins with `/`; else, for an id `vendor-rest`,
/// `dir/applications/vendor/rest`, and for every id `dir/applications/id`.
pub open spec fn probes_of(dir: Seq<char>, id: Seq<char>) -> Seq<Seq<char>> {
    let apps = below(dir, "applications"@);
    let dash = index_of(id, '-');
    if id.len() > 0 && id[0] == '/' {
        seq![id]
    } else if dash < id.len() {
        seq![below(below(apps, id.take(dash)), id.skip(dash + 1)), below(apps, id)]
    } else {
        seq![below(apps, id)]
    }
}

/// The second look at the data directories finds nothing: the default
/// application is what the association files lead to when each is looked
/// at once, in the order of precedence.
pub proof fn lemma_one_pass(env: EnvironmentView, fs: FileSystemView, mime: Seq<char>)
    ensures
        default_app(env, fs, mime) == command_in_files(
            fs,
            data_dirs_in(env),
            mime,
            search_paths(dirs_of(env, None)),
        ),
{
    let d = dirs_of(env, None);
    lemma_first_some_add(
        config_candidates(d),
        data_candidates(d),
        by_file(fs, data_dirs_in(env), mime),
    );
}

/// Precedence: where an association file leads to a command line and no
/// file before it in the order of precedence does, that command line is the
/// answer, whatever the files after it hold.
pub proof fn lemma_first_file_wins(env: EnvironmentView, fs: FileSystemView, mime: Seq<char>, i: int)
    requires
        0 <= i < search_paths(dirs_of(env, None)).len(),
        command_in_file(fs, data_dirs_in(env), mime, search_paths(dirs_of(env, None))[i]) is Some,
        forall|j: int|
            0 <= j < i ==> command_in_file(
                fs,
                data_dirs_in(env),
                mime,
                #[trigger] search_paths(dirs_of(env, None))[j],
            ) is None,
    ensures
        default_app(env, fs, mime) == command_in_file(
            fs,
            data_dirs_in(env),
            mime,
            search_paths(dirs_of(env, None))[i],
        ),
{
    let paths = search_paths(dirs_of(env, None));
    let f = by_file(fs, data_dirs_in(env), mime);
    lemma_one_pass(env, fs, mime);
    assert forall|j: int| 0 <= j < paths.take(i).len() implies f(#[trigger] paths.take(i)[j])
        is None by {
        assert(paths.take(i)[j] == paths[j]);
    }
    lemma_first_some_none(paths.take(i), f);
    lemma_first_some_found(paths, f, i);
}

/// A text leads to a command line as soon as one of its pairs associates
/// the type with a desktop entry that has one.
pub proof fn lemma_association_leads(
    fs: FileSystemView,
    data_dirs: Seq<Seq<char>>,
    mime: Seq<char>,
    text: Seq<char>,
    k: int,
    t: int,
)
    requires
        0 <= k < parse(text).len(),
        associates(parse(text)[k], mime),
        0 <= t < tokens(parse(text)[k].value, ';').len(),
        command_of(fs, data_dirs, tokens(parse(text)[k].value, ';')[t]) is Some,
    ensures
        first_some(parse(text), by_pair(fs, data_dirs, mime)) is Some,
{
    let ids = tokens(parse(text)[k].value, ';');
    lemma_first_some_none(ids, by_id(fs, data_dirs));
    assert(by_id(fs, data_dirs)(ids[t]) is Some);
    lemma_first_some_none(parse(text), by_pair(fs, data_dirs, mime));
    assert(by_pair(fs, data_dirs, mime)(parse(text)[k]) is Some);
}

/// Precedence of the default applications: let an association file hold,
/// in the section `Default Applications`, a line for the type whose value
/// names a desktop entry with a command line, and let no file before it in
/// the order of precedence lead to a command line. Then the answer is the
/// command line that this file leads to.
pub proof fn lemma_default_applications_win(
    env: EnvironmentView,
    fs: FileSystemView,
    mime: Seq<char>,
    i: int,
    k: int,
    t: int,
)
    requires
        0 <= i < search_paths(dirs_of(env, None)).len(),
        fs.files.dom().contains(search_paths(dirs_of(env, None))[i]),
        0 <= k < parse(fs.files[search_paths(dirs_of(env, None))[i]]).len(),
        parse(fs.files[search_paths(dirs_of(env, None))[i]])[k].section
            == "Default Applications"@,
        parse(fs.files[search_paths(dirs_of(env, None))[i]])[k].key == mime,
        0 <= t < tokens(parse(fs.files[search_paths(dirs_of(env, None))[i]])[k].value, ';').len(),
        command_of(
            fs,
            data_dirs_in(env),
            tokens(parse(fs.files[search_paths(dirs_of(env, None))[i]])[k].value, ';')[t],
        ) is Some,
        forall|j: int|
            0 <= j < i ==> command_in_file(
                fs,
                data_dirs_in(env),
                mime,
                #[trigger] search_paths(dirs_of(env, None))[j],
            ) is None,
    ensures
        default_app(env, fs, mime) is Some,
        default_app(env, fs, mime) == command_in_file(
            fs,
            data_dirs_in(env),
            mime,
            search_paths(dirs_of(env, None))[i],
        ),
{
    let path = search_paths(dirs_of(env, None))[i];
    lemma_association_leads(fs, data_dirs_in(env), mime, fs.files[path], k, t);
    lemma_first_file_wins(env, fs, mime, i);
}

/// Missing files: where none of the association files is there, no default
/// application is found.
pub proof fn lemma_missing_files(env: EnvironmentView, fs: FileSystemView, mime: Seq<char>)
    requires
        forall|i: int|
            0 <= i < search_paths(dirs_of(env, None)).len() ==> !fs.files.dom().contains(
                #[trigger] search_paths(dirs_of(env, None))[i],
            ),
    ensures
        default_app(env, fs, mime) is None,
{
    lemma_one_pass(env, fs, mime);
    lemma_first_some_none(search_paths(dirs_of(env, None)), by_file(fs, data_dirs_in(env), mime));
}

/// The same question has the same answer: the default application depends
/// on nothing but what the environment and the file system hold.
pub proof fn lemma_same_answer(
    env: Environment,
    fs: FileSystem,
    env_again: Environment,
    fs_again: FileSystem,
    mime: Seq<char>,
)
    requires
        env@ == env_again@,
        fs@ == fs_again@,
    ensures
        default_app(env@, fs@, mime) == default_app(env_again@, fs_again@, mime),
{
}

/// Whether two file systems hold the same at `path`: the same file, or
/// none.
pub open spec fn same_file(a: FileSystemView, b: FileSystemView, path: Seq<char>) -> bool {
    a.files.dom().contains(path) == b.files.dom().contains(path) && (a.files.dom().contains(path)
        ==> a.files[path] == b.files[path])
}

/// Whether two file systems hold the same wherever the desktop entry `id`
/// may lie below the data directory `dir`: at the paths of
/// [`probes_of`], in the list of entries of `dir/applications`, and at the
/// path of `id` in each of these entries.
pub open spec fn same_entry_in(a: FileSystemView, b: FileSystemView, dir: Seq<char>, id: Seq<char>)
    -> bool {
    let apps = below(dir, "applications"@);
    &&& forall|k: int|
        0 <= k < probes_of(dir, id).len() ==> same_file(a, b, #[trigger] probes_of(dir, id)[k])
    &&& a.directories.dom().contains(apps) == b.directories.dom().contains(apps)
    &&& a.directories.dom().contains(apps) ==> a.directories[apps] == b.directories[apps]
    &&& a.directories.dom().contains(apps) ==> forall|e: int|
        0 <= e < a.directories[apps].len() ==> same_file(
            a,
            b,
            below(below(apps, #[trigger] a.directories[apps][e]), id),
        )
}

/// Whether two file systems hold the same wherever the desktop entry `id`
/// may lie.
pub open spec fn same_entry(
    a: FileSystemView,
    b: FileSystemView,
    data_dirs: Seq<Seq<char>>,
    id: Seq<char>,
) -> bool {
    if id.len() > 0 && id[0] == '/' {
        same_file(a, b, id)
    } else {
        forall|d: int| 0 <= d < data_dirs.len() ==> same_entry_in(a, b, #[trigger] data_dirs[d], id)
    }
}

/// Whether `snapshot` holds what a resolution for `mime` looks at on
/// `disk`: the association files, and every place at which a desktop entry
/// may lie that they name for `mime`.
pub open spec fn is_snapshot(
    env: EnvironmentView,
    disk: FileSystemView,
    snapshot: FileSystemView,
    mime: Seq<char>,
) -> bool {
    forall|i: int|
        0 <= i < search_paths(dirs_of(env, None)).len() ==> {
            let path = #[trigger] search_paths(dirs_of(env, None))[i];
            &&& same_file(disk, snapshot, path)
            &&& disk.files.dom().contains(path) ==> forall|j: int|
                0 <= j < association_ids_of(disk.files[path], mime).len() ==> same_entry(
                    disk,
                    snapshot,
                    data_dirs_in(env),
                    #[trigger] association_ids_of(disk.files[path], mime)[j],
                )
        }
}

/// Two file systems that hold the same wherever a desktop entry may lie
/// below a data directory have its file at the same path there, and that
/// file is the same in both.
pub proof fn lemma_same_entry_in(a: FileSystemView, b: FileSystemView, dir: Seq<char>, id: Seq<char>)
    requires
        !(id.len() > 0 && id[0] == '/'),
        same_entry_in(a, b, dir, id),
    ensures
        locate_in(a, dir, id) == locate_in(b, dir, id),
        locate_in(a, dir, id) matches Some(path) ==> same_file(a, b, path),
{
    let apps = below(dir, "applications"@);
    let dash = index_of(id, '-');
    let vendored = below(below(apps, id.take(dash)), id.skip(dash + 1));
    let direct = below(apps, id);
    let probes = probes_of(dir, id);
    if dash < id.len() {
        assert(probes[0] == vendored && probes[1] == direct);
    } else {
        assert(probes[0] == direct);
    }
    if !(dash < id.len() && a.files.dom().contains(vendored)) && !a.files.dom().contains(direct)
        && a.directories.dom().contains(apps) {
        let entries = a.directories[apps];
        let f = in_subdirectory(a, apps, id);
        let g = in_subdirectory(b, apps, id);
        assert forall|e: int| 0 <= e < entries.len() implies f(#[trigger] entries[e]) == g(
            entries[e],
        ) by {
            assert(same_file(a, b, below(below(apps, entries[e]), id)));
        }
        lemma_first_some_same(entries, f, g);
        if first_some(entries, f) is Some {
            let e = lemma_first_some_witness(entries, f);
            assert(same_file(a, b, below(below(apps, entries[e]), id)));
        }
    }
}

/// Two file systems that hold the same wherever a desktop entry may lie
/// give the same command line for it.
pub proof fn lemma_same_entry(
    a: FileSystemView,
    b: FileSystemView,
    data_dirs: Seq<Seq<char>>,
    id: Seq<char>,
)
    requires
        same_entry(a, b, data_dirs, id),
    ensures
        command_of(a, data_dirs, id) == command_of(b, data_dirs, id),
{
    lemma_located_is_file(a, data_dirs, id);
    if !(id.len() > 0 && id[0] == '/') {
        let f = in_data_dir(a, id);
        let g = in_data_dir(b, id);
        assert forall|d: int| 0 <= d < data_dirs.len() implies f(#[trigger] data_dirs[d]) == g(
            data_dirs[d],
        ) by {
            lemma_same_entry_in(a, b, data_dirs[d], id);
        }
        lemma_first_some_same(data_dirs, f, g);
        if first_some(data_dirs, f) is Some {
            let d = lemma_first_some_witness(data_dirs, f);
            lemma_same_entry_in(a, b, data_dirs[d], id);
        }
    }
}

/// A snapshot suffices: a file system that holds what a resolution looks
/// at on the disk gives the answer that the disk gives.
pub proof fn lemma_snapshot_suffices(
    env: EnvironmentView,
    disk: FileSystemView,
    snapshot: FileSystemView,
    mime: Seq<char>,
)
    requires
        is_snapshot(env, disk, snapshot, mime),
    ensures
        default_app(env, snapshot, mime) == default_app(env, disk, mime),
{
    let paths = search_paths(dirs_of(env, None));
    let dirs = data_dirs_in(env);
    lemma_one_pass(env, disk, mime);
    lemma_one_pass(env, snapshot, mime);
    assert forall|i: int| 0 <= i < paths.len() implies by_file(disk, dirs, mime)(
        #[trigger] paths[i],
    ) == by_file(snapshot, dirs, mime)(paths[i]) by {
        let path = paths[i];
        assert(same_file(disk, snapshot, path));
        if disk.files.dom().contains(path) {
            let text = disk.files[path];
            let pairs = parse(text);
            let ids = association_ids_of(text, mime);
            assert forall|k: int| 0 <= k < pairs.len() implies by_pair(disk, dirs, mime)(
                #[trigger] pairs[k],
            ) == by_pair(snapshot, dirs, mime)(pairs[k]) by {
                if associates(pairs[k], mime) {
                    let named = tokens(pairs[k].value, ';');
                    assert forall|t: int| 0 <= t < named.len() implies by_id(disk, dirs)(
                        #[trigger] named[t],
                    ) == by_id(snapshot, dirs)(named[t]) by {
                        let parts = pairs.map_values(ids_of_pair(mime));
                        assert(parts[k] == named);
                        lemma_flatten_contains(parts, k, t);
                        let j = choose|j: int| 0 <= j < ids.len() && ids[j] == named[t];
                        assert(same_entry(disk, snapshot, dirs, ids[j]));
                        lemma_same_entry(disk, snapshot, dirs, named[t]);
                    }
                    lemma_first_some_same(named, by_id(disk, dirs), by_id(snapshot, dirs));
                }
            }
            lemma_first_some_same(pairs, by_pair(disk, dirs, mime), by_pair(snapshot, dirs, mime));
        }
    }
    lemma_first_some_same(paths, by_file(disk, dirs, mime), by_file(snapshot, dirs, mime));
}

/// No default application is known for a MIME type.
#[derive(Debug)]
pub struct NotFound {
    /// The MIME type that was asked for.
    pub query: String,
}

impl NotFound {
    /// The error in words.
    pub fn message(&self) -> (m: String)
        ensures
            m@ == "no default application for "@ + self.query@,
    {
        let mut m = String::from_str("no default application for ");
        m.append(self.query.as_str());
        m
    }
}

/// The path of `name` directly inside `dir`.
fn below_path(dir: &str, name: &str) -> (r: String)
    ensures
        r@ == below(dir@, name@),
{
    let mut r = String::from_str(dir);
    r.push('/');
    r.append(name);
    r
}

/// The directory `applications` of the data directory `data_dir`.
pub fn applications_dir(data_dir: &str) -> (r: String)
    ensures
        r@ == below(data_dir@, "applications"@),
{
    below_path(data_dir, "applications")
}

/// The path of the desktop entry `id` inside the subdirectory `entry` of
/// the directory `applications` of `data_dir`.
pub fn subdirectory_probe(data_dir: &str, entry: &str, id: &str) -> (r: String)
    ensures
        r@ == below(below(below(data_dir@, "applications"@), entry@), id@),
{
    let apps = below_path(data_dir, "applications");
    let sub = below_path(apps.as_str(), entry);
    below_path(sub.as_str(), id)
}

/// The paths at which the desktop entry `id` may lie below the data
/// directory `data_dir`, apart from the subdirectories of its directory
/// `applications`.
pub fn probe_paths(data_dir: &str, id: &str) -> (r: Vec<String>)
    ensures
        r.deep_view() == probes_of(data_dir@, id@),
{
    let mut r: Vec<String> = Vec::new();
    if !id.is_empty() && id.get_char(0) == '/' {
        r.push(String::from_str(id));
        assert(r.deep_view() =~= seq![id@]);
        return r;
    }
    let apps = below_path(data_dir, "applications");
    let chars = chars_of(id);
    let n = chars.len();
    assert(chars@.subrange(0, n as int) =~= id@);
    let dash = find_char(&chars, 0, n, '-');
    let direct = below_path(apps.as_str(), id);
    if dash < n {
        let vendor = string_of(&chars, 0, dash);
        let rest = string_of(&chars, dash + 1, n);
        assert(id@.take(dash as int) =~= vendor@);
        assert(id@.skip(dash + 1) =~= rest@);
        let inside = below_path(apps.as_str(), vendor.as_str());
        let vendored = below_path(inside.as_str(), rest.as_str());
        r.push(vendored);
        r.push(direct);
        assert(r.deep_view() =~= seq![vendored@, direct@]);
    } else {
        r.push(direct);
        assert(r.deep_view() =~= seq![direct@]);
    }
    r
}

/// The desktop entries that an association file with the text `text`
/// names for the type `query`, in the order in which they are tried.
pub fn association_ids(text: &str, query: &str) -> (ids: Vec<String>)
    ensures
        ids.deep_view() == association_ids_of(text@, query@),
{
    let pairs = parse_str(text);
    let ghost f = ids_of_pair(query@);
    let ghost views = pairs.deep_view();
    let mut ids: Vec<String> = Vec::new();
    let mut i: usize = 0;
    assert(views.take(0).map_values(f) =~= Seq::<Seq<Seq<char>>>::empty());
    assert(ids.deep_view() =~= views.take(0).map_values(f).flatten());
    while i < pairs.len()
        invariant
            i <= pairs.len(),
            views == pairs.deep_view(),
            views == parse(text@),
            f == ids_of_pair(query@),
            ids.deep_view() == views.take(i as int).map_values(f).flatten(),
        decreases pairs.len() - i,
    {
        let ghost before = ids.deep_view();
        let section = pairs[i].section.as_str();
        proof {
            assert(views[i as int] == pairs[i as int]@);
            views.take(i as int).map_values(f).lemma_flatten_push(f(views[i as int]));
            assert(views.take(i as int).map_values(f).push(f(views[i as int])) =~= views.take(
                i + 1,
            ).map_values(f));
        }
        if (same_text(section, "Added Associations") || same_text(section, "Default Applications"))
            && same_text(pairs[i].key.as_str(), query) {
            let mut found = tokens_of(pairs[i].value.as_str(), ';');
            let ghost more = found.deep_view();
            ids.append(&mut found);
            assert(ids.deep_view() =~= before + more);
        } else {
            assert(ids.deep_view() =~= before + Seq::<Seq<char>>::empty());
        }
        i += 1;
    }
    assert(views.take(i as int) =~= views);
    ids
}

/// The file of the desktop entry `id` below the data directory `dir`.
fn find_in_data_dir(fs: &FileSystem, dir: &str, id: &str) -> (r: Option<String>)
    ensures
        r.deep_view() == locate_in(fs@, dir@, id@),
{
    let apps = below_path(dir, "applications");
    let chars = chars_of(id);
    let n = chars.len();
    assert(chars@.subrange(0, n as int) =~= id@);
    let dash = find_char(&chars, 0, n, '-');
    if dash < n {
        let vendor = string_of(&chars, 0, dash);
        let rest = string_of(&chars, dash + 1, n);
        assert(id@.take(dash as int) =~= vendor@);
        assert(id@.skip(dash + 1) =~= rest@);
        let inside = below_path(apps.as_str(), vendor.as_str());
        let vendored = below_path(inside.as_str(), rest.as_str());
        if fs.is_file(vendored.as_str()) {
            return Some(vendored);
        }
    }
    let direct = below_path(apps.as_str(), id);
    if fs.is_file(direct.as_str()) {
        return Some(direct);
    }
    match fs.entries(apps.as_str()) {
        None => None,
        Some(entries) => {
            let ghost f = in_subdirectory(fs@, apps@, id@);
            let ghost names = entries.deep_view();
            let mut i: usize = 0;
            while i < entries.len()
                invariant
                    i <= entries.len(),
                    names == entries.deep_view(),
                    f == in_subdirectory(fs@, apps@, id@),
                    locate_in(fs@, dir@, id@) == first_some(names, f),
                    first_some(names.take(i as int), f) is None,
                decreases entries.len() - i,
            {
                let sub = below_path(apps.as_str(), entries[i].as_str());
                let path = below_path(sub.as_str(), id);
                proof {
                    assert(names[i as int] == entries[i as int]@);
                    lemma_first_some_take_succ(names, f, i as int);
                }
                if fs.is_file(path.as_str()) {
                    proof {
                        lemma_first_some_found(names, f, i as int);
                    }
                    return Some(path);
                }
                i += 1;
            }
            proof {
                lemma_first_some_exhausted(names, f);
            }
            None
        },
    }
}

/// The file of the desktop entry `id`.
fn find_desktop_file(fs: &FileSystem, data_dirs: &Vec<String>, id: &str) -> (r: Option<String>)
    ensures
        r.deep_view() == locate(fs@, data_dirs.deep_view(), id@),
{
    if !id.is_empty() && id.get_char(0) == '/' {
        return if fs.is_file(id) {
            Some(String::from_str(id))
        } else {
            None
        };
    }
    let ghost f = in_data_dir(fs@, id@);
    let ghost dirs = data_dirs.deep_view();
    let mut i: usize = 0;
    while i < data_dirs.len()
        invariant
            i <= data_dirs.len(),
            dirs == data_dirs.deep_view(),
            f == in_data_dir(fs@, id@),
            locate(fs@, dirs, id@) == first_some(dirs, f),
            first_some(dirs.take(i as int), f) is None,
        decreases data_dirs.len() - i,
    {
        let found = find_in_data_dir(fs, data_dirs[i].as_str(), id);
        proof {
            assert(dirs[i as int] == data_dirs[i as int]@);
            lemma_first_some_take_succ(dirs, f, i as int);
        }
        if found.is_some() {
            proof {
                lemma_first_some_found(dirs, f, i as int);
            }
            return found;
        }
        i += 1;
    }
    proof {
        lemma_first_some_exhausted(dirs, f);
    }
    None
}

/// The command line of a desktop entry with the text `text`.
pub fn exec_line(text: &str) -> (r: Option<String>)
    ensures
        r.deep_view() == exec_of(text@),
{
    let pairs = parse_str(text);
    let ghost f = |p: PairView| exec_value(p);
    let ghost views = pairs.deep_view();
    let mut i: usize = 0;
    while i < pairs.len()
        invariant
            i <= pairs.len(),
            views == pairs.deep_view(),
            views == parse(text@),
            f == |p: PairView| exec_value(p),
            first_some(views.take(i as int), f) is None,
        decreases pairs.len() - i,
    {
        proof {
            assert(views[i as int] == pairs[i as int]@);
            lemma_first_some_take_succ(views, f, i as int);
        }
        if same_text(pairs[i].section.as_str(), "Desktop Entry") && same_text(
            pairs[i].key.as_str(),
            "Exec",
        ) {
            proof {
                lemma_first_some_found(views, f, i as int);
            }
            return Some(pairs[i].value.clone());
        }
        i += 1;
    }
    proof {
        lemma_first_some_exhausted(views, f);
    }
    None
}

/// The command line of the desktop entry `desktop_name`: the file of the
/// entry is found, then the command line in it.
pub fn desktop_file_to_command(desktop_name: &str, fs: &FileSystem, data_dirs: &Vec<String>) -> (r:
    Option<String>)
    ensures
        r.deep_view() == command_of(fs@, data_dirs.deep_view(), desktop_name@),
{
    proof {
        lemma_located_is_file(fs@, data_dirs.deep_view(), desktop_name@);
    }
    match find_desktop_file(fs, data_dirs, desktop_name) {
        Some(path) => match fs.read(path.as_str()) {
            Some(text) => exec_line(text.as_str()),
            None => None,
        },
        None => None,
    }
}

/// The command line that one pair leads to.
fn check_pair(pair: &Pair, fs: &FileSystem, data_dirs: &Vec<String>, query: &str) -> (r: Option<
    String,
>)
    ensures
        r.deep_view() == command_of_pair(fs@, data_dirs.deep_view(), query@, pair@),
{
    let section = pair.section.as_str();
    if !(same_text(section, "Added Associations") || same_text(section, "Default Applications"))
        || !same_text(pair.key.as_str(), query) {
        return None;
    }
    let ids = tokens_of(pair.value.as_str(), ';');
    let ghost f = by_id(fs@, data_dirs.deep_view());
    let ghost views = ids.deep_view();
    let mut i: usize = 0;
    while i < ids.len()
        invariant
            i <= ids.len(),
            views == ids.deep_view(),
            f == by_id(fs@, data_dirs.deep_view()),
            command_of_pair(fs@, data_dirs.deep_view(), query@, pair@) == first_some(views, f),
            first_some(views.take(i as int), f) is None,
        decreases ids.len() - i,
    {
        let found = desktop_file_to_command(ids[i].as_str(), fs, data_dirs);
        proof {
            assert(views[i as int] == ids[i as int]@);
            lemma_first_some_take_succ(views, f, i as int);
        }
        if found.is_some() {
            proof {
                lemma_first_some_found(views, f, i as int);
            }
            return found;
        }
        i += 1;
    }
    proof {
        lemma_first_some_exhausted(views, f);
    }
    None
}

/// The command line that the association file `filename` leads to for the
/// type `query`.
pub fn check_mimeapps_list(
    filename: &str,
    fs: &FileSystem,
    data_dirs: &Vec<String>,
    query: &str,
) -> (r: Option<String>)
    ensures
        r.deep_view() == command_in_file(fs@, data_dirs.deep_view(), query@, filename@),
{
    let text = match fs.read(filename) {
        Some(text) => text,
        None => { return None; },
    };
    let pairs = parse_str(text.as_str());
    let ghost f = by_pair(fs@, data_dirs.deep_view(), query@);
    let ghost views = pairs.deep_view();
    let mut i: usize = 0;
    while i < pairs.len()
        invariant
            i <= pairs.len(),
            views == pairs.deep_view(),
            f == by_pair(fs@, data_dirs.deep_view(), query@),
            command_in_file(fs@, data_dirs.deep_view(), query@, filename@) == first_some(views, f),
            first_some(views.take(i as int), f) is None,
        decreases pairs.len() - i,
    {
        let found = check_pair(&pairs[i], fs, data_dirs, query);
        proof {
            assert(views[i as int] == pairs[i as int]@);
            lemma_first_some_take_succ(views, f, i as int);
        }
        if found.is_some() {
            proof {
                lemma_first_some_found(views, f, i as int);
            }
            return found;
        }
        i += 1;
    }
    proof {
        lemma_first_some_exhausted(views, f);
    }
    None
}

/// The command line that the association files `paths` lead to for the
/// type `query`.
pub fn check_mimeapps_lists(
    paths: &Vec<String>,
    fs: &FileSystem,
    data_dirs: &Vec<String>,
    query: &str,
) -> (r: Option<String>)
    ensures
        r.deep_view() == command_in_files(fs@, data_dirs.deep_view(), query@, paths.deep_view()),
{
    let ghost f = by_file(fs@, data_dirs.deep_view(), query@);
    let ghost views = paths.deep_view();
    let mut i: usize = 0;
    while i < paths.len()
        invariant
            i <= paths.len(),
            views == paths.deep_view(),
            f == by_file(fs@, data_dirs.deep_view(), query@),
            first_some(views.take(i as int), f) is None,
        decreases paths.len() - i,
    {
        let found = check_mimeapps_list(paths[i].as_str(), fs, data_dirs, query);
        proof {
            assert(views[i as int] == paths[i as int]@);
            lemma_first_some_take_succ(views, f, i as int);
        }
        if found.is_some() {
            proof {
                lemma_first_some_found(views, f, i as int);
            }
            return found;
        }
        i += 1;
    }
    proof {
        lemma_first_some_exhausted(views, f);
    }
    None
}

/// The data directories of `dirs`, the user's own first.
pub fn data_directories(dirs: &Dirs) -> (r: Vec<String>)
    ensures
        r.deep_view() == with_home(dirs@.data_home, dirs@.data_dirs),
{
    let mut r: Vec<String> = Vec::new();
    match &dirs.data_home {
        Some(h) => r.push(h.clone()),
        None => {},
    }
    let ghost first = r.deep_view();
    assert(first =~= match dirs@.data_home {
        Some(h) => seq![h],
        None => Seq::empty(),
    });
    let mut i: usize = 0;
    while i < dirs.data_dirs.len()
        invariant
            i <= dirs.data_dirs.len(),
            r.deep_view() == first + dirs.data_dirs.deep_view().take(i as int),
        decreases dirs.data_dirs.len() - i,
    {
        let ghost before = r.deep_view();
        let dir = dirs.data_dirs[i].clone();
        assert(dir@ == dirs.data_dirs.deep_view()[i as int]);
        r.push(dir);
        assert(r.deep_view() =~= before.push(dir@));
        i += 1;
        assert(r.deep_view() =~= first + dirs.data_dirs.deep_view().take(i as int));
    }
    assert(dirs.data_dirs.deep_view().take(i as int) =~= dirs.data_dirs.deep_view());
    assert(r.deep_view() =~= with_home(dirs@.data_home, dirs@.data_dirs));
    r
}

/// The command line of the default application for the MIME type `query`,
/// in the environment `env` and with the files of `fs`.
pub fn query_default_app(env: &Environment, fs: &FileSystem, query: &str) -> (r: Result<
    String,
    NotFound,
>)
    ensures
        match r {
            Ok(command) => default_app(env@, fs@, query@) == Some(command@),
            Err(e) => default_app(env@, fs@, query@) is None && e.query@ == query@,
        },
{
    let dirs = Dirs::all(env, None);
    let data_dirs = data_directories(&dirs);
    let primary = dirs.mimeapps_search_paths();
    match check_mimeapps_lists(&primary, fs, &data_dirs, query) {
        Some(command) => { return Ok(command); },
        None => {},
    }
    let secondary = dirs.mimeapps_data_paths();
    match check_mimeapps_lists(&secondary, fs, &data_dirs, query) {
        Some(command) => Ok(command),
        None => Err(NotFound { query: String::from_str(query) }),
    }
}

} // verus!
