//! Choosing the image files among the entries of directory walks.
//!
//! The walk itself is the caller's work: it hands over, for each root, what it
//! found there. The scanner keeps the entries that are regular files, lie
//! under no excluded directory, are not marked as hidden by a name that begins
//! with `._`, and carry one of the allowed extensions.

use crate::errors::SemantiXelError;
use crate::paths::{
    begins, components, extension_of, file_name, path_components, path_extension, path_file_name,
    path_starts_with, views,
};
use crate::text::{ascii_lowercase, is_ascii_text, lower, lowered_text, texts, to_chars};
use vstd::hash_set::StringHashSet;
use vstd::prelude::*;

verus! {

/// One entry of a directory walk.
#[derive(Debug, Clone)]
pub enum WalkEntry {
    /// The walk could not read the entry, or its path is not text.
    Unreadable,
    /// An entry at `path`; `is_file` says whether it is a regular file.
    Found { path: String, is_file: bool },
}

/// What a walk below one root found.
#[derive(Debug, Clone)]
pub struct RootWalk {
    /// Whether the root is a directory.
    pub is_directory: bool,
    /// The entries below the root, in the order of the walk.
    pub entries: Vec<WalkEntry>,
}

/// The outcome of a scan.
#[derive(Debug, Clone)]
pub struct ScanResult {
    /// The paths of the files that were kept.
    pub paths: Vec<String>,
    /// How many files were kept.
    pub total_files: usize,
    /// How long the scan took, in milliseconds; zero until the caller says.
    pub elapsed_ms: u128,
}

impl ScanResult {
    /// Whether the result hangs together: no path is listed twice, and the
    /// count is the number of paths.
    pub open spec fn is_consistent(self) -> bool {
        &&& texts(self.paths@).no_duplicates()
        &&& self.total_files == self.paths@.len()
    }

    /// The same result with the time that the whole scan took.
    pub fn timed(self, elapsed_ms: u128) -> (result: ScanResult)
        ensures
            result.paths == self.paths,
            result.total_files == self.total_files,
            result.elapsed_ms == elapsed_ms,
    {
        ScanResult { paths: self.paths, total_files: self.total_files, elapsed_ms }
    }
}

/// `paths` without its repeats: each text once, where it first occurs.
pub open spec fn distinct(paths: Seq<Seq<char>>) -> Seq<Seq<char>>
    decreases paths.len(),
{
    if paths.len() == 0 {
        Seq::<Seq<char>>::empty()
    } else if distinct(paths.drop_last()).contains(paths.last()) {
        distinct(paths.drop_last())
    } else {
        distinct(paths.drop_last()).push(paths.last())
    }
}

/// Without its repeats a run of paths holds the same texts, each once, and
/// as many as there are different texts in it.
pub proof fn lemma_distinct(paths: Seq<Seq<char>>)
    ensures
        distinct(paths).no_duplicates(),
        forall|path: Seq<char>| distinct(paths).contains(path) <==> paths.contains(path),
        distinct(paths).len() == paths.to_set().len(),
    decreases paths.len(),
{
    let kept = distinct(paths);
    if paths.len() > 0 {
        let before = distinct(paths.drop_last());
        lemma_distinct(paths.drop_last());
        assert forall|path: Seq<char>| kept.contains(path) <==> paths.contains(path) by {
            if paths.contains(path) {
                let i = choose|i: int| 0 <= i < paths.len() && paths[i] == path;
                if i < paths.len() - 1 {
                    assert(paths.drop_last()[i] == path);
                    assert(paths.drop_last().contains(path));
                    assert(before.contains(path));
                    let j = choose|j: int| 0 <= j < before.len() && before[j] == path;
                    assert(kept[j] == path);
                } else if !before.contains(path) {
                    assert(kept[kept.len() - 1] == path);
                } else {
                    let j = choose|j: int| 0 <= j < before.len() && before[j] == path;
                    assert(kept[j] == path);
                }
            }
            if kept.contains(path) {
                let j = choose|j: int| 0 <= j < kept.len() && kept[j] == path;
                if j < before.len() {
                    assert(before[j] == path);
                    assert(paths.drop_last().contains(path));
                    let i = choose|i: int|
                        0 <= i < paths.drop_last().len() && paths.drop_last()[i] == path;
                    assert(paths[i] == path);
                } else {
                    assert(paths[paths.len() - 1] == path);
                }
            }
        }
        assert(kept.no_duplicates()) by {
            assert forall|i: int, j: int| 0 <= i < kept.len() && 0 <= j < kept.len() && i != j
                implies kept[i] != kept[j] by {
                if i < before.len() && j < before.len() {
                    assert(before[i] != before[j]);
                } else if i < before.len() {
                    assert(before[i] == kept[i]);
                } else if j < before.len() {
                    assert(before[j] == kept[j]);
                }
            }
        }
    }
    kept.unique_seq_to_set();
    assert(kept.to_set() =~= paths.to_set());
}

/// Whether some root that is a directory keeps a file at `path`.
pub open spec fn some_root_keeps(
    scanner: ScannerView,
    walks: Seq<RootWalk>,
    path: Seq<char>,
) -> bool {
    exists|i: int| 0 <= i < walks.len() && scanner.kept_below(#[trigger] walks[i]).contains(path)
}

/// What all roots contribute is what some root contributes.
pub proof fn lemma_kept_overall(scanner: ScannerView, walks: Seq<RootWalk>, path: Seq<char>)
    ensures
        scanner.kept_overall(walks).contains(path) <==> some_root_keeps(scanner, walks, path),
    decreases walks.len(),
{
    if walks.len() > 0 {
        let before = scanner.kept_overall(walks.drop_last());
        let added = scanner.kept_below(walks.last());
        let all = scanner.kept_overall(walks);
        lemma_kept_overall(scanner, walks.drop_last(), path);
        if all.contains(path) {
            let k = choose|k: int| 0 <= k < all.len() && all[k] == path;
            if k < before.len() {
                assert(before[k] == path);
                let i = choose|i: int|
                    0 <= i < walks.drop_last().len() && scanner.kept_below(
                        #[trigger] walks.drop_last()[i],
                    ).contains(path);
                assert(walks[i] == walks.drop_last()[i]);
            } else {
                assert(added[k - before.len()] == path);
                assert(scanner.kept_below(walks[walks.len() - 1]).contains(path));
            }
        }
        if some_root_keeps(scanner, walks, path) {
            let i = choose|i: int|
                0 <= i < walks.len() && scanner.kept_below(#[trigger] walks[i]).contains(path);
            if i < walks.len() - 1 {
                assert(walks.drop_last()[i] == walks[i]);
                assert(before.contains(path));
                let k = choose|k: int| 0 <= k < before.len() && before[k] == path;
                assert(all[k] == path);
            } else {
                let k = choose|k: int| 0 <= k < added.len() && added[k] == path;
                assert(all[before.len() + k] == path);
            }
        }
    }
}

/// Which files a scan keeps.
pub struct DirectoryScanner {
    directories: Vec<String>,
    exclude_dirs: Vec<String>,
    extensions: Vec<String>,
}

/// A scanner's configuration as plain text.
pub struct ScannerView {
    /// The roots to walk.
    pub directories: Seq<Seq<char>>,
    /// The directories whose contents are left out.
    pub exclude_dirs: Seq<Seq<char>>,
    /// The allowed extensions, in lowercase and without a dot.
    pub extensions: Seq<Seq<char>>,
}

/// Whether a file name carries the marker of a hidden companion file.
pub open spec fn is_hidden(name: Seq<char>) -> bool {
    name.len() >= 2 && name[0] == '.' && name[1] == '_'
}

/// Each text of `items` in lowercase.
pub open spec fn lowercased(items: Seq<Seq<char>>) -> Seq<Seq<char>> {
    Seq::new(items.len(), |i: int| lowered_text(items[i]))
}

impl ScannerView {
    /// Whether `path` lies at or under one of the excluded directories.
    pub open spec fn excludes(self, path: Seq<char>) -> bool {
        exists|i: int|
            0 <= i < self.exclude_dirs.len() && path_starts_with(
                path,
                #[trigger] self.exclude_dirs[i],
            )
    }

    /// Whether `extension`, whatever its case, is one of the allowed ones.
    pub open spec fn allows(self, extension: Seq<char>) -> bool {
        self.extensions.contains(lowered_text(extension))
    }

    /// Whether a file at `path` is kept.
    pub open spec fn admits(self, path: Seq<char>) -> bool {
        &&& !self.excludes(path)
        &&& path_file_name(path) matches Some(name)
        &&& !is_hidden(name)
        &&& path_extension(path) matches Some(extension)
        &&& self.allows(extension)
    }

    /// Whether `entry` is kept.
    pub open spec fn accepts(self, entry: WalkEntry) -> bool {
        entry matches WalkEntry::Found { path, is_file } && is_file && self.admits(path@)
    }

    /// The paths of the entries that are kept, in the order of `entries`.
    pub open spec fn kept(self, entries: Seq<WalkEntry>) -> Seq<Seq<char>>
        decreases entries.len(),
    {
        if entries.len() == 0 {
            Seq::<Seq<char>>::empty()
        } else if self.accepts(entries.last()) {
            self.kept(entries.drop_last()).push(entries.last()->path@)
        } else {
            self.kept(entries.drop_last())
        }
    }

    /// The paths that one root contributes: nothing unless it is a directory.
    pub open spec fn kept_below(self, walk: RootWalk) -> Seq<Seq<char>> {
        if walk.is_directory {
            self.kept(walk.entries@)
        } else {
            Seq::<Seq<char>>::empty()
        }
    }

    /// The paths that all roots contribute, root after root.
    pub open spec fn kept_overall(self, walks: Seq<RootWalk>) -> Seq<Seq<char>>
        decreases walks.len(),
    {
        if walks.len() == 0 {
            Seq::<Seq<char>>::empty()
        } else {
            self.kept_overall(walks.drop_last()) + self.kept_below(walks.last())
        }
    }
}

/// The case of the letters of an ASCII extension does not count: two such
/// extensions that differ in case alone are both allowed or both not.
pub proof fn lemma_ascii_case_does_not_count(
    scanner: ScannerView,
    first: Seq<char>,
    second: Seq<char>,
)
    requires
        is_ascii_text(first),
        is_ascii_text(second),
        ascii_lowercase(first) == ascii_lowercase(second),
    ensures
        scanner.allows(first) == scanner.allows(second),
        scanner.allows(first) == scanner.extensions.contains(ascii_lowercase(first)),
{
}

/// Every path that is kept among some entries is one that the scanner
/// admits: it lies under no excluded directory, its name is not hidden, and
/// its extension is allowed.
pub proof fn lemma_kept_paths_are_admitted(scanner: ScannerView, entries: Seq<WalkEntry>)
    ensures
        forall|i: int|
            0 <= i < scanner.kept(entries).len() ==> scanner.admits(
                #[trigger] scanner.kept(entries)[i],
            ),
    decreases entries.len(),
{
    if entries.len() > 0 {
        lemma_kept_paths_are_admitted(scanner, entries.drop_last());
        let before = scanner.kept(entries.drop_last());
        assert forall|i: int| 0 <= i < scanner.kept(entries).len() implies scanner.admits(
            #[trigger] scanner.kept(entries)[i],
        ) by {
            if i < before.len() {
                assert(scanner.kept(entries)[i] == before[i]);
            }
        }
    }
}

/// Every path that a scan lists is one that the scanner admits, whatever the
/// walks found.
pub proof fn lemma_listed_paths_are_admitted(scanner: ScannerView, walks: Seq<RootWalk>)
    ensures
        forall|i: int|
            0 <= i < scanner.kept_overall(walks).len() ==> scanner.admits(
                #[trigger] scanner.kept_overall(walks)[i],
            ),
    decreases walks.len(),
{
    if walks.len() > 0 {
        lemma_listed_paths_are_admitted(scanner, walks.drop_last());
        lemma_kept_paths_are_admitted(scanner, walks.last().entries@);
        let before = scanner.kept_overall(walks.drop_last());
        let added = scanner.kept_below(walks.last());
        assert forall|i: int| 0 <= i < scanner.kept_overall(walks).len() implies scanner.admits(
            #[trigger] scanner.kept_overall(walks)[i],
        ) by {
            if i < before.len() {
                assert(scanner.kept_overall(walks)[i] == before[i]);
            } else {
                assert(scanner.kept_overall(walks)[i] == added[i - before.len()]);
            }
        }
    }
}

/// The extensions that are allowed where the caller names none.
pub open spec fn default_extension_texts() -> Seq<Seq<char>> {
    seq!["jpg"@, "jpeg"@, "png"@, "gif"@, "bmp"@]
}

/// The extensions that are allowed where the caller names none.
pub fn default_extensions() -> (extensions: Vec<String>)
    ensures
        texts(extensions@) == default_extension_texts(),
{
    let mut extensions: Vec<String> = Vec::new();
    extensions.push("jpg".to_owned());
    extensions.push("jpeg".to_owned());
    extensions.push("png".to_owned());
    extensions.push("gif".to_owned());
    extensions.push("bmp".to_owned());
    assert(texts(extensions@) =~= default_extension_texts());
    extensions
}

/// The extensions that the caller names, or the default ones where it names
/// none.
pub fn extensions_or_default(chosen: Option<Vec<String>>) -> (extensions: Vec<String>)
    ensures
        match chosen {
            Some(named) => extensions == named,
            None => texts(extensions@) == default_extension_texts(),
        },
{
    match chosen {
        Some(named) => named,
        None => default_extensions(),
    }
}

impl View for DirectoryScanner {
    type V = ScannerView;

    closed spec fn view(&self) -> ScannerView {
        ScannerView {
            directories: texts(self.directories@),
            exclude_dirs: texts(self.exclude_dirs@),
            extensions: texts(self.extensions@),
        }
    }
}

/// Each of `extensions` in lowercase.
fn lowercase_all(extensions: &Vec<String>) -> (lowered: Vec<String>)
    ensures
        texts(lowered@) == lowercased(texts(extensions@)),
{
    let mut lowered: Vec<String> = Vec::new();
    let mut i: usize = 0;
    while i < extensions.len()
        invariant
            i <= extensions.len(),
            lowered@.len() == i,
            forall|k: int| 0 <= k < i ==> lowered@[k]@ == lowered_text(extensions@[k]@),
        decreases extensions.len() - i,
    {
        let chars = to_chars(extensions[i].as_str());
        lowered.push(lower(&chars));
        i += 1;
    }
    assert(texts(lowered@) =~= lowercased(texts(extensions@)));
    lowered
}

impl DirectoryScanner {
    /// A scanner for one root.
    pub fn new(
        directory: String,
        exclude_dirs: Vec<String>,
        extensions: Vec<String>,
    ) -> (scanner: Self)
        ensures
            scanner@.directories == seq![directory@],
            scanner@.exclude_dirs == texts(exclude_dirs@),
            scanner@.extensions == lowercased(texts(extensions@)),
    {
        let mut directories: Vec<String> = Vec::new();
        directories.push(directory);
        assert(texts(directories@) =~= seq![directory@]);
        let extensions = lowercase_all(&extensions);
        DirectoryScanner { directories, exclude_dirs, extensions }
    }

    /// A scanner for several roots.
    pub fn with_multiple_dirs(
        directories: Vec<String>,
        exclude_dirs: Vec<String>,
        extensions: Vec<String>,
    ) -> (scanner: Self)
        ensures
            scanner@.directories == texts(directories@),
            scanner@.exclude_dirs == texts(exclude_dirs@),
            scanner@.extensions == lowercased(texts(extensions@)),
    {
        let extensions = lowercase_all(&extensions);
        DirectoryScanner { directories, exclude_dirs, extensions }
    }

    /// The roots to walk.
    pub fn directories(&self) -> (roots: &Vec<String>)
        ensures
            texts(roots@) == self@.directories,
    {
        &self.directories
    }

    /// The directories whose contents are left out.
    pub fn exclude_dirs(&self) -> (excluded: &Vec<String>)
        ensures
            texts(excluded@) == self@.exclude_dirs,
    {
        &self.exclude_dirs
    }

    /// The allowed extensions, in lowercase.
    pub fn extensions(&self) -> (allowed: &Vec<String>)
        ensures
            texts(allowed@) == self@.extensions,
    {
        &self.extensions
    }

    /// Whether `path` lies at or under one of the excluded directories.
    pub fn is_excluded(&self, path: &str) -> (excluded: bool)
        ensures
            excluded == self@.excludes(path@),
    {
        let whole = components(path);
        let mut i: usize = 0;
        while i < self.exclude_dirs.len()
            invariant
                i <= self.exclude_dirs.len(),
                views(whole@) == path_components(path@),
                forall|k: int| 0 <= k < i ==> !path_starts_with(path@, self.exclude_dirs@[k]@),
            decreases self.exclude_dirs.len() - i,
        {
            let head = components(self.exclude_dirs[i].as_str());
            if begins(&whole, &head) {
                assert(self@.exclude_dirs[i as int] == self.exclude_dirs@[i as int]@);
                return true;
            }
            i += 1;
        }
        assert forall|k: int| 0 <= k < self@.exclude_dirs.len() implies !path_starts_with(
            path@,
            #[trigger] self@.exclude_dirs[k],
        ) by {
            assert(self@.exclude_dirs[k] == self.exclude_dirs@[k]@);
        }
        false
    }

    /// Whether the text `lowered` is one of the allowed extensions as it
    /// stands.
    pub fn holds_extension(&self, lowered: &String) -> (held: bool)
        ensures
            held == self@.extensions.contains(lowered@),
    {
        let mut i: usize = 0;
        while i < self.extensions.len()
            invariant
                i <= self.extensions.len(),
                forall|k: int| 0 <= k < i ==> self.extensions@[k]@ != lowered@,
            decreases self.extensions.len() - i,
        {
            if self.extensions[i] == *lowered {
                assert(self@.extensions[i as int] == lowered@);
                return true;
            }
            i += 1;
        }
        assert forall|k: int| 0 <= k < self@.extensions.len() implies self@.extensions[k]
            != lowered@ by {
            assert(self@.extensions[k] == self.extensions@[k]@);
        }
        false
    }

    /// Whether `extension`, whatever its case, is one of the allowed ones.
    pub fn allows_extension(&self, extension: &Vec<char>) -> (allowed: bool)
        ensures
            allowed == self@.allows(extension@),
    {
        let lowered = lower(extension);
        self.holds_extension(&lowered)
    }

    /// Whether a file at `path` is kept.
    pub fn admits(&self, path: &str) -> (kept: bool)
        ensures
            kept == self@.admits(path@),
    {
        if self.is_excluded(path) {
            return false;
        }
        match file_name(path) {
            None => false,
            Some(name) => {
                if name.len() >= 2 && name[0] == '.' && name[1] == '_' {
                    return false;
                }
                match extension_of(&name) {
                    None => false,
                    Some(extension) => self.allows_extension(&extension),
                }
            },
        }
    }

    /// Whether `entry` is kept.
    pub fn accepts(&self, entry: &WalkEntry) -> (kept: bool)
        ensures
            kept == self@.accepts(*entry),
    {
        match entry {
            WalkEntry::Unreadable => false,
            WalkEntry::Found { path, is_file } => *is_file && self.admits(path.as_str()),
        }
    }

    /// The paths that one root contributes, in the order of its walk.
    pub fn scan_directory(&self, walk: &RootWalk) -> (found: Vec<String>)
        ensures
            texts(found@) == self@.kept_below(*walk),
            forall|i: int| 0 <= i < found@.len() ==> self@.admits(#[trigger] found@[i]@),
    {
        let mut found: Vec<String> = Vec::new();
        if !walk.is_directory {
            assert(texts(found@) =~= Seq::<Seq<char>>::empty());
            return found;
        }
        let mut i: usize = 0;
        assert(walk.entries@.take(0) =~= Seq::<WalkEntry>::empty());
        assert(texts(found@) =~= Seq::<Seq<char>>::empty());
        while i < walk.entries.len()
            invariant
                i <= walk.entries.len(),
                texts(found@) == self@.kept(walk.entries@.take(i as int)),
                forall|k: int| 0 <= k < found@.len() ==> self@.admits(#[trigger] found@[k]@),
            decreases walk.entries.len() - i,
        {
            let ghost before = texts(found@);
            assert(walk.entries@.take(i + 1).drop_last() =~= walk.entries@.take(i as int));
            assert(walk.entries@.take(i + 1).last() == walk.entries@[i as int]);
            if self.accepts(&walk.entries[i]) {
                match &walk.entries[i] {
                    WalkEntry::Unreadable => {},
                    WalkEntry::Found { path, is_file } => {
                        found.push(path.clone());
                        assert(texts(found@) =~= before.push(path@));
                    },
                }
            }
            i += 1;
        }
        assert(walk.entries@.take(walk.entries.len() as int) =~= walk.entries@);
        found
    }

    /// The paths that all roots contribute, root after root, repeats
    /// included.
    fn gather(&self, walks: &Vec<RootWalk>) -> (paths: Vec<String>)
        ensures
            texts(paths@) == self@.kept_overall(walks@),
    {
        let mut paths: Vec<String> = Vec::new();
        let mut i: usize = 0;
        assert(walks@.take(0) =~= Seq::<RootWalk>::empty());
        assert(texts(paths@) =~= Seq::<Seq<char>>::empty());
        while i < walks.len()
            invariant
                i <= walks.len(),
                texts(paths@) == self@.kept_overall(walks@.take(i as int)),
            decreases walks.len() - i,
        {
            let ghost before = paths@;
            let mut found = self.scan_directory(&walks[i]);
            let ghost added = found@;
            assert(walks@.take(i + 1).drop_last() =~= walks@.take(i as int));
            assert(walks@.take(i + 1).last() == walks@[i as int]);
            paths.append(&mut found);
            assert(paths@ == before + added);
            assert(texts(paths@) =~= texts(before) + texts(added));
            i += 1;
        }
        assert(walks@.take(walks.len() as int) =~= walks@);
        paths
    }

    /// The files that are kept among what the walks of all roots found.
    ///
    /// A path is listed exactly when some root that is a directory keeps a
    /// file there, and it is listed once, however many roots reach it. The
    /// paths stand in the order in which the roots first reach them. The
    /// count is the number of paths. No listed path lies under an excluded
    /// directory, has a hidden name, or lacks an allowed extension. The time
    /// is zero: the caller puts it in once the whole scan is over.
    pub fn scan(&self, walks: &Vec<RootWalk>) -> (outcome: Result<ScanResult, SemantiXelError>)
        ensures
            outcome matches Ok(result) && {
                &&& texts(result.paths@) == distinct(self@.kept_overall(walks@))
                &&& result.is_consistent()
                &&& result.total_files == self@.kept_overall(walks@).to_set().len()
                &&& result.elapsed_ms == 0
                &&& forall|path: Seq<char>|
                    texts(result.paths@).contains(path) <==> some_root_keeps(self@, walks@, path)
                &&& forall|i: int|
                    0 <= i < result.paths@.len() ==> self@.admits(#[trigger] result.paths@[i]@)
            },
    {
        let paths = without_repeats(self.gather(walks));
        proof {
            let all = self@.kept_overall(walks@);
            lemma_distinct(all);
            lemma_listed_paths_are_admitted(self@, walks@);
            assert forall|path: Seq<char>|
                texts(paths@).contains(path) <==> some_root_keeps(self@, walks@, path) by {
                lemma_kept_overall(self@, walks@, path);
            }
            assert forall|i: int| 0 <= i < paths@.len() implies self@.admits(
                #[trigger] paths@[i]@,
            ) by {
                assert(texts(paths@)[i] == paths@[i]@);
                assert(texts(paths@).contains(paths@[i]@));
                assert(all.contains(paths@[i]@));
                let k = choose|k: int| 0 <= k < all.len() && all[k] == paths@[i]@;
                assert(self@.admits(all[k]));
            }
        }
        let total_files = paths.len();
        Ok(ScanResult { paths, total_files, elapsed_ms: 0 })
    }
}

/// `paths` without its repeats: each path once, where it first occurs.
pub fn without_repeats(paths: Vec<String>) -> (kept: Vec<String>)
    ensures
        texts(kept@) == distinct(texts(paths@)),
{
    let ghost given = paths@;
    let ghost all = texts(given);
    let mut seen = StringHashSet::new();
    let mut kept: Vec<String> = Vec::new();
    assert(all.take(0) =~= Seq::<Seq<char>>::empty());
    assert(texts(kept@) =~= Seq::<Seq<char>>::empty());
    for path in it: paths
        invariant
            it.seq() == given,
            all == texts(given),
            texts(kept@) == distinct(all.take(it.index())),
            forall|text: Seq<char>| seen@.contains(text) <==> texts(kept@).contains(text),
    {
        let ghost k = it.index();
        let ghost before = texts(kept@);
        assert(all[k] == path@);
        assert(all.take(k + 1).drop_last() =~= all.take(k));
        assert(all.take(k + 1).last() == path@);
        if !seen.contains(path.as_str()) {
            seen.insert(path.clone());
            kept.push(path);
            let ghost after = texts(kept@);
            assert(after =~= before.push(path@));
            assert forall|text: Seq<char>| seen@.contains(text) <==> after.contains(text) by {
                if before.contains(text) {
                    let j = choose|j: int| 0 <= j < before.len() && before[j] == text;
                    assert(after[j] == text);
                }
                if text == path@ {
                    assert(after[after.len() - 1] == text);
                }
                if after.contains(text) {
                    let j = choose|j: int| 0 <= j < after.len() && after[j] == text;
                    if j < before.len() {
                        assert(before[j] == text);
                    }
                }
            }
        }
    }
    assert(all.take(all.len() as int) =~= all);
    kept
}

} // verus!
