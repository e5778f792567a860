//! The directory-listing cache: one entry per category, holding the files
//! seen by the last successful scan. A scan that yields nothing never
//! replaces a cached listing; filesystem reading itself happens outside
//! this crate, which only receives the raw entries of a scan.

use vstd::prelude::*;
use vstd::string::StrSliceExecFns;
use vstd::string::StringExecFns;
use crate::store::streq;

verus! {

/// Seconds a cached category listing is served before a rescan is due.
pub const CACHE_REFRESH_SECS: u64 = 300;

/// The lowercasing of a character sequence, as `str::to_lowercase` does
/// it. The result depends on the characters alone; it is only named here.
pub uninterp spec fn lower_of(s: Seq<char>) -> Seq<char>;

/// Relies on str::to_lowercase: the result depends on the characters
/// alone, and an empty string stays empty.
#[verifier::external_body]
fn lowercase(s: &str) -> (r: String)
    ensures
        r@ == lower_of(s@),
        s@.len() == 0 ==> r@.len() == 0,
{
    s.to_lowercase()
}

/// The index of the last '.' in `name`, or -1 when there is none.
pub open spec fn spec_last_dot(name: Seq<char>) -> int
    decreases name.len(),
{
    if name.len() == 0 {
        -1
    } else if name.last() == '.' {
        name.len() - 1
    } else {
        spec_last_dot(name.drop_last())
    }
}

/// The raw (not yet lowercased) extension of a file name: the characters
/// after the last '.', absent when there is no '.' or the only '.' leads
/// the name.
pub open spec fn spec_raw_ext(name: Seq<char>) -> Option<Seq<char>> {
    let d = spec_last_dot(name);
    if d <= 0 {
        None
    } else {
        Some(name.skip(d + 1))
    }
}

/// The extension recorded for a file: the lowercased suffix, or the
/// literal "unknown" when the name has none.
pub open spec fn spec_ext_of(name: Seq<char>) -> Seq<char> {
    match spec_raw_ext(name) {
        Some(e) => lower_of(e),
        None => "unknown"@,
    }
}

/// Derives the recorded extension of a file name.
pub fn extension_of(name: &str) -> (r: String)
    ensures
        r@ == spec_ext_of(name@),
{
    let n = name.unicode_len();
    let mut i: usize = n;
    proof {
        assert(name@.subrange(0, n as int) =~= name@);
    }
    while i > 0
        invariant
            i <= n,
            n == name@.len(),
            spec_last_dot(name@) == spec_last_dot(name@.subrange(0, i as int)),
        decreases i,
    {
        proof {
            assert(name@.subrange(0, i as int).last() == name@[i - 1]);
            assert(name@.subrange(0, i as int).drop_last() =~= name@.subrange(0, i - 1));
        }
        if name.get_char(i - 1) == '.' {
            if i - 1 == 0 {
                return String::from_str("unknown");
            }
            let raw = name.substring_char(i, n);
            proof {
                assert(raw@ =~= name@.skip(i as int));
            }
            return lowercase(raw);
        }
        i = i - 1;
    }
    proof {
        assert(name@.subrange(0, 0).len() == 0);
    }
    String::from_str("unknown")
}

/// One raw entry of a directory scan, as handed in from outside: its
/// name, whether it is a subdirectory, and its size in bytes.
pub struct ScanEntry {
    pub name: String,
    pub is_dir: bool,
    pub size: u64,
}

/// The mathematical image of a scan entry: (name, is_dir, size).
pub type ScanModel = (Seq<char>, bool, u64);

impl ScanEntry {
    pub open spec fn model(&self) -> ScanModel {
        (self.name@, self.is_dir, self.size)
    }
}

/// One file of a cached listing: its name and recorded extension.
pub struct FileEntry {
    pub name: String,
    pub ext: String,
}

/// The mathematical image of a listed file: (name, extension).
pub type FileModel = (Seq<char>, Seq<char>);

impl FileEntry {
    pub open spec fn model(&self) -> FileModel {
        (self.name@, self.ext@)
    }
}

/// Whether a scan entry belongs in a listing: files only, and never
/// zero-byte ones.
pub open spec fn spec_eligible(e: ScanModel) -> bool {
    !e.1 && e.2 > 0
}

/// The listing built from a scan: the eligible entries in scan order,
/// each with its recorded extension.
pub open spec fn spec_listing(entries: Seq<ScanModel>) -> Seq<FileModel>
    decreases entries.len(),
{
    if entries.len() == 0 {
        Seq::<FileModel>::empty()
    } else {
        let rest = spec_listing(entries.drop_last());
        if spec_eligible(entries.last()) {
            rest + seq![(entries.last().0, spec_ext_of(entries.last().0))]
        } else {
            rest
        }
    }
}

/// Whether `f` is what an eligible entry of `entries` contributes to a
/// listing: its name with its derived extension.
pub open spec fn from_eligible(entries: Seq<ScanModel>, f: FileModel) -> bool {
    exists|i: int|
        0 <= i < entries.len() && spec_eligible(#[trigger] entries[i]) && f == ((
        entries[i].0,
        spec_ext_of(entries[i].0),
        ))
}

/// Law: directories and zero-byte files are excluded from listings; every
/// listed file stems from an eligible scan entry and carries its name and
/// derived extension.
pub proof fn lemma_listing_excludes(entries: Seq<ScanModel>)
    ensures
        forall|k: int|
            0 <= k < spec_listing(entries).len() ==> from_eligible(
                entries,
                #[trigger] spec_listing(entries)[k],
            ),
    decreases entries.len(),
{
    if entries.len() > 0 {
        lemma_listing_excludes(entries.drop_last());
        let rest = spec_listing(entries.drop_last());
        let all = spec_listing(entries);
        assert forall|k: int| 0 <= k < all.len() implies from_eligible(
            entries,
            #[trigger] all[k],
        ) by {
            if k < rest.len() {
                assert(from_eligible(entries.drop_last(), rest[k]));
                let i = choose|i: int|
                    0 <= i < entries.drop_last().len() && spec_eligible(
                        #[trigger] entries.drop_last()[i],
                    ) && rest[k] == ((
                        entries.drop_last()[i].0,
                        spec_ext_of(entries.drop_last()[i].0),
                    ));
                assert(entries[i] == entries.drop_last()[i]);
                assert(all[k] == rest[k]);
                assert(spec_eligible(entries[i]) && all[k] == ((
                    entries[i].0,
                    spec_ext_of(entries[i].0),
                )));
            } else {
                let i = entries.len() - 1;
                assert(spec_eligible(entries[i]));
                assert(all[k] == ((entries[i].0, spec_ext_of(entries[i].0))));
            }
        }
    }
}

/// Builds the listing of a scan: filters out directories and empty files
/// and derives each kept file's extension.
pub fn build_listing(entries: &Vec<ScanEntry>) -> (r: Vec<FileEntry>)
    ensures
        r@.map_values(|f: FileEntry| f.model()) == spec_listing(
            entries@.map_values(|e: ScanEntry| e.model()),
        ),
{
    let ghost model = entries@.map_values(|e: ScanEntry| e.model());
    let mut files: Vec<FileEntry> = Vec::new();
    let mut i: usize = 0;
    proof {
        assert(files@.map_values(|f: FileEntry| f.model()) =~= spec_listing(
            model.subrange(0, 0),
        ));
    }
    while i < entries.len()
        invariant
            i <= entries.len(),
            model == entries@.map_values(|e: ScanEntry| e.model()),
            files@.map_values(|f: FileEntry| f.model()) == spec_listing(
                model.subrange(0, i as int),
            ),
        decreases entries.len() - i,
    {
        let ghost prefix = model.subrange(0, i as int);
        let e = &entries[i];
        if !e.is_dir && e.size > 0 {
            let ext = extension_of(e.name.as_str());
            files.push(FileEntry { name: e.name.clone(), ext });
        }
        i = i + 1;
        proof {
            assert(model.subrange(0, i as int).drop_last() =~= prefix);
            assert(model.subrange(0, i as int).last() == model[i - 1]);
            assert(files@.map_values(|f: FileEntry| f.model()) =~= spec_listing(
                model.subrange(0, i as int),
            ));
        }
    }
    proof {
        assert(model.subrange(0, model.len() as int) =~= model);
    }
    files
}

/// One cached category: its name, the files of its last successful scan,
/// and when that scan ran (seconds since the Unix epoch).
pub struct CachedCategory {
    pub name: String,
    pub files: Vec<FileEntry>,
    pub last_update: u64,
}

/// The mathematical image of a cached category: (name, files, last scan).
pub type CategoryModel = (Seq<char>, Seq<FileModel>, u64);

impl CachedCategory {
    pub open spec fn model(&self) -> CategoryModel {
        (self.name@, self.files@.map_values(|f: FileEntry| f.model()), self.last_update)
    }
}

/// The position of the category named `name`, or -1 when it is not cached.
pub open spec fn spec_cat_index(cats: Seq<CategoryModel>, name: Seq<char>) -> int
    decreases cats.len(),
{
    if cats.len() == 0 {
        -1
    } else if cats.first().0 == name {
        0
    } else {
        let r = spec_cat_index(cats.drop_first(), name);
        if r < 0 {
            -1
        } else {
            r + 1
        }
    }
}

proof fn lemma_cat_index(cats: Seq<CategoryModel>, name: Seq<char>)
    ensures
        spec_cat_index(cats, name) < 0 ==> forall|j: int|
            0 <= j < cats.len() ==> (#[trigger] cats[j]).0 != name,
        spec_cat_index(cats, name) >= 0 ==> {
            let i = spec_cat_index(cats, name);
            i < cats.len() && cats[i].0 == name && forall|j: int|
                0 <= j < i ==> (#[trigger] cats[j]).0 != name
        },
    decreases cats.len(),
{
    if cats.len() > 0 && cats.first().0 != name {
        lemma_cat_index(cats.drop_first(), name);
        assert(forall|j: int|
            1 <= j < cats.len() ==> #[trigger] cats[j] == cats.drop_first()[j - 1]);
    }
}

/// The cached files and scan time of the category named `name`, if any.
pub open spec fn spec_find_category(cats: Seq<CategoryModel>, name: Seq<char>) -> Option<
    (Seq<FileModel>, u64),
> {
    let i = spec_cat_index(cats, name);
    if i < 0 {
        None
    } else {
        Some((cats[i].1, cats[i].2))
    }
}

/// The cache after storing `files` for `name` at time `now`: the cached
/// entry is replaced in place, or appended when the category is new.
pub open spec fn spec_store_category(
    cats: Seq<CategoryModel>,
    name: Seq<char>,
    files: Seq<FileModel>,
    now: u64,
) -> Seq<CategoryModel> {
    let i = spec_cat_index(cats, name);
    if i < 0 {
        cats + seq![(name, files, now)]
    } else {
        cats.update(i, (name, files, now))
    }
}

/// The cache after a scan of `name` at time `now`: the listing replaces
/// the cached entry only when it is non-empty; an empty scan changes
/// nothing, whatever was cached before.
pub open spec fn spec_apply_scan(
    cats: Seq<CategoryModel>,
    name: Seq<char>,
    entries: Seq<ScanModel>,
    now: u64,
) -> Seq<CategoryModel> {
    let files = spec_listing(entries);
    if files.len() == 0 {
        cats
    } else {
        spec_store_category(cats, name, files, now)
    }
}

/// Whether the category named `name` is due a rescan at `now`: it is not
/// cached, or its last scan is older than `CACHE_REFRESH_SECS`.
pub open spec fn spec_needs_refresh(cats: Seq<CategoryModel>, name: Seq<char>, now: u64) -> bool {
    match spec_find_category(cats, name) {
        None => true,
        Some((_files, last)) => now > last + CACHE_REFRESH_SECS,
    }
}

/// Law: a rescan never downgrades a category with a non-empty cached
/// listing; whatever the new scan yields, the category keeps a non-empty
/// listing.
pub proof fn lemma_stale_preferred(
    cats: Seq<CategoryModel>,
    name: Seq<char>,
    entries: Seq<ScanModel>,
    now: u64,
)
    requires
        spec_find_category(cats, name) matches Some((files, _last)) && files.len() > 0,
    ensures
        spec_find_category(spec_apply_scan(cats, name, entries, now), name) matches Some(
            (files2, _last2),
        ) && files2.len() > 0,
{
    let files = spec_listing(entries);
    if files.len() > 0 {
        lemma_find_after_store(cats, name, files, now);
    }
}

/// Storing a listing for a category makes exactly that listing what the
/// cache then holds for it.
pub proof fn lemma_find_after_store(
    cats: Seq<CategoryModel>,
    name: Seq<char>,
    files: Seq<FileModel>,
    now: u64,
)
    ensures
        spec_find_category(spec_store_category(cats, name, files, now), name) == Some(
            (files, now),
        ),
    decreases cats.len(),
{
    lemma_cat_index(cats, name);
    let i = spec_cat_index(cats, name);
    if i < 0 {
        lemma_index_of_append_new(cats, name, files, now);
    } else {
        lemma_index_of_update(cats, name, files, now);
    }
}

/// Appending a new category puts it at the end, and a lookup finds it
/// there.
proof fn lemma_index_of_append_new(
    cats: Seq<CategoryModel>,
    name: Seq<char>,
    files: Seq<FileModel>,
    now: u64,
)
    requires
        forall|j: int| 0 <= j < cats.len() ==> (#[trigger] cats[j]).0 != name,
    ensures
        spec_cat_index(cats + seq![(name, files, now)], name) == cats.len(),
    decreases cats.len(),
{
    let whole = cats + seq![(name, files, now)];
    if cats.len() == 0 {
        assert(whole.first().0 == name);
    } else {
        assert(whole.first() == cats.first());
        assert(whole.drop_first() =~= cats.drop_first() + seq![(name, files, now)]);
        assert(forall|j: int|
            0 <= j < cats.drop_first().len() ==> #[trigger] cats.drop_first()[j] == cats[j
                + 1]);
        lemma_index_of_append_new(cats.drop_first(), name, files, now);
    }
}

/// Updating the entry a lookup finds leaves it where the lookup finds it.
proof fn lemma_index_of_update(
    cats: Seq<CategoryModel>,
    name: Seq<char>,
    files: Seq<FileModel>,
    now: u64,
)
    requires
        0 <= spec_cat_index(cats, name) < cats.len(),
        cats[spec_cat_index(cats, name)].0 == name,
    ensures
        spec_cat_index(cats.update(spec_cat_index(cats, name), (name, files, now)), name)
            == spec_cat_index(cats, name),
    decreases cats.len(),
{
    let i = spec_cat_index(cats, name);
    let updated = cats.update(i, (name, files, now));
    if i == 0 {
        assert(updated.first().0 == name);
    } else {
        assert(cats.first().0 != name);
        assert(updated.first() == cats.first());
        assert(updated.drop_first() =~= cats.drop_first().update(i - 1, (name, files, now)));
        lemma_index_of_update(cats.drop_first(), name, files, now);
    }
}

/// The in-memory directory-listing cache.
pub struct FileCache {
    pub categories: Vec<CachedCategory>,
}

impl View for FileCache {
    type V = Seq<CategoryModel>;

    open spec fn view(&self) -> Seq<CategoryModel> {
        self.categories@.map_values(|c: CachedCategory| c.model())
    }
}

impl FileCache {
    /// An empty cache.
    pub fn new() -> (r: Self)
        ensures
            r@ == Seq::<CategoryModel>::empty(),
    {
        let r = Self { categories: Vec::new() };
        proof {
            assert(r@ =~= Seq::<CategoryModel>::empty());
        }
        r
    }

    /// Finds the position of the cached category named `name`.
    fn find_index(&self, name: &str) -> (r: Option<usize>)
        ensures
            match r {
                Some(i) => i == spec_cat_index(self@, name@) && i < self.categories@.len()
                    && self@[i as int].0 == name@,
                None => spec_cat_index(self@, name@) < 0,
            },
    {
        let mut i: usize = 0;
        while i < self.categories.len()
            invariant
                i <= self.categories.len(),
                forall|j: int| 0 <= j < i ==> (#[trigger] self@[j]).0 != name@,
            decreases self.categories.len() - i,
        {
            if streq(self.categories[i].name.as_str(), name) {
                proof {
                    lemma_cat_index_of_first_hit(self@, name@, i as int);
                }
                return Some(i);
            }
            i = i + 1;
        }
        proof {
            lemma_cat_index(self@, name@);
            if spec_cat_index(self@, name@) >= 0 {
                assert(self@[spec_cat_index(self@, name@)].0 == name@);
            }
        }
        None
    }

    /// Whether the category named `name` is due a rescan at `now`.
    pub fn needs_refresh(&self, name: &str, now: u64) -> (r: bool)
        ensures
            r == spec_needs_refresh(self@, name@, now),
    {
        match self.find_index(name) {
            None => true,
            Some(i) => {
                let last = self.categories[i].last_update;
                now > last && now - last > CACHE_REFRESH_SECS
            },
        }
    }

    /// Records the outcome of a scan of the category named `name` at time
    /// `now`. A scan whose listing is empty leaves the cache untouched:
    /// a stale cached listing is preferred over a freshly empty one.
    pub fn update_category(&mut self, name: &str, entries: &Vec<ScanEntry>, now: u64)
        ensures
            final(self)@ == spec_apply_scan(
                old(self)@,
                name@,
                entries@.map_values(|e: ScanEntry| e.model()),
                now,
            ),
    {
        let files = build_listing(entries);
        if files.len() == 0 {
            return ;
        }
        let ghost filesm = files@.map_values(|f: FileEntry| f.model());
        let cat = CachedCategory { name: String::from_str(name), files, last_update: now };
        proof {
            assert(cat.model() == (name@, filesm, now));
        }
        match self.find_index(name) {
            Some(i) => {
                self.categories.set(i, cat);
                proof {
                    assert(self@ =~= old(self)@.update(
                        spec_cat_index(old(self)@, name@),
                        (name@, filesm, now),
                    ));
                }
            },
            None => {
                self.categories.push(cat);
                proof {
                    assert(self@ =~= old(self)@ + seq![(name@, filesm, now)]);
                }
            },
        }
    }

    /// The cached listing of the category named `name`, if any. A lookup
    /// never rescans and never prunes: it reports exactly what the cache
    /// holds, however stale.
    pub fn get_category_files(&self, name: &str) -> (r: Option<Vec<FileEntry>>)
        ensures
            match r {
                Some(files) => spec_find_category(self@, name@) matches Some((fs, _last))
                    && files@.map_values(|f: FileEntry| f.model()) == fs,
                None => spec_find_category(self@, name@) is None,
            },
    {
        match self.find_index(name) {
            None => None,
            Some(i) => {
                let cached = &self.categories[i];
                let mut files: Vec<FileEntry> = Vec::new();
                let mut j: usize = 0;
                proof {
                    assert(files@.map_values(|fe: FileEntry| fe.model()) =~= cached.files@
                        .map_values(|fe: FileEntry| fe.model()).subrange(0, 0));
                }
                while j < cached.files.len()
                    invariant
                        j <= cached.files.len(),
                        files@.len() == j,
                        files@.map_values(|fe: FileEntry| fe.model()) == cached.files@
                            .map_values(|fe: FileEntry| fe.model()).subrange(0, j as int),
                    decreases cached.files.len() - j,
                {
                    let f = &cached.files[j];
                    let copied = FileEntry { name: f.name.clone(), ext: f.ext.clone() };
                    proof {
                        assert(copied.model() == cached.files@[j as int].model());
                    }
                    files.push(copied);
                    j = j + 1;
                    proof {
                        let lhs = files@.map_values(|fe: FileEntry| fe.model());
                        let rhs = cached.files@.map_values(|fe: FileEntry| fe.model());
                        assert forall|k: int| 0 <= k < j implies lhs[k] == rhs.subrange(
                            0,
                            j as int,
                        )[k] by {
                            assert(lhs[k] == files@[k].model());
                            assert(rhs.subrange(0, j as int)[k] == cached.files@[k].model());
                            if k == j - 1 {
                                assert(files@[k] == copied);
                            }
                        }
                        assert(lhs =~= rhs.subrange(0, j as int));
                    }
                }
                proof {
                    let fsm = cached.files@.map_values(|fe: FileEntry| fe.model());
                    assert(fsm.subrange(0, fsm.len() as int) =~= fsm);
                }
                Some(files)
            },
        }
    }
}

/// A match at position `i`, with no earlier match, is what the index
/// lookup returns.
proof fn lemma_cat_index_of_first_hit(cats: Seq<CategoryModel>, name: Seq<char>, i: int)
    requires
        0 <= i < cats.len(),
        cats[i].0 == name,
        forall|j: int| 0 <= j < i ==> (#[trigger] cats[j]).0 != name,
    ensures
        spec_cat_index(cats, name) == i,
    decreases cats.len(),
{
    if i > 0 {
        assert(cats.first().0 != name);
        assert(forall|j: int|
            0 <= j < cats.drop_first().len() ==> #[trigger] cats.drop_first()[j] == cats[j + 1]);
        lemma_cat_index_of_first_hit(cats.drop_first(), name, i - 1);
    }
}

} // verus!

