//! Random selection: choosing a category among those scanned and a file
//! among those cached. Requesting a category by name never falls back to
//! a random one; a one-entry choice is deterministic.

use vstd::prelude::*;
use crate::cache::{FileCache, FileEntry, ScanEntry, spec_apply_scan, spec_find_category};
use crate::store::streq;

verus! {

#[verifier::external_type_specification]
#[verifier::external_body]
pub struct ExThreadRng(rand::rngs::ThreadRng);

/// Relies on rand::thread_rng: a handle to the thread-local generator.
/// Nothing is promised of it.
#[verifier::external_body]
fn thread_rng_handle() -> rand::rngs::ThreadRng {
    rand::thread_rng()
}

/// Relies on rand::Rng::gen_range over 0..n: a draw below `n`, uniform
/// over that range; the range must not be empty.
#[verifier::external_body]
fn gen_below(rng: &mut rand::rngs::ThreadRng, n: usize) -> (r: usize)
    requires
        n > 0,
    ensures
        r < n,
{
    rand::Rng::gen_range(rng, 0..n)
}

/// Draws an index below `n` at random.
fn random_below(n: usize) -> (r: usize)
    requires
        n > 0,
    ensures
        r < n,
{
    let mut rng = thread_rng_handle();
    gen_below(&mut rng, n)
}

/// The names of the subdirectories in a scan, in scan order: the
/// candidate categories.
pub open spec fn spec_dir_names(entries: Seq<crate::cache::ScanModel>) -> Seq<Seq<char>>
    decreases entries.len(),
{
    if entries.len() == 0 {
        Seq::<Seq<char>>::empty()
    } else {
        let rest = spec_dir_names(entries.drop_last());
        if entries.last().1 {
            rest + seq![entries.last().0]
        } else {
            rest
        }
    }
}

/// Lists the candidate categories of a base-directory scan: the names of
/// its subdirectories, in scan order.
pub fn category_names(entries: &Vec<ScanEntry>) -> (r: Vec<String>)
    ensures
        names_of(r@) == spec_dir_names(entries@.map_values(|e: ScanEntry| e.model())),
{
    let ghost model = entries@.map_values(|e: ScanEntry| e.model());
    let mut names: Vec<String> = Vec::new();
    let mut i: usize = 0;
    proof {
        assert(names_of(names@) =~= spec_dir_names(model.subrange(0, 0)));
    }
    while i < entries.len()
        invariant
            i <= entries.len(),
            model == entries@.map_values(|e: ScanEntry| e.model()),
            names_of(names@) == spec_dir_names(model.subrange(0, i as int)),
        decreases entries.len() - i,
    {
        let ghost prefix = model.subrange(0, i as int);
        let e = &entries[i];
        if e.is_dir {
            names.push(e.name.clone());
        }
        i = i + 1;
        proof {
            assert(model.subrange(0, i as int).drop_last() =~= prefix);
            assert(model.subrange(0, i as int).last() == model[i - 1]);
            assert(names_of(names@) =~= spec_dir_names(model.subrange(0, i as int)));
        }
    }
    proof {
        assert(model.subrange(0, model.len() as int) =~= model);
    }
    names
}

/// Whether `name` occurs among the category names.
pub open spec fn spec_has_name(names: Seq<Seq<char>>, name: Seq<char>) -> bool {
    exists|i: int| 0 <= i < names.len() && names[i] == name
}

/// The views of a vector of names.
pub open spec fn names_of(v: Seq<String>) -> Seq<Seq<char>> {
    v.map_values(|s: String| s@)
}

/// Picks the category to serve from. A requested name must match one of
/// the scanned categories exactly, or nothing is selected: there is no
/// fallback to a random category. Without a request, one of the scanned
/// categories is chosen at random; only an empty candidate list yields
/// nothing.
pub fn select_category(categories: &Vec<String>, requested: Option<&str>) -> (r: Option<
    String,
>)
    ensures
        match requested {
            Some(req) => match r {
                Some(name) => name@ == req@ && spec_has_name(names_of(categories@), req@),
                None => !spec_has_name(names_of(categories@), req@),
            },
            None => match r {
                Some(name) => spec_has_name(names_of(categories@), name@),
                None => categories@.len() == 0,
            },
        },
{
    if requested.is_some() {
        let req: &str = requested.unwrap();
        {
            let mut i: usize = 0;
            while i < categories.len()
                invariant
                    i <= categories.len(),
                    requested == Some(req),
                    forall|j: int| 0 <= j < i ==> names_of(categories@)[j] != req@,
                decreases categories.len() - i,
            {
                if streq(categories[i].as_str(), req) {
                    let picked = categories[i].clone();
                    proof {
                        assert(names_of(categories@)[i as int] == req@);
                        assert(picked@ == req@);
                    }
                    return Some(picked);
                }
                i = i + 1;
            }
            None
        }
    } else {
        if categories.len() == 0 {
            None
        } else {
            let i = random_below(categories.len());
            proof {
                assert(names_of(categories@)[i as int] == categories@[i as int]@);
            }
            Some(categories[i].clone())
        }
    }
}

/// Picks one file of a listing at random. An empty listing yields
/// nothing; a one-file listing deterministically yields that file.
pub fn pick_file(files: &Vec<FileEntry>) -> (r: Option<(String, String)>)
    ensures
        match r {
            Some(f) => exists|i: int|
                0 <= i < files@.len() && #[trigger] files@[i].model() == ((f.0@, f.1@)),
            None => files@.len() == 0,
        },
        files@.len() == 1 ==> (r matches Some(f) && f.0@ == files@[0].name@ && f.1@
            == files@[0].ext@),
{
    if files.len() == 0 {
        return None;
    }
    let i = random_below(files.len());
    let f = &files[i];
    let r = (f.name.clone(), f.ext.clone());
    proof {
        assert(files@[i as int].model() == ((r.0@, r.1@)));
    }
    Some(r)
}

/// Serves one random file of the category named `name` from the cache,
/// applying the outcome of a directory scan first when one was made.
/// Nothing is served when the category has no cached listing; a cached
/// one-file listing is served deterministically.
pub fn select_from_cache(
    cache: &mut FileCache,
    name: &str,
    scan: Option<&Vec<ScanEntry>>,
    now: u64,
) -> (r: Option<(String, String)>)
    ensures
        final(cache)@ == match scan {
            Some(entries) => spec_apply_scan(
                old(cache)@,
                name@,
                entries@.map_values(|e: ScanEntry| e.model()),
                now,
            ),
            None => old(cache)@,
        },
        match r {
            Some(f) => spec_find_category(final(cache)@, name@) matches Some((fs, _last))
                && exists|i: int| 0 <= i < fs.len() && #[trigger] fs[i] == ((f.0@, f.1@)),
            None => match spec_find_category(final(cache)@, name@) {
                Some((fs, _last)) => fs.len() == 0,
                None => true,
            },
        },
        (spec_find_category(final(cache)@, name@) matches Some((fs, _last)) && fs.len()
            == 1) ==> (r matches Some(f) && ((f.0@, f.1@)) == spec_find_category(
            final(cache)@,
            name@,
        )->Some_0.0[0]),
{
    match scan {
        Some(entries) => {
            cache.update_category(name, entries, now);
        },
        None => {},
    }
    match cache.get_category_files(name) {
        None => None,
        Some(files) => {
            let picked = pick_file(&files);
            proof {
                let fs = files@.map_values(|fe: FileEntry| fe.model());
                match &picked {
                    Some(f) => {
                        let i = choose|i: int|
                            0 <= i < files@.len() && #[trigger] files@[i].model() == ((
                            f.0@,
                            f.1@,
                            ));
                        assert(fs[i] == ((f.0@, f.1@)));
                    },
                    None => {},
                }
                if fs.len() == 1 {
                    assert(fs[0] == files@[0].model());
                }
            }
            picked
        },
    }
}

} // verus!
