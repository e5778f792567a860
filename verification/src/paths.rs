//! Request-path and query-string logic: extracting the secret token from
//! a query string, mapping a public group name to its directory, building
//! the real and the tokenized resource paths, and content-type lookup.

use vstd::prelude::*;
use vstd::string::StrSliceExecFns;
use vstd::string::StringExecFns;

verus! {

/// The index of the first occurrence of `c` in `s`, or -1 when there is
/// none.
pub open spec fn spec_find(s: Seq<char>, c: char) -> int
    decreases s.len(),
{
    if s.len() == 0 {
        -1
    } else if s.first() == c {
        0
    } else {
        let r = spec_find(s.drop_first(), c);
        if r < 0 {
            -1
        } else {
            r + 1
        }
    }
}

/// A prefix free of `sep`, followed by `sep` or the end, pins the first
/// occurrence down.
proof fn lemma_find_first(t: Seq<char>, sep: char, k: int)
    requires
        0 <= k <= t.len(),
        forall|j: int| 0 <= j < k ==> t[j] != sep,
        k < t.len() ==> t[k] == sep,
    ensures
        spec_find(t, sep) == if k < t.len() {
            k
        } else {
            -1
        },
    decreases t.len(),
{
    if k == 0 {
    } else {
        assert(t.first() != sep);
        assert(forall|j: int| 0 <= j < k - 1 ==> #[trigger] t.drop_first()[j] == t[j + 1]);
        if k - 1 < t.drop_first().len() {
            assert(t.drop_first()[k - 1] == t[k as int]);
        }
        lemma_find_first(t.drop_first(), sep, k - 1);
    }
}

/// The first occurrence, when there is one, lies within the sequence.
proof fn lemma_find_bound(s: Seq<char>, c: char)
    ensures
        -1 <= spec_find(s, c) < s.len(),
    decreases s.len(),
{
    if s.len() > 0 && s.first() != c {
        lemma_find_bound(s.drop_first(), c);
    }
}

/// The segments of `s` between occurrences of `sep`, in order; empty
/// segments are kept, and a string without `sep` is one segment.
pub open spec fn spec_split(s: Seq<char>, sep: char) -> Seq<Seq<char>>
    decreases s.len(),
    via spec_split_decreases
{
    let i = spec_find(s, sep);
    if i < 0 {
        seq![s]
    } else {
        seq![s.take(i)] + spec_split(s.skip(i + 1), sep)
    }
}

#[via_fn]
proof fn spec_split_decreases(s: Seq<char>, sep: char) {
    lemma_find_bound(s, sep);
}

/// Splits `s` on `sep`, keeping empty segments.
pub fn split_str(s: &str, sep: char) -> (r: Vec<String>)
    ensures
        r@.map_values(|t: String| t@) == spec_split(s@, sep),
{
    let n = s.unicode_len();
    let mut parts: Vec<String> = Vec::new();
    let mut start: usize = 0;
    let mut pos: usize = 0;
    proof {
        assert(s@.skip(0) =~= s@);
        assert(parts@.map_values(|t: String| t@) =~= Seq::<Seq<char>>::empty());
    }
    while pos < n
        invariant
            start <= pos <= n,
            n == s@.len(),
            forall|j: int| start <= j < pos ==> s@[j] != sep,
            spec_split(s@, sep) == parts@.map_values(|t: String| t@) + spec_split(
                s@.skip(start as int),
                sep,
            ),
        decreases n - pos,
    {
        if s.get_char(pos) == sep {
            let ghost t = s@.skip(start as int);
            proof {
                assert(forall|j: int|
                    0 <= j < pos - start ==> #[trigger] t[j] == s@[j + start]);
                assert(t[pos - start] == s@[pos as int]);
                lemma_find_first(t, sep, pos - start);
                assert(t.take(pos - start) =~= s@.subrange(start as int, pos as int));
                assert(t.skip(pos - start + 1) =~= s@.skip(pos + 1));
            }
            let seg = s.substring_char(start, pos);
            parts.push(String::from_str(seg));
            proof {
                assert(parts@.map_values(|t2: String| t2@) =~= parts@.map_values(
                    |t2: String| t2@,
                ).subrange(0, parts@.len() - 1) + seq![s@.subrange(start as int, pos as int)]);
                assert(spec_split(s@, sep) =~= parts@.map_values(|t2: String| t2@)
                    + spec_split(s@.skip(pos + 1), sep));
            }
            start = pos + 1;
        }
        pos = pos + 1;
    }
    let ghost t = s@.skip(start as int);
    proof {
        assert(forall|j: int| 0 <= j < t.len() ==> #[trigger] t[j] == s@[j + start]);
        lemma_find_first(t, sep, t.len() as int);
        assert(spec_split(t, sep) =~= seq![t]);
    }
    let seg = s.substring_char(start, n);
    parts.push(String::from_str(seg));
    proof {
        assert(seg@ =~= t);
        assert(parts@.map_values(|t2: String| t2@) =~= spec_split(s@, sep));
    }
    parts
}

/// Whether `s` begins with `p`.
pub open spec fn spec_starts_with(s: Seq<char>, p: Seq<char>) -> bool {
    s.len() >= p.len() && s.take(p.len() as int) == p
}

/// Tests whether `s` begins with `p`.
pub fn starts_with(s: &str, p: &str) -> (r: bool)
    ensures
        r == spec_starts_with(s@, p@),
{
    let n = s.unicode_len();
    let m = p.unicode_len();
    if n < m {
        return false;
    }
    let mut i: usize = 0;
    while i < m
        invariant
            i <= m <= n,
            n == s@.len(),
            m == p@.len(),
            forall|j: int| 0 <= j < i ==> s@[j] == p@[j],
        decreases m - i,
    {
        if s.get_char(i) != p.get_char(i) {
            proof {
                assert(s@.take(m as int)[i as int] != p@[i as int]);
            }
            return false;
        }
        i = i + 1;
    }
    proof {
        assert(s@.take(m as int) =~= p@);
    }
    true
}

/// The index of the first query segment that begins with "token=", or -1
/// when none does.
pub open spec fn spec_first_token_pair(segs: Seq<Seq<char>>) -> int
    decreases segs.len(),
{
    if segs.len() == 0 {
        -1
    } else if spec_starts_with(segs.first(), "token="@) {
        0
    } else {
        let r = spec_first_token_pair(segs.drop_first());
        if r < 0 {
            -1
        } else {
            r + 1
        }
    }
}

proof fn lemma_first_token_pair(segs: Seq<Seq<char>>, k: int)
    requires
        0 <= k <= segs.len(),
        forall|j: int| 0 <= j < k ==> !spec_starts_with(#[trigger] segs[j], "token="@),
        k < segs.len() ==> spec_starts_with(segs[k], "token="@),
    ensures
        spec_first_token_pair(segs) == if k < segs.len() {
            k
        } else {
            -1
        },
    decreases segs.len(),
{
    if k > 0 {
        assert(!spec_starts_with(segs.first(), "token="@));
        assert(forall|j: int|
            0 <= j < segs.drop_first().len() ==> #[trigger] segs.drop_first()[j] == segs[j
                + 1]);
        lemma_first_token_pair(segs.drop_first(), k - 1);
    }
}

/// The value of the "token" query parameter: the query is split on '&',
/// the first segment beginning with "token=" is split on '=', and the
/// part between the first and second '=' is the value; absent when no
/// segment carries the parameter.
pub open spec fn spec_token_param(query: Seq<char>) -> Option<Seq<char>> {
    let segs = spec_split(query, '&');
    let i = spec_first_token_pair(segs);
    if i < 0 {
        None
    } else {
        let parts = spec_split(segs[i], '=');
        if parts.len() >= 2 {
            Some(parts[1])
        } else {
            None
        }
    }
}

/// Extracts the value of the "token" query parameter from a raw query
/// string.
pub fn parse_query_token(query: &str) -> (r: Option<String>)
    ensures
        match r {
            Some(t) => spec_token_param(query@) == Some(t@),
            None => spec_token_param(query@) is None,
        },
{
    let segs = split_str(query, '&');
    let ghost segviews = segs@.map_values(|t: String| t@);
    let mut i: usize = 0;
    while i < segs.len()
        invariant
            i <= segs.len(),
            segviews == segs@.map_values(|t: String| t@),
            segviews == spec_split(query@, '&'),
            forall|j: int| 0 <= j < i ==> !spec_starts_with(#[trigger] segviews[j], "token="@),
        decreases segs.len() - i,
    {
        if starts_with(segs[i].as_str(), "token=") {
            proof {
                lemma_first_token_pair(segviews, i as int);
            }
            let parts = split_str(segs[i].as_str(), '=');
            if parts.len() >= 2 {
                let val = parts[1].clone();
                proof {
                    assert(parts@.map_values(|t: String| t@)[1] == val@);
                }
                return Some(val);
            } else {
                return None;
            }
        }
        i = i + 1;
    }
    proof {
        lemma_first_token_pair(segviews, segviews.len() as int);
    }
    None
}

/// Tests the query string's secret against the configured one: the
/// "token" parameter must be present and match it exactly.
pub fn authorized(query: &str, secret: &str) -> (r: bool)
    ensures
        r == (spec_token_param(query@) == Some(secret@)),
{
    match parse_query_token(query) {
        None => false,
        Some(t) => crate::store::streq(t.as_str(), secret),
    }
}

/// The directory group serving a public type name: "pfps" is served from
/// "avatars", "banners" from "banners"; anything else is unknown.
pub fn group_dir_for(file_type: &str) -> (r: Option<String>)
    ensures
        match r {
            Some(g) => (file_type@ == "pfps"@ && g@ == "avatars"@) || (file_type@
                == "banners"@ && g@ == "banners"@),
            None => file_type@ != "pfps"@ && file_type@ != "banners"@,
        },
{
    if crate::store::streq(file_type, "pfps") {
        Some(String::from_str("avatars"))
    } else if crate::store::streq(file_type, "banners") {
        Some(String::from_str("banners"))
    } else {
        None
    }
}

/// Builds the real path of an asset under the served file tree.
pub fn build_real_path(group: &str, category: &str, filename: &str) -> (r: String)
    ensures
        r@ == "/cdn_files/"@ + group@ + "/"@ + category@ + "/"@ + filename@,
{
    let mut r = String::from_str("/cdn_files/");
    r.append(group);
    r.append("/");
    r.append(category);
    r.append("/");
    r.append(filename);
    r
}

/// Builds the public path of an asset: the token with the file's
/// extension, under the served file tree.
pub fn build_hashed_url(token: &str, ext: &str) -> (r: String)
    ensures
        r@ == "/cdn_files/"@ + token@ + "."@ + ext@,
{
    let mut r = String::from_str("/cdn_files/");
    r.append(token);
    r.append(".");
    r.append(ext);
    r
}

/// The prefix of a requested path segment before its first '.': the
/// token part of a tokenized file name, or the whole segment when it has
/// no '.'.
pub fn token_of_request_path(s: &str) -> (r: String)
    ensures
        r@ == (if spec_find(s@, '.') < 0 {
            s@
        } else {
            s@.take(spec_find(s@, '.'))
        }),
{
    let n = s.unicode_len();
    let mut pos: usize = 0;
    while pos < n
        invariant
            pos <= n,
            n == s@.len(),
            forall|j: int| 0 <= j < pos ==> s@[j] != '.',
        decreases n - pos,
    {
        if s.get_char(pos) == '.' {
            proof {
                lemma_find_first(s@, '.', pos as int);
            }
            let seg = s.substring_char(0, pos);
            return String::from_str(seg);
        }
        pos = pos + 1;
    }
    proof {
        lemma_find_first(s@, '.', n as int);
    }
    String::from_str(s)
}

/// The content type served for a lowercased extension.
pub open spec fn spec_content_type(e: Seq<char>) -> Seq<char> {
    if e == "jpg"@ || e == "jpeg"@ {
        "image/jpeg"@
    } else if e == "png"@ {
        "image/png"@
    } else if e == "gif"@ {
        "image/gif"@
    } else if e == "webp"@ {
        "image/webp"@
    } else {
        "application/octet-stream"@
    }
}

/// Maps a lowercased extension to the content type it is served with.
pub fn content_type_for(ext: &str) -> (r: String)
    ensures
        r@ == spec_content_type(ext@),
{
    if crate::store::streq(ext, "jpg") || crate::store::streq(ext, "jpeg") {
        String::from_str("image/jpeg")
    } else if crate::store::streq(ext, "png") {
        String::from_str("image/png")
    } else if crate::store::streq(ext, "gif") {
        String::from_str("image/gif")
    } else if crate::store::streq(ext, "webp") {
        String::from_str("image/webp")
    } else {
        String::from_str("application/octet-stream")
    }
}

} // verus!
