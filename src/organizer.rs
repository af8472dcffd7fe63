use vstd::prelude::*;

use crate::text::{chars_of, string_of};

verus! {

/// Tags and derived fields of one track.
///
/// `duration_bits` is the IEEE-754 bit pattern of the duration in seconds (an `f64`);
/// each genre carries the bit pattern of its confidence (an `f32`).
pub struct TrackMetadata {
    pub title: String,
    pub artist: String,
    pub album: Option<String>,
    pub original_artist: Option<String>,
    pub original_title: Option<String>,
    pub duration_bits: u64,
    pub fingerprint: Option<String>,
    pub genres: Vec<(String, u32)>,
}

/// What a `TrackMetadata` holds, with strings as character sequences.
pub struct MetadataView {
    pub title: Seq<char>,
    pub artist: Seq<char>,
    pub album: Option<Seq<char>>,
    pub original_artist: Option<Seq<char>>,
    pub original_title: Option<Seq<char>>,
    pub duration_bits: u64,
    pub fingerprint: Option<Seq<char>>,
    pub genres: Seq<(Seq<char>, u32)>,
}

pub open spec fn genres_view(g: Seq<(String, u32)>) -> Seq<(Seq<char>, u32)> {
    g.map_values(|e: (String, u32)| (e.0@, e.1))
}

impl View for TrackMetadata {
    type V = MetadataView;

    open spec fn view(&self) -> MetadataView {
        MetadataView {
            title: self.title@,
            artist: self.artist@,
            album: opt_view(self.album),
            original_artist: opt_view(self.original_artist),
            original_title: opt_view(self.original_title),
            duration_bits: self.duration_bits,
            fingerprint: opt_view(self.fingerprint),
            genres: genres_view(self.genres@),
        }
    }
}

/// `char::is_whitespace`: the characters with the Unicode White_Space property.
pub open spec fn is_ws(c: char) -> bool {
    ('\u{9}' <= c && c <= '\u{d}') || c == ' ' || c == '\u{85}' || c == '\u{a0}' || c
        == '\u{1680}' || ('\u{2000}' <= c && c <= '\u{200a}') || c == '\u{2028}' || c
        == '\u{2029}' || c == '\u{202f}' || c == '\u{205f}' || c == '\u{3000}'
}

pub open spec fn trim_start(s: Seq<char>) -> Seq<char>
    decreases s.len(),
{
    if s.len() > 0 && is_ws(s[0]) {
        trim_start(s.drop_first())
    } else {
        s
    }
}

pub open spec fn trim_end(s: Seq<char>) -> Seq<char>
    decreases s.len(),
{
    if s.len() > 0 && is_ws(s.last()) {
        trim_end(s.drop_last())
    } else {
        s
    }
}

/// `str::trim`: leading and trailing whitespace removed.
pub open spec fn trim(s: Seq<char>) -> Seq<char> {
    trim_end(trim_start(s))
}

/// The separator between title and artist in a file name: space, dash, space.
pub open spec fn spaced_dash_at(s: Seq<char>, k: int) -> bool {
    0 <= k && k + 3 <= s.len() && s[k] == ' ' && s[k + 1] == '-' && s[k + 2] == ' '
}

/// Where `str::split(" - ")` cuts first: the first occurrence of the separator.
pub open spec fn first_spaced_dash(s: Seq<char>) -> Option<int> {
    if exists|k: int| spaced_dash_at(s, k) {
        Some(choose|k: int| spaced_dash_at(s, k) && forall|j: int| 0 <= j < k ==> !spaced_dash_at(s, j))
    } else {
        None
    }
}

/// The stem splits into exactly two parts around " - ": one occurrence at `k`, and none
/// after it that does not overlap it.
pub open spec fn splits_in_two(s: Seq<char>, k: int) -> bool {
    &&& spaced_dash_at(s, k)
    &&& forall|j: int| 0 <= j < k ==> !spaced_dash_at(s, j)
    &&& forall|j: int| k + 3 <= j ==> !spaced_dash_at(s, j)
}

/// Title and artist guessed from a file stem.
///
/// When splitting at " - " gives exactly two parts, the stem is `title - artist`.
/// Otherwise, when it holds a '-', the artist is what follows the last '-' and the title
/// what precedes it. Otherwise the title is the whole stem and there is no artist. Both
/// parts are trimmed.
pub open spec fn names_from_stem(s: Seq<char>) -> (Option<Seq<char>>, Option<Seq<char>>) {
    if exists|k: int| splits_in_two(s, k) {
        let k = choose|k: int| splits_in_two(s, k);
        (Some(trim(s.subrange(0, k))), Some(trim(s.subrange(k + 3, s.len() as int))))
    } else if s.contains('-') {
        let d = choose|d: int| 0 <= d < s.len() && s[d] == '-' && forall|j: int| d < j < s.len() ==> s[j] != '-';
        (Some(trim(s.subrange(0, d))), Some(trim(s.subrange(d + 1, s.len() as int))))
    } else {
        (Some(s), None)
    }
}

/// The stem of a file name: the whole name if it has no '.' past its first character,
/// else the part before the last '.' (the rule of `Path::file_stem`).
pub open spec fn stem_of(s: Seq<char>) -> Seq<char> {
    if exists|d: int| 1 <= d < s.len() && s[d] == '.' {
        let d = choose|d: int| 1 <= d < s.len() && s[d] == '.' && forall|j: int| d < j < s.len() ==> s[j] != '.';
        s.subrange(0, d)
    } else {
        s
    }
}

/// The part of a path after its last '/'.
pub open spec fn last_part(s: Seq<char>) -> Seq<char> {
    if s.contains('/') {
        let d = choose|d: int| 0 <= d < s.len() && s[d] == '/' && forall|j: int| d < j < s.len() ==> s[j] != '/';
        s.subrange(d + 1, s.len() as int)
    } else {
        s
    }
}

/// Where the part of `v` after its last '/' begins.
fn last_part_start(v: &Vec<char>) -> (p: usize)
    ensures
        p <= v@.len(),
        last_part(v@) == v@.subrange(p as int, v@.len() as int),
{
    let n = v.len();
    let mut p = n;
    while p > 0 && v[p - 1] != '/'
        invariant
            p <= n,
            n == v@.len(),
            forall|j: int| p <= j < n ==> v@[j] != '/',
        decreases p,
    {
        p = p - 1;
    }
    let ghost s = v@;
    proof {
        if p == 0 {
            assert(!s.contains('/'));
            assert(s.subrange(0, n as int) =~= s);
        } else {
            assert(s[p - 1] == '/');
            let d2 = choose|d2: int| 0 <= d2 < s.len() && s[d2] == '/' && forall|j: int| d2 < j < s.len() ==> s[j] != '/';
            if d2 < p - 1 {
                assert(s[p - 1] != '/');
            } else if d2 > p - 1 {
                assert(s[d2] != '/');
            }
        }
    }
    p
}

/// The part of `path` after its last '/': the file name of a file's path.
pub fn last_path_part(path: &str) -> (r: String)
    ensures
        r@ == last_part(path@),
{
    let v = chars_of(path);
    let p = last_part_start(&v);
    let w = copy_range(&v, p, v.len());
    string_of(&w)
}

/// What a file name is read as before guessing: the stem of its part after the last '/',
/// or the whole input where that part is empty, "." or "..", which have no stem.
pub open spec fn file_stem_spec(s: Seq<char>) -> Seq<char> {
    let n = last_part(s);
    if n.len() == 0 || n == seq!['.'] || n == seq!['.', '.'] {
        s
    } else {
        stem_of(n)
    }
}

/// The characters of `file_stem_spec(v)`.
fn file_stem_chars(v: &Vec<char>) -> (r: Vec<char>)
    ensures
        r@ == file_stem_spec(v@),
{
    let n = v.len();
    let p = last_part_start(v);
    let ghost s = v@;
    assert(last_part(s) == s.subrange(p as int, n as int));
    let len = n - p;
    let special = len == 0 || (len == 1 && v[p] == '.') || (len == 2 && v[p] == '.' && v[p + 1] == '.');
    proof {
        let name = s.subrange(p as int, n as int);
        if len == 1 && v[p as int] == '.' {
            assert(name =~= seq!['.']);
        }
        if len == 2 && v[p as int] == '.' && v[p + 1] == '.' {
            assert(name =~= seq!['.', '.']);
        }
        if name == seq!['.'] {
            assert(name[0] == '.');
        }
        if name == seq!['.', '.'] {
            assert(name[0] == '.' && name[1] == '.');
        }
    }
    if special {
        return copy_range(v, 0, n);
    }
    // last '.' of the name past its first character
    let mut d = n;
    while d > p + 1 && v[d - 1] != '.'
        invariant
            p + 1 <= d <= n,
            n == v@.len(),
            forall|j: int| d <= j < n ==> v@[j] != '.',
        decreases d,
    {
        d = d - 1;
    }
    let ghost name = s.subrange(p as int, n as int);
    if d > p + 1 {
        proof {
            let q = (d - 1 - p) as int;
            assert(name[q] == '.');
            let d2 = choose|d2: int| 1 <= d2 < name.len() && name[d2] == '.' && forall|j: int| d2 < j < name.len() ==> name[j] != '.';
            if d2 < q {
                assert(name[q] != '.');
            } else if d2 > q {
                assert(name[d2] == s[p + d2]);
            }
            assert(name.subrange(0, q) =~= s.subrange(p as int, d - 1));
        }
        copy_range(v, p, d - 1)
    } else {
        proof {
            assert forall|e: int| 1 <= e < name.len() implies name[e] != '.' by {
                assert(name[e] == s[p + e]);
            }
        }
        copy_range(v, p, n)
    }
}

pub open spec fn opt_view(o: Option<String>) -> Option<Seq<char>> {
    match o {
        Some(s) => Some(s@),
        None => None,
    }
}

fn is_ws_exec(c: char) -> (r: bool)
    ensures
        r == is_ws(c),
{
    ('\u{9}' <= c && c <= '\u{d}') || c == ' ' || c == '\u{85}' || c == '\u{a0}' || c
        == '\u{1680}' || ('\u{2000}' <= c && c <= '\u{200a}') || c == '\u{2028}' || c
        == '\u{2029}' || c == '\u{202f}' || c == '\u{205f}' || c == '\u{3000}'
}

/// The characters `v[lo..hi]`.
fn copy_range(v: &Vec<char>, lo: usize, hi: usize) -> (r: Vec<char>)
    requires
        lo <= hi <= v@.len(),
    ensures
        r@ == v@.subrange(lo as int, hi as int),
{
    let mut r: Vec<char> = Vec::new();
    let mut i = lo;
    while i < hi
        invariant
            lo <= i <= hi,
            hi <= v@.len(),
            r@ == v@.subrange(lo as int, i as int),
        decreases hi - i,
    {
        r.push(v[i]);
        i = i + 1;
        assert(r@ =~= v@.subrange(lo as int, i as int));
    }
    r
}

/// `v[lo..hi]` with leading and trailing whitespace removed.
fn trimmed(v: &Vec<char>, lo: usize, hi: usize) -> (r: String)
    requires
        lo <= hi <= v@.len(),
    ensures
        r@ == trim(v@.subrange(lo as int, hi as int)),
{
    let mut a = lo;
    while a < hi && is_ws_exec(v[a])
        invariant
            lo <= a <= hi,
            hi <= v@.len(),
            trim_start(v@.subrange(lo as int, hi as int)) == trim_start(
                v@.subrange(a as int, hi as int),
            ),
        decreases hi - a,
    {
        assert(v@.subrange(a as int, hi as int).drop_first() =~= v@.subrange(a + 1, hi as int));
        a = a + 1;
    }
    assert(trim_start(v@.subrange(a as int, hi as int)) == v@.subrange(a as int, hi as int));
    let mut b = hi;
    while b > a && is_ws_exec(v[b - 1])
        invariant
            a <= b <= hi,
            hi <= v@.len(),
            trim_end(v@.subrange(a as int, hi as int)) == trim_end(v@.subrange(a as int, b as int)),
        decreases b - a,
    {
        assert(v@.subrange(a as int, b as int).drop_last() =~= v@.subrange(a as int, b - 1));
        b = b - 1;
    }
    let w = copy_range(v, a, b);
    string_of(&w)
}

proof fn lemma_first_unique(s: Seq<char>, k: int, k2: int)
    requires
        spaced_dash_at(s, k),
        forall|j: int| 0 <= j < k ==> !spaced_dash_at(s, j),
        spaced_dash_at(s, k2),
        forall|j: int| 0 <= j < k2 ==> !spaced_dash_at(s, j),
    ensures
        k == k2,
{
    if k < k2 {
        assert(!spaced_dash_at(s, k));
    } else if k2 < k {
        assert(!spaced_dash_at(s, k2));
    }
}

/// Title and artist guessed from a file name (see `names_from_stem`); the extension is
/// dropped first (see `file_stem_spec`).
pub fn parse_metadata_from_filename(filename: &str) -> (r: (Option<String>, Option<String>))
    ensures
        (opt_view(r.0), opt_view(r.1)) == names_from_stem(file_stem_spec(filename@)),
{
    let whole = chars_of(filename);
    let v = file_stem_chars(&whole);
    let ghost s = v@;
    let n = v.len();
    // first occurrence of " - "
    let mut k: usize = 0;
    let mut found = false;
    while n >= 3 && k <= n - 3 && !found
        invariant
            n == s.len(),
            k <= n,
            v@ == s,
            found ==> spaced_dash_at(s, k as int),
            forall|j: int| 0 <= j < k ==> !spaced_dash_at(s, j),
        decreases n - k + (if found { 0int } else { 1int }),
    {
        if v[k] == ' ' && v[k + 1] == '-' && v[k + 2] == ' ' {
            found = true;
        } else {
            k = k + 1;
        }
    }
    if found {
        // a second, non-overlapping occurrence makes more than two parts
        let mut j = k + 3;
        let mut again = false;
        while n >= 3 && j <= n - 3 && !again
            invariant
                n == s.len(),
                k + 3 <= j <= n,
                v@ == s,
                again ==> spaced_dash_at(s, j as int),
                forall|i: int| k + 3 <= i < j ==> !spaced_dash_at(s, i),
            decreases n - j + (if again { 0int } else { 1int }),
        {
            if v[j] == ' ' && v[j + 1] == '-' && v[j + 2] == ' ' {
                again = true;
            } else {
                j = j + 1;
            }
        }
        proof {
            assert forall|i: int| j <= i implies !spaced_dash_at(s, i) || again by {}
        }
        if !again {
            assert(splits_in_two(s, k as int));
            let title = trimmed(&v, 0, k);
            let artist = trimmed(&v, k + 3, n);
            proof {
                let k2 = choose|k2: int| splits_in_two(s, k2);
                lemma_first_unique(s, k as int, k2);
                assert(names_from_stem(s) == (Some(trim(s.subrange(0, k as int))), Some(
                    trim(s.subrange(k + 3, s.len() as int)),
                )));
            }
            assert((opt_view(Some(title)), opt_view(Some(artist))) == names_from_stem(s));
            return (Some(title), Some(artist));
        }
        proof {
            assert forall|k2: int| !splits_in_two(s, k2) by {
                if splits_in_two(s, k2) {
                    lemma_first_unique(s, k as int, k2);
                    assert(!spaced_dash_at(s, j as int));
                }
            }
        }
    } else {
        assert forall|k2: int| !splits_in_two(s, k2) by {
            if spaced_dash_at(s, k2) {
                assert(k2 < k);
            }
        }
    }
    assert(!exists|k2: int| splits_in_two(s, k2));
    // last '-'
    let mut d = n;
    while d > 0 && v[d - 1] != '-'
        invariant
            d <= n,
            n == s.len(),
            v@ == s,
            forall|j: int| d <= j < n ==> s[j] != '-',
        decreases d,
    {
        d = d - 1;
    }
    if d == 0 {
        assert(!s.contains('-'));
        let whole_stem = string_of(&v);
        assert((opt_view(Some(whole_stem)), opt_view(None)) == names_from_stem(s));
        return (Some(whole_stem), None);
    }
    let title = trimmed(&v, 0, d - 1);
    let artist = trimmed(&v, d, n);
    proof {
        assert(s[d - 1] == '-');
        assert(s.contains('-'));
        let d2 = choose|d2: int| 0 <= d2 < s.len() && s[d2] == '-' && forall|j: int| d2 < j < s.len() ==> s[j] != '-';
        if d2 < d - 1 {
            assert(s[d - 1] != '-');
        } else if d2 > d - 1 {
            assert(s[d2] != '-');
        }
        assert((opt_view(Some(title)), opt_view(Some(artist))) == names_from_stem(s));
    }
    (Some(title), Some(artist))
}

/// Title and artist once the file name has filled in what the tags lack: the file name
/// is consulted when the title is empty or "Unknown Title", and its artist is taken when
/// the tag artist is empty or "Unknown Artist"; what is still empty becomes "Unknown ...".
pub open spec fn names_after_fallback(title: Seq<char>, artist: Seq<char>, file_name: Seq<char>) -> (
    Seq<char>,
    Seq<char>,
) {
    let (t1, a1) = if title.len() == 0 || title == "Unknown Title"@ {
        let guess = names_from_stem(file_stem_spec(file_name));
        (
            guess.0->0,
            if (artist.len() == 0 || artist == "Unknown Artist"@) && guess.1 is Some {
                guess.1->0
            } else {
                artist
            },
        )
    } else {
        (title, artist)
    };
    (
        if t1.len() == 0 {
            "Unknown Title"@
        } else {
            t1
        },
        if a1.len() == 0 {
            "Unknown Artist"@
        } else {
            a1
        },
    )
}

/// The metadata that local tags give for a file: `title`, `artist` and `album` as read from
/// its tags (empty where absent), completed from `file_name` as `names_after_fallback` says.
pub fn metadata_from_tags(title: String, artist: String, album: Option<String>, file_name: Option<
    &str,
>) -> (r: TrackMetadata)
    ensures
        r.title@.len() > 0,
        r.artist@.len() > 0,
        r.album == album,
        file_name is Some ==> (r.title@, r.artist@)
            == names_after_fallback(title@, artist@, file_name->0@),
        file_name is None ==> (r.title@, r.artist@) == names_after_fallback(title@, artist@, seq![]),
        r.original_artist is None,
        r.original_title is None,
        r.duration_bits == 0,
        r.fingerprint is None,
        r.genres@.len() == 0,
{
    let unknown_title = String::from_str("Unknown Title");
    let unknown_artist = String::from_str("Unknown Artist");
    let mut t = title;
    let mut a = artist;
    if t.as_str().unicode_len() == 0 || t == unknown_title {
        match file_name {
            Some(f) => {
                let (ft, fa) = parse_metadata_from_filename(f);
                let artist_missing = a.as_str().unicode_len() == 0 || a == unknown_artist;
                match ft {
                    Some(x) => {
                        t = x;
                    },
                    None => {},
                }
                if artist_missing {
                    match fa {
                        Some(x) => {
                            a = x;
                        },
                        None => {},
                    }
                }
            },
            None => {
                proof {
                    let e: Seq<char> = seq![];
                    assert(!e.contains('/'));
                    assert(last_part(e) == e);
                    assert(file_stem_spec(e) == e);
                    assert(!e.contains('-'));
                    assert(!exists|k: int| splits_in_two(e, k));
                }
                t = String::new();
            },
        }
    }
    if t.as_str().unicode_len() == 0 {
        t = String::from_str("Unknown Title");
    }
    if a.as_str().unicode_len() == 0 {
        a = String::from_str("Unknown Artist");
    }
    proof {
        reveal_strlit("Unknown Title");
        reveal_strlit("Unknown Artist");
    }
    TrackMetadata {
        title: t,
        artist: a,
        album,
        original_artist: None,
        original_title: None,
        duration_bits: 0,
        fingerprint: None,
        genres: Vec::new(),
    }
}

} // verus!
