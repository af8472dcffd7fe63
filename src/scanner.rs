use vstd::prelude::*;

use crate::text::chars_of;

verus! {

/// `c` with ASCII upper-case letters made lower-case.
pub open spec fn ascii_lower(c: char) -> char {
    if 'A' <= c && c <= 'Z' {
        ((c as u32) + 32) as char
    } else {
        c
    }
}

/// The extensions of the files that a scan considers, in lower case.
pub open spec fn audio_extensions() -> Set<Seq<char>> {
    set![seq!['m', 'p', '3'], seq!['f', 'l', 'a', 'c'], seq!['w', 'a', 'v'], seq!['m', '4', 'a'], seq!['o', 'g', 'g']]
}

/// `s` with ASCII letters in lower case.
pub open spec fn lower_ascii(s: Seq<char>) -> Seq<char> {
    s.map_values(|c: char| ascii_lower(c))
}

pub(crate) fn lower_exec(c: char) -> (r: char)
    ensures
        r == ascii_lower(c),
{
    if 'A' <= c && c <= 'Z' {
        ((c as u8) + 32) as char
    } else {
        c
    }
}

/// Whether a file with extension `ext` is a candidate: its extension, in lower case, is one
/// of mp3, flac, wav, m4a and ogg. (No character outside ASCII becomes one of their
/// letters when lowered, so lowering ASCII letters alone decides the same.)
pub fn is_audio_extension(ext: &str) -> (r: bool)
    ensures
        r == audio_extensions().contains(lower_ascii(ext@)),
{
    let c = chars_of(ext);
    let mut low: Vec<char> = Vec::new();
    let mut i: usize = 0;
    while i < c.len()
        invariant
            c@ == ext@,
            i <= c@.len(),
            low@ == lower_ascii(c@.subrange(0, i as int)),
        decreases c@.len() - i,
    {
        low.push(lower_exec(c[i]));
        i = i + 1;
        assert(low@ =~= lower_ascii(c@.subrange(0, i as int)));
    }
    assert(c@.subrange(0, i as int) =~= c@);
    let l = low.len();
    let r = if l == 3 {
        (low[0] == 'm' && low[1] == 'p' && low[2] == '3') || (low[0] == 'w' && low[1] == 'a' && low[2] == 'v')
            || (low[0] == 'm' && low[1] == '4' && low[2] == 'a') || (low[0] == 'o' && low[1] == 'g' && low[2] == 'g')
    } else if l == 4 {
        low[0] == 'f' && low[1] == 'l' && low[2] == 'a' && low[3] == 'c'
    } else {
        false
    };
    proof {
        let w = low@;
        if r {
            if l == 3 {
                if w[0] == 'm' && w[1] == 'p' {
                    assert(w =~= seq!['m', 'p', '3']);
                } else if w[0] == 'w' {
                    assert(w =~= seq!['w', 'a', 'v']);
                } else if w[0] == 'm' {
                    assert(w =~= seq!['m', '4', 'a']);
                } else {
                    assert(w =~= seq!['o', 'g', 'g']);
                }
            } else {
                assert(w =~= seq!['f', 'l', 'a', 'c']);
            }
        } else {
            if audio_extensions().contains(w) {
                assert(w == seq!['m', 'p', '3'] || w == seq!['f', 'l', 'a', 'c'] || w == seq!['w', 'a', 'v'] || w
                    == seq!['m', '4', 'a'] || w == seq!['o', 'g', 'g']);
                if w == seq!['m', 'p', '3'] {
                    assert(w[0] == 'm' && w[1] == 'p' && w[2] == '3');
                } else if w == seq!['f', 'l', 'a', 'c'] {
                    assert(w[0] == 'f' && w[1] == 'l' && w[2] == 'a' && w[3] == 'c');
                } else if w == seq!['w', 'a', 'v'] {
                    assert(w[0] == 'w' && w[1] == 'a' && w[2] == 'v');
                } else if w == seq!['m', '4', 'a'] {
                    assert(w[0] == 'm' && w[1] == '4' && w[2] == 'a');
                } else {
                    assert(w[0] == 'o' && w[1] == 'g' && w[2] == 'g');
                }
            }
        }
    }
    r
}

} // verus!
