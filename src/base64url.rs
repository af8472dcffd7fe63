use vstd::prelude::*;

use crate::text::{chars_of, string_of};

verus! {

pub open spec fn sym(v: int) -> char {
    if v < 26 {
        ((v + 65) as u8) as char
    } else if v < 52 {
        ((v - 26 + 97) as u8) as char
    } else if v < 62 {
        ((v - 52 + 48) as u8) as char
    } else if v == 62 {
        '-'
    } else {
        '_'
    }
}

pub open spec fn value_of(c: char) -> Option<int> {
    if 'A' <= c && c <= 'Z' {
        Some(c as int - 65)
    } else if 'a' <= c && c <= 'z' {
        Some(c as int - 97 + 26)
    } else if '0' <= c && c <= '9' {
        Some(c as int - 48 + 52)
    } else if c == '-' {
        Some(62)
    } else if c == '_' {
        Some(63)
    } else {
        None
    }
}

/// The characters that one group of one to three bytes becomes.
pub open spec fn encode_group(b: Seq<u8>) -> Seq<char> {
    let b0 = b[0] as int;
    let b1 = b[1] as int;
    let b2 = b[2] as int;
    if b.len() == 1 {
        seq![sym(b0 / 4), sym((b0 % 4) * 16)]
    } else if b.len() == 2 {
        seq![sym(b0 / 4), sym((b0 % 4) * 16 + b1 / 16), sym((b1 % 16) * 4)]
    } else {
        seq![sym(b0 / 4), sym((b0 % 4) * 16 + b1 / 16), sym((b1 % 16) * 4 + b2 / 64), sym(b2 % 64)]
    }
}

/// URL-safe, unpadded base64: every three bytes become four characters; a tail of one
/// byte becomes two characters and a tail of two bytes three, the spare low bits zero.
pub open spec fn encode_spec(b: Seq<u8>) -> Seq<char>
    decreases b.len(),
{
    if b.len() == 0 {
        Seq::empty()
    } else if b.len() <= 3 {
        encode_group(b)
    } else {
        encode_group(b.subrange(0, 3)) + encode_spec(b.subrange(3, b.len() as int))
    }
}

/// The bytes that one group of two to four characters stands for, if the characters
/// belong to the alphabet and the spare low bits of a short group are zero.
pub open spec fn decode_group(s: Seq<char>) -> Option<Seq<u8>> {
    if s.len() == 2 {
        match (value_of(s[0]), value_of(s[1])) {
            (Some(v0), Some(v1)) => if v1 % 16 == 0 {
                Some(seq![(v0 * 4 + v1 / 16) as u8])
            } else {
                None
            },
            _ => None,
        }
    } else if s.len() == 3 {
        match (value_of(s[0]), value_of(s[1]), value_of(s[2])) {
            (Some(v0), Some(v1), Some(v2)) => if v2 % 4 == 0 {
                Some(seq![(v0 * 4 + v1 / 16) as u8, ((v1 % 16) * 16 + v2 / 4) as u8])
            } else {
                None
            },
            _ => None,
        }
    } else if s.len() == 4 {
        match (value_of(s[0]), value_of(s[1]), value_of(s[2]), value_of(s[3])) {
            (Some(v0), Some(v1), Some(v2), Some(v3)) => Some(
                seq![
                    (v0 * 4 + v1 / 16) as u8,
                    ((v1 % 16) * 16 + v2 / 4) as u8,
                    ((v2 % 4) * 64 + v3) as u8,
                ],
            ),
            _ => None,
        }
    } else {
        None
    }
}

/// The decoder that matches `encode_spec`: `None` for a character outside the alphabet,
/// a length of the form 4k + 1, or a tail whose spare bits are not zero.
pub open spec fn decode_spec(s: Seq<char>) -> Option<Seq<u8>>
    decreases s.len(),
{
    if s.len() == 0 {
        Some(Seq::empty())
    } else if s.len() <= 4 {
        decode_group(s)
    } else {
        match (decode_group(s.subrange(0, 4)), decode_spec(s.subrange(4, s.len() as int))) {
            (Some(g), Some(rest)) => Some(g + rest),
            _ => None,
        }
    }
}

proof fn lemma_value_sym(v: int)
    requires 0 <= v < 64,
    ensures value_of(sym(v)) == Some(v),
{
}

fn sym_exec(v: u8) -> (c: char)
    requires v < 64,
    ensures c == sym(v as int),
{
    if v < 26 {
        (v + 65) as char
    } else if v < 52 {
        (v - 26 + 97) as char
    } else if v < 62 {
        (v - 52 + 48) as char
    } else if v == 62 {
        '-'
    } else {
        '_'
    }
}

fn value_exec(c: char) -> (r: Option<u8>)
    ensures
        r is Some <==> value_of(c) is Some,
        r is Some ==> r->0 as int == value_of(c)->0,
{
    if 'A' <= c && c <= 'Z' {
        Some((c as u32 - 65) as u8)
    } else if 'a' <= c && c <= 'z' {
        Some((c as u32 - 97 + 26) as u8)
    } else if '0' <= c && c <= '9' {
        Some((c as u32 - 48 + 52) as u8)
    } else if c == '-' {
        Some(62)
    } else if c == '_' {
        Some(63)
    } else {
        None
    }
}

proof fn lemma_encode_split(a: Seq<u8>, c: Seq<u8>)
    requires
        a.len() % 3 == 0,
    ensures
        encode_spec(a + c) == encode_spec(a) + encode_spec(c),
    decreases a.len(),
{
    if a.len() == 0 {
        assert(a + c =~= c);
        assert(encode_spec(a) + encode_spec(c) =~= encode_spec(c));
    } else {
        let rest = a.subrange(3, a.len() as int);
        lemma_encode_split(rest, c);
        assert((a + c).subrange(0, 3) =~= a.subrange(0, 3));
        assert((a + c).subrange(3, (a + c).len() as int) =~= rest + c);
        if a.len() == 3 {
            assert(rest =~= Seq::<u8>::empty());
            assert(rest + c =~= c);
            assert(encode_spec(rest) =~= Seq::<char>::empty());
            assert(encode_spec(a) == encode_group(a.subrange(0, 3))) by {
                assert(a.subrange(0, 3) =~= a);
            }
            if c.len() == 0 {
                assert(a + c =~= a);
                assert(encode_spec(a) + encode_spec(c) =~= encode_spec(a));
            }
        } else {
            assert(encode_spec(a) + encode_spec(c) =~= encode_group(a.subrange(0, 3)) + (
            encode_spec(rest) + encode_spec(c)));
        }
    }
}

proof fn lemma_group_round_trip(b: Seq<u8>)
    requires
        1 <= b.len() <= 3,
    ensures
        decode_group(encode_group(b)) == Some(b),
{
    let b0 = b[0];
    lemma_value_sym(b0 as int / 4);
    assert(b0 / 4 < 64) by (bit_vector);
    if b.len() == 1 {
        assert((b0 % 4) * 16 < 64 && ((b0 % 4) * 16) % 16 == 0) by (bit_vector);
        lemma_value_sym((b0 as int % 4) * 16);
        assert(((b0 / 4) * 4 + ((b0 % 4) * 16) / 16) as u8 == b0) by (bit_vector);
        assert(decode_group(encode_group(b)).unwrap() =~= b);
    } else if b.len() == 2 {
        let b1 = b[1];
        assert(((b0 % 4) * 16 + b1 / 16) < 64) by (bit_vector);
        assert(((b1 % 16) * 4) < 64 && ((b1 % 16) * 4) % 4 == 0) by (bit_vector);
        lemma_value_sym((b0 as int % 4) * 16 + b1 as int / 16);
        lemma_value_sym((b1 as int % 16) * 4);
        assert(((b0 / 4) * 4 + ((b0 % 4) * 16 + b1 / 16) / 16) as u8 == b0) by (bit_vector);
        assert(((((b0 % 4) * 16 + b1 / 16) % 16) * 16 + ((b1 % 16) * 4) / 4) as u8 == b1)
            by (bit_vector);
        assert(decode_group(encode_group(b)).unwrap() =~= b);
    } else {
        let b1 = b[1];
        let b2 = b[2];
        assert(((b0 % 4) * 16 + b1 / 16) < 64) by (bit_vector);
        assert(((b1 % 16) * 4 + b2 / 64) < 64) by (bit_vector);
        assert(b2 % 64 < 64) by (bit_vector);
        lemma_value_sym((b0 as int % 4) * 16 + b1 as int / 16);
        lemma_value_sym((b1 as int % 16) * 4 + b2 as int / 64);
        lemma_value_sym(b2 as int % 64);
        assert(((b0 / 4) * 4 + ((b0 % 4) * 16 + b1 / 16) / 16) as u8 == b0) by (bit_vector);
        assert(((((b0 % 4) * 16 + b1 / 16) % 16) * 16 + ((b1 % 16) * 4 + b2 / 64) / 4) as u8
            == b1) by (bit_vector);
        assert(((((b1 % 16) * 4 + b2 / 64) % 4) * 64 + b2 % 64) as u8 == b2) by (bit_vector);
        assert(decode_group(encode_group(b)).unwrap() =~= b);
    }
}

/// Decoding what the encoder produced gives back the bytes: the decoder inverts the
/// encoder over every byte sequence.
pub proof fn lemma_decode_encode(b: Seq<u8>)
    ensures
        decode_spec(encode_spec(b)) == Some(b),
    decreases b.len(),
{
    if b.len() == 0 {
    } else if b.len() <= 3 {
        lemma_group_round_trip(b);
    } else {
        let g = b.subrange(0, 3);
        let rest = b.subrange(3, b.len() as int);
        lemma_group_round_trip(g);
        lemma_decode_encode(rest);
        let e = encode_spec(b);
        assert(e == encode_group(g) + encode_spec(rest));
        assert(encode_group(g).len() == 4);
        assert(e.subrange(0, 4) =~= encode_group(g));
        assert(e.subrange(4, e.len() as int) =~= encode_spec(rest));
        assert(g + rest =~= b);
    }
}

proof fn lemma_sym_value(c: char, v: int)
    requires
        value_of(c) == Some(v),
    ensures
        0 <= v < 64,
        sym(v) == c,
{
    if 'A' <= c && c <= 'Z' {
        assert(((v + 65) as u8) as char == c);
    } else if 'a' <= c && c <= 'z' {
        assert(((v - 26 + 97) as u8) as char == c);
    } else if '0' <= c && c <= '9' {
        assert(((v - 52 + 48) as u8) as char == c);
    }
}

proof fn lemma_group_inverse(g: Seq<char>)
    requires
        decode_group(g) is Some,
    ensures
        encode_group(decode_group(g)->0) == g,
{
    let v0 = value_of(g[0])->0;
    let v1 = value_of(g[1])->0;
    lemma_sym_value(g[0], v0);
    lemma_sym_value(g[1], v1);
    let x0 = v0 as u8;
    let x1 = v1 as u8;
    let b = decode_group(g)->0;
    if g.len() == 2 {
        assert(x1 % 16 == 0);
        assert(b[0] == (x0 * 4 + x1 / 16) as u8);
        assert(((x0 * 4 + x1 / 16) as u8) / 4 == x0 && ((((x0 * 4 + x1 / 16) as u8) % 4) * 16) == x1) by (bit_vector)
            requires
                x0 < 64,
                x1 < 64,
                x1 % 16 == 0,
        ;
        assert(encode_group(b) =~= g);
    } else if g.len() == 3 {
        let v2 = value_of(g[2])->0;
        lemma_sym_value(g[2], v2);
        let x2 = v2 as u8;
        assert(b[0] == (x0 * 4 + x1 / 16) as u8);
        assert(b[1] == ((x1 % 16) * 16 + x2 / 4) as u8);
        assert(((x0 * 4 + x1 / 16) as u8) / 4 == x0) by (bit_vector)
            requires
                x0 < 64,
                x1 < 64,
        ;
        assert((((x0 * 4 + x1 / 16) as u8) % 4) * 16 + (((x1 % 16) * 16 + x2 / 4) as u8) / 16 == x1) by (bit_vector)
            requires
                x0 < 64,
                x1 < 64,
                x2 < 64,
        ;
        assert(((((x1 % 16) * 16 + x2 / 4) as u8) % 16) * 4 == x2) by (bit_vector)
            requires
                x1 < 64,
                x2 < 64,
                x2 % 4 == 0,
        ;
        assert(encode_group(b) =~= g);
    } else {
        let v2 = value_of(g[2])->0;
        let v3 = value_of(g[3])->0;
        lemma_sym_value(g[2], v2);
        lemma_sym_value(g[3], v3);
        let x2 = v2 as u8;
        let x3 = v3 as u8;
        assert(b[0] == (x0 * 4 + x1 / 16) as u8);
        assert(b[1] == ((x1 % 16) * 16 + x2 / 4) as u8);
        assert(b[2] == ((x2 % 4) * 64 + x3) as u8);
        assert(((x0 * 4 + x1 / 16) as u8) / 4 == x0) by (bit_vector)
            requires
                x0 < 64,
                x1 < 64,
        ;
        assert((((x0 * 4 + x1 / 16) as u8) % 4) * 16 + (((x1 % 16) * 16 + x2 / 4) as u8) / 16 == x1) by (bit_vector)
            requires
                x0 < 64,
                x1 < 64,
                x2 < 64,
        ;
        assert(((((x1 % 16) * 16 + x2 / 4) as u8) % 16) * 4 + (((x2 % 4) * 64 + x3) as u8) / 64 == x2) by (bit_vector)
            requires
                x1 < 64,
                x2 < 64,
                x3 < 64,
        ;
        assert((((x2 % 4) * 64 + x3) as u8) % 64 == x3) by (bit_vector)
            requires
                x2 < 64,
                x3 < 64,
        ;
        assert(encode_group(b) =~= g);
    }
}

/// Encoding what the decoder accepted gives back the characters: over the alphabet, the
/// decoder accepts exactly the encoder's outputs.
pub proof fn lemma_encode_decode(s: Seq<char>)
    requires
        decode_spec(s) is Some,
    ensures
        encode_spec(decode_spec(s)->0) == s,
    decreases s.len(),
{
    if s.len() == 0 {
    } else if s.len() <= 4 {
        lemma_group_inverse(s);
        let b = decode_group(s)->0;
        assert(1 <= b.len() <= 3);
    } else {
        let g = s.subrange(0, 4);
        let rest = s.subrange(4, s.len() as int);
        lemma_group_inverse(g);
        lemma_encode_decode(rest);
        let gb = decode_group(g)->0;
        let rb = decode_spec(rest)->0;
        let b = gb + rb;
        assert(gb.len() == 3);
        assert(b.subrange(0, 3) =~= gb);
        assert(b.subrange(3, b.len() as int) =~= rb);
        if rb.len() == 0 {
            assert(rest.len() == 0 || decode_spec(rest)->0.len() > 0) by {
                if rest.len() > 0 {
                    if rest.len() <= 4 {
                        assert(decode_group(rest)->0.len() >= 1);
                    } else {
                        assert(decode_group(rest.subrange(0, 4))->0.len() == 3);
                    }
                }
            }
        }
        assert(g + rest =~= s);
    }
}

/// Encodes bytes in the URL-safe, unpadded base64 alphabet `A-Z a-z 0-9 - _`.
pub fn base64_encode(data: &[u8]) -> (r: String)
    ensures
        r@ == encode_spec(data@),
{
    let n = data.len();
    let mut out: Vec<char> = Vec::new();
    let mut i: usize = 0;
    while n - i >= 3
        invariant
            n == data@.len(),
            i <= n,
            i % 3 == 0,
            out@ == encode_spec(data@.subrange(0, i as int)),
        decreases n - i,
    {
        let b0 = data[i];
        let b1 = data[i + 1];
        let b2 = data[i + 2];
        assert(b0 / 4 < 64 && (b0 % 4) * 16 + b1 / 16 < 64 && (b1 % 16) * 4 + b2 / 64 < 64
            && b2 % 64 < 64) by (bit_vector);
        out.push(sym_exec(b0 / 4));
        out.push(sym_exec((b0 % 4) * 16 + b1 / 16));
        out.push(sym_exec((b1 % 16) * 4 + b2 / 64));
        out.push(sym_exec(b2 % 64));
        proof {
            let g = data@.subrange(i as int, i + 3);
            lemma_encode_split(data@.subrange(0, i as int), g);
            assert(data@.subrange(0, i as int) + g =~= data@.subrange(0, i + 3));
            assert(encode_spec(g) == encode_group(g));
        }
        i = i + 3;
    }
    if i < n {
        let ghost before = out@;
        let b0 = data[i];
        assert(b0 / 4 < 64 && (b0 % 4) * 16 < 64) by (bit_vector);
        out.push(sym_exec(b0 / 4));
        if i + 1 < n {
            let b1 = data[i + 1];
            assert((b0 % 4) * 16 + b1 / 16 < 64 && (b1 % 16) * 4 < 64) by (bit_vector);
            out.push(sym_exec((b0 % 4) * 16 + b1 / 16));
            out.push(sym_exec((b1 % 16) * 4));
        } else {
            out.push(sym_exec((b0 % 4) * 16));
        }
        proof {
            let g = data@.subrange(i as int, n as int);
            lemma_encode_split(data@.subrange(0, i as int), g);
            assert(data@.subrange(0, i as int) + g =~= data@);
            assert(encode_spec(g) == encode_group(g));
            assert(out@ =~= before + encode_group(g));
        }
    } else {
        assert(data@.subrange(0, i as int) =~= data@);
    }
    string_of(&out)
}

/// Decodes the characters `c[i..i + len]`, a group of two to four characters.
fn decode_group_exec(c: &Vec<char>, i: usize, len: usize) -> (r: Option<Vec<u8>>)
    requires
        2 <= len <= 4,
        i + len <= c.len(),
    ensures
        r is Some <==> decode_group(c@.subrange(i as int, i + len)) is Some,
        r is Some ==> r->0@ == decode_group(c@.subrange(i as int, i + len))->0,
{
    let ghost g = c@.subrange(i as int, i + len);
    let v0 = match value_exec(c[i]) {
        Some(v) => v,
        None => return None,
    };
    let v1 = match value_exec(c[i + 1]) {
        Some(v) => v,
        None => return None,
    };
    let mut out: Vec<u8> = Vec::new();
    if len == 2 {
        if v1 % 16 != 0 {
            return None;
        }
        out.push(v0 * 4 + v1 / 16);
        assert(out@ =~= decode_group(g)->0);
        return Some(out);
    }
    let v2 = match value_exec(c[i + 2]) {
        Some(v) => v,
        None => {
            assert(value_of(g[2]) is None);
            return None;
        },
    };
    if len == 3 {
        if v2 % 4 != 0 {
            return None;
        }
        out.push(v0 * 4 + v1 / 16);
        out.push((v1 % 16) * 16 + v2 / 4);
        assert(out@ =~= decode_group(g)->0);
        return Some(out);
    }
    let v3 = match value_exec(c[i + 3]) {
        Some(v) => v,
        None => {
            assert(value_of(g[3]) is None);
            return None;
        },
    };
    out.push(v0 * 4 + v1 / 16);
    out.push((v1 % 16) * 16 + v2 / 4);
    out.push((v2 % 4) * 64 + v3);
    assert(out@ =~= decode_group(g)->0);
    Some(out)
}

/// Decodes URL-safe, unpadded base64; `None` where `s` is not an encoding of any bytes.
pub fn base64_decode(s: &str) -> (r: Option<Vec<u8>>)
    ensures
        r is Some <==> decode_spec(s@) is Some,
        r is Some ==> r->0@ == decode_spec(s@)->0,
{
    let c = chars_of(s);
    let n = c.len();
    let mut out: Vec<u8> = Vec::new();
    let mut i: usize = 0;
    proof {
        assert(c@.subrange(0, n as int) =~= c@);
        match decode_spec(c@) {
            Some(all) => {
                assert(out@ + all =~= all);
            },
            None => {},
        }
    }
    while n - i > 4
        invariant
            n == c@.len(),
            c@ == s@,
            i <= n,
            decode_spec(c@) == (match decode_spec(c@.subrange(i as int, n as int)) {
                Some(rest) => Some(out@ + rest),
                None => None,
            }),
        decreases n - i,
    {
        let ghost tail = c@.subrange(i as int, n as int);
        assert(tail.subrange(0, 4) =~= c@.subrange(i as int, i + 4));
        assert(tail.subrange(4, tail.len() as int) =~= c@.subrange(i + 4, n as int));
        match decode_group_exec(&c, i, 4) {
            Some(g) => {
                let ghost old_out = out@;
                let mut k: usize = 0;
                while k < g.len()
                    invariant
                        k <= g@.len(),
                        out@ == old_out + g@.subrange(0, k as int),
                    decreases g@.len() - k,
                {
                    out.push(g[k]);
                    k = k + 1;
                    assert(out@ =~= old_out + g@.subrange(0, k as int));
                }
                assert(g@.subrange(0, k as int) =~= g@);
                proof {
                    match decode_spec(c@.subrange(i + 4, n as int)) {
                        Some(rest) => {
                            assert(old_out + (g@ + rest) =~= out@ + rest);
                        },
                        None => {},
                    }
                }
                i = i + 4;
            },
            None => {
                return None;
            },
        }
    }
    let ghost tail = c@.subrange(i as int, n as int);
    if n - i == 0 {
        assert(tail.len() == 0);
        assert(out@ + Seq::<u8>::empty() =~= out@);
        return Some(out);
    }
    if n - i == 1 {
        return None;
    }
    match decode_group_exec(&c, i, n - i) {
        Some(g) => {
            let ghost old_out = out@;
            let mut k: usize = 0;
            while k < g.len()
                invariant
                    k <= g@.len(),
                    out@ == old_out + g@.subrange(0, k as int),
                decreases g@.len() - k,
            {
                out.push(g[k]);
                k = k + 1;
                assert(out@ =~= old_out + g@.subrange(0, k as int));
            }
            assert(g@.subrange(0, k as int) =~= g@);
            Some(out)
        },
        None => None,
    }
}

} // verus!
