//! Parser for magnet-style link descriptors.
//!
//! A magnet URI is `magnet:?` followed by `key=value` pairs separated by
//! `&`.  Keys may repeat (for example several `tr` trackers), so the
//! parameters are kept as an ordered list of pairs.  Values are
//! percent-decoded at the byte level; a decoded value that is not valid
//! UTF-8 is kept in its raw, undecoded form.
//!
//! Only ASCII inputs are accepted: a URI is ASCII by construction, with
//! anything else percent-encoded, so a non-ASCII string is treated as not
//! being a magnet URI at all.

use vstd::prelude::*;

use crate::num::spec_parse_u64;
use crate::num::parse_u64;
use crate::strutil::str_eq;
use vstd::string::StrSliceExecFns;
use vstd::string::StringExecFnsIsAscii;
use vstd::utf8::{decode_utf8, valid_utf8};

verus! {

broadcast use vstd::string::is_ascii_spec_bytes;

/// A parsed magnet-style URI: its parameters as an ordered multimap.
#[derive(Debug, Clone, PartialEq)]
pub struct MagnetURI {
    /// The `key=value` pairs of the query portion, in document order.
    pub params: Vec<(String, String)>,
}

pub open spec fn is_hex_digit(b: u8) -> bool {
    (48 <= b && b <= 57) || (65 <= b && b <= 70) || (97 <= b && b <= 102)
}

pub open spec fn hex_val(b: u8) -> u8 {
    if 48 <= b && b <= 57 {
        (b - 48) as u8
    } else if 65 <= b && b <= 70 {
        (b - 55) as u8
    } else {
        (b - 87) as u8
    }
}

/// Percent-decoding over bytes: each `%XY` with two hex digits becomes one
/// byte; everything else passes through unchanged.
pub open spec fn pct_decode(bs: Seq<u8>) -> Seq<u8>
    decreases bs.len(),
{
    if bs.len() == 0 {
        Seq::empty()
    } else if bs[0] == 37 && bs.len() >= 3 && is_hex_digit(bs[1]) && is_hex_digit(bs[2]) {
        seq![(hex_val(bs[1]) * 16 + hex_val(bs[2])) as u8] + pct_decode(bs.skip(3))
    } else {
        seq![bs[0]] + pct_decode(bs.skip(1))
    }
}

/// The bytes of an ASCII character sequence.
pub open spec fn ascii_bytes(v: Seq<char>) -> Seq<u8> {
    v.map(|i: int, c: char| c as u8)
}

/// What a raw parameter value decodes to: percent-decoded when that yields
/// valid UTF-8, otherwise kept verbatim.
pub open spec fn spec_decode_value(v: Seq<char>) -> Seq<char> {
    let dec = pct_decode(ascii_bytes(v));
    if valid_utf8(dec) {
        decode_utf8(dec)
    } else {
        v
    }
}

/// Index of the first occurrence of `c` at or after `i`, or the length.
pub open spec fn spec_find_char(t: Seq<char>, c: char, i: int) -> int
    decreases t.len() - i,
{
    if i < 0 || i >= t.len() {
        t.len() as int
    } else if t[i] == c {
        i
    } else {
        spec_find_char(t, c, i + 1)
    }
}

/// The `key=value` pair a single `&`-separated piece stands for: the key is
/// everything before the first `=`, the value everything after it, decoded.
pub open spec fn pair_model(piece: Seq<char>) -> (Seq<char>, Seq<char>) {
    let e = spec_find_char(piece, '=', 0);
    let raw = if e < piece.len() {
        piece.subrange(e + 1, piece.len() as int)
    } else {
        Seq::<char>::empty()
    };
    (piece.subrange(0, e), spec_decode_value(raw))
}

/// The `&`-separated pieces of the query portion, in order.
pub open spec fn spec_pieces(rest: Seq<char>) -> Seq<Seq<char>>
    decreases rest.len(),
{
    let i = spec_find_char(rest, '&', 0);
    if 0 <= i < rest.len() {
        seq![rest.subrange(0, i)] + spec_pieces(rest.skip(i + 1))
    } else {
        seq![rest]
    }
}

/// Whether `s` has the shape of a magnet URI this parser accepts.
pub open spec fn spec_magnet_ok(s: Seq<char>) -> bool {
    vstd::utf8::is_ascii_chars(s) && s.len() >= 8 && s.subrange(0, 8) == "magnet:?"@
}

/// The parameter list of a magnet URI.
pub open spec fn spec_magnet_pairs(s: Seq<char>) -> Seq<(Seq<char>, Seq<char>)> {
    spec_pieces(s.skip(8)).map_values(|p: Seq<char>| pair_model(p))
}

/// First value stored under `k`, if any.
pub open spec fn spec_lookup(ps: Seq<(Seq<char>, Seq<char>)>, k: Seq<char>) -> Option<Seq<char>>
    decreases ps.len(),
{
    if ps.len() == 0 {
        None
    } else if ps[0].0 == k {
        Some(ps[0].1)
    } else {
        spec_lookup(ps.drop_first(), k)
    }
}

/// All values stored under `k`, in order.
pub open spec fn spec_values(ps: Seq<(Seq<char>, Seq<char>)>, k: Seq<char>) -> Seq<Seq<char>>
    decreases ps.len(),
{
    if ps.len() == 0 {
        Seq::empty()
    } else {
        (if ps[0].0 == k {
            seq![ps[0].1]
        } else {
            Seq::empty()
        }) + spec_values(ps.drop_first(), k)
    }
}

/// Relies on `String::from_utf8`: it succeeds exactly on valid UTF-8 input
/// and returns the string those bytes encode.
#[verifier::external_body]
fn utf8_to_string(v: &Vec<u8>) -> (r: Option<String>)
    ensures
        match r {
            Some(s) => valid_utf8(v@) && s@ == decode_utf8(v@),
            None => !valid_utf8(v@),
        },
{
    String::from_utf8(v.clone()).ok()
}

fn is_hex_byte(b: u8) -> (r: bool)
    ensures
        r == is_hex_digit(b),
{
    (48 <= b && b <= 57) || (65 <= b && b <= 70) || (97 <= b && b <= 102)
}

fn hex_byte_val(b: u8) -> (r: u8)
    requires
        is_hex_digit(b),
    ensures
        r == hex_val(b),
{
    if 48 <= b && b <= 57 {
        b - 48
    } else if 65 <= b && b <= 70 {
        b - 55
    } else {
        b - 87
    }
}

/// Finds the first occurrence of `c` in `s` within `[i, n)`, as an offset
/// into that window.
fn find_char_in(s: &str, c: char, i: usize, n: usize) -> (r: usize)
    requires
        i <= n <= s@.len(),
    ensures
        i <= r <= n,
        r - i == spec_find_char(s@.subrange(i as int, n as int), c, 0),
{
    let ghost sub = s@.subrange(i as int, n as int);
    let mut j: usize = i;
    while j < n
        invariant
            i <= j <= n <= s@.len(),
            sub == s@.subrange(i as int, n as int),
            spec_find_char(sub, c, 0) == spec_find_char(sub, c, j - i),
        decreases n - j,
    {
        proof {
            assert(sub[j - i] == s@[j as int]);
        }
        if s.get_char(j) == c {
            return j;
        }
        j = j + 1;
    }
    j
}

/// Percent-decodes the characters of `s` in `[a, b)` at the byte level,
/// falling back to the raw text when the result is not valid UTF-8.
#[verifier::loop_isolation(false)]
fn decode_value(s: &str, a: usize, b: usize) -> (r: String)
    requires
        s.is_ascii(),
        a <= b <= s@.len(),
    ensures
        r@ == spec_decode_value(s@.subrange(a as int, b as int)),
{
    let bytes = s.as_bytes_vec();
    let ghost raw = s@.subrange(a as int, b as int);
    proof {
        assert(bytes@ =~= Seq::new(s@.len(), |i: int| s@.index(i) as u8));
        assert(ascii_bytes(raw) =~= bytes@.subrange(a as int, b as int));
    }
    let mut dec: Vec<u8> = Vec::new();
    let mut i: usize = a;
    while i < b
        invariant
            a <= i <= b,
            pct_decode(ascii_bytes(raw)) == dec@ + pct_decode(bytes@.subrange(i as int, b as int)),
        decreases b - i,
    {
        let ghost sub = bytes@.subrange(i as int, b as int);
        if bytes[i] == 37 && b - i >= 3 && is_hex_byte(bytes[i + 1]) && is_hex_byte(bytes[i + 2]) {
            proof {
                assert(sub[0] == bytes@[i as int]);
                assert(sub[1] == bytes@[i as int + 1]);
                assert(sub[2] == bytes@[i as int + 2]);
                assert(sub.skip(3) =~= bytes@.subrange(i as int + 3, b as int));
            }
            let v = hex_byte_val(bytes[i + 1]) * 16 + hex_byte_val(bytes[i + 2]);
            dec.push(v);
            proof {
                assert(dec@ =~= (dec@.drop_last() + seq![v]));
                assert(dec@.drop_last() + (seq![v] + pct_decode(bytes@.subrange(
                    i as int + 3,
                    b as int,
                ))) =~= dec@ + pct_decode(bytes@.subrange(i as int + 3, b as int)));
            }
            i = i + 3;
        } else {
            proof {
                assert(sub[0] == bytes@[i as int]);
                assert(sub.skip(1) =~= bytes@.subrange(i as int + 1, b as int));
            }
            let v = bytes[i];
            dec.push(v);
            proof {
                assert(dec@ =~= (dec@.drop_last() + seq![v]));
                assert(dec@.drop_last() + (seq![v] + pct_decode(bytes@.subrange(
                    i as int + 1,
                    b as int,
                ))) =~= dec@ + pct_decode(bytes@.subrange(i as int + 1, b as int)));
            }
            i = i + 1;
        }
    }
    proof {
        assert(bytes@.subrange(b as int, b as int) =~= Seq::<u8>::empty());
        assert(pct_decode(Seq::<u8>::empty()) =~= Seq::<u8>::empty());
        assert(dec@ + Seq::<u8>::empty() =~= dec@);
    }
    match utf8_to_string(&dec) {
        Some(out) => out,
        None => s.substring_ascii(a, b).to_owned(),
    }
}

impl MagnetURI {
    /// The mathematical content of the parameter list.
    pub open spec fn pairs(self) -> Seq<(Seq<char>, Seq<char>)> {
        self.params.deep_view()
    }

    /// Parses a magnet-style URI.  Returns `None` when the input does not
    /// start with the `magnet:?` scheme marker (or is not ASCII); the caller
    /// treats that as "no descriptor available", never as a hard error.
    pub fn parse(s: &str) -> (r: Option<MagnetURI>)
        ensures
            match r {
                Some(m) => spec_magnet_ok(s@) && m.pairs() == spec_magnet_pairs(s@),
                None => !spec_magnet_ok(s@),
            },
    {
        if !s.is_ascii() {
            return None;
        }
        let n = s.unicode_len();
        if n < 8 {
            return None;
        }
        let pre = s.substring_ascii(0, 8);
        if !str_eq(pre, "magnet:?") {
            return None;
        }
        let mut params: Vec<(String, String)> = Vec::new();
        proof {
            assert(params.deep_view() =~= Seq::<(Seq<char>, Seq<char>)>::empty());
        }
        Self::parse_pieces(s, 8, n, &mut params);
        proof {
            assert(s@.skip(8) =~= s@.subrange(8, n as int));
            assert(params.deep_view() =~= spec_magnet_pairs(s@));
        }
        Some(MagnetURI { params })
    }

    /// One `&`-separated piece at a time, mirroring `spec_pieces`.
    #[verifier::loop_isolation(false)]
    fn parse_pieces(s: &str, p: usize, n: usize, params: &mut Vec<(String, String)>)
        requires
            s.is_ascii(),
            p <= n == s@.len(),
        ensures
            final(params).deep_view() == old(params).deep_view() + spec_pieces(
                s@.subrange(p as int, n as int),
            ).map_values(|x: Seq<char>| pair_model(x)),
        decreases n - p,
    {
        let ghost piece_rest = s@.subrange(p as int, n as int);
        let q = find_char_in(s, '&', p, n);
        let ghost piece = s@.subrange(p as int, q as int);
        let e = find_char_in(s, '=', p, q);
        proof {
            assert(piece =~= piece_rest.subrange(0, q - p));
            assert(piece.subrange(0, e - p) =~= s@.subrange(p as int, e as int));
        }
        let key = s.substring_ascii(p, e).to_owned();
        let val = if e < q {
            proof {
                assert(piece.subrange(e - p + 1, piece.len() as int) =~= s@.subrange(
                    e as int + 1,
                    q as int,
                ));
            }
            decode_value(s, e + 1, q)
        } else {
            proof {
                assert(ascii_bytes(Seq::<char>::empty()) =~= Seq::<u8>::empty());
                assert(pct_decode(Seq::<u8>::empty()) == Seq::<u8>::empty());
                assert(valid_utf8(Seq::<u8>::empty()));
                assert(decode_utf8(Seq::<u8>::empty()) =~= Seq::<char>::empty());
            }
            String::new()
        };
        let ghost old_params = params.deep_view();
        params.push((key, val));
        proof {
            assert(params.deep_view() =~= old_params + seq![pair_model(piece)]);
        }
        if q < n {
            Self::parse_pieces(s, q + 1, n, params);
            proof {
                assert(piece_rest.skip(q - p + 1) =~= s@.subrange(q as int + 1, n as int));
                assert(spec_pieces(piece_rest) =~= seq![piece] + spec_pieces(
                    piece_rest.skip(q - p + 1),
                ));
                lemma_map_values_add(
                    seq![piece],
                    spec_pieces(piece_rest.skip(q - p + 1)),
                );
            }
        } else {
            proof {
                assert(piece =~= piece_rest);
                assert(spec_pieces(piece_rest) =~= seq![piece_rest]);
                assert(spec_pieces(piece_rest).map_values(|x: Seq<char>| pair_model(x))
                    =~= seq![pair_model(piece_rest)]);
            }
        }
    }

    /// The derived exact-length parameter: the first `xl` value parsed as an
    /// unsigned byte count, or `None` when it is missing or malformed.
    pub fn length(&self) -> (r: Option<u64>)
        ensures
            r == match spec_lookup(self.pairs(), "xl"@) {
                None => None::<u64>,
                Some(v) => match spec_parse_u64(v) {
                    Ok(x) => Some(x),
                    Err(_) => None::<u64>,
                },
            },
    {
        match self.first_value("xl") {
            None => None,
            Some(v) => match parse_u64(v.as_str()) {
                Ok(x) => Some(x),
                Err(_) => None,
            },
        }
    }

    /// First value stored under `key`, if any.
    pub fn first_value(&self, key: &str) -> (r: Option<&String>)
        ensures
            match r {
                Some(v) => spec_lookup(self.pairs(), key@) == Some(v@),
                None => spec_lookup(self.pairs(), key@) is None,
            },
    {
        let mut i: usize = 0;
        proof {
            assert(self.pairs().skip(0) =~= self.pairs());
        }
        while i < self.params.len()
            invariant
                i <= self.params@.len(),
                spec_lookup(self.pairs(), key@) == spec_lookup(
                    self.pairs().skip(i as int),
                    key@,
                ),
            decreases self.params@.len() - i,
        {
            proof {
                assert(self.pairs().skip(i as int)[0] == self.pairs()[i as int]);
                assert(self.pairs()[i as int].0 == self.params@[i as int].0@);
                assert(self.pairs().skip(i as int).drop_first() =~= self.pairs().skip(
                    i as int + 1,
                ));
            }
            if str_eq(self.params[i].0.as_str(), key) {
                proof {
                    assert(self.pairs()[i as int].1 == self.params@[i as int].1@);
                }
                return Some(&self.params[i].1);
            }
            i = i + 1;
        }
        proof {
            assert(self.pairs().skip(self.pairs().len() as int) =~= Seq::<(
                Seq<char>,
                Seq<char>,
            )>::empty());
        }
        None
    }

    /// Every value stored under `key`, in the order the parameters appear.
    pub fn values(&self, key: &str) -> (r: Vec<String>)
        ensures
            r.deep_view() == spec_values(self.pairs(), key@),
    {
        let mut out: Vec<String> = Vec::new();
        let mut i: usize = 0;
        proof {
            assert(self.pairs().skip(0) =~= self.pairs());
            assert(out.deep_view() =~= Seq::<Seq<char>>::empty());
        }
        while i < self.params.len()
            invariant
                i <= self.params@.len(),
                spec_values(self.pairs(), key@) == out.deep_view() + spec_values(
                    self.pairs().skip(i as int),
                    key@,
                ),
            decreases self.params@.len() - i,
        {
            proof {
                let tail = self.pairs().skip(i as int);
                assert(tail[0] == self.pairs()[i as int]);
                assert(self.pairs()[i as int].0 == self.params@[i as int].0@);
                assert(self.pairs()[i as int].1 == self.params@[i as int].1@);
                assert(tail.drop_first() =~= self.pairs().skip(i as int + 1));
            }
            if str_eq(self.params[i].0.as_str(), key) {
                let ghost old_out = out.deep_view();
                out.push(self.params[i].1.clone());
                proof {
                    assert(out.deep_view() =~= old_out.push(self.pairs()[i as int].1));
                    assert(old_out.push(self.pairs()[i as int].1) + spec_values(
                        self.pairs().skip(i as int + 1),
                        key@,
                    ) =~= old_out + (seq![self.pairs()[i as int].1] + spec_values(
                        self.pairs().skip(i as int + 1),
                        key@,
                    )));
                }
            } else {
                proof {
                    assert(out.deep_view() + (Seq::<Seq<char>>::empty() + spec_values(
                        self.pairs().skip(i as int + 1),
                        key@,
                    )) =~= out.deep_view() + spec_values(self.pairs().skip(i as int + 1), key@));
                }
            }
            i = i + 1;
        }
        proof {
            assert(self.pairs().skip(self.pairs().len() as int) =~= Seq::<(
                Seq<char>,
                Seq<char>,
            )>::empty());
            assert(out.deep_view() + Seq::<Seq<char>>::empty() =~= out.deep_view());
        }
        out
    }
}

/// `map_values` distributes over concatenation.
proof fn lemma_map_values_add(a: Seq<Seq<char>>, b: Seq<Seq<char>>)
    ensures
        (a + b).map_values(|x: Seq<char>| pair_model(x)) == a.map_values(
            |x: Seq<char>| pair_model(x),
        ) + b.map_values(|x: Seq<char>| pair_model(x)),
{
    assert((a + b).map_values(|x: Seq<char>| pair_model(x)) =~= a.map_values(
        |x: Seq<char>| pair_model(x),
    ) + b.map_values(|x: Seq<char>| pair_model(x)));
}


} // verus!
