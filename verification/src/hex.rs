//! Hex encoding and decoding.
//!
//! Encoding emits two lowercase hex characters per byte, in input order.
//! Decoding consumes a string two characters at a time, left to right; it
//! rejects strings of odd byte length with [`Error::OddLengthString`] and
//! reports the first character that is not a hex digit (the high character of
//! a pair before the low one) with [`Error::InvalidChar`].

use vstd::prelude::*;
use vstd::string::StrSliceExecFns;
use vstd::utf8::{encode_utf8, is_ascii_chars, is_ascii_chars_encode_utf8};

use crate::Error;

verus! {

/// The numeric value of a hex digit, or `None` for any other character.
/// Digits are read case-insensitively.
pub open spec fn hex_val(c: char) -> Option<u8> {
    if '0' <= c && c <= '9' {
        Some((c as u8 - 48) as u8)
    } else if 'a' <= c && c <= 'f' {
        Some((c as u8 - 87) as u8)
    } else if 'A' <= c && c <= 'F' {
        Some((c as u8 - 55) as u8)
    } else {
        None
    }
}

/// The lowercase hex digit for a value below 16.
pub open spec fn hex_digit(n: u8) -> char
    recommends
        n < 16,
{
    if n < 10 {
        (n + 48) as u8 as char
    } else {
        (n + 87) as u8 as char
    }
}

/// The lowercase hex text for a byte sequence: two characters per byte,
/// high digit first, in input order.
pub open spec fn hex_of(b: Seq<u8>) -> Seq<char> {
    Seq::new(
        2 * b.len(),
        |i: int|
            if i % 2 == 0 {
                hex_digit(b[i / 2] / 16)
            } else {
                hex_digit(b[i / 2] % 16)
            },
    )
}

/// One step of pairwise decoding: the next byte of a hex string, the error
/// it stops with, or `None` once the string is exhausted. The high character
/// of a pair is validated before the low one.
pub open spec fn hex_step(s: Seq<char>) -> Option<Result<u8, Error>> {
    if s.len() == 0 {
        None
    } else if s.len() == 1 {
        Some(Err(Error::InvalidChar(s[0])))
    } else {
        match hex_val(s[0]) {
            None => Some(Err(Error::InvalidChar(s[0]))),
            Some(hi) => match hex_val(s[1]) {
                None => Some(Err(Error::InvalidChar(s[1]))),
                Some(lo) => Some(Ok((16 * hi + lo) as u8)),
            },
        }
    }
}

/// Pairwise decoding of a whole character sequence, left to right, stopping
/// at the first invalid character.
pub open spec fn hex_decode(s: Seq<char>) -> Result<Seq<u8>, Error>
    decreases s.len(),
{
    match hex_step(s) {
        None => Ok(Seq::empty()),
        Some(Err(e)) => Err(e),
        Some(Ok(b)) => match hex_decode(s.skip(2)) {
            Ok(rest) => Ok(seq![b] + rest),
            Err(e) => Err(e),
        },
    }
}

/// Relies on `String::push`: appends exactly the given character.
#[verifier::external_body]
fn push_char(out: &mut String, c: char)
    ensures
        final(out)@ == old(out)@.push(c),
{
    out.push(c);
}

/// The lowercase hex digit for a value below 16, as executable code.
fn hex_digit_char(n: u8) -> (c: char)
    requires
        n < 16,
    ensures
        c == hex_digit(n),
{
    if n < 10 {
        (n + 48) as char
    } else {
        (n + 87) as char
    }
}

/// The numeric value of a hex digit, or `None` for any other character,
/// as executable code.
fn hex_char_value(c: char) -> (r: Option<u8>)
    ensures
        r == hex_val(c),
{
    let u = c as u32;
    if 48 <= u && u <= 57 {
        Some((u - 48) as u8)
    } else if 97 <= u && u <= 102 {
        Some((u - 87) as u8)
    } else if 65 <= u && u <= 70 {
        Some((u - 55) as u8)
    } else {
        None
    }
}

/// Appends the lowercase hex encoding of `data`, in input order, to `out`.
pub fn format_hex(data: &[u8], out: &mut String)
    ensures
        final(out)@ == old(out)@ + hex_of(data@),
{
    let ghost orig: Seq<char> = out@;
    let n: usize = data.len();
    let mut i: usize = 0;
    while i < n
        invariant
            i <= n,
            n == data@.len(),
            out@ == orig + hex_of(data@.take(i as int)),
        decreases n - i,
    {
        let b = data[i];
        push_char(out, hex_digit_char(b / 16));
        push_char(out, hex_digit_char(b % 16));
        proof {
            assert(out@ =~= orig + hex_of(data@.take(i + 1)));
        }
        i += 1;
    }
    proof {
        assert(data@.take(n as int) =~= data@);
    }
}

/// The UTF-8 byte length of a character sequence, as the `len` of the
/// string holding it reports it.
pub open spec fn utf8_len(s: Seq<char>) -> usize {
    encode_utf8(s).len() as usize
}

/// Decodes hex text two characters at a time, with no length check:
/// exactly [`hex_decode`] of the text's characters.
pub(crate) fn decode_core(s: &str) -> (r: Result<Vec<u8>, Error>)
    ensures
        (match (r, hex_decode(s@)) {
            (Ok(v), Ok(m)) => v@ == m,
            (Err(e1), Err(e2)) => e1 == e2,
            _ => false,
        }),
        s@.len() <= usize::MAX,
{
    let ulen: usize = s.unicode_len();
    let mut v: Vec<u8> = Vec::new();
    let mut i: usize = 0;
    proof {
        assert(s@.skip(0) =~= s@);
        match hex_decode(s@) {
            Ok(rest) => {
                assert(v@ + rest =~= rest);
            },
            Err(_) => {},
        }
    }
    while i < ulen / 2
        invariant
            i <= ulen / 2,
            ulen == s@.len(),
            v@.len() == i,
            (match hex_decode(s@.skip(2 * i as int)) {
                Ok(rest) => hex_decode(s@) == Ok::<Seq<u8>, Error>(v@ + rest),
                Err(e) => hex_decode(s@) == Err::<Seq<u8>, Error>(e),
            }),
        decreases ulen / 2 - i,
    {
        let ghost tail = s@.skip(2 * i as int);
        proof {
            assert(2 * (i + 1) <= ulen);
            assert(tail.len() == ulen - 2 * i);
        }
        let c0 = s.get_char(2 * i);
        let c1 = s.get_char(2 * i + 1);
        proof {
            assert(tail[0] == s@[2 * i as int]);
            assert(tail[1] == s@[2 * i as int + 1]);
        }
        match hex_char_value(c0) {
            None => {
                return Err(Error::InvalidChar(c0));
            },
            Some(hi) => match hex_char_value(c1) {
                None => {
                    return Err(Error::InvalidChar(c1));
                },
                Some(lo) => {
                    let b: u8 = 16 * hi + lo;
                    let ghost v0 = v@;
                    v.push(b);
                    proof {
                        assert(hex_step(tail) == Some(Ok::<u8, Error>(b)));
                        assert(tail.skip(2) =~= s@.skip(2 * (i + 1)));
                        match hex_decode(tail.skip(2)) {
                            Ok(rest) => {
                                assert(hex_decode(tail) == Ok::<Seq<u8>, Error>(seq![b] + rest));
                                assert(v0 + (seq![b] + rest) =~= v@ + rest);
                            },
                            Err(e) => {
                                assert(hex_decode(tail) == Err::<Seq<u8>, Error>(e));
                            },
                        }
                    }
                },
            },
        }
        i += 1;
    }
    if ulen % 2 == 1 {
        let c = s.get_char(2 * i);
        proof {
            let tail = s@.skip(2 * i as int);
            assert(tail.len() == 1);
            assert(tail[0] == s@[2 * i as int]);
        }
        Err(Error::InvalidChar(c))
    } else {
        proof {
            assert(s@.skip(2 * i as int) =~= Seq::<char>::empty());
            assert(v@ + Seq::<u8>::empty() =~= v@);
        }
        Ok(v)
    }
}

/// Everything a successful decode implies about its input: the character
/// count is even, every character is an ASCII hex digit (so the text's byte
/// and character lengths agree), and one byte is produced per pair.
pub proof fn lemma_hex_decode_ok(s: Seq<char>)
    requires
        hex_decode(s) is Ok,
    ensures
        s.len() % 2 == 0,
        is_ascii_chars(s),
        hex_decode(s)->Ok_0.len() == s.len() / 2,
        encode_utf8(s).len() == s.len(),
    decreases s.len(),
{
    if s.len() == 0 {
        assert(is_ascii_chars(s));
    } else {
        assert(s.len() >= 2);
        let rest = s.skip(2);
        lemma_hex_decode_ok(rest);
        assert forall|i: int| 0 <= i < s.len() implies '\0' <= #[trigger] s[i] <= '\u{7f}' by {
            if i == 0 {
                assert(hex_val(s[0]) is Some);
            } else if i == 1 {
                assert(hex_val(s[1]) is Some);
            } else {
                assert(rest[i - 2] == s[i]);
                assert('\0' <= rest[i - 2] <= '\u{7f}');
            }
        }
    }
    is_ascii_chars_encode_utf8(s);
}

/// A hex digit's character always decodes back to its value.
proof fn lemma_hex_digit_val(n: u8)
    requires
        n < 16,
    ensures
        hex_val(hex_digit(n)) == Some(n),
        is_lower_hex(hex_digit(n)),
{
}

/// A character of the lowercase hex alphabet.
pub open spec fn is_lower_hex(c: char) -> bool {
    ('0' <= c && c <= '9') || ('a' <= c && c <= 'f')
}

/// Hex round-trip: decoding the encoding of any byte sequence gives the
/// sequence back; the encoding is twice as long as the input and consists
/// of lowercase hex digits only.
pub proof fn lemma_hex_roundtrip(b: Seq<u8>)
    ensures
        hex_of(b).len() == 2 * b.len(),
        hex_decode(hex_of(b)) == Ok::<Seq<u8>, Error>(b),
        forall|i: int| 0 <= i < hex_of(b).len() ==> is_lower_hex(#[trigger] hex_of(b)[i]),
    decreases b.len(),
{
    let h = hex_of(b);
    if b.len() == 0 {
        assert(b =~= Seq::<u8>::empty());
    } else {
        lemma_hex_digit_val(b[0] / 16);
        lemma_hex_digit_val(b[0] % 16);
        assert(hex_step(h) == Some(Ok::<u8, Error>((16 * (b[0] / 16) + b[0] % 16) as u8)));
        assert(16 * (b[0] / 16) + b[0] % 16 == b[0]);
        lemma_hex_roundtrip(b.drop_first());
        assert(h.skip(2) =~= hex_of(b.drop_first()));
        assert(seq![b[0]] + b.drop_first() =~= b);
        assert forall|i: int| 0 <= i < h.len() implies is_lower_hex(#[trigger] h[i]) by {
            if i < 2 {
            } else {
                assert(hex_of(b.drop_first())[i - 2] == h[i]);
            }
        }
    }
}

/// Decoding is case-insensitive: two texts whose characters carry the same
/// hex digit values decode alike, whenever the first decodes at all.
pub proof fn lemma_hex_decode_case_insensitive(s: Seq<char>, t: Seq<char>)
    requires
        s.len() == t.len(),
        forall|i: int| 0 <= i < s.len() ==> hex_val(#[trigger] s[i]) == hex_val(t[i]),
        hex_decode(s) is Ok,
    ensures
        hex_decode(t) == hex_decode(s),
    decreases s.len(),
{
    if s.len() == 0 {
    } else {
        assert(s.len() >= 2);
        assert(hex_val(s[0]) == hex_val(t[0]));
        assert(hex_val(s[1]) == hex_val(t[1]));
        lemma_hex_decode_case_insensitive(s.skip(2), t.skip(2));
        assert forall|i: int| 0 <= i < s.skip(2).len() implies hex_val(#[trigger] s.skip(2)[i])
            == hex_val(t.skip(2)[i]) by {
            assert(s.skip(2)[i] == s[i + 2]);
            assert(t.skip(2)[i] == t[i + 2]);
        }
    }
}

/// Trait for values with a canonical lowercase hex representation.
pub trait ToHex {
    /// The hex text this value serializes to.
    spec fn hex_repr(&self) -> Seq<char>;

    /// Hex representation of the value.
    fn to_hex(&self) -> (s: String)
        ensures
            s@ == self.hex_repr(),
    ;
}

/// Trait for values that can be parsed from hex text.
pub trait FromHex: Sized + View {
    /// What parsing the given characters yields: the model of the parsed
    /// value, or the error.
    spec fn from_hex_spec(s: Seq<char>) -> Result<Self::V, Error>;

    /// Produce a value from a hex string.
    fn from_hex(s: &str) -> (r: Result<Self, Error>)
        ensures
            (match (r, Self::from_hex_spec(s@)) {
                (Ok(v), Ok(m)) => v@ == m,
                (Err(e1), Err(e2)) => e1 == e2,
                _ => false,
            }),
    ;
}

impl ToHex for Vec<u8> {
    open spec fn hex_repr(&self) -> Seq<char> {
        hex_of(self@)
    }

    fn to_hex(&self) -> (s: String) {
        let mut s = String::new();
        format_hex(self.as_slice(), &mut s);
        proof {
            assert(s@ =~= hex_of(self@));
        }
        s
    }
}

impl<const N: usize> ToHex for [u8; N] {
    open spec fn hex_repr(&self) -> Seq<char> {
        hex_of(self@)
    }

    fn to_hex(&self) -> (s: String) {
        let mut s = String::new();
        format_hex(self.as_slice(), &mut s);
        proof {
            assert(s@ =~= hex_of(self@));
        }
        s
    }
}

impl FromHex for Vec<u8> {
    open spec fn from_hex_spec(s: Seq<char>) -> Result<Seq<u8>, Error> {
        if utf8_len(s) % 2 == 1 {
            Err(Error::OddLengthString(utf8_len(s)))
        } else {
            hex_decode(s)
        }
    }

    fn from_hex(s: &str) -> (r: Result<Self, Error>) {
        if s.len() % 2 == 1 {
            return Err(Error::OddLengthString(s.len()));
        }
        decode_core(s)
    }
}

/// Parses hex text of exactly `2 * N` characters into `N` bytes. An odd
/// byte length is reported as [`Error::OddLengthString`] before the size
/// check; any other wrong length as [`Error::InvalidLength`].
pub fn decode_fixed<const N: usize>(s: &str) -> (r: Result<[u8; N], Error>)
    requires
        N <= usize::MAX / 2,
    ensures
        (match (r, fixed_from_hex(s@, N as nat)) {
            (Ok(a), Ok(m)) => a@ == m,
            (Err(e1), Err(e2)) => e1 == e2,
            _ => false,
        }),
{
    if s.len() % 2 == 1 {
        return Err(Error::OddLengthString(s.len()));
    }
    if s.len() / 2 != N {
        return Err(Error::InvalidLength(2 * N, s.len()));
    }
    match decode_core(s) {
        Err(e) => Err(e),
        Ok(v) => {
            let vl: usize = v.len();
            proof {
                lemma_hex_decode_ok(s@);
                assert(s@.len() <= usize::MAX);
                assert(encode_utf8(s@).len() == s@.len());
                assert(utf8_len(s@) == s@.len());
                assert(vl == N);
            }
            let mut ret: [u8; N] = [0u8; N];
            let mut i: usize = 0;
            while i < N
                invariant
                    i <= N,
                    v@.len() == N,
                    ret@.len() == N,
                    forall|j: int| 0 <= j < i ==> ret@[j] == v@[j],
                decreases N - i,
            {
                ret[i] = v[i];
                i += 1;
            }
            proof {
                assert(ret@ =~= v@);
            }
            Ok(ret)
        },
    }
}

/// What [`decode_fixed`] yields for given text and byte count.
pub open spec fn fixed_from_hex(s: Seq<char>, n: nat) -> Result<Seq<u8>, Error> {
    if utf8_len(s) % 2 == 1 {
        Err(Error::OddLengthString(utf8_len(s)))
    } else if utf8_len(s) != 2 * n {
        Err(Error::InvalidLength((2 * n) as usize, utf8_len(s)))
    } else {
        hex_decode(s)
    }
}

/// Iterator over a hex-encoded string slice which decodes hex and yields
/// bytes, two characters at a time.
pub struct HexIterator<'a> {
    /// The slice whose first two characters will be decoded to yield the
    /// next byte.
    pub sl: &'a str,
}

impl<'a> HexIterator<'a> {
    /// The next byte of the slice, the error decoding stops with, or `None`
    /// once the slice is exhausted. On an error the slice is left unchanged,
    /// so the same error is reported again.
    pub fn next(&mut self) -> (r: Option<Result<u8, Error>>)
        ensures
            old(self).sl@.len() > 0 || utf8_len(old(self).sl@) % 2 == 1 ==> r is Some,
            utf8_len(old(self).sl@) % 2 == 1 ==> r == Some(
                Err::<u8, Error>(Error::OddLengthString(utf8_len(old(self).sl@))),
            ) && *final(self) == *old(self),
            utf8_len(old(self).sl@) % 2 == 0 ==> r == hex_step(old(self).sl@),
            (match r {
                Some(Ok(_)) => final(self).sl@ == old(self).sl@.skip(2),
                _ => *final(self) == *old(self),
            }),
    {
        let blen: usize = self.sl.len();
        if blen % 2 == 1 {
            return Some(Err(Error::OddLengthString(blen)));
        }
        let cur: &'a str = self.sl;
        let ulen: usize = cur.unicode_len();
        if ulen == 0 {
            return None;
        }
        let c0 = cur.get_char(0);
        match hex_char_value(c0) {
            None => Some(Err(Error::InvalidChar(c0))),
            Some(hi) => {
                if ulen == 1 {
                    return Some(Err(Error::InvalidChar(c0)));
                }
                let c1 = cur.get_char(1);
                match hex_char_value(c1) {
                    None => Some(Err(Error::InvalidChar(c1))),
                    Some(lo) => {
                        let rest: &'a str = cur.substring_char(2, ulen);
                        self.sl = rest;
                        proof {
                            assert(rest@ =~= old(self).sl@.skip(2));
                        }
                        Some(Ok(16 * hi + lo))
                    },
                }
            },
        }
    }
}

/// Appends the lowercase hex encoding of `data` in reverse byte order to
/// `out`; used for hash types whose standard hex form shows the bytes
/// reversed.
pub fn format_hex_reverse(data: &[u8], out: &mut String)
    ensures
        final(out)@ == old(out)@ + hex_of(data@.reverse()),
{
    let ghost orig: Seq<char> = out@;
    let n: usize = data.len();
    let mut i: usize = 0;
    while i < n
        invariant
            i <= n,
            n == data@.len(),
            out@ == orig + hex_of(data@.reverse().take(i as int)),
        decreases n - i,
    {
        let b = data[n - 1 - i];
        proof {
            assert(data@.reverse()[i as int] == data@[n - 1 - i]);
        }
        push_char(out, hex_digit_char(b / 16));
        push_char(out, hex_digit_char(b % 16));
        proof {
            assert(out@ =~= orig + hex_of(data@.reverse().take(i + 1)));
        }
        i += 1;
    }
    proof {
        assert(data@.reverse().take(n as int) =~= data@.reverse());
    }
}

} // verus!
