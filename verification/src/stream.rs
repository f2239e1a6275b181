//! The byte-stream primitives: a forward-only cursor over an in-memory byte
//! stream, fixed-width and variable-length integer reads, length-prefixed
//! string reads, and the two compact header encodings.

use vstd::prelude::*;
use crate::types::BondType;
use crate::types::MadeleineError;
use crate::types::spec_tag_from;
use crate::types::tag_code;

verus! {

/// Reads one byte at `i`: the byte and the next position, or a truncation
/// error at the end of the stream.
pub open spec fn read_u8_s(s: Seq<u8>, i: int) -> Result<(u8, int), MadeleineError> {
    if 0 <= i < s.len() {
        Ok((s[i], i + 1))
    } else {
        Err(MadeleineError::ReadError)
    }
}

/// Reads `n` raw bytes at `i`: their contents and the next position, or a
/// truncation error when fewer remain.
pub open spec fn read_bytes_s(s: Seq<u8>, i: int, n: nat) -> Result<(Seq<u8>, int), MadeleineError> {
    if 0 <= i && i + n <= s.len() {
        Ok((s.subrange(i, i + n), i + n))
    } else {
        Err(MadeleineError::ReadError)
    }
}

/// Reads an unsigned LEB128 integer at `i`, allowing at most `budget` more
/// bytes. Each byte contributes its low seven bits, least significant
/// first; a clear high bit ends the encoding. An encoding that runs past
/// the budget, or whose value does not fit 64 bits, is an overflow error;
/// one cut off by the end of the stream is a truncation error.
pub open spec fn uleb_decode_b(s: Seq<u8>, i: int, budget: nat) -> Result<
    (u64, int),
    MadeleineError,
>
    decreases budget,
{
    if budget == 0 {
        Err(MadeleineError::TryFromIntError)
    } else if !(0 <= i < s.len()) {
        Err(MadeleineError::ReadError)
    } else if s[i] < 128 {
        Ok((s[i] as u64, i + 1))
    } else if budget == 1 {
        Err(MadeleineError::TryFromIntError)
    } else {
        match uleb_decode_b(s, i + 1, (budget - 1) as nat) {
            Err(e) => Err(e),
            Ok((v, end)) => if v < 0x200000000000000 {
                Ok((((s[i] - 128) + 128 * v) as u64, end))
            } else {
                Err(MadeleineError::TryFromIntError)
            },
        }
    }
}

/// Reads an unsigned LEB128 integer at `i`, capped at the ten bytes a
/// 64-bit value can need.
pub open spec fn uleb_decode(s: Seq<u8>, i: int) -> Result<(u64, int), MadeleineError> {
    uleb_decode_b(s, i, 10)
}

/// A successful LEB128 read consumes at least one byte and stays inside
/// the stream.
pub broadcast proof fn lemma_uleb_bounds(s: Seq<u8>, i: int, budget: nat)
    ensures
        (#[trigger] uleb_decode_b(s, i, budget)) matches Ok(p) ==> i < p.1 <= s.len(),
    decreases budget,
{
    if budget > 1 && 0 <= i < s.len() && s[i] >= 128 {
        lemma_uleb_bounds(s, i + 1, (budget - 1) as nat);
    }
}

/// Undoes the zig-zag mapping: even codes are the non-negative numbers in
/// order, odd codes the negative ones in increasing magnitude.
pub open spec fn zig_zag_decode(u: u64) -> i64 {
    if u % 2 == 0 {
        (u / 2) as i64
    } else {
        (-1 - ((u / 2) as int)) as i64
    }
}

/// The zig-zag code of a signed number.
pub open spec fn zig_zag_encode(n: i64) -> u64 {
    if n >= 0 {
        (2 * (n as int)) as u64
    } else {
        (-2 * (n as int) - 1) as u64
    }
}

/// Reads a zig-zag-coded signed LEB128 integer at `i`.
pub open spec fn sleb_decode(s: Seq<u8>, i: int) -> Result<(i64, int), MadeleineError> {
    match uleb_decode(s, i) {
        Err(e) => Err(e),
        Ok((u, end)) => Ok((zig_zag_decode(u), end)),
    }
}

/// The sequence of little-endian 16-bit code units held by a byte sequence
/// of even length.
pub open spec fn words_of(s: Seq<u8>) -> Seq<u16> {
    Seq::new(
        (s.len() / 2) as nat,
        |k: int|
            if 0 <= k && 2 * k + 1 < s.len() {
                ((s[2 * k] as int) + 256 * (s[2 * k + 1] as int)) as u16
            } else {
                0u16
            },
    )
}

/// The characters a valid UTF-8 byte sequence holds, and nothing for an
/// invalid one. What `String::from_utf8` accepts and returns depends on
/// the bytes alone; this names that result.
pub uninterp spec fn utf8_decode(bytes: Seq<u8>) -> Option<Seq<char>>;

/// The characters a valid UTF-16 code-unit sequence holds, and nothing for
/// one with an invalid surrogate pairing. What `String::from_utf16`
/// accepts and returns depends on the code units alone; this names that
/// result.
pub uninterp spec fn utf16_decode(words: Seq<u16>) -> Option<Seq<char>>;

/// Relies on `String::from_utf8`: it returns a string exactly when the
/// bytes are valid UTF-8, and the string it returns is a function of the
/// bytes alone.
#[verifier::external_body]
fn string_from_utf8(bytes: Vec<u8>) -> (r: Option<String>)
    ensures
        r is Some <==> utf8_decode(bytes@) is Some,
        r matches Some(st) ==> Some(st@) == utf8_decode(bytes@),
{
    String::from_utf8(bytes).ok()
}

/// Relies on `String::from_utf16`: it returns a string exactly when the
/// code units are well-formed UTF-16, and the string it returns is a
/// function of the code units alone.
#[verifier::external_body]
fn string_from_utf16(words: &Vec<u16>) -> (r: Option<String>)
    ensures
        r is Some <==> utf16_decode(words@) is Some,
        r matches Some(st) ==> Some(st@) == utf16_decode(words@),
{
    String::from_utf16(words.as_slice()).ok()
}

/// Reads a length-prefixed UTF-8 string at `i`: an unsigned LEB128 byte
/// count, then that many bytes of text.
pub open spec fn string_decode(s: Seq<u8>, i: int) -> Result<(Seq<char>, int), MadeleineError> {
    match uleb_decode(s, i) {
        Err(e) => Err(e),
        Ok((n, e1)) => if e1 + n <= s.len() {
            match utf8_decode(s.subrange(e1, e1 + n)) {
                Option::Some(cs) => Ok((cs, e1 + n)),
                Option::None => Err(MadeleineError::FromUtf8Error),
            }
        } else {
            Err(MadeleineError::ReadError)
        },
    }
}

/// Reads a length-prefixed UTF-16 string at `i`: an unsigned LEB128
/// code-unit count, then twice that many bytes of little-endian code
/// units.
pub open spec fn wstring_decode(s: Seq<u8>, i: int) -> Result<(Seq<char>, int), MadeleineError> {
    match uleb_decode(s, i) {
        Err(e) => Err(e),
        Ok((n, e1)) => if e1 + 2 * n <= s.len() {
            match utf16_decode(words_of(s.subrange(e1, e1 + 2 * n))) {
                Option::Some(cs) => Ok((cs, e1 + 2 * n)),
                Option::None => Err(MadeleineError::FromUtf16Error),
            }
        } else {
            Err(MadeleineError::ReadError)
        },
    }
}

/// Reads a field header at `i`: the low five bits of the first byte are
/// the type tag; the high three bits give the field id directly when below
/// six, and otherwise select a one- or two-byte little-endian id
/// extension.
pub open spec fn field_header_s(s: Seq<u8>, i: int) -> Result<
    (BondType, u16, int),
    MadeleineError,
> {
    match read_u8_s(s, i) {
        Err(e) => Err(e),
        Ok((b, e1)) => match spec_tag_from(b % 32) {
            Err(e) => Err(e),
            Ok(t) => {
                let mode = b / 32;
                if mode == 6 {
                    match read_u8_s(s, e1) {
                        Err(e) => Err(e),
                        Ok((id, e2)) => Ok((t, id as u16, e2)),
                    }
                } else if mode == 7 {
                    if e1 + 2 <= s.len() {
                        Ok((t, ((s[e1] as int) + 256 * (s[e1 + 1] as int)) as u16, e1 + 2))
                    } else {
                        Err(MadeleineError::ReadError)
                    }
                } else {
                    Ok((t, mode as u16, e1))
                }
            },
        },
    }
}

/// Reads a container header at `i`: the low five bits of the byte are the
/// element type tag; a zero in the high three bits means the element count
/// follows as an unsigned LEB128, and any non-zero value `m` inlines the
/// count `m - 1`.
pub open spec fn container_header_s(s: Seq<u8>, i: int) -> Result<
    (BondType, u32, int),
    MadeleineError,
> {
    match read_u8_s(s, i) {
        Err(e) => Err(e),
        Ok((b, e1)) => match spec_tag_from(b % 32) {
            Err(e) => Err(e),
            Ok(t) => if b / 32 == 0 {
                match uleb_decode(s, e1) {
                    Err(e) => Err(e),
                    Ok((c, e2)) => if c <= u32::MAX as u64 {
                        Ok((t, c as u32, e2))
                    } else {
                        Err(MadeleineError::TryFromIntError)
                    },
                }
            } else {
                Ok((t, (b / 32 - 1) as u32, e1))
            },
        },
    }
}

/// The canonical unsigned LEB128 encoding of a value: seven bits per byte,
/// least significant first, the high bit set on every byte but the last.
pub open spec fn uleb128_encode(v: nat) -> Seq<u8>
    decreases v,
{
    if v < 128 {
        seq![v as u8]
    } else {
        seq![(128 + v % 128) as u8] + uleb128_encode(v / 128)
    }
}

proof fn lemma_uleb_encode_len_aux(v: nat, k: nat)
    requires
        k >= 1,
        v < vstd::arithmetic::power2::pow2(7 * k),
    ensures
        uleb128_encode(v).len() <= k,
    decreases k,
{
    if v >= 128 {
        vstd::arithmetic::power2::lemma_pow2_adds(7, (7 * (k - 1)) as nat);
        vstd::arithmetic::power2::lemma2_to64();
        let p = vstd::arithmetic::power2::pow2((7 * (k - 1)) as nat);
        assert(v < 128 * p);
        assert(v == 128 * (v / 128) + v % 128);
        assert(v / 128 < p) by {
            if v / 128 >= p {
                assert(128 * (v / 128) >= 128 * p) by (nonlinear_arith)
                    requires
                        v / 128 >= p,
                ;
            }
        };
        vstd::arithmetic::power2::lemma_pow2_pos((7 * (k - 1)) as nat);
        lemma_uleb_encode_len_aux(v / 128, (k - 1) as nat);
    }
}

/// The LEB128 encoding of a 64-bit value takes at most ten bytes.
pub proof fn lemma_uleb_encode_len(v: nat)
    requires
        v < 0x10000000000000000,
    ensures
        uleb128_encode(v).len() <= 10,
{
    vstd::arithmetic::power2::lemma2_to64();
    vstd::arithmetic::power2::lemma_pow2_adds(64, 6);
    lemma_uleb_encode_len_aux(v, 10);
}

proof fn lemma_uleb_encode_decode(v: nat, pre: Seq<u8>, post: Seq<u8>, budget: nat)
    requires
        v < 0x10000000000000000,
        uleb128_encode(v).len() <= budget,
    ensures
        uleb_decode_b(pre + uleb128_encode(v) + post, pre.len() as int, budget) == Ok::<
            (u64, int),
            MadeleineError,
        >((v as u64, (pre.len() + uleb128_encode(v).len()) as int)),
    decreases v,
{
    let s = pre + uleb128_encode(v) + post;
    let i = pre.len() as int;
    if v < 128 {
        assert(s[i] == v as u8);
    } else {
        let b: u8 = (128 + v % 128) as u8;
        let pre2 = pre + seq![b];
        assert(pre2 + uleb128_encode(v / 128) + post =~= s);
        lemma_uleb_encode_decode(v / 128, pre2, post, (budget - 1) as nat);
        assert(s[i] == b);
        assert(v / 128 < 0x200000000000000);
        assert((b - 128) + 128 * (v / 128) == v);
    }
}

/// Law: decoding the canonical LEB128 encoding of any 64-bit value gives
/// that value back and consumes exactly the encoding.
pub proof fn lemma_uleb128_round_trip(u: u64)
    ensures
        uleb_decode(uleb128_encode(u as nat), 0) == Ok::<(u64, int), MadeleineError>(
            (u, uleb128_encode(u as nat).len() as int),
        ),
{
    lemma_uleb_encode_len(u as nat);
    lemma_uleb_encode_decode(u as nat, Seq::empty(), Seq::empty(), 10);
    assert(Seq::<u8>::empty() + uleb128_encode(u as nat) + Seq::<u8>::empty() =~= uleb128_encode(
        u as nat,
    ));
}

/// Law: zig-zag decoding undoes zig-zag encoding on every signed 64-bit
/// value.
pub proof fn lemma_zig_zag_round_trip(n: i64)
    ensures
        zig_zag_decode(zig_zag_encode(n)) == n,
{
}

/// The single container header byte that inlines an element count of at
/// most six.
pub open spec fn inline_count_header(t: BondType, c: u32) -> u8 {
    ((c + 1) * 32 + tag_code(t)) as u8
}

/// Law: a container header that inlines a count in 0..=6 decodes to that
/// count, whatever follows it.
pub proof fn lemma_container_count_inline(t: BondType, c: u32, rest: Seq<u8>)
    requires
        c <= 6,
        t != BondType::Unavailable,
    ensures
        container_header_s(seq![inline_count_header(t, c)] + rest, 0) == Ok::<
            (BondType, u32, int),
            MadeleineError,
        >((t, c, 1)),
{
    let b = inline_count_header(t, c);
    assert(tag_code(t) < 32);
    assert(b == (c + 1) * 32 + tag_code(t));
    assert(b % 32 == tag_code(t) && b / 32 == c + 1) by (nonlinear_arith)
        requires
            b == (c + 1) * 32 + tag_code(t),
            tag_code(t) < 32,
            c <= 6,
    ;
    assert(spec_tag_from(tag_code(t)) == Ok::<BondType, MadeleineError>(t));
    assert((seq![b] + rest)[0] == b);
}

/// Law: a container header whose count mode is zero reads the count from
/// the LEB128 extension that follows, and decodes to that count, whatever
/// follows the encoding.
pub proof fn lemma_container_count_extended(t: BondType, c: u32, rest: Seq<u8>)
    requires
        t != BondType::Unavailable,
    ensures
        container_header_s(seq![tag_code(t)] + uleb128_encode(c as nat) + rest, 0) == Ok::<
            (BondType, u32, int),
            MadeleineError,
        >((t, c, (1 + uleb128_encode(c as nat).len()) as int)),
{
    let s = seq![tag_code(t)] + uleb128_encode(c as nat) + rest;
    lemma_uleb_encode_len(c as nat);
    lemma_uleb_encode_decode(c as nat, seq![tag_code(t)], rest, 10);
    assert(seq![tag_code(t)] + uleb128_encode(c as nat) + rest =~= s);
    assert(s[0] == tag_code(t));
    assert(tag_code(t) < 32);
    assert(tag_code(t) % 32 == tag_code(t) && tag_code(t) / 32 == 0);
    assert(spec_tag_from(tag_code(t)) == Ok::<BondType, MadeleineError>(t));
}

/// A forward-only cursor over an in-memory byte stream. The position never
/// moves backward and never passes the end.
pub struct MyReader {
    pub data: Vec<u8>,
    pub pos: usize,
}

impl MyReader {
    /// The cursor stands at or before the end of the stream.
    pub open spec fn wf(&self) -> bool {
        self.pos <= self.data.len()
    }

    /// A cursor at the start of the given bytes.
    pub fn new(data: Vec<u8>) -> (r: MyReader)
        ensures
            r.data@ == data@,
            r.pos == 0,
            r.wf(),
    {
        MyReader { data, pos: 0 }
    }

    /// The current absolute byte offset from the start of the stream.
    pub fn stream_position(&self) -> (r: u64)
        ensures
            r == self.pos as u64,
    {
        self.pos as u64
    }

    /// Reads one byte and advances past it.
    pub fn read_u8(&mut self) -> (r: Result<u8, MadeleineError>)
        requires
            old(self).wf(),
        ensures
            final(self).wf(),
            final(self).data@ == old(self).data@,
            old(self).pos <= final(self).pos,
            (match read_u8_s(old(self).data@, old(self).pos as int) {
                Ok(p) => r == Ok::<u8, MadeleineError>(p.0) && final(self).pos as int == p.1,
                Err(e) => r == Err::<u8, MadeleineError>(e),
            }),
    {
        if self.pos < self.data.len() {
            let b = self.data[self.pos];
            self.pos = self.pos + 1;
            Ok(b)
        } else {
            Err(MadeleineError::ReadError)
        }
    }

    /// Reads exactly `n` bytes and advances past them.
    pub fn read_bytes(&mut self, n: u64) -> (r: Result<Vec<u8>, MadeleineError>)
        requires
            old(self).wf(),
        ensures
            final(self).wf(),
            final(self).data@ == old(self).data@,
            old(self).pos <= final(self).pos,
            (match read_bytes_s(old(self).data@, old(self).pos as int, n as nat) {
                Ok(p) => r matches Ok(v) && v@ == p.0 && final(self).pos as int == p.1,
                Err(e) => r matches Err(e2) && e2 == e,
            }),
    {
        let rem = (self.data.len() - self.pos) as u64;
        if n > rem {
            return Err(MadeleineError::ReadError);
        }
        let m = n as usize;
        let mut out: Vec<u8> = Vec::new();
        let mut k: usize = 0;
        while k < m
            invariant
                self.wf(),
                k <= m,
                m <= self.data.len() - self.pos,
                out@.len() == k,
                forall|j: int| 0 <= j < k ==> out@[j] == self.data@[self.pos + j],
            decreases m - k,
        {
            out.push(self.data[self.pos + k]);
            k = k + 1;
        }
        proof {
            assert(out@ =~= self.data@.subrange(self.pos as int, self.pos + m));
        }
        self.pos = self.pos + m;
        Ok(out)
    }

    /// Reads an unsigned LEB128 integer, allowing at most `budget` more
    /// bytes of encoding.
    fn read_uleb128_b(&mut self, budget: u8) -> (r: Result<u64, MadeleineError>)
        requires
            old(self).wf(),
            budget >= 1,
        ensures
            final(self).wf(),
            final(self).data@ == old(self).data@,
            old(self).pos <= final(self).pos,
            (match uleb_decode_b(old(self).data@, old(self).pos as int, budget as nat) {
                Ok(p) => r == Ok::<u64, MadeleineError>(p.0) && final(self).pos as int == p.1,
                Err(e) => r == Err::<u64, MadeleineError>(e),
            }),
        decreases budget,
    {
        let b = match self.read_u8() {
            Ok(b) => b,
            Err(e) => {
                return Err(e);
            },
        };
        if b < 128 {
            Ok(b as u64)
        } else if budget == 1 {
            Err(MadeleineError::TryFromIntError)
        } else {
            let rest = match self.read_uleb128_b(budget - 1) {
                Ok(v) => v,
                Err(e) => {
                    return Err(e);
                },
            };
            if rest < 0x200000000000000 {
                Ok(((b - 128) as u64) + 128 * rest)
            } else {
                Err(MadeleineError::TryFromIntError)
            }
        }
    }

    /// Reads an unsigned LEB128 integer, capped at ten bytes of encoding.
    pub fn read_uleb128(&mut self) -> (r: Result<u64, MadeleineError>)
        requires
            old(self).wf(),
        ensures
            final(self).wf(),
            final(self).data@ == old(self).data@,
            old(self).pos <= final(self).pos,
            (match uleb_decode(old(self).data@, old(self).pos as int) {
                Ok(p) => r == Ok::<u64, MadeleineError>(p.0) && final(self).pos as int == p.1,
                Err(e) => r == Err::<u64, MadeleineError>(e),
            }),
    {
        self.read_uleb128_b(10)
    }

    /// Reads a zig-zag-coded signed LEB128 integer.
    pub fn read_sleb128(&mut self) -> (r: Result<i64, MadeleineError>)
        requires
            old(self).wf(),
        ensures
            final(self).wf(),
            final(self).data@ == old(self).data@,
            old(self).pos <= final(self).pos,
            (match sleb_decode(old(self).data@, old(self).pos as int) {
                Ok(p) => r == Ok::<i64, MadeleineError>(p.0) && final(self).pos as int == p.1,
                Err(e) => r == Err::<i64, MadeleineError>(e),
            }),
    {
        let u = match self.read_uleb128() {
            Ok(u) => u,
            Err(e) => {
                return Err(e);
            },
        };
        let half = u / 2;
        if u % 2 == 0 {
            Ok(half as i64)
        } else {
            Ok(-1 - (half as i64))
        }
    }

    /// Reads a length-prefixed UTF-8 string.
    pub fn read_string(&mut self) -> (r: Result<String, MadeleineError>)
        requires
            old(self).wf(),
        ensures
            final(self).wf(),
            final(self).data@ == old(self).data@,
            old(self).pos <= final(self).pos,
            (match string_decode(old(self).data@, old(self).pos as int) {
                Ok(p) => r matches Ok(st) && st@ == p.0 && final(self).pos as int == p.1,
                Err(e) => r matches Err(e2) && e2 == e,
            }),
    {
        let n = match self.read_uleb128() {
            Ok(n) => n,
            Err(e) => {
                return Err(e);
            },
        };
        let bytes = match self.read_bytes(n) {
            Ok(b) => b,
            Err(e) => {
                return Err(e);
            },
        };
        match string_from_utf8(bytes) {
            Some(st) => Ok(st),
            None => Err(MadeleineError::FromUtf8Error),
        }
    }

    /// Reads a length-prefixed UTF-16 string of little-endian code units.
    pub fn read_wstring(&mut self) -> (r: Result<String, MadeleineError>)
        requires
            old(self).wf(),
        ensures
            final(self).wf(),
            final(self).data@ == old(self).data@,
            old(self).pos <= final(self).pos,
            (match wstring_decode(old(self).data@, old(self).pos as int) {
                Ok(p) => r matches Ok(st) && st@ == p.0 && final(self).pos as int == p.1,
                Err(e) => r matches Err(e2) && e2 == e,
            }),
    {
        let n = match self.read_uleb128() {
            Ok(n) => n,
            Err(e) => {
                return Err(e);
            },
        };
        let rem = (self.data.len() - self.pos) as u64;
        if n > rem / 2 {
            return Err(MadeleineError::ReadError);
        }
        let bytes = match self.read_bytes(2 * n) {
            Ok(b) => b,
            Err(e) => {
                return Err(e);
            },
        };
        let count = n as usize;
        let mut words: Vec<u16> = Vec::new();
        let mut k: usize = 0;
        while k < count
            invariant
                k <= count,
                bytes@.len() == 2 * count,
                bytes@.len() <= usize::MAX,
                words@.len() == k,
                forall|j: int| 0 <= j < k ==> words@[j] == words_of(bytes@)[j],
            decreases count - k,
        {
            let lo = bytes[2 * k];
            let hi = bytes[2 * k + 1];
            words.push((lo as u16) + 256 * (hi as u16));
            k = k + 1;
        }
        proof {
            assert(words@ =~= words_of(bytes@));
        }
        match string_from_utf16(&words) {
            Some(st) => Ok(st),
            None => Err(MadeleineError::FromUtf16Error),
        }
    }

    /// Reads a field header: the field's type tag and its id, which may
    /// take one or two extension bytes.
    pub fn get_type_and_id(&mut self) -> (r: Result<(BondType, u16), MadeleineError>)
        requires
            old(self).wf(),
        ensures
            final(self).wf(),
            final(self).data@ == old(self).data@,
            old(self).pos <= final(self).pos,
            (match field_header_s(old(self).data@, old(self).pos as int) {
                Ok(p) => r == Ok::<(BondType, u16), MadeleineError>((p.0, p.1)) && final(self).pos as int
                    == p.2,
                Err(e) => r == Err::<(BondType, u16), MadeleineError>(e),
            }),
    {
        let b = match self.read_u8() {
            Ok(b) => b,
            Err(e) => {
                return Err(e);
            },
        };
        let bond_type = match BondType::try_from_u8(b % 32) {
            Ok(t) => t,
            Err(e) => {
                return Err(e);
            },
        };
        let mode = b / 32;
        if mode == 6 {
            let id = match self.read_u8() {
                Ok(v) => v,
                Err(e) => {
                    return Err(e);
                },
            };
            Ok((bond_type, id as u16))
        } else if mode == 7 {
            let lo = match self.read_u8() {
                Ok(v) => v,
                Err(e) => {
                    return Err(e);
                },
            };
            let hi = match self.read_u8() {
                Ok(v) => v,
                Err(e) => {
                    return Err(e);
                },
            };
            Ok((bond_type, (lo as u16) + 256 * (hi as u16)))
        } else {
            Ok((bond_type, mode as u16))
        }
    }

    /// Reads a container header: the element type tag and the element
    /// count, inline or as a LEB128 extension.
    pub fn get_type_and_count(&mut self) -> (r: Result<(BondType, u32), MadeleineError>)
        requires
            old(self).wf(),
        ensures
            final(self).wf(),
            final(self).data@ == old(self).data@,
            old(self).pos <= final(self).pos,
            (match container_header_s(old(self).data@, old(self).pos as int) {
                Ok(p) => r == Ok::<(BondType, u32), MadeleineError>((p.0, p.1)) && final(self).pos as int
                    == p.2,
                Err(e) => r == Err::<(BondType, u32), MadeleineError>(e),
            }),
    {
        let b = match self.read_u8() {
            Ok(b) => b,
            Err(e) => {
                return Err(e);
            },
        };
        let bond_type = match BondType::try_from_u8(b % 32) {
            Ok(t) => t,
            Err(e) => {
                return Err(e);
            },
        };
        if b / 32 == 0 {
            let c = match self.read_uleb128() {
                Ok(c) => c,
                Err(e) => {
                    return Err(e);
                },
            };
            if c <= u32::MAX as u64 {
                Ok((bond_type, c as u32))
            } else {
                Err(MadeleineError::TryFromIntError)
            }
        } else {
            Ok((bond_type, (b / 32) as u32 - 1))
        }
    }
}

} // verus!
