//! The base64 text envelope of gRPC-Web-text: the whole frame byte
//! stream is base64-encoded, three raw bytes to four characters, with
//! `=` padding at the very end only. Frame boundaries need not align
//! with the four-character groups, so both directions keep a small
//! carry buffer between chunks: one or two raw bytes on the encoding
//! side, up to three characters on the decoding side.

use vstd::prelude::*;

use crate::AdapterError;
use crate::bytes::{extend, copy_range};

verus! {

/// The base64 padding character, `=`.
pub const PAD: u8 = 61;

/// The base64 character of a sextet value.
pub open spec fn b64_char(v: u8) -> u8
    recommends
        v < 64,
{
    if v < 26 {
        (65 + v) as u8
    } else if v < 52 {
        (97 + (v - 26)) as u8
    } else if v < 62 {
        (48 + (v - 52)) as u8
    } else if v == 62 {
        43
    } else {
        47
    }
}

/// The sextet value of a base64 character, if it is one.
pub open spec fn b64_val(c: u8) -> Option<u8> {
    if 65 <= c <= 90 {
        Some((c - 65) as u8)
    } else if 97 <= c <= 122 {
        Some(((c - 97) + 26) as u8)
    } else if 48 <= c <= 57 {
        Some(((c - 48) + 52) as u8)
    } else if c == 43 {
        Some(62u8)
    } else if c == 47 {
        Some(63u8)
    } else {
        None
    }
}

/// Each sextet's character reads back as that sextet; in particular no
/// sextet encodes to the padding character.
pub proof fn lemma_b64_char_val(v: u8)
    requires
        v < 64,
    ensures
        b64_val(b64_char(v)) == Some(v),
        b64_char(v) != PAD,
{
}

/// The four characters of one full three-byte group.
pub open spec fn enc3(a: u8, b: u8, c: u8) -> Seq<u8> {
    seq![
        b64_char(a >> 2),
        b64_char(((a & 3) << 4) | (b >> 4)),
        b64_char(((b & 15) << 2) | (c >> 6)),
        b64_char(c & 63),
    ]
}

/// The base64 text of a whole byte sequence, padded at the end.
pub open spec fn spec_b64_encode(bytes: Seq<u8>) -> Seq<u8>
    decreases bytes.len(),
{
    if bytes.len() >= 3 {
        enc3(bytes[0], bytes[1], bytes[2]) + spec_b64_encode(bytes.skip(3))
    } else if bytes.len() == 2 {
        seq![
            b64_char(bytes[0] >> 2),
            b64_char(((bytes[0] & 3) << 4) | (bytes[1] >> 4)),
            b64_char((bytes[1] & 15) << 2),
            PAD,
        ]
    } else if bytes.len() == 1 {
        seq![b64_char(bytes[0] >> 2), b64_char((bytes[0] & 3) << 4), PAD, PAD]
    } else {
        seq![]
    }
}

/// Decodes one four-character group. A group with padding yields one
/// or two bytes and may only stand at the very end; leftover sextet
/// bits under the padding must be zero.
pub open spec fn dec4(c0: u8, c1: u8, c2: u8, c3: u8) -> Option<Seq<u8>> {
    match (b64_val(c0), b64_val(c1)) {
        (Some(v0), Some(v1)) => {
            if c2 == PAD && c3 == PAD {
                if v1 & 15 == 0 {
                    Some(seq![(v0 << 2) | (v1 >> 4)])
                } else {
                    None
                }
            } else if c3 == PAD {
                match b64_val(c2) {
                    None => None,
                    Some(v2) => {
                        if v2 & 3 == 0 {
                            Some(seq![(v0 << 2) | (v1 >> 4), (v1 << 4) | (v2 >> 2)])
                        } else {
                            None
                        }
                    },
                }
            } else {
                match (b64_val(c2), b64_val(c3)) {
                    (Some(v2), Some(v3)) => Some(
                        seq![(v0 << 2) | (v1 >> 4), (v1 << 4) | (v2 >> 2), (v2 << 6) | v3],
                    ),
                    _ => None,
                }
            }
        },
        _ => None,
    }
}

/// One decoding pass over buffered characters: the bytes of every
/// complete group, the incomplete tail kept for the next chunk, and
/// whether a padded (hence final) group was seen. A padded group
/// followed by anything, or a character outside the alphabet, is
/// malformed.
pub open spec fn spec_dec_step(chars: Seq<u8>) -> Option<(Seq<u8>, Seq<u8>, bool)>
    decreases chars.len(),
{
    if chars.len() < 4 {
        Some((seq![], chars, false))
    } else if chars[2] == PAD || chars[3] == PAD {
        if chars.len() == 4 {
            match dec4(chars[0], chars[1], chars[2], chars[3]) {
                None => None,
                Some(bs) => Some((bs, seq![], true)),
            }
        } else {
            None
        }
    } else {
        match dec4(chars[0], chars[1], chars[2], chars[3]) {
            None => None,
            Some(bs) => match spec_dec_step(chars.skip(4)) {
                None => None,
                Some(r) => Some((bs + r.0, r.1, r.2)),
            },
        }
    }
}

/// A decoding pass never yields more bytes than it was given
/// characters.
pub proof fn lemma_dec_step_len(chars: Seq<u8>)
    ensures
        spec_dec_step(chars) matches Some(t) ==> t.0.len() <= chars.len(),
    decreases chars.len(),
{
    if chars.len() >= 4 && !(chars[2] == PAD || chars[3] == PAD) {
        lemma_dec_step_len(chars.skip(4));
    }
}

/// The whole-stream decode: every group decoded, nothing left over.
pub open spec fn spec_b64_decode(chars: Seq<u8>) -> Option<Seq<u8>> {
    match spec_dec_step(chars) {
        Some(r) => if r.1.len() == 0 {
            Some(r.0)
        } else {
            None
        },
        None => None,
    }
}

/// Decoding one full group of an encoding recovers the three bytes.
proof fn lemma_enc3_dec(a: u8, b: u8, c: u8)
    ensures
        dec4(enc3(a, b, c)[0], enc3(a, b, c)[1], enc3(a, b, c)[2], enc3(a, b, c)[3]) == Some(
            seq![a, b, c],
        ),
{
    let s0 = a >> 2;
    let s1 = ((a & 3) << 4) | (b >> 4);
    let s2 = ((b & 15) << 2) | (c >> 6);
    let s3 = c & 63;
    assert(s0 < 64 && s1 < 64 && s2 < 64 && s3 < 64) by (bit_vector)
        requires
            s0 == a >> 2,
            s1 == ((a & 3) << 4) | (b >> 4),
            s2 == ((b & 15) << 2) | (c >> 6),
            s3 == c & 63,
    ;
    lemma_b64_char_val(s0);
    lemma_b64_char_val(s1);
    lemma_b64_char_val(s2);
    lemma_b64_char_val(s3);
    assert(((s0 << 2) | (s1 >> 4)) == a && ((s1 << 4) | (s2 >> 2)) == b && ((s2 << 6) | s3) == c)
        by (bit_vector)
        requires
            s0 == a >> 2,
            s1 == ((a & 3) << 4) | (b >> 4),
            s2 == ((b & 15) << 2) | (c >> 6),
            s3 == c & 63,
    ;
}

/// Round trip of the text envelope: decoding an encoding yields the
/// original bytes, whatever their length modulo three.
pub proof fn lemma_b64_round_trip(bytes: Seq<u8>)
    ensures
        spec_b64_decode(spec_b64_encode(bytes)) == Some(bytes),
    decreases bytes.len(),
{
    let e = spec_b64_encode(bytes);
    if bytes.len() == 0 {
        assert(spec_dec_step(e) == Some((Seq::<u8>::empty(), Seq::<u8>::empty(), false)));
        assert(bytes =~= Seq::<u8>::empty());
    } else if bytes.len() == 1 {
        let a = bytes[0];
        let s0 = a >> 2;
        let s1 = (a & 3) << 4;
        assert(s0 < 64 && s1 < 64 && (s1 & 15) == 0 && ((s0 << 2) | (s1 >> 4)) == a)
            by (bit_vector)
            requires
                s0 == a >> 2,
                s1 == (a & 3) << 4,
        ;
        lemma_b64_char_val(s0);
        lemma_b64_char_val(s1);
        assert(dec4(e[0], e[1], e[2], e[3]) == Some(seq![a]));
        assert(seq![a] =~= bytes);
    } else if bytes.len() == 2 {
        let a = bytes[0];
        let b = bytes[1];
        let s0 = a >> 2;
        let s1 = ((a & 3) << 4) | (b >> 4);
        let s2 = (b & 15) << 2;
        assert(s0 < 64 && s1 < 64 && s2 < 64 && (s2 & 3) == 0 && ((s0 << 2) | (s1 >> 4)) == a && ((
        s1 << 4) | (s2 >> 2)) == b) by (bit_vector)
            requires
                s0 == a >> 2,
                s1 == ((a & 3) << 4) | (b >> 4),
                s2 == (b & 15) << 2,
        ;
        lemma_b64_char_val(s0);
        lemma_b64_char_val(s1);
        lemma_b64_char_val(s2);
        assert(dec4(e[0], e[1], e[2], e[3]) == Some(seq![a, b]));
        assert(seq![a, b] =~= bytes);
    } else {
        let g = enc3(bytes[0], bytes[1], bytes[2]);
        let rest = spec_b64_encode(bytes.skip(3));
        assert(e == g + rest);
        lemma_enc3_dec(bytes[0], bytes[1], bytes[2]);
        lemma_b64_round_trip(bytes.skip(3));
        assert(e[0] == g[0] && e[1] == g[1] && e[2] == g[2] && e[3] == g[3]);
        let b = bytes[1];
        let c = bytes[2];
        let s2 = ((b & 15) << 2) | (c >> 6);
        let s3 = c & 63;
        assert(s2 < 64 && s3 < 64) by (bit_vector)
            requires
                s2 == ((b & 15) << 2) | (c >> 6),
                s3 == c & 63,
        ;
        lemma_b64_char_val(s2);
        lemma_b64_char_val(s3);
        assert(e[2] != PAD && e[3] != PAD);
        assert(e.len() >= 4);
        assert(e.skip(4) =~= rest);
        assert(dec4(e[0], e[1], e[2], e[3]) == Some(seq![bytes[0], bytes[1], bytes[2]]));
        match spec_dec_step(rest) {
            Some(r) => {
                assert(r.1.len() == 0);
                assert(r.0 == bytes.skip(3));
                assert(seq![bytes[0], bytes[1], bytes[2]] + bytes.skip(3) =~= bytes);
            },
            None => {},
        }
    }
}

/// Splitting the character stream anywhere between groups changes
/// nothing: a first pass over `c1`, its carried tail prepended to
/// `c2`, and a pass over that, see together exactly the groups of
/// `c1 + c2` — provided the first pass did not already end the stream
/// on a padded group.
pub proof fn lemma_b64_chunked_decode(c1: Seq<u8>, c2: Seq<u8>)
    ensures
        match spec_dec_step(c1) {
            Some(r1) => {
                r1.2 == false ==> spec_dec_step(c1 + c2) == (match spec_dec_step(r1.1 + c2) {
                    Some(r2) => Some((r1.0 + r2.0, r2.1, r2.2)),
                    None => None::<(Seq<u8>, Seq<u8>, bool)>,
                })
            },
            None => spec_dec_step(c1 + c2) is None,
        },
    decreases c1.len(),
{
    if c1.len() < 4 {
        assert(c1 + c2 =~= c1 + c2);
        match spec_dec_step(c1) {
            Some(r1) => {
                assert(r1.1 =~= c1);
                assert(r1.1 + c2 =~= c1 + c2);
                match spec_dec_step(c1 + c2) {
                    Some(r2) => {
                        assert(Seq::<u8>::empty() + r2.0 =~= r2.0);
                    },
                    None => {},
                }
            },
            None => {},
        }
    } else {
        let w = c1 + c2;
        assert(w[0] == c1[0] && w[1] == c1[1] && w[2] == c1[2] && w[3] == c1[3]);
        if c1[2] == PAD || c1[3] == PAD {
            // a padded group either closes the stream — which the law
            // does not speak of — or was malformed, and stays so in
            // the longer buffer
        } else {
            match dec4(c1[0], c1[1], c1[2], c1[3]) {
                None => {},
                Some(bs) => {
                    assert(w.skip(4) =~= c1.skip(4) + c2);
                    lemma_b64_chunked_decode(c1.skip(4), c2);
                    match spec_dec_step(c1.skip(4)) {
                        Some(r1t) => {
                            if !r1t.2 {
                                match spec_dec_step(r1t.1 + c2) {
                                    Some(r2) => {
                                        assert(bs + (r1t.0 + r2.0) =~= (bs + r1t.0) + r2.0);
                                    },
                                    None => {},
                                }
                            }
                        },
                        None => {},
                    }
                },
            }
        }
    }
}

/// Encoding distributes over concatenation at three-byte boundaries.
pub proof fn lemma_b64_encode_append(a: Seq<u8>, b: Seq<u8>)
    requires
        a.len() % 3 == 0,
    ensures
        spec_b64_encode(a + b) == spec_b64_encode(a) + spec_b64_encode(b),
    decreases a.len(),
{
    if a.len() == 0 {
        assert(a + b =~= b);
        assert(seq![] + spec_b64_encode(b) =~= spec_b64_encode(b));
    } else {
        assert(a.len() >= 3);
        let w = a + b;
        assert(w[0] == a[0] && w[1] == a[1] && w[2] == a[2]);
        assert(w.skip(3) =~= a.skip(3) + b);
        lemma_b64_encode_append(a.skip(3), b);
        assert(enc3(a[0], a[1], a[2]) + (spec_b64_encode(a.skip(3)) + spec_b64_encode(b)) =~= (enc3(
            a[0],
            a[1],
            a[2],
        ) + spec_b64_encode(a.skip(3))) + spec_b64_encode(b));
    }
}

/// The character of sextet `v`, executable.
fn b64_char_exec(v: u8) -> (r: u8)
    requires
        v < 64,
    ensures
        r == b64_char(v),
{
    if v < 26 {
        65 + v
    } else if v < 52 {
        97 + (v - 26)
    } else if v < 62 {
        48 + (v - 52)
    } else if v == 62 {
        43
    } else {
        47
    }
}

/// The sextet of character `c`, executable.
fn b64_val_exec(c: u8) -> (r: Option<u8>)
    ensures
        r == b64_val(c),
{
    if 65 <= c && c <= 90 {
        Some(c - 65)
    } else if 97 <= c && c <= 122 {
        Some((c - 97) + 26)
    } else if 48 <= c && c <= 57 {
        Some((c - 48) + 52)
    } else if c == 43 {
        Some(62)
    } else if c == 47 {
        Some(63)
    } else {
        None
    }
}

/// Appends the four characters of one full group.
fn push_group(out: &mut Vec<u8>, a: u8, b: u8, c: u8)
    ensures
        final(out)@ == old(out)@ + enc3(a, b, c),
{
    let s0 = a >> 2;
    let s1 = ((a & 3) << 4) | (b >> 4);
    let s2 = ((b & 15) << 2) | (c >> 6);
    let s3 = c & 63;
    proof {
        assert(s0 < 64 && s1 < 64 && s2 < 64 && s3 < 64) by (bit_vector)
            requires
                s0 == a >> 2,
                s1 == ((a & 3) << 4) | (b >> 4),
                s2 == ((b & 15) << 2) | (c >> 6),
                s3 == c & 63,
        ;
    }
    out.push(b64_char_exec(s0));
    out.push(b64_char_exec(s1));
    out.push(b64_char_exec(s2));
    out.push(b64_char_exec(s3));
    proof {
        assert(out@ =~= old(out)@ + enc3(a, b, c));
    }
}

/// Decodes one four-character group, mirroring `dec4`.
fn decode_group(c0: u8, c1: u8, c2: u8, c3: u8) -> (r: Option<Vec<u8>>)
    ensures
        match r {
            Some(v) => dec4(c0, c1, c2, c3) == Some(v@),
            None => dec4(c0, c1, c2, c3) is None,
        },
{
    let v0 = match b64_val_exec(c0) {
        Some(v) => v,
        None => {
            return None;
        },
    };
    let v1 = match b64_val_exec(c1) {
        Some(v) => v,
        None => {
            return None;
        },
    };
    if c2 == PAD && c3 == PAD {
        if v1 & 15 == 0 {
            let mut v: Vec<u8> = Vec::new();
            v.push((v0 << 2) | (v1 >> 4));
            proof {
                assert(v@ =~= seq![(v0 << 2) | (v1 >> 4)]);
            }
            Some(v)
        } else {
            None
        }
    } else if c3 == PAD {
        let v2 = match b64_val_exec(c2) {
            Some(v) => v,
            None => {
                return None;
            },
        };
        if v2 & 3 == 0 {
            let mut v: Vec<u8> = Vec::new();
            v.push((v0 << 2) | (v1 >> 4));
            v.push((v1 << 4) | (v2 >> 2));
            proof {
                assert(v@ =~= seq![(v0 << 2) | (v1 >> 4), (v1 << 4) | (v2 >> 2)]);
            }
            Some(v)
        } else {
            None
        }
    } else {
        let v2 = match b64_val_exec(c2) {
            Some(v) => v,
            None => {
                return None;
            },
        };
        let v3 = match b64_val_exec(c3) {
            Some(v) => v,
            None => {
                return None;
            },
        };
        let mut v: Vec<u8> = Vec::new();
        v.push((v0 << 2) | (v1 >> 4));
        v.push((v1 << 4) | (v2 >> 2));
        v.push((v2 << 6) | v3);
        proof {
            assert(v@ =~= seq![(v0 << 2) | (v1 >> 4), (v1 << 4) | (v2 >> 2), (v2 << 6) | v3]);
        }
        Some(v)
    }
}

/// The encoding half of the text envelope: buffers one or two raw
/// bytes between chunks so that every emitted group is full; `finish`
/// flushes the tail with padding.
pub struct Base64Encoder {
    carry: Vec<u8>,
}

impl Base64Encoder {
    /// The raw bytes held back for the next chunk.
    pub closed spec fn carry_bytes(&self) -> Seq<u8> {
        self.carry@
    }

    /// The carry never holds a full group.
    pub closed spec fn inv(&self) -> bool {
        self.carry@.len() < 3
    }

    /// A fresh encoder with nothing buffered.
    pub fn new() -> (r: Base64Encoder)
        ensures
            r.inv(),
            r.carry_bytes() == Seq::<u8>::empty(),
    {
        let r = Base64Encoder { carry: Vec::new() };
        proof {
            assert(r.carry_bytes() =~= Seq::<u8>::empty());
        }
        r
    }

    /// Encodes every full three-byte group of the carry followed by
    /// `chunk`, and keeps the remainder for later.
    pub fn push(&mut self, chunk: &Vec<u8>) -> (out: Vec<u8>)
        requires
            old(self).inv(),
            old(self).carry_bytes().len() + chunk@.len() <= usize::MAX,
        ensures
            final(self).inv(),
            ({
                let all = old(self).carry_bytes() + chunk@;
                let k = all.len() - (all.len() % 3);
                &&& out@ == spec_b64_encode(all.take(k as int))
                &&& final(self).carry_bytes() == all.skip(k as int)
            }),
    {
        let mut all: Vec<u8> = Vec::new();
        extend(&mut all, &self.carry);
        extend(&mut all, chunk);
        let mut out: Vec<u8> = Vec::new();
        let mut i: usize = 0;
        proof {
            assert(all@.take(0) =~= Seq::<u8>::empty());
        }
        while all.len() - i >= 3
            invariant
                i % 3 == 0,
                i <= all@.len(),
                all@.len() == all.len(),
                out@ == spec_b64_encode(all@.take(i as int)),
            decreases all@.len() - i,
        {
            let a = all[i];
            let b = all[i + 1];
            let c = all[i + 2];
            let ghost before = out@;
            push_group(&mut out, a, b, c);
            proof {
                assert(all@.take(i + 3) =~= all@.take(i as int) + seq![a, b, c]);
                lemma_b64_encode_append(all@.take(i as int), seq![a, b, c]);
                assert(seq![a, b, c].skip(3) =~= Seq::<u8>::empty());
                assert(spec_b64_encode(Seq::<u8>::empty()) == Seq::<u8>::empty());
                assert(spec_b64_encode(seq![a, b, c]) == enc3(a, b, c) + spec_b64_encode(
                    seq![a, b, c].skip(3),
                ));
                assert(spec_b64_encode(seq![a, b, c]) =~= enc3(a, b, c));
                assert(out@ =~= spec_b64_encode(all@.take(i as int)) + spec_b64_encode(
                    seq![a, b, c],
                ));
            }
            i += 3;
        }
        let tail = copy_range(&all, i, all.len());
        self.carry = tail;
        proof {
            let r = all@.len() - i;
            assert(all@.len() % 3 == r) by (nonlinear_arith)
                requires
                    i % 3 == 0,
                    0 <= r < 3,
                    all@.len() == i + r,
            ;
            assert(all@.subrange(i as int, all@.len() as int) =~= all@.skip(i as int));
        }
        out
    }

    /// Encodes whatever the carry still holds, padded, and empties it.
    pub fn finish(&mut self) -> (out: Vec<u8>)
        requires
            old(self).inv(),
        ensures
            final(self).inv(),
            out@ == spec_b64_encode(old(self).carry_bytes()),
            final(self).carry_bytes() == Seq::<u8>::empty(),
    {
        let mut out: Vec<u8> = Vec::new();
        if self.carry.len() == 1 {
            let a = self.carry[0];
            let s0 = a >> 2;
            let s1 = (a & 3) << 4;
            proof {
                assert(s0 < 64 && s1 < 64) by (bit_vector)
                    requires
                        s0 == a >> 2,
                        s1 == (a & 3) << 4,
                ;
            }
            out.push(b64_char_exec(s0));
            out.push(b64_char_exec(s1));
            out.push(PAD);
            out.push(PAD);
            proof {
                assert(out@ =~= spec_b64_encode(old(self).carry_bytes()));
            }
        } else if self.carry.len() == 2 {
            let a = self.carry[0];
            let b = self.carry[1];
            let s0 = a >> 2;
            let s1 = ((a & 3) << 4) | (b >> 4);
            let s2 = (b & 15) << 2;
            proof {
                assert(s0 < 64 && s1 < 64 && s2 < 64) by (bit_vector)
                    requires
                        s0 == a >> 2,
                        s1 == ((a & 3) << 4) | (b >> 4),
                        s2 == (b & 15) << 2,
                ;
            }
            out.push(b64_char_exec(s0));
            out.push(b64_char_exec(s1));
            out.push(b64_char_exec(s2));
            out.push(PAD);
            proof {
                assert(out@ =~= spec_b64_encode(old(self).carry_bytes()));
            }
        } else {
            proof {
                assert(out@ =~= spec_b64_encode(old(self).carry_bytes()));
            }
        }
        self.carry = Vec::new();
        proof {
            assert(self.carry_bytes() =~= Seq::<u8>::empty());
        }
        out
    }
}

/// The decoding half of the text envelope: buffers up to three
/// characters between chunks, decodes every full group, and remembers
/// whether a padded group closed the stream.
pub struct Base64Decoder {
    carry: Vec<u8>,
    done: bool,
}

impl Base64Decoder {
    /// The characters held back for the next chunk.
    pub closed spec fn carry_chars(&self) -> Seq<u8> {
        self.carry@
    }

    /// Whether a padded group has closed the stream.
    pub closed spec fn finished(&self) -> bool {
        self.done
    }

    /// The carry never holds a full group, and is empty once the
    /// stream has closed.
    pub closed spec fn inv(&self) -> bool {
        self.carry@.len() < 4 && (self.done ==> self.carry@.len() == 0)
    }

    /// A fresh decoder with nothing buffered.
    pub fn new() -> (r: Base64Decoder)
        ensures
            r.inv(),
            r.carry_chars() == Seq::<u8>::empty(),
            !r.finished(),
    {
        let r = Base64Decoder { carry: Vec::new(), done: false };
        proof {
            assert(r.carry_chars() =~= Seq::<u8>::empty());
        }
        r
    }

    /// Decodes every full group of the carry followed by `chunk`.
    /// Characters outside the alphabet, or anything after a padded
    /// group, are a framing error.
    pub fn push(&mut self, chunk: &Vec<u8>) -> (r: Result<Vec<u8>, AdapterError>)
        requires
            old(self).inv(),
            old(self).carry_chars().len() + chunk@.len() <= usize::MAX,
        ensures
            final(self).inv(),
            old(self).finished() && chunk@.len() == 0 ==> (r matches Ok(v) && v@ == Seq::<
                u8,
            >::empty() && *final(self) == *old(self)),
            old(self).finished() && chunk@.len() > 0 ==> r == Err::<Vec<u8>, AdapterError>(
                AdapterError::Framing,
            ),
            !old(self).finished() ==> match spec_dec_step(old(self).carry_chars() + chunk@) {
                Some(t) => {
                    &&& r matches Ok(v) && v@ == t.0
                    &&& final(self).carry_chars() == t.1
                    &&& final(self).finished() == t.2
                },
                None => r == Err::<Vec<u8>, AdapterError>(AdapterError::Framing),
            },
    {
        if self.done {
            if chunk.len() == 0 {
                let v: Vec<u8> = Vec::new();
                proof {
                    assert(v@ =~= Seq::<u8>::empty());
                }
                return Ok(v);
            } else {
                return Err(AdapterError::Framing);
            }
        }
        let mut all: Vec<u8> = Vec::new();
        extend(&mut all, &self.carry);
        extend(&mut all, chunk);
        let mut out: Vec<u8> = Vec::new();
        let mut i: usize = 0;
        proof {
            assert(all@.skip(0) =~= all@);
        }
        while all.len() - i >= 4
            invariant
                i <= all@.len(),
                all@ == old(self).carry_chars() + chunk@,
                !old(self).finished(),
                !self.done,
                self.carry@.len() < 4,
                all@.len() == all.len(),
                match spec_dec_step(all@.skip(i as int)) {
                    Some(t) => spec_dec_step(all@) == Some((out@ + t.0, t.1, t.2)),
                    None => spec_dec_step(all@) is None,
                },
            decreases all@.len() - i,
        {
            let ghost sp = all@.skip(i as int);
            let c0 = all[i];
            let c1 = all[i + 1];
            let c2 = all[i + 2];
            let c3 = all[i + 3];
            proof {
                assert(sp[0] == c0 && sp[1] == c1 && sp[2] == c2 && sp[3] == c3);
            }
            if c2 == PAD || c3 == PAD {
                if all.len() - i != 4 {
                    return Err(AdapterError::Framing);
                }
                match decode_group(c0, c1, c2, c3) {
                    None => {
                        return Err(AdapterError::Framing);
                    },
                    Some(bs) => {
                        let ghost before = out@;
                        extend(&mut out, &bs);
                        self.carry = Vec::new();
                        self.done = true;
                        proof {
                            assert(sp.len() == 4);
                            assert(spec_dec_step(sp) == Some((bs@, Seq::<u8>::empty(), true)));
                            assert(self.carry_chars() =~= Seq::<u8>::empty());
                        }
                        return Ok(out);
                    },
                }
            } else {
                match decode_group(c0, c1, c2, c3) {
                    None => {
                        return Err(AdapterError::Framing);
                    },
                    Some(bs) => {
                        let ghost before = out@;
                        extend(&mut out, &bs);
                        proof {
                            assert(all@.skip(i + 4) =~= sp.skip(4));
                            match spec_dec_step(sp.skip(4)) {
                                Some(t) => {
                                    assert(spec_dec_step(sp) == Some((bs@ + t.0, t.1, t.2)));
                                    assert(before + (bs@ + t.0) =~= (before + bs@) + t.0);
                                },
                                None => {},
                            }
                        }
                        i += 4;
                    },
                }
            }
        }
        let tail = copy_range(&all, i, all.len());
        self.carry = tail;
        proof {
            let sp = all@.skip(i as int);
            assert(sp.len() < 4);
            assert(spec_dec_step(sp) == Some((Seq::<u8>::empty(), sp, false)));
            assert(out@ + Seq::<u8>::empty() =~= out@);
            assert(all@.subrange(i as int, all@.len() as int) =~= sp);
        }
        Ok(out)
    }

    /// At end of stream, leftover characters mean the text was
    /// truncated mid-group.
    pub fn finish(&self) -> (r: Result<(), AdapterError>)
        ensures
            r is Ok <==> self.carry_chars().len() == 0,
            r is Err ==> r == Err::<(), AdapterError>(AdapterError::Framing),
    {
        if self.carry.len() == 0 {
            Ok(())
        } else {
            Err(AdapterError::Framing)
        }
    }
}

} // verus!
