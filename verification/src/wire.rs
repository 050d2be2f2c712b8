use vstd::prelude::*;

verus! {

use vstd::utf8::{encode_utf8, decode_utf8, valid_utf8};
use crate::archive_url::{ArchiveUrl, url_parse_of};
use crate::errors::CodecError;
use crate::package::{Package, PackageBuilder, PackageModel};
use crate::package_integrity::{PackageIntegrity, PackageIntegrityModel};
use crate::package_status::PackageStatus;
use crate::text::{text_bytes, text_from_bytes};

// ---------------------------------------------------------------------------
// The wire format.
//
// A package travels as one length-prefixed list of seven elements:
//
//     [name, version, status, maintainer, archive_url, integrity, sig]
//
// Byte strings of length one whose byte is below 0x80 stand for themselves;
// short strings carry a `0x80 + len` prefix; longer ones a `0xb7 + k` prefix
// followed by the length in `k` big-endian bytes. List payloads carry the
// analogous `0xc0 + len` / `0xf7 + k` prefixes. The status is a one-byte
// integer in the minimal form: empty for zero. The integrity element is a
// list of one-byte integers which, taken together, spell the encoding of the
// two-element list [algorithm, archive_hash].
//
// The first six elements, concatenated without the outer list prefix, are
// the signing payload: the canonical digest is the SHA-256 hash of exactly
// those bytes.
// ---------------------------------------------------------------------------
/// Minimal big-endian bytes of a number; empty for zero.
pub open spec fn spec_be_bytes(n: nat) -> Seq<u8>
    decreases n,
{
    if n == 0 {
        Seq::empty()
    } else {
        spec_be_bytes(n / 256) + seq![(n % 256) as u8]
    }
}

/// The number big-endian bytes stand for.
pub open spec fn spec_be_val(b: Seq<u8>) -> nat
    decreases b.len(),
{
    if b.len() == 0 {
        0nat
    } else {
        spec_be_val(b.take(b.len() - 1)) * 256 + b.last() as nat
    }
}

/// Wire form of a byte string.
pub open spec fn spec_rlp_str(b: Seq<u8>) -> Seq<u8> {
    if b.len() == 1 && b[0] < 0x80 {
        b
    } else if b.len() <= 55 {
        seq![(0x80 + b.len()) as u8] + b
    } else {
        seq![(0xb7 + spec_be_bytes(b.len() as nat).len()) as u8] + spec_be_bytes(b.len() as nat)
            + b
    }
}

/// Wire prefix of a list with a payload of the given length.
pub open spec fn spec_rlp_list_header(payload_len: nat) -> Seq<u8> {
    if payload_len <= 55 {
        seq![(0xc0 + payload_len) as u8]
    } else {
        seq![(0xf7 + spec_be_bytes(payload_len).len()) as u8] + spec_be_bytes(payload_len)
    }
}

/// Wire form of a one-byte integer: minimal big-endian, empty for zero.
pub open spec fn spec_rlp_u8(v: u8) -> Seq<u8> {
    if v == 0 {
        seq![0x80u8]
    } else if v < 0x80 {
        seq![v]
    } else {
        seq![0x81u8, v]
    }
}

/// The bytes of a sequence, each as its own one-byte-integer item.
pub open spec fn spec_u8_items(b: Seq<u8>) -> Seq<u8>
    decreases b.len(),
{
    if b.len() == 0 {
        Seq::empty()
    } else {
        spec_rlp_u8(b[0]) + spec_u8_items(b.drop_first())
    }
}

/// Payload of the two-element integrity list.
pub open spec fn spec_integrity_payload(m: PackageIntegrityModel) -> Seq<u8> {
    spec_rlp_str(encode_utf8(m.algorithm)) + spec_rlp_str(m.archive_hash)
}

/// The integrity record as a self-contained two-element list.
pub open spec fn spec_integrity_inner(m: PackageIntegrityModel) -> Seq<u8> {
    spec_rlp_list_header(spec_integrity_payload(m).len() as nat) + spec_integrity_payload(m)
}

/// The integrity element as it stands on the wire: a list of one-byte
/// integers spelling [`spec_integrity_inner`].
pub open spec fn spec_integrity_wire(m: PackageIntegrityModel) -> Seq<u8> {
    spec_rlp_list_header(spec_u8_items(spec_integrity_inner(m)).len() as nat) + spec_u8_items(
        spec_integrity_inner(m),
    )
}

/// The six data elements of a package, concatenated: the signing payload.
pub open spec fn spec_wire_data(p: PackageModel) -> Seq<u8> {
    spec_rlp_str(encode_utf8(p.name)) + spec_rlp_str(encode_utf8(p.version)) + spec_rlp_u8(
        p.status.spec_byte(),
    ) + spec_rlp_str(p.maintainer) + spec_rlp_str(encode_utf8(p.archive_url))
        + spec_integrity_wire(p.integrity)
}

/// The complete wire message of a signed package.
pub open spec fn spec_wire_bytes(p: PackageModel) -> Seq<u8>
    recommends
        p.sig is Some,
{
    let payload = spec_wire_data(p) + spec_rlp_str(p.sig->Some_0);
    spec_rlp_list_header(payload.len() as nat) + payload
}

// ---------------------------------------------------------------------------
// Parsing, at the level of specifications. Each parser reads one element
// from the front of a byte sequence and yields its content and the number
// of consumed bytes. Parsing is strict: an element written in a longer
// form than [`spec_rlp_str`] and friends emit is rejected, so whatever a
// parser accepts re-encodes to exactly the consumed bytes.
// ---------------------------------------------------------------------------
/// Parse one byte string element from the front of `b`.
pub open spec fn spec_parse_str(b: Seq<u8>) -> Option<(Seq<u8>, int)> {
    if b.len() == 0 {
        None
    } else {
        let b0 = b[0];
        if b0 < 0x80 {
            Some((seq![b0], 1int))
        } else if b0 <= 0xb7 {
            let n = b0 - 0x80;
            if b.len() < 1 + n {
                None
            } else {
                let content = b.subrange(1, 1 + n);
                if n == 1 && content[0] < 0x80 {
                    None
                } else {
                    Some((content, 1 + n))
                }
            }
        } else if b0 <= 0xbf {
            let k = b0 - 0xb7;
            if b.len() < 1 + k {
                None
            } else {
                let lenbytes = b.subrange(1, 1 + k);
                if lenbytes[0] == 0 {
                    None
                } else {
                    let n = spec_be_val(lenbytes) as int;
                    if n <= 55 {
                        None
                    } else if b.len() < 1 + k + n {
                        None
                    } else {
                        Some((b.subrange(1 + k, 1 + k + n), 1 + k + n))
                    }
                }
            }
        } else {
            None
        }
    }
}

/// Parse one list prefix from the front of `b`: payload length and
/// consumed bytes.
pub open spec fn spec_parse_list_header(b: Seq<u8>) -> Option<(int, int)> {
    if b.len() == 0 {
        None
    } else {
        let b0 = b[0];
        if b0 < 0xc0 {
            None
        } else if b0 <= 0xf7 {
            Some(((b0 - 0xc0) as int, 1int))
        } else {
            let k = b0 - 0xf7;
            if b.len() < 1 + k {
                None
            } else {
                let lenbytes = b.subrange(1, 1 + k);
                if lenbytes[0] == 0 {
                    None
                } else {
                    let n = spec_be_val(lenbytes) as int;
                    if n <= 55 {
                        None
                    } else {
                        Some((n, 1 + k))
                    }
                }
            }
        }
    }
}

/// Parse one one-byte integer element from the front of `b`.
pub open spec fn spec_parse_u8(b: Seq<u8>) -> Option<(u8, int)> {
    if b.len() == 0 {
        None
    } else if b[0] == 0x80 {
        Some((0u8, 1int))
    } else if 0 < b[0] < 0x80 {
        Some((b[0], 1int))
    } else if b[0] == 0x81 && b.len() >= 2 && b[1] >= 0x80 {
        Some((b[1], 2int))
    } else {
        None
    }
}

/// Parse a whole sequence of one-byte integer elements, exactly consuming
/// `b`.
pub open spec fn spec_parse_u8_list(b: Seq<u8>) -> Option<Seq<u8>>
    decreases b.len(),
{
    if b.len() == 0 {
        Some(Seq::empty())
    } else {
        match spec_parse_u8(b) {
            Some((v, n)) => match spec_parse_u8_list(b.skip(n)) {
                Some(rest) => Some(seq![v] + rest),
                None => None,
            },
            None => None,
        }
    }
}

// ---------------------------------------------------------------------------
// Big-endian length lemmas.
// ---------------------------------------------------------------------------
/// Reading back minimal big-endian bytes gives the number.
proof fn lemma_be_round_trip(n: nat)
    ensures
        spec_be_val(spec_be_bytes(n)) == n,
    decreases n,
{
    if n == 0 {
    } else {
        lemma_be_round_trip(n / 256);
        let b = spec_be_bytes(n);
        assert(b.take(b.len() - 1) =~= spec_be_bytes(n / 256));
        assert(b.last() == (n % 256) as u8);
    }
}

/// Minimal big-endian bytes of a positive number start with a non-zero
/// byte.
proof fn lemma_be_first_nonzero(n: nat)
    requires
        n > 0,
    ensures
        spec_be_bytes(n).len() > 0,
        spec_be_bytes(n)[0] != 0,
    decreases n,
{
    if n < 256 {
        assert(n / 256 == 0);
        assert(spec_be_bytes(0) == Seq::<u8>::empty());
        assert(spec_be_bytes(n) =~= seq![(n % 256) as u8]);
    } else {
        lemma_be_first_nonzero(n / 256);
        assert(spec_be_bytes(n)[0] == spec_be_bytes(n / 256)[0]);
    }
}

/// Bytes that start with a non-zero byte are the minimal big-endian form
/// of the number they stand for.
proof fn lemma_be_canonical(b: Seq<u8>)
    requires
        b.len() > 0,
        b[0] != 0,
    ensures
        spec_be_bytes(spec_be_val(b)) == b,
    decreases b.len(),
{
    let front = b.take(b.len() - 1);
    let d = b.last();
    let v = spec_be_val(b);
    assert(v == spec_be_val(front) * 256 + d);
    if b.len() == 1 {
        assert(front =~= Seq::<u8>::empty());
        assert(spec_be_val(front) == 0);
        assert(v == d as nat);
        assert(v > 0);
        assert(spec_be_bytes(v) =~= spec_be_bytes(v / 256) + seq![(v % 256) as u8]);
        assert(v / 256 == 0 && v % 256 == d) by (nonlinear_arith)
            requires
                v == d as nat,
                d < 256,
        ;
        assert(spec_be_bytes(v) =~= b);
    } else {
        assert(front[0] == b[0]);
        lemma_be_canonical(front);
        lemma_be_val_first_nonzero_pos(front);
        assert(v > 0) by (nonlinear_arith)
            requires
                v == spec_be_val(front) * 256 + d,
                spec_be_val(front) > 0,
        ;
        assert(v / 256 == spec_be_val(front) && v % 256 == d) by (nonlinear_arith)
            requires
                v == spec_be_val(front) * 256 + d,
                d < 256,
        ;
        assert(spec_be_bytes(v) == spec_be_bytes(v / 256) + seq![(v % 256) as u8]);
        assert(spec_be_bytes(v) =~= b);
    }
}

/// A byte sequence starting with a non-zero byte stands for a positive
/// number.
proof fn lemma_be_val_first_nonzero_pos(b: Seq<u8>)
    requires
        b.len() > 0,
        b[0] != 0,
    ensures
        spec_be_val(b) > 0,
    decreases b.len(),
{
    let front = b.take(b.len() - 1);
    if b.len() == 1 {
        assert(b.last() == b[0]);
    } else {
        assert(front[0] == b[0]);
        lemma_be_val_first_nonzero_pos(front);
        assert(spec_be_val(b) == spec_be_val(front) * 256 + b.last());
        assert(spec_be_val(front) * 256 >= 256) by (nonlinear_arith)
            requires
                spec_be_val(front) >= 1,
        ;
    }
}

// ---------------------------------------------------------------------------
// Parser completeness: parsing an encoded element, with anything after it,
// yields the element's content and consumes exactly its bytes. Parser
// soundness: whatever a parser accepts re-encodes to the consumed bytes.
// ---------------------------------------------------------------------------
/// Completeness of [`spec_parse_str`].
proof fn lemma_parse_str_complete(c: Seq<u8>, rest: Seq<u8>)
    requires
        c.len() < 0x10000000000000000,
    ensures
        spec_parse_str(spec_rlp_str(c) + rest) == Some((c, spec_rlp_str(c).len() as int)),
{
    let e = spec_rlp_str(c);
    let b = e + rest;
    if c.len() == 1 && c[0] < 0x80 {
        assert(b[0] == c[0]);
        assert(seq![b[0]] =~= c);
    } else if c.len() <= 55 {
        assert(b[0] == (0x80 + c.len()) as u8);
        let n = b[0] - 0x80;
        assert(n == c.len());
        assert(b.subrange(1, 1 + n) =~= c);
        if n == 1 {
            assert(!(c[0] < 0x80));
        }
    } else {
        let lb = spec_be_bytes(c.len() as nat);
        lemma_be_first_nonzero(c.len() as nat);
        lemma_be_round_trip(c.len() as nat);
        lemma_be_bytes_len8(c.len() as nat);
        assert(lb.len() <= 8);
        let k = lb.len();
        assert(b[0] == (0xb7 + k) as u8);
        assert(0xb8 <= b[0] <= 0xbf);
        assert(b[0] - 0xb7 == k);
        assert(b.subrange(1, 1 + k as int) =~= lb);
        assert(spec_be_val(lb) == c.len());
        assert(b.subrange(1 + k as int, 1 + k as int + c.len() as int) =~= c);
    }
}

/// Completeness of [`spec_parse_list_header`].
proof fn lemma_parse_list_header_complete(n: nat, rest: Seq<u8>)
    requires
        n < 0x10000000000000000,
    ensures
        spec_parse_list_header(spec_rlp_list_header(n) + rest) == Some(
            (n as int, spec_rlp_list_header(n).len() as int),
        ),
{
    let e = spec_rlp_list_header(n);
    let b = e + rest;
    if n <= 55 {
        assert(b[0] == (0xc0 + n) as u8);
    } else {
        let lb = spec_be_bytes(n);
        lemma_be_first_nonzero(n);
        lemma_be_round_trip(n);
        lemma_be_bytes_len8(n);
        let k = lb.len();
        assert(b[0] == (0xf7 + k) as u8);
        assert(0xf8 <= b[0] <= 0xff);
        assert(b[0] - 0xf7 == k);
        assert(b.subrange(1, 1 + k as int) =~= lb);
    }
}

/// Completeness of [`spec_parse_u8`].
proof fn lemma_parse_u8_complete(v: u8, rest: Seq<u8>)
    ensures
        spec_parse_u8(spec_rlp_u8(v) + rest) == Some((v, spec_rlp_u8(v).len() as int)),
{
    let b = spec_rlp_u8(v) + rest;
    if v == 0 {
        assert(b[0] == 0x80);
    } else if v < 0x80 {
        assert(b[0] == v);
    } else {
        assert(b[0] == 0x81 && b[1] == v);
    }
}

/// Soundness of [`spec_parse_str`].
proof fn lemma_parse_str_sound(b: Seq<u8>)
    requires
        spec_parse_str(b) is Some,
    ensures
        ({
            let (c, n) = spec_parse_str(b)->Some_0;
            &&& 1 <= n <= b.len()
            &&& b.take(n) == spec_rlp_str(c)
            &&& c.len() <= n
        }),
{
    let (c, n) = spec_parse_str(b)->Some_0;
    let b0 = b[0];
    if b0 < 0x80 {
        assert(b.take(1) =~= seq![b0]);
        assert(spec_rlp_str(c) == c);
    } else if b0 <= 0xb7 {
        let m = b0 - 0x80;
        assert(c =~= b.subrange(1, 1 + m));
        assert(c.len() == m);
        if !(c.len() == 1 && c[0] < 0x80) {
            assert(spec_rlp_str(c) == seq![(0x80 + c.len()) as u8] + c);
            assert(b.take(n) =~= spec_rlp_str(c));
        }
    } else {
        let k = b0 - 0xb7;
        let lb = b.subrange(1, 1 + k);
        let m = spec_be_val(lb) as int;
        lemma_be_canonical(lb);
        assert(c =~= b.subrange(1 + k, 1 + k + m));
        assert(c.len() == m);
        assert(m > 55);
        assert(spec_be_bytes(c.len() as nat) == lb);
        assert(spec_rlp_str(c) == seq![(0xb7 + lb.len()) as u8] + lb + c);
        assert((0xb7 + lb.len()) as u8 == b0);
        assert(b.take(n) =~= spec_rlp_str(c));
    }
}

/// Soundness of [`spec_parse_list_header`].
proof fn lemma_parse_list_header_sound(b: Seq<u8>)
    requires
        spec_parse_list_header(b) is Some,
    ensures
        ({
            let (plen, n) = spec_parse_list_header(b)->Some_0;
            &&& 1 <= n <= b.len()
            &&& plen >= 0
            &&& b.take(n) == spec_rlp_list_header(plen as nat)
        }),
{
    let (plen, n) = spec_parse_list_header(b)->Some_0;
    let b0 = b[0];
    if b0 <= 0xf7 {
        assert(plen == b0 - 0xc0);
        assert(spec_rlp_list_header(plen as nat) == seq![(0xc0 + plen) as u8]);
        assert(b.take(1) =~= seq![b0]);
    } else {
        let k = b0 - 0xf7;
        let lb = b.subrange(1, 1 + k);
        lemma_be_canonical(lb);
        assert(spec_be_bytes(plen as nat) == lb);
        assert(spec_rlp_list_header(plen as nat) == seq![(0xf7 + lb.len()) as u8] + lb);
        assert((0xf7 + lb.len()) as u8 == b0);
        assert(b.take(n) =~= spec_rlp_list_header(plen as nat));
    }
}

/// Soundness of [`spec_parse_u8`].
proof fn lemma_parse_u8_sound(b: Seq<u8>)
    requires
        spec_parse_u8(b) is Some,
    ensures
        ({
            let (v, n) = spec_parse_u8(b)->Some_0;
            &&& 1 <= n <= b.len()
            &&& b.take(n) == spec_rlp_u8(v)
        }),
{
    let (v, n) = spec_parse_u8(b)->Some_0;
    if b[0] == 0x80 {
        assert(b.take(1) =~= seq![0x80u8]);
    } else if b[0] < 0x80 {
        assert(b.take(1) =~= seq![b[0]]);
    } else {
        assert(b.take(2) =~= seq![0x81u8, b[1]]);
    }
}

/// Completeness of [`spec_parse_u8_list`]: a sequence written out as
/// one-byte items parses back to itself.
proof fn lemma_parse_u8_list_complete(x: Seq<u8>)
    ensures
        spec_parse_u8_list(spec_u8_items(x)) == Some(x),
    decreases x.len(),
{
    if x.len() == 0 {
        assert(spec_u8_items(x).len() == 0);
    } else {
        let items = spec_u8_items(x);
        let head = spec_rlp_u8(x[0]);
        let tail_items = spec_u8_items(x.drop_first());
        assert(items == head + tail_items);
        lemma_parse_u8_complete(x[0], tail_items);
        assert(spec_parse_u8(items) == Some((x[0], head.len() as int)));
        assert(items.skip(head.len() as int) =~= tail_items);
        lemma_parse_u8_list_complete(x.drop_first());
        assert(items.len() > 0);
        assert(spec_parse_u8_list(items) == Some(seq![x[0]] + x.drop_first()));
        assert(seq![x[0]] + x.drop_first() =~= x);
    }
}

/// Soundness of [`spec_parse_u8_list`].
proof fn lemma_parse_u8_list_sound(b: Seq<u8>)
    requires
        spec_parse_u8_list(b) is Some,
    ensures
        spec_u8_items(spec_parse_u8_list(b)->Some_0) == b,
    decreases b.len(),
{
    if b.len() == 0 {
        assert(spec_u8_items(Seq::<u8>::empty()) =~= b);
    } else {
        let (v, n) = spec_parse_u8(b)->Some_0;
        lemma_parse_u8_sound(b);
        lemma_parse_u8_list_sound(b.skip(n));
        let x = spec_parse_u8_list(b)->Some_0;
        assert(x == seq![v] + spec_parse_u8_list(b.skip(n))->Some_0);
        assert(x.drop_first() =~= spec_parse_u8_list(b.skip(n))->Some_0);
        assert(x[0] == v);
        assert(spec_u8_items(x) == spec_rlp_u8(v) + spec_u8_items(x.drop_first()));
        assert(spec_u8_items(x) =~= b.take(n) + b.skip(n));
        assert(b.take(n) + b.skip(n) =~= b);
    }
}

// ---------------------------------------------------------------------------
// Encoding.
// ---------------------------------------------------------------------------
/// Numbers below `2^64` have at most eight big-endian bytes.
proof fn lemma_be_bytes_len8(n: nat)
    requires
        n < 0x10000000000000000,
    ensures
        spec_be_bytes(n).len() <= 8,
{
    let n1 = n / 256;
    let n2 = n1 / 256;
    let n3 = n2 / 256;
    let n4 = n3 / 256;
    let n5 = n4 / 256;
    let n6 = n5 / 256;
    let n7 = n6 / 256;
    let n8 = n7 / 256;
    assert(n8 == 0);
    assert(spec_be_bytes(n8).len() == 0);
    assert(spec_be_bytes(n7).len() <= 1);
    assert(spec_be_bytes(n6).len() <= 2);
    assert(spec_be_bytes(n5).len() <= 3);
    assert(spec_be_bytes(n4).len() <= 4);
    assert(spec_be_bytes(n3).len() <= 5);
    assert(spec_be_bytes(n2).len() <= 6);
    assert(spec_be_bytes(n1).len() <= 7);
    assert(spec_be_bytes(n).len() <= 8);
}

/// A `usize` has at most eight big-endian bytes.
proof fn lemma_be_bytes_len_usize(n: usize)
    ensures
        spec_be_bytes(n as nat).len() <= 8,
{
    lemma_be_bytes_len8(n as nat);
}

/// Append the bytes of `data` to `out`.
fn push_bytes(out: &mut Vec<u8>, data: &Vec<u8>)
    ensures
        final(out)@ == old(out)@ + data@,
{
    let mut i: usize = 0;
    while i < data.len()
        invariant
            i <= data@.len(),
            out@ == old(out)@ + data@.take(i as int),
        decreases data@.len() - i,
    {
        out.push(data[i]);
        i += 1;
        proof {
            assert(old(out)@ + data@.take(i as int) =~= (old(out)@ + data@.take(i as int - 1)).push(
                data@[i as int - 1],
            ));
        }
    }
    proof {
        assert(data@.take(data@.len() as int) =~= data@);
    }
}

/// Append the minimal big-endian bytes of `n` to `out`.
fn push_be_bytes(n: usize, out: &mut Vec<u8>)
    ensures
        final(out)@ == old(out)@ + spec_be_bytes(n as nat),
    decreases n,
{
    if n == 0 {
        proof {
            assert(out@ =~= old(out)@ + spec_be_bytes(0));
        }
    } else {
        push_be_bytes(n / 256, out);
        out.push((n % 256) as u8);
        proof {
            assert(out@ =~= old(out)@ + spec_be_bytes(n as nat));
        }
    }
}

/// Append the wire form of a byte string to `out`.
fn push_rlp_str(out: &mut Vec<u8>, content: &Vec<u8>)
    ensures
        final(out)@ == old(out)@ + spec_rlp_str(content@),
{
    let n = content.len();
    if n == 1 && content[0] < 0x80 {
        out.push(content[0]);
        proof {
            assert(content@ =~= seq![content@[0]]);
            assert(out@ =~= old(out)@ + spec_rlp_str(content@));
        }
    } else if n <= 55 {
        out.push(0x80 + (n as u8));
        push_bytes(out, content);
        proof {
            assert(old(out)@ + spec_rlp_str(content@) =~= (old(out)@.push(
                (0x80 + content@.len()) as u8,
            )) + content@);
        }
    } else {
        let mut lenbytes: Vec<u8> = Vec::new();
        push_be_bytes(n, &mut lenbytes);
        proof {
            lemma_be_bytes_len_usize(n);
        }
        out.push(0xb7 + (lenbytes.len() as u8));
        push_bytes(out, &lenbytes);
        push_bytes(out, content);
        proof {
            assert(old(out)@ + spec_rlp_str(content@) =~= ((old(out)@.push(
                (0xb7 + spec_be_bytes(content@.len() as nat).len()) as u8,
            )) + spec_be_bytes(content@.len() as nat)) + content@);
        }
    }
}

/// Append the wire prefix of a list with payload length `payload_len`.
fn push_list_header(out: &mut Vec<u8>, payload_len: usize)
    ensures
        final(out)@ == old(out)@ + spec_rlp_list_header(payload_len as nat),
{
    if payload_len <= 55 {
        out.push(0xc0 + (payload_len as u8));
        proof {
            assert(out@ =~= old(out)@ + spec_rlp_list_header(payload_len as nat));
        }
    } else {
        let mut lenbytes: Vec<u8> = Vec::new();
        push_be_bytes(payload_len, &mut lenbytes);
        proof {
            lemma_be_bytes_len_usize(payload_len);
        }
        out.push(0xf7 + (lenbytes.len() as u8));
        push_bytes(out, &lenbytes);
        proof {
            assert(old(out)@ + spec_rlp_list_header(payload_len as nat) =~= (old(out)@.push(
                (0xf7 + spec_be_bytes(payload_len as nat).len()) as u8,
            )) + spec_be_bytes(payload_len as nat));
        }
    }
}

/// Append the wire form of a one-byte integer.
fn push_rlp_u8(out: &mut Vec<u8>, v: u8)
    ensures
        final(out)@ == old(out)@ + spec_rlp_u8(v),
{
    if v == 0 {
        out.push(0x80);
    } else if v < 0x80 {
        out.push(v);
    } else {
        out.push(0x81);
        out.push(v);
    }
    proof {
        assert(out@ =~= old(out)@ + spec_rlp_u8(v));
    }
}

/// One step of [`spec_u8_items`] from the front of a prefix.
proof fn lemma_u8_items_snoc(b: Seq<u8>, i: int)
    requires
        0 <= i < b.len(),
    ensures
        spec_u8_items(b.take(i + 1)) == spec_u8_items(b.take(i)) + spec_rlp_u8(b[i]),
    decreases i,
{
    if i == 0 {
        assert(b.take(1) =~= seq![b[0]]);
        assert(b.take(1).drop_first() =~= Seq::<u8>::empty());
        assert(b.take(0) =~= Seq::<u8>::empty());
        assert(spec_u8_items(Seq::<u8>::empty()) == Seq::<u8>::empty());
        assert(spec_u8_items(b.take(1)) == spec_rlp_u8(b[0]) + spec_u8_items(Seq::<u8>::empty()));
        assert(spec_u8_items(b.take(1)) =~= spec_u8_items(b.take(0)) + spec_rlp_u8(b[0]));
    } else {
        lemma_u8_items_snoc(b.drop_first(), i - 1);
        assert(b.take(i + 1).drop_first() =~= b.drop_first().take(i));
        assert(b.take(i).drop_first() =~= b.drop_first().take(i - 1));
        assert(b.drop_first()[i - 1] == b[i]);
        assert(spec_u8_items(b.take(i + 1)) == spec_rlp_u8(b[0]) + spec_u8_items(
            b.drop_first().take(i),
        ));
        assert(spec_u8_items(b.take(i)) == spec_rlp_u8(b[0]) + spec_u8_items(
            b.drop_first().take(i - 1),
        ));
        assert(spec_u8_items(b.take(i + 1)) =~= spec_u8_items(b.take(i)) + spec_rlp_u8(b[i]));
    }
}

/// Append each byte of `b` as its own one-byte-integer item.
fn push_u8_items(out: &mut Vec<u8>, b: &Vec<u8>)
    ensures
        final(out)@ == old(out)@ + spec_u8_items(b@),
{
    proof {
        assert(b@.take(0) =~= Seq::<u8>::empty());
    }
    let mut i: usize = 0;
    while i < b.len()
        invariant
            i <= b@.len(),
            out@ == old(out)@ + spec_u8_items(b@.take(i as int)),
        decreases b@.len() - i,
    {
        proof {
            lemma_u8_items_snoc(b@, i as int);
        }
        push_rlp_u8(out, b[i]);
        i += 1;
    }
    proof {
        assert(b@.take(b@.len() as int) =~= b@);
    }
}

/// The integrity record encoded as a self-contained two-element list:
/// the form it takes on its own, outside a package.
pub fn encode_integrity(integrity: &PackageIntegrity) -> (r: Vec<u8>)
    ensures
        r@ == spec_integrity_inner(integrity@),
{
    let alg_bytes = text_bytes(&integrity.algorithm);
    let mut payload: Vec<u8> = Vec::new();
    push_rlp_str(&mut payload, &alg_bytes);
    push_rlp_str(&mut payload, &integrity.archive_hash);
    proof {
        assert(payload@ =~= spec_integrity_payload(integrity@));
    }
    let mut out: Vec<u8> = Vec::new();
    push_list_header(&mut out, payload.len());
    let mut payload_moved = payload;
    out.append(&mut payload_moved);
    proof {
        assert(out@ =~= spec_integrity_inner(integrity@));
    }
    out
}

/// The six data elements of a package, concatenated: the bytes whose
/// SHA-256 hash is the canonical digest.
pub fn encode_wire_data(package: &Package) -> (r: Vec<u8>)
    ensures
        r@ == spec_wire_data(package@),
{
    let mut out: Vec<u8> = Vec::new();
    let name_bytes = text_bytes(&package.name);
    push_rlp_str(&mut out, &name_bytes);
    let version_bytes = text_bytes(&package.version);
    push_rlp_str(&mut out, &version_bytes);
    push_rlp_u8(&mut out, package.status.to_byte());
    push_rlp_str(&mut out, &package.maintainer);
    let url_bytes = text_bytes(package.archive_url.as_string());
    push_rlp_str(&mut out, &url_bytes);
    let inner = encode_integrity(&package.integrity);
    let mut items: Vec<u8> = Vec::new();
    push_u8_items(&mut items, &inner);
    push_list_header(&mut out, items.len());
    let mut items_moved = items;
    out.append(&mut items_moved);
    proof {
        assert(out@ =~= spec_wire_data(package@));
    }
    out
}

// ---------------------------------------------------------------------------
// Decoding: the spec level.
// ---------------------------------------------------------------------------
/// The raw elements of a wire message, before any semantic check.
pub ghost struct WireItems {
    pub name_bytes: Seq<u8>,
    pub version_bytes: Seq<u8>,
    pub status_byte: u8,
    pub maintainer: Seq<u8>,
    pub url_bytes: Seq<u8>,
    pub alg_bytes: Seq<u8>,
    pub archive_hash: Seq<u8>,
    pub sig: Seq<u8>,
}

/// Parse the two-element integrity list from its self-contained bytes.
pub open spec fn spec_parse_integrity(inner: Seq<u8>) -> Option<(Seq<u8>, Seq<u8>)> {
    match spec_parse_list_header(inner) {
        None => None,
        Some((plen, h)) => {
            if inner.len() != h + plen {
                None
            } else {
                let q0 = inner.skip(h);
                match spec_parse_str(q0) {
                    None => None,
                    Some((alg, m1)) => {
                        let q1 = q0.skip(m1);
                        match spec_parse_str(q1) {
                            None => None,
                            Some((hash, m2)) => {
                                if q1.len() == m2 {
                                    Some((alg, hash))
                                } else {
                                    None
                                }
                            },
                        }
                    },
                }
            }
        },
    }
}

/// The first five elements of a wire message.
pub ghost struct WireHead {
    pub name_bytes: Seq<u8>,
    pub version_bytes: Seq<u8>,
    pub status_byte: u8,
    pub maintainer: Seq<u8>,
    pub url_bytes: Seq<u8>,
}

/// Parse the outer list prefix and the first five elements; yields them
/// with the offset at which the integrity element starts.
pub open spec fn spec_parse_wire_head(b: Seq<u8>) -> Option<(WireHead, int)> {
    match spec_parse_list_header(b) {
        None => None,
        Some((plen, h)) => {
            if b.len() != h + plen {
                None
            } else {
                let r0 = b.skip(h);
                match spec_parse_str(r0) {
                    None => None,
                    Some((name_bytes, n1)) => {
                        let r1 = r0.skip(n1);
                        match spec_parse_str(r1) {
                            None => None,
                            Some((version_bytes, n2)) => {
                                let r2 = r1.skip(n2);
                                match spec_parse_u8(r2) {
                                    None => None,
                                    Some((status_byte, n3)) => {
                                        let r3 = r2.skip(n3);
                                        match spec_parse_str(r3) {
                                            None => None,
                                            Some((maintainer, n4)) => {
                                                let r4 = r3.skip(n4);
                                                match spec_parse_str(r4) {
                                                    None => None,
                                                    Some((url_bytes, n5)) => {
                                                        Some(
                                                            (
                                                                WireHead {
                                                                    name_bytes,
                                                                    version_bytes,
                                                                    status_byte,
                                                                    maintainer,
                                                                    url_bytes,
                                                                },
                                                                h + n1 + n2 + n3 + n4 + n5,
                                                            ),
                                                        )
                                                    },
                                                }
                                            },
                                        }
                                    },
                                }
                            },
                        }
                    },
                }
            }
        },
    }
}

/// Parse the seven elements of a wire message. Fails on any structural
/// fault: a missing or over-long prefix, a wrong arity, trailing bytes.
pub open spec fn spec_parse_wire_items(b: Seq<u8>) -> Option<WireItems> {
    match spec_parse_wire_head(b) {
        None => None,
        Some((hd, off)) => spec_parse_wire_tail(
            b.skip(off),
            hd.name_bytes,
            hd.version_bytes,
            hd.status_byte,
            hd.maintainer,
            hd.url_bytes,
        ),
    }
}

/// Parse the integrity element and the signature, the tail of a wire
/// message.
pub open spec fn spec_parse_wire_tail(
    r5: Seq<u8>,
    name_bytes: Seq<u8>,
    version_bytes: Seq<u8>,
    status_byte: u8,
    maintainer: Seq<u8>,
    url_bytes: Seq<u8>,
) -> Option<WireItems> {
    match spec_parse_list_header(r5) {
        None => None,
        Some((ilen, h6)) => {
            if r5.len() < h6 + ilen {
                None
            } else {
                let items_bytes = r5.subrange(h6, h6 + ilen);
                match spec_parse_u8_list(items_bytes) {
                    None => None,
                    Some(inner) => match spec_parse_integrity(inner) {
                        None => None,
                        Some((alg_bytes, archive_hash)) => {
                            let r6 = r5.skip(h6 + ilen);
                            match spec_parse_str(r6) {
                                None => None,
                                Some((sig, n7)) => {
                                    if r6.len() != n7 {
                                        None
                                    } else {
                                        Some(
                                            WireItems {
                                                name_bytes,
                                                version_bytes,
                                                status_byte,
                                                maintainer,
                                                url_bytes,
                                                alg_bytes,
                                                archive_hash,
                                                sig,
                                            },
                                        )
                                    }
                                },
                            }
                        },
                    },
                }
            }
        },
    }
}

/// Semantic checks on the parsed elements, in a fixed order, each failing
/// with its own error.
pub open spec fn spec_items_to_package(it: WireItems) -> Result<PackageModel, CodecError> {
    if !valid_utf8(it.name_bytes) {
        Err(CodecError::MalformedStructure)
    } else if decode_utf8(it.name_bytes).len() == 0 {
        Err(CodecError::MalformedStructure)
    } else if !valid_utf8(it.version_bytes) {
        Err(CodecError::MalformedStructure)
    } else if decode_utf8(it.version_bytes).len() == 0 {
        Err(CodecError::MalformedStructure)
    } else if PackageStatus::spec_from_byte(it.status_byte) is None {
        Err(CodecError::UnknownStatus)
    } else if it.maintainer.len() != 32 {
        Err(CodecError::BadKeyLength)
    } else if !valid_utf8(it.url_bytes) {
        Err(CodecError::MalformedStructure)
    } else if url_parse_of(decode_utf8(it.url_bytes)) is None {
        Err(CodecError::BadUrl)
    } else if !valid_utf8(it.alg_bytes) {
        Err(CodecError::MalformedStructure)
    } else if it.sig.len() != 64 {
        Err(CodecError::BadSigLength)
    } else {
        Ok(
            PackageModel {
                name: decode_utf8(it.name_bytes),
                version: decode_utf8(it.version_bytes),
                status: PackageStatus::spec_from_byte(it.status_byte)->Some_0,
                maintainer: it.maintainer,
                archive_url: url_parse_of(decode_utf8(it.url_bytes))->Some_0,
                integrity: PackageIntegrityModel {
                    algorithm: decode_utf8(it.alg_bytes),
                    archive_hash: it.archive_hash,
                },
                sig: Some(it.sig),
            },
        )
    }
}

/// What decoding makes of arbitrary bytes: the package they spell, or the
/// error raised by the first failing check.
pub open spec fn spec_decode_wire(b: Seq<u8>) -> Result<PackageModel, CodecError> {
    match spec_parse_wire_items(b) {
        None => Err(CodecError::MalformedStructure),
        Some(it) => spec_items_to_package(it),
    }
}

// ---------------------------------------------------------------------------
// Decoding: the exec level.
// ---------------------------------------------------------------------------
/// Copy `buf[start..end]` into a fresh vector.
fn read_sub(buf: &Vec<u8>, start: usize, end: usize) -> (r: Vec<u8>)
    requires
        start <= end <= buf@.len(),
    ensures
        r@ == buf@.subrange(start as int, end as int),
{
    let mut out: Vec<u8> = Vec::new();
    let mut i: usize = start;
    while i < end
        invariant
            start <= i <= end <= buf@.len(),
            out@ == buf@.subrange(start as int, i as int),
        decreases end - i,
    {
        out.push(buf[i]);
        proof {
            assert(buf@.subrange(start as int, i as int + 1) =~= buf@.subrange(
                start as int,
                i as int,
            ).push(buf@[i as int]));
        }
        i += 1;
    }
    proof {
        assert(out@ =~= buf@.subrange(start as int, end as int));
    }
    out
}

/// Parse one one-byte integer element at `pos`.
fn parse_u8_at(buf: &Vec<u8>, pos: usize) -> (r: Option<(u8, usize)>)
    requires
        pos <= buf@.len(),
    ensures
        match r {
            Some((v, end)) => spec_parse_u8(buf@.skip(pos as int)) == Some(
                (v, end - pos as int),
            ) && pos < end <= buf@.len(),
            None => spec_parse_u8(buf@.skip(pos as int)) is None,
        },
{
    let n = buf.len();
    proof {
        assert(buf@.skip(pos as int).len() == n - pos);
    }
    if pos >= n {
        return None;
    }
    let b0 = buf[pos];
    proof {
        assert(buf@.skip(pos as int)[0] == buf@[pos as int]);
    }
    if b0 == 0x80 {
        Some((0, pos + 1))
    } else if b0 < 0x80 {
        if b0 == 0 {
            None
        } else {
            Some((b0, pos + 1))
        }
    } else if b0 == 0x81 && pos + 1 < n {
        let b1 = buf[pos + 1];
        proof {
            assert(buf@.skip(pos as int)[1] == buf@[pos as int + 1]);
        }
        if b1 >= 0x80 {
            Some((b1, pos + 2))
        } else {
            None
        }
    } else {
        None
    }
}

/// Powers of 256, for bounding big-endian accumulators.
spec fn spec_pow256(k: nat) -> nat
    decreases k,
{
    if k == 0 {
        1
    } else {
        256 * spec_pow256((k - 1) as nat)
    }
}

/// The value of big-endian bytes is below `256^len`.
proof fn lemma_be_val_bound(b: Seq<u8>)
    ensures
        spec_be_val(b) < spec_pow256(b.len() as nat),
    decreases b.len(),
{
    if b.len() == 0 {
    } else {
        let front = b.take(b.len() - 1);
        lemma_be_val_bound(front);
        assert(spec_be_val(b) == spec_be_val(front) * 256 + b.last());
        assert(spec_pow256(b.len() as nat) == 256 * spec_pow256(front.len() as nat));
        assert(spec_be_val(front) * 256 + b.last() < 256 * spec_pow256(front.len() as nat))
            by (nonlinear_arith)
            requires
                spec_be_val(front) < spec_pow256(front.len() as nat),
                b.last() < 256,
        ;
    }
}

/// `spec_pow256` of at most eight is at most `2^64`.
proof fn lemma_pow256_le8(k: nat)
    requires
        k <= 8,
    ensures
        spec_pow256(k) <= 0x10000000000000000,
{
    assert(spec_pow256(0) == 1);
    assert(spec_pow256(1) == 256);
    assert(spec_pow256(2) == 0x10000);
    assert(spec_pow256(3) == 0x1000000);
    assert(spec_pow256(4) == 0x100000000);
    assert(spec_pow256(5) == 0x10000000000);
    assert(spec_pow256(6) == 0x1000000000000);
    assert(spec_pow256(7) == 0x100000000000000);
    assert(spec_pow256(8) == 0x10000000000000000);
}

/// Read `k` big-endian bytes at `pos` into a 64-bit value.
fn read_be_val(buf: &Vec<u8>, pos: usize, k: usize) -> (r: u64)
    requires
        1 <= k <= 8,
        pos + k <= buf@.len(),
    ensures
        r as nat == spec_be_val(buf@.subrange(pos as int, pos as int + k as int)),
{
    let ghost lb = buf@.subrange(pos as int, pos as int + k as int);
    let total = buf.len();
    let mut val: u64 = 0;
    let mut j: usize = 0;
    proof {
        assert(lb.take(0) =~= Seq::<u8>::empty());
    }
    while j < k
        invariant
            j <= k <= 8,
            pos + k <= buf@.len(),
            total == buf@.len(),
            lb == buf@.subrange(pos as int, pos as int + k as int),
            val as nat == spec_be_val(lb.take(j as int)),
            (val as nat) < spec_pow256(j as nat),
        decreases k - j,
    {
        let d = buf[pos + j];
        proof {
            lemma_pow256_le8(j as nat + 1);
            assert(spec_pow256(j as nat + 1) == 256 * spec_pow256(j as nat));
            assert(val as nat * 256 + d < 256 * spec_pow256(j as nat)) by (nonlinear_arith)
                requires
                    (val as nat) < spec_pow256(j as nat),
                    d < 256,
            ;
            let t = lb.take(j as int + 1);
            assert(t.take(t.len() - 1) =~= lb.take(j as int));
            assert(t.last() == lb[j as int]);
            assert(lb[j as int] == buf@[pos as int + j as int]);
        }
        val = val * 256 + (d as u64);
        j += 1;
    }
    proof {
        assert(lb.take(k as int) =~= lb);
    }
    val
}

/// Parse one byte string element at `pos`.
fn parse_str_at(buf: &Vec<u8>, pos: usize) -> (r: Option<(Vec<u8>, usize)>)
    requires
        pos <= buf@.len(),
    ensures
        match r {
            Some((c, end)) => spec_parse_str(buf@.skip(pos as int)) == Some(
                (c@, end - pos as int),
            ) && pos < end <= buf@.len(),
            None => spec_parse_str(buf@.skip(pos as int)) is None,
        },
{
    let ghost b = buf@.skip(pos as int);
    let n = buf.len();
    proof {
        assert(b.len() == n - pos);
    }
    if pos >= n {
        return None;
    }
    let b0 = buf[pos];
    proof {
        assert(b[0] == buf@[pos as int]);
    }
    if b0 < 0x80 {
        let mut c: Vec<u8> = Vec::new();
        c.push(b0);
        proof {
            assert(c@ =~= seq![b0]);
        }
        Some((c, pos + 1))
    } else if b0 <= 0xb7 {
        let m = (b0 - 0x80) as usize;
        if n - pos < 1 + m {
            return None;
        }
        let content = read_sub(buf, pos + 1, pos + 1 + m);
        proof {
            assert(b.subrange(1, 1 + m as int) =~= buf@.subrange(
                pos as int + 1,
                pos as int + 1 + m as int,
            ));
        }
        if m == 1 && content[0] < 0x80 {
            return None;
        }
        Some((content, pos + 1 + m))
    } else if b0 <= 0xbf {
        let k = (b0 - 0xb7) as usize;
        if n - pos < 1 + k {
            return None;
        }
        proof {
            assert(b.subrange(1, 1 + k as int) =~= buf@.subrange(
                pos as int + 1,
                pos as int + 1 + k as int,
            ));
        }
        if buf[pos + 1] == 0 {
            proof {
                assert(b.subrange(1, 1 + k as int)[0] == buf@[pos as int + 1]);
            }
            return None;
        }
        proof {
            assert(b.subrange(1, 1 + k as int)[0] == buf@[pos as int + 1]);
        }
        let m64 = read_be_val(buf, pos + 1, k);
        if m64 <= 55 {
            return None;
        }
        let remaining = n - pos - 1 - k;
        if m64 > remaining as u64 {
            proof {
                assert(b.len() < 1 + k + m64);
            }
            return None;
        }
        let m = m64 as usize;
        let content = read_sub(buf, pos + 1 + k, pos + 1 + k + m);
        proof {
            assert(b.subrange(1 + k as int, 1 + k as int + m as int) =~= buf@.subrange(
                pos as int + 1 + k as int,
                pos as int + 1 + k as int + m as int,
            ));
        }
        Some((content, pos + 1 + k + m))
    } else {
        None
    }
}

/// Parse one list prefix at `pos`: payload length and the position after
/// the prefix.
fn parse_list_header_at(buf: &Vec<u8>, pos: usize) -> (r: Option<(u64, usize)>)
    requires
        pos <= buf@.len(),
    ensures
        match r {
            Some((plen, end)) => spec_parse_list_header(buf@.skip(pos as int)) == Some(
                (plen as int, end - pos as int),
            ) && pos < end <= buf@.len(),
            None => spec_parse_list_header(buf@.skip(pos as int)) is None,
        },
{
    let ghost b = buf@.skip(pos as int);
    let n = buf.len();
    proof {
        assert(b.len() == n - pos);
    }
    if pos >= n {
        return None;
    }
    let b0 = buf[pos];
    proof {
        assert(b[0] == buf@[pos as int]);
    }
    if b0 < 0xc0 {
        None
    } else if b0 <= 0xf7 {
        Some(((b0 - 0xc0) as u64, pos + 1))
    } else {
        let k = (b0 - 0xf7) as usize;
        if n - pos < 1 + k {
            return None;
        }
        proof {
            assert(b.subrange(1, 1 + k as int) =~= buf@.subrange(
                pos as int + 1,
                pos as int + 1 + k as int,
            ));
            assert(b.subrange(1, 1 + k as int)[0] == buf@[pos as int + 1]);
        }
        if buf[pos + 1] == 0 {
            return None;
        }
        let m64 = read_be_val(buf, pos + 1, k);
        if m64 <= 55 {
            return None;
        }
        Some((m64, pos + 1 + k))
    }
}

/// Parse a region of one-byte integer elements, exactly consuming it.
fn parse_u8_list_full(region: &Vec<u8>) -> (r: Option<Vec<u8>>)
    ensures
        match r {
            Some(v) => spec_parse_u8_list(region@) == Some(v@),
            None => spec_parse_u8_list(region@) is None,
        },
{
    let mut out: Vec<u8> = Vec::new();
    let mut pos: usize = 0;
    proof {
        assert(region@.skip(0) =~= region@);
    }
    while pos < region.len()
        invariant
            pos <= region@.len(),
            spec_parse_u8_list(region@) matches Some(v) ==> (out@.len() <= v.len() && v.take(
                out@.len() as int,
            ) == out@ && spec_parse_u8_list(region@.skip(pos as int)) == Some(
                v.skip(out@.len() as int),
            )),
            spec_parse_u8_list(region@.skip(pos as int)) is Some ==> spec_parse_u8_list(region@)
                is Some,
        decreases region@.len() - pos,
    {
        let step = parse_u8_at(region, pos);
        match step {
            Some((v, end)) => {
                proof {
                    let rem = region@.skip(pos as int);
                    let n = end - pos as int;
                    assert(rem.skip(n) =~= region@.skip(end as int));
                    if spec_parse_u8_list(region@) is Some {
                        let full = spec_parse_u8_list(region@)->Some_0;
                        let done = out@.len() as int;
                        let tail = full.skip(done);
                        assert(spec_parse_u8_list(rem) == Some(tail));
                        assert(rem.len() > 0);
                        let rest = spec_parse_u8_list(rem.skip(n))->Some_0;
                        assert(tail == seq![v] + rest);
                        assert(tail.len() >= 1);
                        assert(full.len() >= done + 1);
                        assert(full[done] == tail[0]);
                        assert(full[done] == v);
                        assert(full.take(done + 1) =~= full.take(done) + seq![v]);
                        assert(full.skip(done + 1) =~= tail.skip(1));
                        assert(tail.skip(1) =~= rest);
                    } else {
                        if spec_parse_u8_list(region@.skip(end as int)) is Some {
                            assert(spec_parse_u8_list(rem) is Some);
                            assert(false);
                        }
                    }
                }
                out.push(v);
            },
            None => {
                proof {
                    let rem = region@.skip(pos as int);
                    assert(rem.len() > 0);
                    assert(spec_parse_u8_list(rem) is None);
                    if spec_parse_u8_list(region@) is Some {
                        assert(false);
                    }
                }
                return None;
            },
        }
        let end = match step {
            Some((_, e)) => e,
            None => vstd::pervasive::unreached(),
        };
        pos = end;
    }
    proof {
        assert(region@.skip(pos as int) =~= Seq::<u8>::empty());
        assert(spec_parse_u8_list(Seq::<u8>::empty()) == Some(Seq::<u8>::empty()));
        let full = spec_parse_u8_list(region@)->Some_0;
        assert(full.skip(out@.len() as int).len() == 0);
        assert(full.take(out@.len() as int) =~= full);
    }
    Some(out)
}

/// The raw elements of a wire message, as exec data.
struct WireItemsExec {
    name_bytes: Vec<u8>,
    version_bytes: Vec<u8>,
    status_byte: u8,
    maintainer: Vec<u8>,
    url_bytes: Vec<u8>,
    alg_bytes: Vec<u8>,
    archive_hash: Vec<u8>,
    sig: Vec<u8>,
}

impl View for WireItemsExec {
    type V = WireItems;

    closed spec fn view(&self) -> WireItems {
        WireItems {
            name_bytes: self.name_bytes@,
            version_bytes: self.version_bytes@,
            status_byte: self.status_byte,
            maintainer: self.maintainer@,
            url_bytes: self.url_bytes@,
            alg_bytes: self.alg_bytes@,
            archive_hash: self.archive_hash@,
            sig: self.sig@,
        }
    }
}

/// Parse the two-element integrity list from its self-contained bytes.
fn parse_integrity_full(inner: &Vec<u8>) -> (r: Option<(Vec<u8>, Vec<u8>)>)
    ensures
        match r {
            Some((alg, hash)) => spec_parse_integrity(inner@) == Some((alg@, hash@)),
            None => spec_parse_integrity(inner@) is None,
        },
{
    proof {
        assert(inner@.skip(0) =~= inner@);
    }
    let inner_len = inner.len();
    let iih = parse_list_header_at(inner, 0);
    let (iplen, ih2) = match iih {
        Some(x) => x,
        None => {
            return None;
        },
    };
    if ((inner_len - ih2) as u64) != iplen {
        return None;
    }
    let a1 = parse_str_at(inner, ih2);
    let (alg_bytes, q1) = match a1 {
        Some(x) => x,
        None => {
            return None;
        },
    };
    proof {
        assert(inner@.skip(ih2 as int).skip(q1 - ih2 as int) =~= inner@.skip(q1 as int));
    }
    let a2 = parse_str_at(inner, q1);
    let (hash_bytes, q2) = match a2 {
        Some(x) => x,
        None => {
            return None;
        },
    };
    if q2 != inner_len {
        return None;
    }
    Some((alg_bytes, hash_bytes))
}

/// The first five elements of a wire message, as exec data.
struct WireHeadExec {
    name_bytes: Vec<u8>,
    version_bytes: Vec<u8>,
    status_byte: u8,
    maintainer: Vec<u8>,
    url_bytes: Vec<u8>,
}

impl View for WireHeadExec {
    type V = WireHead;

    closed spec fn view(&self) -> WireHead {
        WireHead {
            name_bytes: self.name_bytes@,
            version_bytes: self.version_bytes@,
            status_byte: self.status_byte,
            maintainer: self.maintainer@,
            url_bytes: self.url_bytes@,
        }
    }
}

/// Parse the outer list prefix and the first five elements.
#[verifier::rlimit(100)]
fn parse_wire_head(buf: &Vec<u8>) -> (r: Option<(WireHeadExec, usize)>)
    ensures
        match r {
            Some((hd, pos5)) => spec_parse_wire_head(buf@) == Some((hd@, pos5 as int)) && pos5
                <= buf@.len(),
            None => spec_parse_wire_head(buf@) is None,
        },
{
    let n = buf.len();
    proof {
        assert(buf@.skip(0) =~= buf@);
    }
    let hdr = parse_list_header_at(buf, 0);
    let (plen, pos0) = match hdr {
        Some(x) => x,
        None => {
            return None;
        },
    };
    if ((n - pos0) as u64) != plen {
        return None;
    }
    let ghost r0 = buf@.skip(pos0 as int);
    let s1 = parse_str_at(buf, pos0);
    let (name_bytes, pos1) = match s1 {
        Some(x) => x,
        None => {
            return None;
        },
    };
    proof {
        assert(r0.skip(pos1 - pos0 as int) =~= buf@.skip(pos1 as int));
    }
    let s2 = parse_str_at(buf, pos1);
    let (version_bytes, pos2) = match s2 {
        Some(x) => x,
        None => {
            return None;
        },
    };
    proof {
        assert(buf@.skip(pos1 as int).skip(pos2 - pos1 as int) =~= buf@.skip(pos2 as int));
    }
    let s3 = parse_u8_at(buf, pos2);
    let (status_byte, pos3) = match s3 {
        Some(x) => x,
        None => {
            return None;
        },
    };
    proof {
        assert(buf@.skip(pos2 as int).skip(pos3 - pos2 as int) =~= buf@.skip(pos3 as int));
    }
    let s4 = parse_str_at(buf, pos3);
    let (maintainer, pos4) = match s4 {
        Some(x) => x,
        None => {
            return None;
        },
    };
    proof {
        assert(buf@.skip(pos3 as int).skip(pos4 - pos3 as int) =~= buf@.skip(pos4 as int));
    }
    let s5 = parse_str_at(buf, pos4);
    let (url_bytes, pos5) = match s5 {
        Some(x) => x,
        None => {
            return None;
        },
    };
    Some((WireHeadExec { name_bytes, version_bytes, status_byte, maintainer, url_bytes }, pos5))
}

/// What decoding a self-contained integrity record makes of arbitrary
/// bytes: the record, or the error of the first failing check.
pub open spec fn spec_decode_integrity(b: Seq<u8>) -> Result<PackageIntegrityModel, CodecError> {
    match spec_parse_integrity(b) {
        None => Err(CodecError::MalformedStructure),
        Some((alg_bytes, archive_hash)) => if !valid_utf8(alg_bytes) {
            Err(CodecError::MalformedStructure)
        } else {
            Ok(
                PackageIntegrityModel {
                    algorithm: decode_utf8(alg_bytes),
                    archive_hash: archive_hash,
                },
            )
        },
    }
}

impl crate::package_integrity::PackageIntegrityBuilder {
    /// Parse a self-contained integrity record and populate a builder
    /// with its fields.
    pub fn from_rlp(raw_package_integrity: &Vec<u8>) -> (r: Result<
        crate::package_integrity::PackageIntegrityBuilder,
        CodecError,
    >)
        ensures
            match r {
                Ok(b) => ({
                    &&& spec_decode_integrity(raw_package_integrity@) matches Ok(m)
                    &&& b.algorithm matches Some(a) && a@ == m.algorithm
                    &&& b.archive_hash matches Some(h) && h@ == m.archive_hash
                }),
                Err(e) => spec_decode_integrity(raw_package_integrity@) == Err::<
                    PackageIntegrityModel,
                    CodecError,
                >(e),
            },
    {
        let parts = match parse_integrity_full(raw_package_integrity) {
            Some(x) => x,
            None => {
                return Err(CodecError::MalformedStructure);
            },
        };
        let (alg_bytes, archive_hash) = parts;
        let algorithm = match text_from_bytes(alg_bytes) {
            Some(s) => s,
            None => {
                return Err(CodecError::MalformedStructure);
            },
        };
        Ok(
            crate::package_integrity::PackageIntegrityBuilder {
                algorithm: Some(algorithm),
                archive_hash: Some(archive_hash),
            },
        )
    }
}

/// Decoding an encoded integrity record gives it back.
pub proof fn lemma_integrity_round_trip(m: PackageIntegrityModel)
    requires
        encode_utf8(m.algorithm).len() < 0x1000000000000,
        m.archive_hash.len() < 0x1000000000000,
    ensures
        spec_decode_integrity(spec_integrity_inner(m)) == Ok::<PackageIntegrityModel, CodecError>(
            m,
        ),
{
    let ip = spec_integrity_payload(m);
    let inner = spec_integrity_inner(m);
    lemma_rlp_str_len(encode_utf8(m.algorithm));
    lemma_rlp_str_len(m.archive_hash);
    lemma_header_step(ip.len() as nat, ip);
    let hh = spec_rlp_list_header(ip.len() as nat).len() as int;
    assert(spec_parse_list_header(inner) == Some((ip.len() as int, hh)));
    assert(inner.len() == hh + ip.len());
    let q0 = inner.skip(hh);
    assert(q0 == ip);
    let ea = spec_rlp_str(encode_utf8(m.algorithm));
    let eh = spec_rlp_str(m.archive_hash);
    lemma_str_step(encode_utf8(m.algorithm), eh);
    let q1 = q0.skip(ea.len() as int);
    assert(q1 == eh);
    assert(eh =~= eh + Seq::<u8>::empty());
    lemma_str_step(m.archive_hash, Seq::<u8>::empty());
    assert(spec_parse_integrity(inner) == Some((encode_utf8(m.algorithm), m.archive_hash)));
    crate::text::lemma_text_round_trip(m.algorithm);
}

/// Parse the seven elements of a wire message.
#[verifier::rlimit(100)]
fn parse_wire_items(buf: &Vec<u8>) -> (r: Option<WireItemsExec>)
    ensures
        match r {
            Some(it) => spec_parse_wire_items(buf@) == Some(it@),
            None => spec_parse_wire_items(buf@) is None,
        },
{
    let n = buf.len();
    let head = parse_wire_head(buf);
    let (hd, pos5) = match head {
        Some(x) => x,
        None => {
            return None;
        },
    };
    let WireHeadExec { name_bytes, version_bytes, status_byte, maintainer, url_bytes } = hd;
    let ghost r5 = buf@.skip(pos5 as int);
    let ih = parse_list_header_at(buf, pos5);
    let (ilen, pos5h) = match ih {
        Some(x) => x,
        None => {
            return None;
        },
    };
    if ilen > ((n - pos5h) as u64) {
        proof {
            assert(r5.len() < (pos5h - pos5 as int) + ilen);
        }
        return None;
    }
    let ilen_us = ilen as usize;
    let items_bytes = read_sub(buf, pos5h, pos5h + ilen_us);
    proof {
        assert(r5.subrange(pos5h - pos5 as int, pos5h - pos5 as int + ilen as int) =~= buf@
            .subrange(pos5h as int, pos5h as int + ilen as int));
    }
    let inner = match parse_u8_list_full(&items_bytes) {
        Some(x) => x,
        None => {
            return None;
        },
    };
    let integrity_parts = match parse_integrity_full(&inner) {
        Some(x) => x,
        None => {
            return None;
        },
    };
    let (alg_bytes, hash_bytes) = integrity_parts;
    let pos6 = pos5h + ilen_us;
    proof {
        assert(r5.skip(pos6 - pos5 as int) =~= buf@.skip(pos6 as int));
    }
    let s7 = parse_str_at(buf, pos6);
    let (sig_bytes, pos7) = match s7 {
        Some(x) => x,
        None => {
            return None;
        },
    };
    if pos7 != n {
        return None;
    }
    Some(
        WireItemsExec {
            name_bytes,
            version_bytes,
            status_byte,
            maintainer,
            url_bytes,
            alg_bytes,
            archive_hash: hash_bytes,
            sig: sig_bytes,
        },
    )
}

/// Apply the semantic checks of [`spec_items_to_package`] and build the
/// package.
fn items_to_package(items: WireItemsExec) -> (r: Result<Package, CodecError>)
    ensures
        match r {
            Ok(p) => spec_items_to_package(items@) == Ok::<PackageModel, CodecError>(p@) && p@.wf()
                && p@.sig is Some,
            Err(e) => spec_items_to_package(items@) == Err::<PackageModel, CodecError>(e),
        },
{
    let ghost it = items@;
    let WireItemsExec {
        name_bytes,
        version_bytes,
        status_byte,
        maintainer,
        url_bytes,
        alg_bytes,
        archive_hash,
        sig,
    } = items;
    let name_s = match text_from_bytes(name_bytes) {
        Some(s) => s,
        None => {
            return Err(CodecError::MalformedStructure);
        },
    };
    if name_s.as_str().unicode_len() == 0 {
        return Err(CodecError::MalformedStructure);
    }
    let version_s = match text_from_bytes(version_bytes) {
        Some(s) => s,
        None => {
            return Err(CodecError::MalformedStructure);
        },
    };
    if version_s.as_str().unicode_len() == 0 {
        return Err(CodecError::MalformedStructure);
    }
    let status = match PackageStatus::try_from(status_byte) {
        Ok(s) => s,
        Err(e) => {
            return Err(e);
        },
    };
    if maintainer.len() != 32 {
        return Err(CodecError::BadKeyLength);
    }
    let url_s = match text_from_bytes(url_bytes) {
        Some(s) => s,
        None => {
            return Err(CodecError::MalformedStructure);
        },
    };
    let archive_url = match ArchiveUrl::parse(&url_s) {
        Ok(u) => u,
        Err(e) => {
            return Err(e);
        },
    };
    let alg_s = match text_from_bytes(alg_bytes) {
        Some(s) => s,
        None => {
            return Err(CodecError::MalformedStructure);
        },
    };
    if sig.len() != 64 {
        return Err(CodecError::BadSigLength);
    }
    let package = Package {
        name: name_s,
        version: version_s,
        status,
        maintainer,
        archive_url,
        integrity: PackageIntegrity { algorithm: alg_s, archive_hash },
        sig: Some(sig),
    };
    Ok(package)
}

/// Decode a wire message into a package. Succeeds exactly on the bytes
/// that [`encode_wire`] emits for some well-formed signed package, and
/// yields that package; each failing check raises its own error.
pub fn decode_wire(buf: &Vec<u8>) -> (r: Result<Package, CodecError>)
    ensures
        match r {
            Ok(p) => spec_decode_wire(buf@) == Ok::<PackageModel, CodecError>(p@) && p@.wf()
                && p@.sig is Some,
            Err(e) => spec_decode_wire(buf@) == Err::<PackageModel, CodecError>(e),
        },
{
    let items = match parse_wire_items(buf) {
        Some(it) => it,
        None => {
            return Err(CodecError::MalformedStructure);
        },
    };
    items_to_package(items)
}

// ---------------------------------------------------------------------------
// The round trip.
// ---------------------------------------------------------------------------
/// Whether a package is small enough to encode: each variable-length field
/// stays below `2^48` bytes, far beyond anything a ledger carries.
pub open spec fn spec_wire_sized(p: PackageModel) -> bool {
    &&& encode_utf8(p.name).len() < 0x1000000000000
    &&& encode_utf8(p.version).len() < 0x1000000000000
    &&& p.maintainer.len() < 0x1000000000000
    &&& encode_utf8(p.archive_url).len() < 0x1000000000000
    &&& encode_utf8(p.integrity.algorithm).len() < 0x1000000000000
    &&& p.integrity.archive_hash.len() < 0x1000000000000
}

/// Encoded byte strings add at most nine prefix bytes.
proof fn lemma_rlp_str_len(c: Seq<u8>)
    requires
        c.len() < 0x10000000000000000,
    ensures
        1 <= spec_rlp_str(c).len() <= 9 + c.len(),
{
    lemma_be_bytes_len8(c.len() as nat);
}

/// List prefixes are at most nine bytes.
proof fn lemma_list_header_len(n: nat)
    requires
        n < 0x10000000000000000,
    ensures
        1 <= spec_rlp_list_header(n).len() <= 9,
{
    lemma_be_bytes_len8(n);
}

/// Writing bytes as one-byte items at most doubles the length.
proof fn lemma_u8_items_len(b: Seq<u8>)
    ensures
        spec_u8_items(b).len() <= 2 * b.len(),
    decreases b.len(),
{
    if b.len() > 0 {
        lemma_u8_items_len(b.drop_first());
    }
}

/// Concatenation of byte sequences is associative.
proof fn lemma_add_assoc(a: Seq<u8>, b: Seq<u8>, c: Seq<u8>)
    ensures
        (a + b) + c == a + (b + c),
{
    assert((a + b) + c =~= a + (b + c));
}

/// Two skips in a row skip the sum.
proof fn lemma_skip_skip(s: Seq<u8>, i: int, j: int)
    requires
        0 <= i,
        0 <= j,
        i + j <= s.len(),
    ensures
        s.skip(i).skip(j) == s.skip(i + j),
{
    assert(s.skip(i).skip(j) =~= s.skip(i + j));
}

/// One parsing step over an encoded byte string: content, consumed
/// length, and the rest.
proof fn lemma_str_step(c: Seq<u8>, t: Seq<u8>)
    requires
        c.len() < 0x10000000000000000,
    ensures
        spec_parse_str(spec_rlp_str(c) + t) == Some((c, spec_rlp_str(c).len() as int)),
        (spec_rlp_str(c) + t).skip(spec_rlp_str(c).len() as int) == t,
{
    lemma_parse_str_complete(c, t);
    assert((spec_rlp_str(c) + t).skip(spec_rlp_str(c).len() as int) =~= t);
}

/// One parsing step over an encoded one-byte integer.
proof fn lemma_u8_step(v: u8, t: Seq<u8>)
    ensures
        spec_parse_u8(spec_rlp_u8(v) + t) == Some((v, spec_rlp_u8(v).len() as int)),
        (spec_rlp_u8(v) + t).skip(spec_rlp_u8(v).len() as int) == t,
{
    lemma_parse_u8_complete(v, t);
    assert((spec_rlp_u8(v) + t).skip(spec_rlp_u8(v).len() as int) =~= t);
}

/// One parsing step over a list prefix.
proof fn lemma_header_step(n: nat, t: Seq<u8>)
    requires
        n < 0x10000000000000000,
    ensures
        spec_parse_list_header(spec_rlp_list_header(n) + t) == Some(
            (n as int, spec_rlp_list_header(n).len() as int),
        ),
        (spec_rlp_list_header(n) + t).skip(spec_rlp_list_header(n).len() as int) == t,
{
    lemma_parse_list_header_complete(n, t);
    assert((spec_rlp_list_header(n) + t).skip(spec_rlp_list_header(n).len() as int) =~= t);
}

/// Structural round trip, first half: parsing the encoded message finds
/// the first five elements and leaves the integrity and signature bytes.
#[verifier::rlimit(100)]
proof fn lemma_wire_head_round_trip(p: PackageModel)
    requires
        p.sig is Some,
        p.sig->Some_0.len() < 0x1000000000000,
        spec_wire_sized(p),
    ensures
        ({
            let b = spec_wire_bytes(p);
            &&& spec_parse_wire_head(b) matches Some((hd, off))
            &&& spec_parse_wire_head(b)->Some_0.0 == (WireHead {
                name_bytes: encode_utf8(p.name),
                version_bytes: encode_utf8(p.version),
                status_byte: p.status.spec_byte(),
                maintainer: p.maintainer,
                url_bytes: encode_utf8(p.archive_url),
            })
            &&& b.skip(spec_parse_wire_head(b)->Some_0.1) == spec_integrity_wire(p.integrity)
                + spec_rlp_str(p.sig->Some_0)
        }),
{
    let sig = p.sig->Some_0;
    let e1 = spec_rlp_str(encode_utf8(p.name));
    let e2 = spec_rlp_str(encode_utf8(p.version));
    let e3 = spec_rlp_u8(p.status.spec_byte());
    let e4 = spec_rlp_str(p.maintainer);
    let e5 = spec_rlp_str(encode_utf8(p.archive_url));
    let e6 = spec_integrity_wire(p.integrity);
    let e7 = spec_rlp_str(sig);
    let ip = spec_integrity_payload(p.integrity);
    let inner = spec_integrity_inner(p.integrity);
    let items = spec_u8_items(inner);
    lemma_rlp_str_len(encode_utf8(p.name));
    lemma_rlp_str_len(encode_utf8(p.version));
    lemma_rlp_str_len(p.maintainer);
    lemma_rlp_str_len(encode_utf8(p.archive_url));
    lemma_rlp_str_len(encode_utf8(p.integrity.algorithm));
    lemma_rlp_str_len(p.integrity.archive_hash);
    lemma_rlp_str_len(sig);
    lemma_list_header_len(ip.len() as nat);
    lemma_u8_items_len(inner);
    lemma_list_header_len(items.len() as nat);
    let payload = spec_wire_data(p) + e7;
    let b = spec_wire_bytes(p);
    assert(payload.len() < 0x10000000000000000);
    // Re-associate the payload to the right, one element at a time.
    let tail5 = e6 + e7;
    let tail4 = e5 + tail5;
    let tail3 = e4 + tail4;
    let tail2 = e3 + tail3;
    let tail1 = e2 + tail2;
    let tail0 = e1 + tail1;
    assert(payload == tail0) by {
        lemma_add_assoc(e1 + e2 + e3 + e4 + e5, e6, e7);
        lemma_add_assoc(e1 + e2 + e3 + e4, e5, tail5);
        lemma_add_assoc(e1 + e2 + e3, e4, tail4);
        lemma_add_assoc(e1 + e2, e3, tail3);
        lemma_add_assoc(e1, e2, tail2);
    }
    // The outer list prefix.
    lemma_header_step(payload.len() as nat, payload);
    let h = spec_rlp_list_header(payload.len() as nat).len() as int;
    let r0 = b.skip(h);
    assert(r0 == payload);
    // The five elements, one step each.
    lemma_str_step(encode_utf8(p.name), tail1);
    let r1 = r0.skip(e1.len() as int);
    assert(r1 == tail1);
    lemma_str_step(encode_utf8(p.version), tail2);
    let r2 = r1.skip(e2.len() as int);
    assert(r2 == tail2);
    lemma_u8_step(p.status.spec_byte(), tail3);
    let r3 = r2.skip(e3.len() as int);
    assert(r3 == tail3);
    lemma_str_step(p.maintainer, tail4);
    let r4 = r3.skip(e4.len() as int);
    assert(r4 == tail4);
    lemma_str_step(encode_utf8(p.archive_url), tail5);
    let r5 = r4.skip(e5.len() as int);
    assert(r5 == tail5);
    assert(spec_parse_wire_head(b) == Some(
        (
            WireHead {
                name_bytes: encode_utf8(p.name),
                version_bytes: encode_utf8(p.version),
                status_byte: p.status.spec_byte(),
                maintainer: p.maintainer,
                url_bytes: encode_utf8(p.archive_url),
            },
            h + e1.len() + e2.len() + e3.len() + e4.len() + e5.len(),
        ),
    ));
    assert(b.skip(h + e1.len() + e2.len() + e3.len() + e4.len() + e5.len()) == r5) by {
        lemma_skip_skip(b, h, e1.len() as int);
        lemma_skip_skip(b, h + e1.len(), e2.len() as int);
        lemma_skip_skip(b, h + e1.len() + e2.len(), e3.len() as int);
        lemma_skip_skip(b, h + e1.len() + e2.len() + e3.len(), e4.len() as int);
        lemma_skip_skip(b, h + e1.len() + e2.len() + e3.len() + e4.len(), e5.len() as int);
    }
    assert(r5 == tail5);
}

/// Structural round trip, second half: the integrity and signature bytes
/// parse back to the raw integrity parts and the signature.
#[verifier::rlimit(100)]
proof fn lemma_wire_tail_round_trip(p: PackageModel)
    requires
        p.sig is Some,
        p.sig->Some_0.len() < 0x1000000000000,
        spec_wire_sized(p),
    ensures
        spec_parse_wire_tail(
            spec_integrity_wire(p.integrity) + spec_rlp_str(p.sig->Some_0),
            encode_utf8(p.name),
            encode_utf8(p.version),
            p.status.spec_byte(),
            p.maintainer,
            encode_utf8(p.archive_url),
        ) == Some(
            WireItems {
                name_bytes: encode_utf8(p.name),
                version_bytes: encode_utf8(p.version),
                status_byte: p.status.spec_byte(),
                maintainer: p.maintainer,
                url_bytes: encode_utf8(p.archive_url),
                alg_bytes: encode_utf8(p.integrity.algorithm),
                archive_hash: p.integrity.archive_hash,
                sig: p.sig->Some_0,
            },
        ),
{
    let sig = p.sig->Some_0;
    let e6 = spec_integrity_wire(p.integrity);
    let e7 = spec_rlp_str(sig);
    let ip = spec_integrity_payload(p.integrity);
    let inner = spec_integrity_inner(p.integrity);
    let items = spec_u8_items(inner);
    lemma_rlp_str_len(encode_utf8(p.integrity.algorithm));
    lemma_rlp_str_len(p.integrity.archive_hash);
    lemma_rlp_str_len(sig);
    lemma_list_header_len(ip.len() as nat);
    lemma_u8_items_len(inner);
    lemma_list_header_len(items.len() as nat);
    let r5 = e6 + e7;
    // Element six: the integrity list of one-byte items.
    assert(r5 =~= spec_rlp_list_header(items.len() as nat) + (items + e7));
    lemma_header_step(items.len() as nat, items + e7);
    let h6 = spec_rlp_list_header(items.len() as nat).len() as int;
    assert(spec_parse_list_header(r5) == Some((items.len() as int, h6)));
    assert(r5.len() >= h6 + items.len());
    assert(r5.subrange(h6, h6 + items.len() as int) =~= items);
    lemma_parse_u8_list_complete(inner);
    assert(spec_parse_u8_list(items) == Some(inner));
    // Inside the integrity element: a two-element list.
    lemma_header_step(ip.len() as nat, ip);
    let hh = spec_rlp_list_header(ip.len() as nat).len() as int;
    assert(spec_parse_list_header(inner) == Some((ip.len() as int, hh)));
    assert(inner.len() == hh + ip.len());
    let q0 = inner.skip(hh);
    assert(q0 == ip);
    let ea = spec_rlp_str(encode_utf8(p.integrity.algorithm));
    let eh = spec_rlp_str(p.integrity.archive_hash);
    lemma_str_step(encode_utf8(p.integrity.algorithm), eh);
    let q1 = q0.skip(ea.len() as int);
    assert(q1 == eh);
    assert(eh =~= eh + Seq::<u8>::empty());
    lemma_str_step(p.integrity.archive_hash, Seq::<u8>::empty());
    assert(spec_parse_integrity(inner) == Some(
        (encode_utf8(p.integrity.algorithm), p.integrity.archive_hash),
    ));
    // Element seven: the signature.
    let r6 = r5.skip(h6 + items.len() as int);
    assert(r6 =~= e7);
    assert(e7 =~= e7 + Seq::<u8>::empty());
    lemma_str_step(sig, Seq::<u8>::empty());
    assert(spec_parse_str(r6) == Some((sig, e7.len() as int)));
    assert(r6.len() == e7.len());
}

/// Structural round trip: parsing an encoded wire message recovers the
/// raw elements that were encoded.
proof fn lemma_wire_items_round_trip(p: PackageModel)
    requires
        p.sig is Some,
        p.sig->Some_0.len() < 0x1000000000000,
        spec_wire_sized(p),
    ensures
        spec_parse_wire_items(spec_wire_bytes(p)) == Some(
            WireItems {
                name_bytes: encode_utf8(p.name),
                version_bytes: encode_utf8(p.version),
                status_byte: p.status.spec_byte(),
                maintainer: p.maintainer,
                url_bytes: encode_utf8(p.archive_url),
                alg_bytes: encode_utf8(p.integrity.algorithm),
                archive_hash: p.integrity.archive_hash,
                sig: p.sig->Some_0,
            },
        ),
{
    lemma_wire_head_round_trip(p);
    lemma_wire_tail_round_trip(p);
}

/// Decoding an encoded wire message gives back the package: the wire
/// codec loses nothing on well-formed signed packages.
pub proof fn lemma_wire_round_trip(p: PackageModel)
    requires
        p.wf(),
        p.sig is Some,
        spec_wire_sized(p),
    ensures
        spec_decode_wire(spec_wire_bytes(p)) == Ok::<PackageModel, CodecError>(p),
{
    lemma_wire_items_round_trip(p);
    let it = spec_parse_wire_items(spec_wire_bytes(p))->Some_0;
    crate::text::lemma_text_round_trip(p.name);
    crate::text::lemma_text_round_trip(p.version);
    crate::text::lemma_text_round_trip(p.archive_url);
    crate::text::lemma_text_round_trip(p.integrity.algorithm);
    crate::package_status::lemma_status_byte_round_trip(p.status);
    crate::archive_url::lemma_normalized_parse(p.archive_url);
    let m = spec_items_to_package(it)->Ok_0;
    assert(m == p);
}

impl PackageBuilder {
    /// Parse a wire message and populate a builder with the package's
    /// fields; the signature from the wire is attached.
    pub fn from_rlp(raw_package: &Vec<u8>) -> (r: Result<PackageBuilder, CodecError>)
        ensures
            match r {
                Ok(b) => ({
                    &&& spec_decode_wire(raw_package@) matches Ok(m)
                    &&& b.complete()
                    &&& b.spec_package() == m
                }),
                Err(e) => spec_decode_wire(raw_package@) == Err::<PackageModel, CodecError>(e),
            },
    {
        let package = match decode_wire(raw_package) {
            Ok(p) => p,
            Err(e) => {
                return Err(e);
            },
        };
        let instance = PackageBuilder {
            name: Some(package.name),
            version: Some(package.version),
            status: Some(package.status),
            maintainer: Some(package.maintainer),
            archive_url: Some(package.archive_url),
            integrity: Some(package.integrity),
            sig: match package.sig {
                Some(s) => Some(s),
                None => None,
            },
        };
        Ok(instance)
    }
}

/// Encode a signed package for the ledger. A package without a signature
/// is never emitted: encoding it fails with `MissingSignature`.
pub fn encode_wire(package: &Package) -> (r: Result<Vec<u8>, CodecError>)
    ensures
        match r {
            Ok(bytes) => package@.sig is Some && bytes@ == spec_wire_bytes(package@),
            Err(e) => package@.sig is None && e == CodecError::MissingSignature,
        },
{
    let sig = match &package.sig {
        Some(s) => s,
        None => {
            return Err(CodecError::MissingSignature);
        },
    };
    let mut payload = encode_wire_data(package);
    push_rlp_str(&mut payload, sig);
    let mut out: Vec<u8> = Vec::new();
    push_list_header(&mut out, payload.len());
    let mut payload_moved = payload;
    out.append(&mut payload_moved);
    proof {
        assert(out@ =~= spec_wire_bytes(package@));
    }
    Ok(out)
}

} // verus!
