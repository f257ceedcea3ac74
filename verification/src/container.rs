//! The layout of an encrypted file before its final compression and base64
//! encoding. Both levels end in a level marker computed from the greatest
//! common divisor of the first two bytes:
//!
//! - medium: `body ++ sealed_key ++ le16(g + len(sealed_key)) ++ le16(g + 1)`,
//!   where `body` is the symmetrically encrypted compressed data and
//!   `sealed_key` the sealed box of the symmetric key and IV;
//! - high: `body ++ le16(g + 2)`, where `body` is the sealed box of the
//!   compressed data.
//!
//! Reading takes the last two bytes as a big-endian `u16` and subtracts `g`
//! to find the level; for the medium level the two bytes before give the
//! length of the sealed key in the same way.
use vstd::prelude::*;

verus! {

/// Greatest common divisor (with `gcd(a, 0) == a`).
pub open spec fn gcd(a: nat, b: nat) -> nat
    decreases b,
{
    if b == 0 {
        a
    } else {
        gcd(b, a % b)
    }
}

/// The greatest common divisor is at most the larger argument.
pub proof fn lemma_gcd_bound(a: nat, b: nat)
    ensures
        gcd(a, b) <= if a <= b { b } else { a },
    decreases b,
{
    if b != 0 {
        lemma_gcd_bound(b, a % b);
    }
}

/// `num::Integer::gcd` on two bytes. Claimed: the greatest common divisor,
/// with `gcd(a, 0) == a` (the source returns `a | b` when either is zero).
#[verifier::external_body]
fn byte_gcd(a: u8, b: u8) -> (r: u8)
    ensures
        r == gcd(a as nat, b as nat),
{
    num::Integer::gcd(&a, &b)
}

/// The level-marker base of a byte string: the gcd of its first two bytes.
pub open spec fn marker_base(s: Seq<u8>) -> nat {
    gcd(s[0] as nat, s[1] as nat)
}

/// `d` times `k`.
pub open spec fn times(d: nat, k: nat) -> nat {
    d * k
}

/// Whether `d` divides `a`: `a` is a multiple of `d`.
pub open spec fn divides(d: nat, a: nat) -> bool {
    exists|k: nat| #[trigger] times(d, k) == a
}

/// The greatest common divisor divides both its arguments.
pub proof fn lemma_gcd_divides(a: nat, b: nat)
    ensures
        divides(gcd(a, b), a),
        divides(gcd(a, b), b),
    decreases b,
{
    if b == 0 {
        assert(times(a, 1) == a);
        assert(times(a, 0) == 0);
    } else {
        let r = a % b;
        let q = a / b;
        lemma_gcd_divides(b, r);
        let g = gcd(b, r);
        let k1 = choose|k: nat| #[trigger] times(g, k) == b;
        let k2 = choose|k: nat| #[trigger] times(g, k) == r;
        assert(a == b * q + r) by (nonlinear_arith)
            requires
                b > 0,
                q == a / b,
                r == a % b,
        ;
        assert(q >= 0) by (nonlinear_arith)
            requires
                b > 0,
                q == a / b,
                a >= 0,
        ;
        let k: nat = (k1 * q + k2) as nat;
        assert(times(g, k) == a) by (nonlinear_arith)
            requires
                a == b * q + r,
                b == g * k1,
                r == g * k2,
                k == k1 * q + k2,
        ;
        assert(times(g, k1) == b);
    }
}

/// Every common divisor of two numbers divides their greatest common
/// divisor.
pub proof fn lemma_common_divisor_divides_gcd(d: nat, a: nat, b: nat)
    requires
        divides(d, a),
        divides(d, b),
    ensures
        divides(d, gcd(a, b)),
    decreases b,
{
    if b != 0 {
        let r = a % b;
        let q = a / b;
        let x = choose|k: nat| #[trigger] times(d, k) == a;
        let y = choose|k: nat| #[trigger] times(d, k) == b;
        assert(a == b * q + r && q >= 0 && 0 <= r < b) by (nonlinear_arith)
            requires
                b > 0,
                q == a / b,
                r == a % b,
                a >= 0,
        ;
        assert(d > 0) by (nonlinear_arith)
            requires
                b == d * y,
                b > 0,
        ;
        assert(x - y * q >= 0 && r == d * (x - y * q)) by (nonlinear_arith)
            requires
                a == d * x,
                b == d * y,
                a == b * q + r,
                r >= 0,
                d > 0,
        ;
        let z: nat = (x - y * q) as nat;
        assert(times(d, z) == r);
        lemma_common_divisor_divides_gcd(d, b, r);
    }
}

/// The marker base of a container whose first two bytes are `a` and `b` is
/// their greatest common divisor: it divides both, and every common divisor
/// of `a` and `b` divides it.
pub proof fn lemma_marker_base_is_gcd(s: Seq<u8>)
    requires
        s.len() >= 2,
    ensures
        divides(marker_base(s), s[0] as nat),
        divides(marker_base(s), s[1] as nat),
        forall|d: nat|
            divides(d, s[0] as nat) && divides(d, s[1] as nat) ==> #[trigger] divides(
                d,
                marker_base(s),
            ),
{
    lemma_gcd_divides(s[0] as nat, s[1] as nat);
    assert forall|d: nat|
        divides(d, s[0] as nat) && divides(d, s[1] as nat) implies #[trigger] divides(
        d,
        marker_base(s),
    ) by {
        lemma_common_divisor_divides_gcd(d, s[0] as nat, s[1] as nat);
    }
}

/// The two little-endian bytes of a `u16` value.
pub open spec fn le16(v: int) -> Seq<u8> {
    seq![(v % 256) as u8, (v / 256) as u8]
}

/// Whether a medium-level container can be written for `body` and
/// `sealed_key` without the `u16` marker overflowing.
pub open spec fn medium_sealable(body: Seq<u8>, sealed_key: Seq<u8>) -> bool {
    &&& body.len() >= 2
    &&& marker_base(body) + sealed_key.len() % 65536 <= u16::MAX
}

/// The medium-level container of `body` and `sealed_key`.
pub open spec fn sealed_medium(body: Seq<u8>, sealed_key: Seq<u8>) -> Seq<u8> {
    let g = marker_base(body) as int;
    body + sealed_key + le16(g + sealed_key.len() as int % 65536) + le16(g + 1)
}

/// The high-level container of `body`.
pub open spec fn sealed_high(body: Seq<u8>) -> Seq<u8> {
    body + le16(marker_base(body) + 2int)
}

/// The parts of a container.
pub enum ContainerView {
    Medium { body: Seq<u8>, sealed_key: Seq<u8> },
    High { body: Seq<u8> },
    Unrecognized { level: int },
}

/// The byte layout of both containers: the data is followed by two-byte
/// little-endian markers, each the marker base of the data (the gcd of its
/// first two bytes) plus, for the medium level, the sealed-key length and
/// then 1, and for the high level 2.
pub proof fn lemma_container_layout(body: Seq<u8>, sealed_key: Seq<u8>)
    requires
        body.len() >= 2,
        sealed_key.len() < 65536,
    ensures
        ({
            let g = marker_base(body);
            let m1 = g + sealed_key.len();
            let m2 = g + 1;
            let m3 = g + 2;
            &&& sealed_medium(body, sealed_key) == body + sealed_key + seq![
                (m1 % 256) as u8,
                (m1 / 256) as u8,
                (m2 % 256) as u8,
                (m2 / 256) as u8,
            ]
            &&& sealed_high(body) == body + seq![(m3 % 256) as u8, (m3 / 256) as u8]
        }),
{
    let g = marker_base(body);
    let m1 = g + sealed_key.len();
    assert(sealed_key.len() as int % 65536 == sealed_key.len());
    assert(sealed_medium(body, sealed_key) =~= body + sealed_key + seq![
        (m1 % 256) as u8,
        (m1 / 256) as u8,
        ((g + 1) % 256) as u8,
        ((g + 1) / 256) as u8,
    ]);
    assert(sealed_high(body) =~= body + seq![((g + 2) % 256) as u8, ((g + 2) / 256) as u8]);
}

/// Why a container could not be read.
#[derive(Debug, Clone, Copy, PartialEq, Eq, Structural)]
pub enum ContainerError {
    /// Fewer than four bytes.
    TooShort,
    /// A marker below its base, or a sealed-key length beyond the data.
    Corrupt,
}

/// What reading a container gives.
pub open spec fn parsed_container(s: Seq<u8>) -> Result<ContainerView, ContainerError> {
    if s.len() < 4 {
        Err(ContainerError::TooShort)
    } else {
        let n = s.len() as int;
        let g = marker_base(s) as int;
        let raw_level = s[n - 1] * 256 + s[n - 2];
        if raw_level < g {
            Err(ContainerError::Corrupt)
        } else {
            let level = raw_level - g;
            if level == 1 {
                if n < 6 {
                    Err(ContainerError::Corrupt)
                } else {
                    let raw_len = s[n - 3] * 256 + s[n - 4];
                    if raw_len < g || raw_len - g > n - 4 {
                        Err(ContainerError::Corrupt)
                    } else {
                        let cut = n - 4 - (raw_len - g);
                        Ok(
                            ContainerView::Medium {
                                body: s.subrange(0, cut),
                                sealed_key: s.subrange(cut, n - 4),
                            },
                        )
                    }
                }
            } else if level == 2 {
                Ok(ContainerView::High { body: s.subrange(0, n - 2) })
            } else {
                Ok(ContainerView::Unrecognized { level })
            }
        }
    }
}

/// The parts of a container.
#[derive(Debug)]
pub enum Container {
    Medium { body: Vec<u8>, sealed_key: Vec<u8> },
    High { body: Vec<u8> },
    Unrecognized { level: u16 },
}

impl View for Container {
    type V = ContainerView;

    open spec fn view(&self) -> ContainerView {
        match self {
            Container::Medium { body, sealed_key } => ContainerView::Medium {
                body: body@,
                sealed_key: sealed_key@,
            },
            Container::High { body } => ContainerView::High { body: body@ },
            Container::Unrecognized { level } => ContainerView::Unrecognized { level: *level as int },
        }
    }
}

/// Writes the medium-level container of `body` and `sealed_key`.
pub fn seal_medium(body: Vec<u8>, sealed_key: Vec<u8>) -> (r: Vec<u8>)
    requires
        medium_sealable(body@, sealed_key@),
        body@.len() + sealed_key@.len() + 4 <= usize::MAX,
    ensures
        r@ == sealed_medium(body@, sealed_key@),
{
    let g = byte_gcd(body[0], body[1]) as u16;
    let key_len = (sealed_key.len() % 65536) as u16;
    let m1: u16 = g + key_len;
    let m2: u16 = g + 1;
    let mut out = body;
    let mut key = sealed_key;
    out.append(&mut key);
    out.push((m1 % 256) as u8);
    out.push((m1 / 256) as u8);
    out.push((m2 % 256) as u8);
    out.push((m2 / 256) as u8);
    assert(out@ =~= sealed_medium(body@, sealed_key@));
    out
}

/// Writes the high-level container of `body`.
pub fn seal_high(body: Vec<u8>) -> (r: Vec<u8>)
    requires
        body@.len() >= 2,
        body@.len() + 2 <= usize::MAX,
    ensures
        r@ == sealed_high(body@),
{
    let m: u16 = byte_gcd(body[0], body[1]) as u16 + 2;
    let mut out = body;
    out.push((m % 256) as u8);
    out.push((m / 256) as u8);
    assert(out@ =~= sealed_high(body@));
    out
}

/// Reads a container: its level from the last two bytes, and for the medium
/// level the length of the sealed key from the two before.
pub fn open_container(data: Vec<u8>) -> (r: Result<Container, ContainerError>)
    ensures
        match r {
            Ok(c) => parsed_container(data@) == Ok::<ContainerView, ContainerError>(c@),
            Err(e) => parsed_container(data@) == Err::<ContainerView, ContainerError>(e),
        },
{
    let n = data.len();
    if n < 4 {
        return Err(ContainerError::TooShort);
    }
    let g = byte_gcd(data[0], data[1]) as u16;
    let raw_level: u16 = data[n - 1] as u16 * 256 + data[n - 2] as u16;
    if raw_level < g {
        return Err(ContainerError::Corrupt);
    }
    let level = raw_level - g;
    if level == 1 {
        if n < 6 {
            return Err(ContainerError::Corrupt);
        }
        let raw_len: u16 = data[n - 3] as u16 * 256 + data[n - 4] as u16;
        if raw_len < g {
            return Err(ContainerError::Corrupt);
        }
        let key_len = (raw_len - g) as usize;
        if key_len > n - 4 {
            return Err(ContainerError::Corrupt);
        }
        let cut = n - 4 - key_len;
        let mut body = data;
        let mut sealed_key = body.split_off(cut);
        sealed_key.truncate(key_len);
        assert(sealed_key@ =~= data@.subrange(cut as int, n - 4));
        Ok(Container::Medium { body, sealed_key })
    } else if level == 2 {
        let mut body = data;
        body.truncate(n - 2);
        Ok(Container::High { body })
    } else {
        Ok(Container::Unrecognized { level })
    }
}

/// A medium-level container reads back as the body and sealed key it was
/// written from, whenever the sealed key is shorter than 65536 bytes.
pub proof fn lemma_medium_roundtrip(body: Seq<u8>, sealed_key: Seq<u8>)
    requires
        medium_sealable(body, sealed_key),
        sealed_key.len() < 65536,
    ensures
        parsed_container(sealed_medium(body, sealed_key)) == Ok::<ContainerView, ContainerError>(
            ContainerView::Medium { body, sealed_key },
        ),
{
    let s = sealed_medium(body, sealed_key);
    lemma_gcd_bound(body[0] as nat, body[1] as nat);
    let n = s.len() as int;
    let g = marker_base(body) as int;
    let m1 = g + sealed_key.len();
    let m2 = g + 1;
    assert(s[0] == body[0] && s[1] == body[1]);
    assert(marker_base(s) == marker_base(body));
    assert(s[n - 1] == (m2 / 256) as u8 && s[n - 2] == (m2 % 256) as u8);
    assert(s[n - 3] == (m1 / 256) as u8 && s[n - 4] == (m1 % 256) as u8);
    assert(s.subrange(0, body.len() as int) =~= body);
    assert(s.subrange(body.len() as int, n - 4) =~= sealed_key);
}

/// A high-level container reads back as the body it was written from.
pub proof fn lemma_high_roundtrip(body: Seq<u8>)
    requires
        body.len() >= 2,
    ensures
        parsed_container(sealed_high(body)) == Ok::<ContainerView, ContainerError>(
            ContainerView::High { body },
        ),
{
    let s = sealed_high(body);
    lemma_gcd_bound(body[0] as nat, body[1] as nat);
    let n = s.len() as int;
    let m = marker_base(body) + 2;
    assert(s[0] == body[0] && s[1] == body[1]);
    assert(marker_base(s) == marker_base(body));
    assert(s[n - 1] == (m / 256) as u8 && s[n - 2] == (m % 256) as u8);
    assert(s.subrange(0, n - 2) =~= body);
}

} // verus!
