//! Recovery of SEC1 point encodings from the vendor-specific public key
//! encodings that some signers put into a SubjectPublicKeyInfo.
use vstd::prelude::*;
use crate::bytes::{append_bytes, bytes_equal, copy_range};

verus! {

/// The elliptic curve a key is expected to lie on.
#[derive(Clone, Copy, PartialEq, Eq, Structural, Debug)]
pub enum CurveKind {
    P256,
    Secp256k1,
}

/// Byte order of a coordinate in a compact encoding.
#[derive(Clone, Copy, PartialEq, Eq, Structural, Debug)]
pub enum Endian {
    Big,
    Little,
}

/// `n` zero bytes.
pub open spec fn zeros(n: nat) -> Seq<u8> {
    Seq::new(n, |i: int| 0u8)
}

/// A coordinate of at most 32 bytes widened to exactly 32 bytes: big-endian
/// coordinates are left-padded, little-endian ones are byte-reversed and then
/// left-padded.
pub open spec fn expanded_coord(coord: Seq<u8>, endian: Endian) -> Option<Seq<u8>> {
    if coord.len() > 32 {
        None
    } else {
        let pad = zeros((32 - coord.len()) as nat);
        match endian {
            Endian::Big => Some(pad + coord),
            Endian::Little => Some(pad + coord.reverse()),
        }
    }
}

/// The uncompressed SEC1 point `0x04 || x || y` built from two coordinates
/// halves, when both widen.
pub open spec fn uncompressed_point(x: Seq<u8>, y: Seq<u8>, endian: Endian) -> Option<Seq<u8>> {
    match (expanded_coord(x, endian), expanded_coord(y, endian)) {
        (Some(xf), Some(yf)) => Some(seq![4u8] + xf + yf),
        _ => None,
    }
}

/// The point recovered from the truncated P-256 vendor encoding
/// `0x0a || x || y`, where the remainder is split in half (x takes the
/// shorter half).
pub open spec fn truncated_point(bytes: Seq<u8>, kind: CurveKind, endian: Endian) -> Option<Seq<u8>> {
    if kind != CurveKind::P256 || bytes.len() < 3 || bytes[0] != 0x0au8 || bytes.len() - 1 < 4 {
        None
    } else {
        let rem = bytes.drop_first();
        let split = rem.len() / 2;
        uncompressed_point(rem.take(split as int), rem.skip(split as int), endian)
    }
}

/// The prefix byte of the compact encoding for a curve.
pub open spec fn compact_prefix(kind: CurveKind) -> u8 {
    match kind {
        CurveKind::P256 => 0x0au8,
        CurveKind::Secp256k1 => 0x0bu8,
    }
}

/// The point recovered from the compact encoding `prefix || x || y` with
/// coordinates of equal length between 1 and 32 bytes.
pub open spec fn compact_point(bytes: Seq<u8>, kind: CurveKind, endian: Endian) -> Option<Seq<u8>> {
    if bytes.len() <= 1 || bytes[0] != compact_prefix(kind) || (bytes.len() - 1) % 2 != 0 {
        None
    } else {
        let rem = bytes.drop_first();
        let coord_len = rem.len() / 2;
        if coord_len == 0 || coord_len > 32 {
            None
        } else {
            uncompressed_point(rem.take(coord_len as int), rem.skip(coord_len as int), endian)
        }
    }
}

/// The byte contents of a list of byte vectors.
pub open spec fn views(s: Seq<Vec<u8>>) -> Seq<Seq<u8>> {
    s.map_values(|v: Vec<u8>| v@)
}

/// `s` with `d` appended unless `s` already holds it.
pub open spec fn push_unique(s: Seq<Seq<u8>>, d: Seq<u8>) -> Seq<Seq<u8>> {
    if s.contains(d) { s } else { s.push(d) }
}

/// `s` with the content of `d` appended (uniquely) when there is one.
pub open spec fn push_unique_opt(s: Seq<Seq<u8>>, d: Option<Seq<u8>>) -> Seq<Seq<u8>> {
    match d {
        Some(v) => push_unique(s, v),
        None => s,
    }
}

/// Whether the first byte is a standard SEC1 tag (compressed or uncompressed).
pub open spec fn has_sec1_tag(bytes: Seq<u8>) -> bool {
    bytes.len() > 0 && (bytes[0] == 2u8 || bytes[0] == 3u8 || bytes[0] == 4u8)
}

/// The SEC1 interpretations tried for a public key, in order.
pub open spec fn sec1_candidates(bytes: Seq<u8>, kind: CurveKind) -> Seq<Seq<u8>> {
    if has_sec1_tag(bytes) {
        seq![bytes]
    } else {
        let c1 = if bytes.len() == 64 { push_unique(seq![], seq![4u8] + bytes) } else { seq![] };
        let c2 = push_unique_opt(c1, truncated_point(bytes, kind, Endian::Big));
        let c3 = push_unique_opt(c2, truncated_point(bytes, kind, Endian::Little));
        let c4 = push_unique_opt(c3, compact_point(bytes, kind, Endian::Big));
        let c5 = push_unique_opt(c4, compact_point(bytes, kind, Endian::Little));
        if c5.len() == 0 { seq![bytes] } else { c5 }
    }
}

/// Widens a coordinate to 32 bytes in the given byte order; `None` when it is
/// longer than 32 bytes.
pub fn expand_coord_with_endian(coord: &[u8], endian: Endian) -> (res: Option<[u8; 32]>)
    ensures
        match res {
            Some(out) => expanded_coord(coord@, endian) == Some(out@),
            None => expanded_coord(coord@, endian) is None,
        },
{
    if coord.len() > 32 {
        return None;
    }
    let len = coord.len();
    let pad = 32 - len;
    let mut out = [0u8; 32];
    let mut i: usize = 0;
    while i < len
        invariant
            len == coord@.len(),
            pad == 32 - len,
            i <= len,
            out@.len() == 32,
            forall|k: int| 0 <= k < 32 ==> #[trigger] out@[k] == match endian {
                Endian::Big => if pad <= k < pad + i { coord@[k - pad] } else { 0u8 },
                Endian::Little => if 32 - i <= k { coord@[31 - k] } else { 0u8 },
            },
        decreases len - i,
    {
        match endian {
            Endian::Big => {
                out[pad + i] = coord[i];
            },
            Endian::Little => {
                out[31 - i] = coord[i];
            },
        }
        i = i + 1;
    }
    proof {
        let p = zeros(pad as nat);
        match endian {
            Endian::Big => {
                assert(out@ =~= p + coord@);
            },
            Endian::Little => {
                assert forall|k: int| pad <= k < 32 implies out@[k] == coord@.reverse()[k - pad] by {
                    let j = 31 - k;
                    assert(0 <= j < len);
                }
                assert(out@ =~= p + coord@.reverse());
            },
        }
    }
    Some(out)
}

/// `0x04 || x || y` for two 32-byte coordinates.
fn build_uncompressed(x_full: &[u8; 32], y_full: &[u8; 32]) -> (res: Vec<u8>)
    ensures
        res@ == seq![4u8] + x_full@ + y_full@,
{
    let mut owned: Vec<u8> = Vec::with_capacity(65);
    owned.push(0x04);
    append_bytes(&mut owned, x_full.as_slice());
    append_bytes(&mut owned, y_full.as_slice());
    owned
}

/// Recovers the point from the truncated P-256 vendor encoding (`0x0a`
/// prefix, remainder split in half).
pub fn reconstruct_truncated_vec(bytes: &[u8], kind: CurveKind, endian: Endian) -> (res: Option<Vec<u8>>)
    ensures
        match res {
            Some(v) => truncated_point(bytes@, kind, endian) == Some(v@),
            None => truncated_point(bytes@, kind, endian) is None,
        },
{
    if kind != CurveKind::P256 || bytes.len() < 3 {
        return None;
    }
    let prefix = bytes[0];
    if prefix != 0x0a {
        return None;
    }
    let remainder = copy_range(bytes, 1, bytes.len());
    assert(remainder@ =~= bytes@.drop_first());
    if remainder.len() < 4 {
        return None;
    }
    let split = remainder.len() / 2;
    let x_bytes = copy_range(remainder.as_slice(), 0, split);
    let y_bytes = copy_range(remainder.as_slice(), split, remainder.len());
    assert(x_bytes@ =~= remainder@.take(split as int));
    assert(y_bytes@ =~= remainder@.skip(split as int));
    let x_full = match expand_coord_with_endian(x_bytes.as_slice(), endian) {
        Some(v) => v,
        None => return None,
    };
    let y_full = match expand_coord_with_endian(y_bytes.as_slice(), endian) {
        Some(v) => v,
        None => return None,
    };
    Some(build_uncompressed(&x_full, &y_full))
}

/// Recovers the point from the compact encoding `prefix || x || y` whose
/// prefix names the curve.
pub fn rebuild_from_compact_vec(bytes: &[u8], kind: CurveKind, endian: Endian) -> (res: Option<Vec<u8>>)
    ensures
        match res {
            Some(v) => compact_point(bytes@, kind, endian) == Some(v@),
            None => compact_point(bytes@, kind, endian) is None,
        },
{
    if bytes.len() <= 1 {
        return None;
    }
    let prefix = bytes[0];
    let expected_prefix: u8 = match kind {
        CurveKind::P256 => 0x0a,
        CurveKind::Secp256k1 => 0x0b,
    };
    if prefix != expected_prefix {
        return None;
    }
    let remainder = copy_range(bytes, 1, bytes.len());
    assert(remainder@ =~= bytes@.drop_first());
    if remainder.len() % 2 != 0 {
        return None;
    }
    let coord_len = remainder.len() / 2;
    if coord_len == 0 || coord_len > 32 {
        return None;
    }
    let x_bytes = copy_range(remainder.as_slice(), 0, coord_len);
    let y_bytes = copy_range(remainder.as_slice(), coord_len, remainder.len());
    assert(x_bytes@ =~= remainder@.take(coord_len as int));
    assert(y_bytes@ =~= remainder@.skip(coord_len as int));
    let x_full = match expand_coord_with_endian(x_bytes.as_slice(), endian) {
        Some(v) => v,
        None => return None,
    };
    let y_full = match expand_coord_with_endian(y_bytes.as_slice(), endian) {
        Some(v) => v,
        None => return None,
    };
    Some(build_uncompressed(&x_full, &y_full))
}

/// Appends `data` to `candidates` unless an equal candidate is already there.
fn push_candidate(candidates: &mut Vec<Vec<u8>>, data: Vec<u8>)
    ensures
        views(final(candidates)@) == push_unique(views(old(candidates)@), data@),
{
    let mut i: usize = 0;
    while i < candidates.len()
        invariant
            i <= candidates@.len(),
            forall|j: int| 0 <= j < i ==> candidates@[j]@ != data@,
        decreases candidates@.len() - i,
    {
        if bytes_equal(candidates[i].as_slice(), data.as_slice()) {
            assert(views(candidates@)[i as int] == data@);
            assert(views(candidates@).contains(data@));
            return;
        }
        i = i + 1;
    }
    assert(!views(candidates@).contains(data@)) by {
        if views(candidates@).contains(data@) {
            let k = choose|k: int| 0 <= k < views(candidates@).len() && views(candidates@)[k] == data@;
            assert(candidates@[k]@ == data@);
        }
    }
    let ghost before = views(candidates@);
    candidates.push(data);
    assert(views(candidates@) =~= before.push(data@));
}

/// Appends the content of `data`, if any, unless an equal candidate is there.
fn push_candidate_opt(candidates: &mut Vec<Vec<u8>>, data: Option<Vec<u8>>)
    ensures
        views(final(candidates)@) == push_unique_opt(
            views(old(candidates)@),
            match data { Some(v) => Some(v@), None => None },
        ),
{
    match data {
        Some(v) => push_candidate(candidates, v),
        None => {},
    }
}

/// Lists the SEC1 encodings to try for a public key: the key itself when it
/// carries a standard SEC1 tag; otherwise the distinct reconstructions from
/// the known vendor encodings, falling back to the key itself.
pub fn generate_sec1_candidates(bytes: &[u8], kind: CurveKind) -> (res: Vec<Vec<u8>>)
    ensures
        views(res@) == sec1_candidates(bytes@, kind),
{
    let mut candidates: Vec<Vec<u8>> = Vec::new();
    if bytes.len() > 0 {
        let first = bytes[0];
        if first == 0x02 || first == 0x03 || first == 0x04 {
            candidates.push(copy_range(bytes, 0, bytes.len()));
            assert(bytes@.subrange(0, bytes@.len() as int) =~= bytes@);
            assert(views(candidates@) =~= seq![bytes@]);
            return candidates;
        }
    }
    assert(views(candidates@) =~= Seq::<Seq<u8>>::empty());
    if bytes.len() == 64 {
        let mut owned: Vec<u8> = Vec::with_capacity(65);
        owned.push(0x04);
        append_bytes(&mut owned, bytes);
        push_candidate(&mut candidates, owned);
    }
    push_candidate_opt(&mut candidates, reconstruct_truncated_vec(bytes, kind, Endian::Big));
    push_candidate_opt(&mut candidates, reconstruct_truncated_vec(bytes, kind, Endian::Little));
    push_candidate_opt(&mut candidates, rebuild_from_compact_vec(bytes, kind, Endian::Big));
    push_candidate_opt(&mut candidates, rebuild_from_compact_vec(bytes, kind, Endian::Little));
    if candidates.len() == 0 {
        candidates.push(copy_range(bytes, 0, bytes.len()));
        assert(bytes@.subrange(0, bytes@.len() as int) =~= bytes@);
        assert(views(candidates@) =~= seq![bytes@]);
    }
    candidates
}

} // verus!
