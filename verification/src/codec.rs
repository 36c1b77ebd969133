//! The byte format of the wire messages and of the Replay Log.
//!
//! Every value is encoded front-to-back: integers as little-endian bytes
//! (signed ones offset so their order survives), strings as a byte length
//! followed by UTF-8 bytes, sequences as a count followed by the elements,
//! and tagged unions as a tag byte followed by the payload. Each decoder
//! consumes from the front and is exact: it accepts precisely the
//! encodings its encoder produces, and an unknown tag is a decode error,
//! never silently skipped.

use vstd::bytes::{
    spec_u32_from_le_bytes, spec_u32_to_le_bytes, spec_u64_from_le_bytes, spec_u64_to_le_bytes,
    u32_from_le_bytes, u32_to_le_bytes, u64_from_le_bytes, u64_to_le_bytes,
};
use vstd::prelude::*;
use vstd::utf8::{decode_utf8, encode_utf8, valid_utf8};

use crate::{CameraMovement, Player, PlayerId, PlayerView, QuatBits, Tick, Vec3Bits};
use crate::{ClientMessages, ClientMessagesView, ServerMessages, ServerMessagesView};
use crate::client_functionality::SerializableTransform;
use crate::commands::{
    spec_batch_view, MyDateTime, PlayerCommand, PlayerCommandView, PlayerCommandsList,
    SyncedPlayerCommand, SyncedPlayerCommandView, SyncedPlayerCommandsList,
};

verus! {

/// A `u32` as four little-endian bytes.
pub open spec fn se_u32(x: u32) -> Seq<u8> {
    spec_u32_to_le_bytes(x)
}

/// A `u64` as eight little-endian bytes.
pub open spec fn se_u64(x: u64) -> Seq<u8> {
    spec_u64_to_le_bytes(x)
}

/// An `i64`, offset by the type's minimum so the encoding is a `u64`.
pub open spec fn se_i64(x: i64) -> Seq<u8> {
    se_u64(((x as int) - (i64::MIN as int)) as u64)
}

/// A string: the UTF-8 byte length, then the UTF-8 bytes.
pub open spec fn se_string(s: Seq<char>) -> Seq<u8> {
    se_u64(encode_utf8(s).len() as u64) + encode_utf8(s)
}

/// Reads one `u32` off the front.
pub open spec fn sd_u32(b: Seq<u8>) -> Option<(u32, Seq<u8>)> {
    if b.len() >= 4 {
        Some((spec_u32_from_le_bytes(b.subrange(0, 4)), b.skip(4)))
    } else {
        None
    }
}

/// Reads one `u64` off the front.
pub open spec fn sd_u64(b: Seq<u8>) -> Option<(u64, Seq<u8>)> {
    if b.len() >= 8 {
        Some((spec_u64_from_le_bytes(b.subrange(0, 8)), b.skip(8)))
    } else {
        None
    }
}

/// Reads one offset-encoded `i64` off the front.
pub open spec fn sd_i64(b: Seq<u8>) -> Option<(i64, Seq<u8>)> {
    match sd_u64(b) {
        Some((u, rest)) => Some((((u as int) + (i64::MIN as int)) as i64, rest)),
        None => None,
    }
}

/// Reads one length-prefixed UTF-8 string off the front.
pub open spec fn sd_string(b: Seq<u8>) -> Option<(Seq<char>, Seq<u8>)> {
    match sd_u64(b) {
        Some((len, rest)) => if rest.len() >= len && valid_utf8(rest.subrange(0, len as int)) {
            Some((decode_utf8(rest.subrange(0, len as int)), rest.skip(len as int)))
        } else {
            None
        },
        None => None,
    }
}

/// A `u32` encoding decodes back to the value, whatever follows.
pub proof fn lemma_u32_round_trip(x: u32, rest: Seq<u8>)
    ensures
        sd_u32(se_u32(x) + rest) == Some((x, rest)),
{
    vstd::bytes::lemma_auto_spec_u32_to_from_le_bytes();
    let b = se_u32(x) + rest;
    assert(b.subrange(0, 4) =~= se_u32(x));
    assert(b.skip(4) =~= rest);
}

/// A `u64` encoding decodes back to the value, whatever follows.
pub proof fn lemma_u64_round_trip(x: u64, rest: Seq<u8>)
    ensures
        sd_u64(se_u64(x) + rest) == Some((x, rest)),
{
    vstd::bytes::lemma_auto_spec_u64_to_from_le_bytes();
    let b = se_u64(x) + rest;
    assert(b.subrange(0, 8) =~= se_u64(x));
    assert(b.skip(8) =~= rest);
}

/// An `i64` encoding decodes back to the value, whatever follows.
pub proof fn lemma_i64_round_trip(x: i64, rest: Seq<u8>)
    ensures
        sd_i64(se_i64(x) + rest) == Some((x, rest)),
{
    lemma_u64_round_trip(((x as int) - (i64::MIN as int)) as u64, rest);
}

/// A string encoding decodes back to the characters, whatever follows.
pub proof fn lemma_string_round_trip(s: Seq<char>, rest: Seq<u8>)
    requires
        encode_utf8(s).len() <= u64::MAX,
    ensures
        sd_string(se_string(s) + rest) == Some((s, rest)),
{
    let bytes = encode_utf8(s);
    let len = bytes.len() as u64;
    lemma_u64_round_trip(len, bytes + rest);
    let b = se_string(s) + rest;
    assert(b =~= se_u64(len) + (bytes + rest));
    let tail = bytes + rest;
    assert(tail.subrange(0, len as int) =~= bytes);
    assert(tail.skip(len as int) =~= rest);
    vstd::utf8::encode_utf8_valid_utf8(s);
    vstd::utf8::encode_utf8_decode_utf8(s);
}

/// Appends the encoding of a `u32`.
pub fn enc_u32(out: &mut Vec<u8>, x: u32)
    ensures
        final(out)@ == old(out)@ + se_u32(x),
{
    let mut b = u32_to_le_bytes(x);
    out.append(&mut b);
    proof {
        assert(final(out)@ =~= old(out)@ + se_u32(x));
    }
}

/// Appends the encoding of a `u64`.
pub fn enc_u64(out: &mut Vec<u8>, x: u64)
    ensures
        final(out)@ == old(out)@ + se_u64(x),
{
    let mut b = u64_to_le_bytes(x);
    out.append(&mut b);
    proof {
        assert(final(out)@ =~= old(out)@ + se_u64(x));
    }
}

/// Appends the encoding of an `i64`.
pub fn enc_i64(out: &mut Vec<u8>, x: i64)
    ensures
        final(out)@ == old(out)@ + se_i64(x),
{
    let offset: u64 = (((x as i128) - (i64::MIN as i128)) as u64);
    enc_u64(out, offset);
}

/// Appends the encoding of a string.
pub fn enc_string(out: &mut Vec<u8>, s: &str)
    ensures
        final(out)@ == old(out)@ + se_string(s@),
{
    let bytes = s.as_bytes();
    let n = bytes.len();
    enc_u64(out, n as u64);
    let mut i: usize = 0;
    while i < n
        invariant
            i <= n,
            n == bytes@.len(),
            bytes@ == encode_utf8(s@),
            out@ =~= old(out)@ + se_u64(n as u64) + bytes@.subrange(0, i as int),
        decreases n - i,
    {
        out.push(bytes[i]);
        i = i + 1;
        proof {
            assert(out@ =~= old(out)@ + se_u64(n as u64) + bytes@.subrange(0, i as int));
        }
    }
    proof {
        assert(bytes@.subrange(0, n as int) =~= bytes@);
        assert(out@ =~= old(out)@ + se_string(s@));
    }
}

/// Reads one `u32` at `pos`.
pub fn dec_u32(b: &Vec<u8>, pos: usize) -> (r: Option<(u32, usize)>)
    ensures
        match r {
            Some((x, p)) => pos <= p <= b@.len() && sd_u32(b@.skip(pos as int)) == Some(
                (x, b@.skip(p as int)),
            ),
            None => pos > b@.len() || sd_u32(b@.skip(pos as int)) is None,
        },
{
    if pos > b.len() || b.len() - pos < 4 {
        return None;
    }
    let x = u32_from_le_bytes(&b.as_slice()[pos..pos + 4]);
    proof {
        assert(b@.subrange(pos as int, pos + 4 as int) =~= b@.skip(pos as int).subrange(0, 4));
        assert(b@.skip(pos + 4 as int) =~= b@.skip(pos as int).skip(4));
    }
    Some((x, pos + 4))
}

/// Reads one `u64` at `pos`.
pub fn dec_u64(b: &Vec<u8>, pos: usize) -> (r: Option<(u64, usize)>)
    ensures
        match r {
            Some((x, p)) => pos <= p <= b@.len() && sd_u64(b@.skip(pos as int)) == Some(
                (x, b@.skip(p as int)),
            ),
            None => pos > b@.len() || sd_u64(b@.skip(pos as int)) is None,
        },
{
    if pos > b.len() || b.len() - pos < 8 {
        return None;
    }
    let x = u64_from_le_bytes(&b.as_slice()[pos..pos + 8]);
    proof {
        assert(b@.subrange(pos as int, pos + 8 as int) =~= b@.skip(pos as int).subrange(0, 8));
        assert(b@.skip(pos + 8 as int) =~= b@.skip(pos as int).skip(8));
    }
    Some((x, pos + 8))
}

/// Reads one offset-encoded `i64` at `pos`.
pub fn dec_i64(b: &Vec<u8>, pos: usize) -> (r: Option<(i64, usize)>)
    ensures
        match r {
            Some((x, p)) => pos <= p <= b@.len() && sd_i64(b@.skip(pos as int)) == Some(
                (x, b@.skip(p as int)),
            ),
            None => pos > b@.len() || sd_i64(b@.skip(pos as int)) is None,
        },
{
    match dec_u64(b, pos) {
        Some((u, p)) => {
            let x: i64 = (((u as i128) + (i64::MIN as i128)) as i64);
            Some((x, p))
        },
        None => None,
    }
}

/// Reads one length-prefixed UTF-8 string at `pos`.
pub fn dec_string(b: &Vec<u8>, pos: usize) -> (r: Option<(String, usize)>)
    ensures
        match r {
            Some((s, p)) => pos <= p <= b@.len() && (sd_string(b@.skip(pos as int)) matches Some(
                (sv, rest),
            ) && sv == s@ && rest == b@.skip(p as int)),
            None => pos > b@.len() || sd_string(b@.skip(pos as int)) is None,
        },
{
    let n = b.len();
    match dec_u64(b, pos) {
        Some((len64, p)) => {
            if len64 > (usize::MAX as u64) {
                proof {
                    assert(b@.skip(p as int).len() < len64);
                }
                return None;
            }
            let len = len64 as usize;
            if n - p < len {
                return None;
            }
            let mut bytes: Vec<u8> = Vec::new();
            let mut i: usize = 0;
            while i < len
                invariant
                    i <= len,
                    n == b@.len(),
                    p + len <= n,
                    bytes@ =~= b@.subrange(p as int, p + i as int),
                decreases len - i,
            {
                bytes.push(b[p + i]);
                i = i + 1;
                proof {
                    assert(bytes@ =~= b@.subrange(p as int, p + i as int));
                }
            }
            proof {
                assert(bytes@ =~= b@.skip(p as int).subrange(0, len as int));
                assert(b@.skip(p + len as int) =~= b@.skip(p as int).skip(len as int));
            }
            match bytes_to_string(bytes) {
                Some(s) => Some((s, p + len)),
                None => None,
            }
        },
        None => None,
    }
}

/// A tag byte introducing a variant.
pub open spec fn se_u8(x: u8) -> Seq<u8> {
    seq![x]
}

/// Reads one byte off the front.
pub open spec fn sd_u8(b: Seq<u8>) -> Option<(u8, Seq<u8>)> {
    if b.len() >= 1 {
        Some((b[0], b.skip(1)))
    } else {
        None
    }
}

/// A byte decodes back to itself, whatever follows.
pub proof fn lemma_u8_round_trip(x: u8, rest: Seq<u8>)
    ensures
        sd_u8(se_u8(x) + rest) == Some((x, rest)),
{
    assert((se_u8(x) + rest).skip(1) =~= rest);
}

/// Appends one byte.
pub fn enc_u8(out: &mut Vec<u8>, x: u8)
    ensures
        final(out)@ == old(out)@ + se_u8(x),
{
    out.push(x);
    proof {
        assert(final(out)@ =~= old(out)@ + se_u8(x));
    }
}

/// Reads one byte at `pos`.
pub fn dec_u8(b: &Vec<u8>, pos: usize) -> (r: Option<(u8, usize)>)
    ensures
        match r {
            Some((x, p)) => pos <= p <= b@.len() && sd_u8(b@.skip(pos as int)) == Some(
                (x, b@.skip(p as int)),
            ),
            None => pos > b@.len() || sd_u8(b@.skip(pos as int)) is None,
        },
{
    if pos >= b.len() {
        return None;
    }
    let x = b[pos];
    proof {
        assert(b@.skip(pos + 1 as int) =~= b@.skip(pos as int).skip(1));
    }
    Some((x, pos + 1))
}

/// Relies on String::from_utf8: it succeeds exactly on valid UTF-8 input
/// and returns the string of the decoded characters.
#[verifier::external_body]
pub(crate) fn bytes_to_string(bytes: Vec<u8>) -> (r: Option<String>)
    ensures
        r matches Some(s) ==> vstd::utf8::valid_utf8(bytes@) && s@ == vstd::utf8::decode_utf8(
            bytes@,
        ),
        r is None ==> !vstd::utf8::valid_utf8(bytes@),
{
    match String::from_utf8(bytes) {
        Ok(s) => Some(s),
        Err(_) => None,
    }
}

/// A vector of bit patterns: three `u32` components.
pub open spec fn se_vec3(v: Vec3Bits) -> Seq<u8> {
    se_u32(v.x) + se_u32(v.y) + se_u32(v.z)
}

/// Reads one vector of bit patterns off the front.
pub open spec fn sd_vec3(b: Seq<u8>) -> Option<(Vec3Bits, Seq<u8>)> {
    match sd_u32(b) {
        Some((x, b)) => match sd_u32(b) {
            Some((y, b)) => match sd_u32(b) {
                Some((z, b)) => Some((Vec3Bits { x, y, z }, b)),
                None => None,
            },
            None => None,
        },
        None => None,
    }
}

/// A rotation: four `u32` components.
pub open spec fn se_quat(q: QuatBits) -> Seq<u8> {
    se_u32(q.x) + se_u32(q.y) + se_u32(q.z) + se_u32(q.w)
}

/// Reads one rotation off the front.
pub open spec fn sd_quat(b: Seq<u8>) -> Option<(QuatBits, Seq<u8>)> {
    match sd_u32(b) {
        Some((x, b)) => match sd_u32(b) {
            Some((y, b)) => match sd_u32(b) {
                Some((z, b)) => match sd_u32(b) {
                    Some((w, b)) => Some((QuatBits { x, y, z, w }, b)),
                    None => None,
                },
                None => None,
            },
            None => None,
        },
        None => None,
    }
}

/// A camera movement report: the velocity vector and five scalar
/// components.
pub open spec fn se_camera(m: CameraMovement) -> Seq<u8> {
    se_vec3(m.velocity) + se_u32(m.target_camera_height) + se_u32(m.last_mouse_position_x)
        + se_u32(m.last_mouse_position_y) + se_u32(m.mouse_yaw) + se_u32(m.mouse_pitch)
}

/// Reads one camera movement report off the front.
pub open spec fn sd_camera(b: Seq<u8>) -> Option<(CameraMovement, Seq<u8>)> {
    match sd_vec3(b) {
        Some((velocity, b)) => match sd_u32(b) {
            Some((target_camera_height, b)) => match sd_u32(b) {
                Some((last_mouse_position_x, b)) => match sd_u32(b) {
                    Some((last_mouse_position_y, b)) => match sd_u32(b) {
                        Some((mouse_yaw, b)) => match sd_u32(b) {
                            Some((mouse_pitch, b)) => Some(
                                (
                                    CameraMovement {
                                        velocity,
                                        target_camera_height,
                                        last_mouse_position_x,
                                        last_mouse_position_y,
                                        mouse_yaw,
                                        mouse_pitch,
                                    },
                                    b,
                                ),
                            ),
                            None => None,
                        },
                        None => None,
                    },
                    None => None,
                },
                None => None,
            },
            None => None,
        },
        None => None,
    }
}

/// A transform report: translation, rotation and scale.
pub open spec fn se_transform(t: SerializableTransform) -> Seq<u8> {
    se_vec3(t.translation) + se_quat(t.rotation) + se_vec3(t.scale)
}

/// Reads one transform report off the front.
pub open spec fn sd_transform(b: Seq<u8>) -> Option<(SerializableTransform, Seq<u8>)> {
    match sd_vec3(b) {
        Some((translation, b)) => match sd_quat(b) {
            Some((rotation, b)) => match sd_vec3(b) {
                Some((scale, b)) => Some((SerializableTransform { translation, rotation, scale }, b)),
                None => None,
            },
            None => None,
        },
        None => None,
    }
}

/// A command: a tag byte, then the variant's payload.
pub open spec fn se_command(c: PlayerCommandView) -> Seq<u8> {
    match c {
        PlayerCommandView::Test(s) => se_u8(0) + se_string(s),
        PlayerCommandView::SetTargetPosition(v) => se_u8(1) + se_vec3(v),
        PlayerCommandView::SpawnUnit(v) => se_u8(2) + se_vec3(v),
        PlayerCommandView::UpdatePlayerPosition(m, t) => se_u8(3) + se_camera(m) + se_transform(t),
    }
}

/// Reads one command off the front. An unrecognized tag is a decode
/// error: an unknown command variant signals a protocol or version
/// mismatch and must never be skipped silently.
pub open spec fn sd_command(b: Seq<u8>) -> Option<(PlayerCommandView, Seq<u8>)> {
    match sd_u8(b) {
        Some((tag, b)) => if tag == 0 {
            match sd_string(b) {
                Some((s, b)) => Some((PlayerCommandView::Test(s), b)),
                None => None,
            }
        } else if tag == 1 {
            match sd_vec3(b) {
                Some((v, b)) => Some((PlayerCommandView::SetTargetPosition(v), b)),
                None => None,
            }
        } else if tag == 2 {
            match sd_vec3(b) {
                Some((v, b)) => Some((PlayerCommandView::SpawnUnit(v), b)),
                None => None,
            }
        } else if tag == 3 {
            match sd_camera(b) {
                Some((m, b)) => match sd_transform(b) {
                    Some((t, b)) => Some((PlayerCommandView::UpdatePlayerPosition(m, t), b)),
                    None => None,
                },
                None => None,
            }
        } else {
            None
        },
        None => None,
    }
}

/// A command is encodable when its message text's UTF-8 form fits the
/// length field.
pub open spec fn spec_command_encodable(c: PlayerCommandView) -> bool {
    match c {
        PlayerCommandView::Test(s) => encode_utf8(s).len() <= u64::MAX,
        _ => true,
    }
}

/// A vector-of-bit-patterns encoding decodes back, whatever follows.
pub proof fn lemma_vec3_round_trip(v: Vec3Bits, rest: Seq<u8>)
    ensures
        sd_vec3(se_vec3(v) + rest) == Some((v, rest)),
{
    assert(se_vec3(v) + rest =~= se_u32(v.x) + (se_u32(v.y) + (se_u32(v.z) + rest)));
    lemma_u32_round_trip(v.x, se_u32(v.y) + (se_u32(v.z) + rest));
    lemma_u32_round_trip(v.y, se_u32(v.z) + rest);
    lemma_u32_round_trip(v.z, rest);
}

/// A rotation encoding decodes back, whatever follows.
pub proof fn lemma_quat_round_trip(q: QuatBits, rest: Seq<u8>)
    ensures
        sd_quat(se_quat(q) + rest) == Some((q, rest)),
{
    assert(se_quat(q) + rest =~= se_u32(q.x) + (se_u32(q.y) + (se_u32(q.z) + (se_u32(q.w)
        + rest))));
    lemma_u32_round_trip(q.x, se_u32(q.y) + (se_u32(q.z) + (se_u32(q.w) + rest)));
    lemma_u32_round_trip(q.y, se_u32(q.z) + (se_u32(q.w) + rest));
    lemma_u32_round_trip(q.z, se_u32(q.w) + rest);
    lemma_u32_round_trip(q.w, rest);
}

/// A camera-movement encoding decodes back, whatever follows.
pub proof fn lemma_camera_round_trip(m: CameraMovement, rest: Seq<u8>)
    ensures
        sd_camera(se_camera(m) + rest) == Some((m, rest)),
{
    let t4 = se_u32(m.mouse_pitch) + rest;
    let t3 = se_u32(m.mouse_yaw) + t4;
    let t2 = se_u32(m.last_mouse_position_y) + t3;
    let t1 = se_u32(m.last_mouse_position_x) + t2;
    let t0 = se_u32(m.target_camera_height) + t1;
    assert(se_camera(m) + rest =~= se_vec3(m.velocity) + t0);
    lemma_vec3_round_trip(m.velocity, t0);
    lemma_u32_round_trip(m.target_camera_height, t1);
    lemma_u32_round_trip(m.last_mouse_position_x, t2);
    lemma_u32_round_trip(m.last_mouse_position_y, t3);
    lemma_u32_round_trip(m.mouse_yaw, t4);
    lemma_u32_round_trip(m.mouse_pitch, rest);
}

/// A transform encoding decodes back, whatever follows.
pub proof fn lemma_transform_round_trip(t: SerializableTransform, rest: Seq<u8>)
    ensures
        sd_transform(se_transform(t) + rest) == Some((t, rest)),
{
    let t1 = se_quat(t.rotation) + (se_vec3(t.scale) + rest);
    assert(se_transform(t) + rest =~= se_vec3(t.translation) + t1);
    lemma_vec3_round_trip(t.translation, t1);
    lemma_quat_round_trip(t.rotation, se_vec3(t.scale) + rest);
    lemma_vec3_round_trip(t.scale, rest);
}

/// A command encoding decodes back, whatever follows.
pub proof fn lemma_command_round_trip(c: PlayerCommandView, rest: Seq<u8>)
    requires
        spec_command_encodable(c),
    ensures
        sd_command(se_command(c) + rest) == Some((c, rest)),
{
    match c {
        PlayerCommandView::Test(s) => {
            assert(se_command(c) + rest =~= se_u8(0) + (se_string(s) + rest));
            lemma_u8_round_trip(0, se_string(s) + rest);
            lemma_string_round_trip(s, rest);
        },
        PlayerCommandView::SetTargetPosition(v) => {
            assert(se_command(c) + rest =~= se_u8(1) + (se_vec3(v) + rest));
            lemma_u8_round_trip(1, se_vec3(v) + rest);
            lemma_vec3_round_trip(v, rest);
        },
        PlayerCommandView::SpawnUnit(v) => {
            assert(se_command(c) + rest =~= se_u8(2) + (se_vec3(v) + rest));
            lemma_u8_round_trip(2, se_vec3(v) + rest);
            lemma_vec3_round_trip(v, rest);
        },
        PlayerCommandView::UpdatePlayerPosition(m, t) => {
            assert(se_command(c) + rest =~= se_u8(3) + (se_camera(m) + (se_transform(t) + rest)));
            lemma_u8_round_trip(3, se_camera(m) + (se_transform(t) + rest));
            lemma_camera_round_trip(m, se_transform(t) + rest);
            lemma_transform_round_trip(t, rest);
        },
    }
}

/// The elements of a batch, one command after another.
pub open spec fn se_batch_items(s: Seq<PlayerCommandView>) -> Seq<u8>
    decreases s.len(),
{
    if s.len() == 0 {
        Seq::empty()
    } else {
        se_command(s[0]) + se_batch_items(s.drop_first())
    }
}

/// A batch: its length, then its commands.
pub open spec fn se_batch(s: Seq<PlayerCommandView>) -> Seq<u8> {
    se_u64(s.len() as u64) + se_batch_items(s)
}

/// Reads `n` commands off the front.
pub open spec fn sd_batch_items(b: Seq<u8>, n: nat) -> Option<(Seq<PlayerCommandView>, Seq<u8>)>
    decreases n,
{
    if n == 0 {
        Some((Seq::empty(), b))
    } else {
        match sd_command(b) {
            Some((c, b2)) => match sd_batch_items(b2, (n - 1) as nat) {
                Some((s, b3)) => Some((seq![c] + s, b3)),
                None => None,
            },
            None => None,
        }
    }
}

/// Reads one batch off the front.
pub open spec fn sd_batch(b: Seq<u8>) -> Option<(Seq<PlayerCommandView>, Seq<u8>)> {
    match sd_u64(b) {
        Some((n, b2)) => sd_batch_items(b2, n as nat),
        None => None,
    }
}

/// A batch is encodable when its length fits the count field and each
/// command is encodable.
pub open spec fn spec_batch_encodable(s: Seq<PlayerCommandView>) -> bool {
    s.len() <= u64::MAX && forall|i: int|
        0 <= i < s.len() ==> spec_command_encodable(#[trigger] s[i])
}

/// Batch elements decode back, whatever follows.
pub proof fn lemma_batch_items_round_trip(s: Seq<PlayerCommandView>, rest: Seq<u8>)
    requires
        forall|i: int| 0 <= i < s.len() ==> spec_command_encodable(#[trigger] s[i]),
    ensures
        sd_batch_items(se_batch_items(s) + rest, s.len()) == Some((s, rest)),
    decreases s.len(),
{
    if s.len() == 0 {
        assert(se_batch_items(s) + rest =~= rest);
        assert(sd_batch_items(rest, 0) == Some((Seq::<PlayerCommandView>::empty(), rest)));
        assert(s =~= Seq::<PlayerCommandView>::empty());
    } else {
        let tail = se_batch_items(s.drop_first()) + rest;
        assert(se_batch_items(s) + rest =~= se_command(s[0]) + tail);
        lemma_command_round_trip(s[0], tail);
        assert(forall|i: int|
            0 <= i < s.drop_first().len() ==> spec_command_encodable(
                #[trigger] s.drop_first()[i],
            ));
        lemma_batch_items_round_trip(s.drop_first(), rest);
        assert(seq![s[0]] + s.drop_first() =~= s);
    }
}

/// A batch encoding decodes back, whatever follows.
pub proof fn lemma_batch_round_trip(s: Seq<PlayerCommandView>, rest: Seq<u8>)
    requires
        spec_batch_encodable(s),
    ensures
        sd_batch(se_batch(s) + rest) == Some((s, rest)),
{
    let tail = se_batch_items(s) + rest;
    assert(se_batch(s) + rest =~= se_u64(s.len() as u64) + tail);
    lemma_u64_round_trip(s.len() as u64, tail);
    lemma_batch_items_round_trip(s, rest);
}

/// One participant's contribution to an entry: the participant, then its
/// batch.
pub open spec fn se_list_pair(p: (PlayerId, Seq<PlayerCommandView>)) -> Seq<u8> {
    se_u64(p.0.0) + se_batch(p.1)
}

/// Reads one participant contribution off the front.
pub open spec fn sd_list_pair(b: Seq<u8>) -> Option<((PlayerId, Seq<PlayerCommandView>), Seq<u8>)> {
    match sd_u64(b) {
        Some((id, b2)) => match sd_batch(b2) {
            Some((s, b3)) => Some(((PlayerId(id), s), b3)),
            None => None,
        },
        None => None,
    }
}

/// The elements of a commands list, one contribution after another.
pub open spec fn se_list_items(l: Seq<(PlayerId, Seq<PlayerCommandView>)>) -> Seq<u8>
    decreases l.len(),
{
    if l.len() == 0 {
        Seq::empty()
    } else {
        se_list_pair(l[0]) + se_list_items(l.drop_first())
    }
}

/// A commands list: its length, then its contributions.
pub open spec fn se_list(l: Seq<(PlayerId, Seq<PlayerCommandView>)>) -> Seq<u8> {
    se_u64(l.len() as u64) + se_list_items(l)
}

/// Reads `n` participant contributions off the front.
pub open spec fn sd_list_items(b: Seq<u8>, n: nat) -> Option<
    (Seq<(PlayerId, Seq<PlayerCommandView>)>, Seq<u8>),
>
    decreases n,
{
    if n == 0 {
        Some((Seq::empty(), b))
    } else {
        match sd_list_pair(b) {
            Some((p, b2)) => match sd_list_items(b2, (n - 1) as nat) {
                Some((l, b3)) => Some((seq![p] + l, b3)),
                None => None,
            },
            None => None,
        }
    }
}

/// Reads one commands list off the front.
pub open spec fn sd_list(b: Seq<u8>) -> Option<(Seq<(PlayerId, Seq<PlayerCommandView>)>, Seq<u8>)> {
    match sd_u64(b) {
        Some((n, b2)) => sd_list_items(b2, n as nat),
        None => None,
    }
}

/// A commands list is encodable when its length fits the count field and
/// each batch is encodable.
pub open spec fn spec_list_encodable(l: Seq<(PlayerId, Seq<PlayerCommandView>)>) -> bool {
    l.len() <= u64::MAX && forall|i: int|
        0 <= i < l.len() ==> spec_batch_encodable((#[trigger] l[i]).1)
}

/// List elements decode back, whatever follows.
pub proof fn lemma_list_items_round_trip(l: Seq<(PlayerId, Seq<PlayerCommandView>)>, rest: Seq<u8>)
    requires
        forall|i: int| 0 <= i < l.len() ==> spec_batch_encodable((#[trigger] l[i]).1),
    ensures
        sd_list_items(se_list_items(l) + rest, l.len()) == Some((l, rest)),
    decreases l.len(),
{
    if l.len() == 0 {
        assert(se_list_items(l) + rest =~= rest);
        assert(l =~= Seq::<(PlayerId, Seq<PlayerCommandView>)>::empty());
    } else {
        let tail = se_list_items(l.drop_first()) + rest;
        assert(se_list_items(l) + rest =~= se_u64(l[0].0.0) + (se_batch(l[0].1) + tail));
        lemma_u64_round_trip(l[0].0.0, se_batch(l[0].1) + tail);
        lemma_batch_round_trip(l[0].1, tail);
        assert(PlayerId(l[0].0.0) == l[0].0);
        assert(forall|i: int|
            0 <= i < l.drop_first().len() ==> spec_batch_encodable(
                (#[trigger] l.drop_first()[i]).1,
            ));
        lemma_list_items_round_trip(l.drop_first(), rest);
        assert(seq![l[0]] + l.drop_first() =~= l);
    }
}

/// A commands-list encoding decodes back, whatever follows.
pub proof fn lemma_list_round_trip(l: Seq<(PlayerId, Seq<PlayerCommandView>)>, rest: Seq<u8>)
    requires
        spec_list_encodable(l),
    ensures
        sd_list(se_list(l) + rest) == Some((l, rest)),
{
    let tail = se_list_items(l) + rest;
    assert(se_list(l) + rest =~= se_u64(l.len() as u64) + tail);
    lemma_u64_round_trip(l.len() as u64, tail);
    lemma_list_items_round_trip(l, rest);
}

/// A ledger entry: the commands list, then the commit timestamp.
pub open spec fn se_entry(e: SyncedPlayerCommandView) -> Seq<u8> {
    se_list(e.commands) + se_i64(e.time.0)
}

/// Reads one ledger entry off the front.
pub open spec fn sd_entry(b: Seq<u8>) -> Option<(SyncedPlayerCommandView, Seq<u8>)> {
    match sd_list(b) {
        Some((commands, b2)) => match sd_i64(b2) {
            Some((t, b3)) => Some(
                (SyncedPlayerCommandView { commands, time: MyDateTime(t) }, b3),
            ),
            None => None,
        },
        None => None,
    }
}

/// An entry is encodable when its commands list is.
pub open spec fn spec_entry_encodable(e: SyncedPlayerCommandView) -> bool {
    spec_list_encodable(e.commands)
}

/// A ledger-entry encoding decodes back, whatever follows.
pub proof fn lemma_entry_round_trip(e: SyncedPlayerCommandView, rest: Seq<u8>)
    requires
        spec_entry_encodable(e),
    ensures
        sd_entry(se_entry(e) + rest) == Some((e, rest)),
{
    let tail = se_i64(e.time.0) + rest;
    assert(se_entry(e) + rest =~= se_list(e.commands) + tail);
    lemma_list_round_trip(e.commands, tail);
    lemma_i64_round_trip(e.time.0, rest);
    assert(MyDateTime(e.time.0) == e.time);
}

/// The elements of a ledger, one (tick, entry) pair after another.
pub open spec fn se_ledger_items(s: Seq<(Tick, SyncedPlayerCommandView)>) -> Seq<u8>
    decreases s.len(),
{
    if s.len() == 0 {
        Seq::empty()
    } else {
        se_i64(s[0].0.0) + se_entry(s[0].1) + se_ledger_items(s.drop_first())
    }
}

/// A ledger: its length, then its entries in ascending tick order.
pub open spec fn se_ledger(s: Seq<(Tick, SyncedPlayerCommandView)>) -> Seq<u8> {
    se_u64(s.len() as u64) + se_ledger_items(s)
}

/// Reads `n` (tick, entry) pairs off the front.
pub open spec fn sd_ledger_items(b: Seq<u8>, n: nat) -> Option<
    (Seq<(Tick, SyncedPlayerCommandView)>, Seq<u8>),
>
    decreases n,
{
    if n == 0 {
        Some((Seq::empty(), b))
    } else {
        match sd_i64(b) {
            Some((t, b2)) => match sd_entry(b2) {
                Some((e, b3)) => match sd_ledger_items(b3, (n - 1) as nat) {
                    Some((s, b4)) => Some((seq![(Tick(t), e)] + s, b4)),
                    None => None,
                },
                None => None,
            },
            None => None,
        }
    }
}

/// Reads one ledger off the front.
pub open spec fn sd_ledger(b: Seq<u8>) -> Option<(Seq<(Tick, SyncedPlayerCommandView)>, Seq<u8>)> {
    match sd_u64(b) {
        Some((n, b2)) => sd_ledger_items(b2, n as nat),
        None => None,
    }
}

/// A ledger is encodable when its length fits the count field and each
/// entry is encodable.
pub open spec fn spec_ledger_encodable(s: Seq<(Tick, SyncedPlayerCommandView)>) -> bool {
    s.len() <= u64::MAX && forall|i: int|
        0 <= i < s.len() ==> spec_entry_encodable((#[trigger] s[i]).1)
}

/// Ledger elements decode back, whatever follows.
pub proof fn lemma_ledger_items_round_trip(s: Seq<(Tick, SyncedPlayerCommandView)>, rest: Seq<u8>)
    requires
        forall|i: int| 0 <= i < s.len() ==> spec_entry_encodable((#[trigger] s[i]).1),
    ensures
        sd_ledger_items(se_ledger_items(s) + rest, s.len()) == Some((s, rest)),
    decreases s.len(),
{
    if s.len() == 0 {
        assert(se_ledger_items(s) + rest =~= rest);
        assert(s =~= Seq::<(Tick, SyncedPlayerCommandView)>::empty());
    } else {
        let tail = se_ledger_items(s.drop_first()) + rest;
        assert(se_ledger_items(s) + rest =~= se_i64(s[0].0.0) + (se_entry(s[0].1) + tail));
        lemma_i64_round_trip(s[0].0.0, se_entry(s[0].1) + tail);
        lemma_entry_round_trip(s[0].1, tail);
        assert(Tick(s[0].0.0) == s[0].0);
        assert(forall|i: int|
            0 <= i < s.drop_first().len() ==> spec_entry_encodable(
                (#[trigger] s.drop_first()[i]).1,
            ));
        lemma_ledger_items_round_trip(s.drop_first(), rest);
        assert(seq![s[0]] + s.drop_first() =~= s);
    }
}

/// A ledger encoding decodes back, whatever follows.
pub proof fn lemma_ledger_round_trip(s: Seq<(Tick, SyncedPlayerCommandView)>, rest: Seq<u8>)
    requires
        spec_ledger_encodable(s),
    ensures
        sd_ledger(se_ledger(s) + rest) == Some((s, rest)),
{
    let tail = se_ledger_items(s) + rest;
    assert(se_ledger(s) + rest =~= se_u64(s.len() as u64) + tail);
    lemma_u64_round_trip(s.len() as u64, tail);
    lemma_ledger_items_round_trip(s, rest);
}

/// An optional `u64`: an absence/presence byte, then the value.
pub open spec fn se_opt_u64(o: Option<u64>) -> Seq<u8> {
    match o {
        None => se_u8(0),
        Some(x) => se_u8(1) + se_u64(x),
    }
}

/// Reads one optional `u64` off the front.
pub open spec fn sd_opt_u64(b: Seq<u8>) -> Option<(Option<u64>, Seq<u8>)> {
    match sd_u8(b) {
        Some((tag, b2)) => if tag == 0 {
            Some((None, b2))
        } else if tag == 1 {
            match sd_u64(b2) {
                Some((x, b3)) => Some((Some(x), b3)),
                None => None,
            }
        } else {
            None
        },
        None => None,
    }
}

/// An optional camera movement report.
pub open spec fn se_opt_camera(o: Option<CameraMovement>) -> Seq<u8> {
    match o {
        None => se_u8(0),
        Some(m) => se_u8(1) + se_camera(m),
    }
}

/// Reads one optional camera movement report off the front.
pub open spec fn sd_opt_camera(b: Seq<u8>) -> Option<(Option<CameraMovement>, Seq<u8>)> {
    match sd_u8(b) {
        Some((tag, b2)) => if tag == 0 {
            Some((None, b2))
        } else if tag == 1 {
            match sd_camera(b2) {
                Some((m, b3)) => Some((Some(m), b3)),
                None => None,
            }
        } else {
            None
        },
        None => None,
    }
}

/// An optional-`u64` encoding decodes back, whatever follows.
pub proof fn lemma_opt_u64_round_trip(o: Option<u64>, rest: Seq<u8>)
    ensures
        sd_opt_u64(se_opt_u64(o) + rest) == Some((o, rest)),
{
    match o {
        None => {
            lemma_u8_round_trip(0, rest);
        },
        Some(x) => {
            assert(se_opt_u64(o) + rest =~= se_u8(1) + (se_u64(x) + rest));
            lemma_u8_round_trip(1, se_u64(x) + rest);
            lemma_u64_round_trip(x, rest);
        },
    }
}

/// An optional-camera encoding decodes back, whatever follows.
pub proof fn lemma_opt_camera_round_trip(o: Option<CameraMovement>, rest: Seq<u8>)
    ensures
        sd_opt_camera(se_opt_camera(o) + rest) == Some((o, rest)),
{
    match o {
        None => {
            lemma_u8_round_trip(0, rest);
        },
        Some(m) => {
            assert(se_opt_camera(o) + rest =~= se_u8(1) + (se_camera(m) + rest));
            lemma_u8_round_trip(1, se_camera(m) + rest);
            lemma_camera_round_trip(m, rest);
        },
    }
}

/// A participant record: identity, display name, optional entity handle,
/// optional movement report.
pub open spec fn se_player(p: PlayerView) -> Seq<u8> {
    se_u64(p.id.0) + se_string(p.username) + se_opt_u64(p.entity) + se_opt_camera(p.movement)
}

/// Reads one participant record off the front.
pub open spec fn sd_player(b: Seq<u8>) -> Option<(PlayerView, Seq<u8>)> {
    match sd_u64(b) {
        Some((id, b)) => match sd_string(b) {
            Some((username, b)) => match sd_opt_u64(b) {
                Some((entity, b)) => match sd_opt_camera(b) {
                    Some((movement, b)) => Some(
                        (PlayerView { id: PlayerId(id), username, entity, movement }, b),
                    ),
                    None => None,
                },
                None => None,
            },
            None => None,
        },
        None => None,
    }
}

/// A participant record is encodable when its display name's UTF-8 form
/// fits the length field.
pub open spec fn spec_player_encodable(p: PlayerView) -> bool {
    encode_utf8(p.username).len() <= u64::MAX
}

/// A participant-record encoding decodes back, whatever follows.
pub proof fn lemma_player_round_trip(p: PlayerView, rest: Seq<u8>)
    requires
        spec_player_encodable(p),
    ensures
        sd_player(se_player(p) + rest) == Some((p, rest)),
{
    let t3 = se_opt_camera(p.movement) + rest;
    let t2 = se_opt_u64(p.entity) + t3;
    let t1 = se_string(p.username) + t2;
    assert(se_player(p) + rest =~= se_u64(p.id.0) + t1);
    lemma_u64_round_trip(p.id.0, t1);
    lemma_string_round_trip(p.username, t2);
    lemma_opt_u64_round_trip(p.entity, t3);
    lemma_opt_camera_round_trip(p.movement, rest);
    assert(PlayerId(p.id.0) == p.id);
}

/// A coordinator-to-participant message: a tag byte, then the payload.
pub open spec fn se_server_msg(m: ServerMessagesView) -> Seq<u8> {
    match m {
        ServerMessagesView::PlayerCreate { entity, player } => se_u8(0) + se_u64(entity)
            + se_player(player),
        ServerMessagesView::PlayerRemove { id } => se_u8(1) + se_u64(id.0),
        ServerMessagesView::UpdateTick { target_tick, commands } => se_u8(2) + se_i64(
            target_tick.0,
        ) + se_entry(commands),
    }
}

/// Reads one coordinator-to-participant message off the front. An
/// unrecognized tag is a decode error.
pub open spec fn sd_server_msg(b: Seq<u8>) -> Option<(ServerMessagesView, Seq<u8>)> {
    match sd_u8(b) {
        Some((tag, b)) => if tag == 0 {
            match sd_u64(b) {
                Some((entity, b)) => match sd_player(b) {
                    Some((player, b)) => Some(
                        (ServerMessagesView::PlayerCreate { entity, player }, b),
                    ),
                    None => None,
                },
                None => None,
            }
        } else if tag == 1 {
            match sd_u64(b) {
                Some((id, b)) => Some((ServerMessagesView::PlayerRemove { id: PlayerId(id) }, b)),
                None => None,
            }
        } else if tag == 2 {
            match sd_i64(b) {
                Some((t, b)) => match sd_entry(b) {
                    Some((commands, b)) => Some(
                        (
                            ServerMessagesView::UpdateTick {
                                target_tick: Tick(t),
                                commands,
                            },
                            b,
                        ),
                    ),
                    None => None,
                },
                None => None,
            }
        } else {
            None
        },
        None => None,
    }
}

/// A coordinator message is encodable when its payload is.
pub open spec fn spec_server_msg_encodable(m: ServerMessagesView) -> bool {
    match m {
        ServerMessagesView::PlayerCreate { entity, player } => spec_player_encodable(player),
        ServerMessagesView::PlayerRemove { id } => true,
        ServerMessagesView::UpdateTick { target_tick, commands } => spec_entry_encodable(commands),
    }
}

/// A coordinator-message encoding decodes back, whatever follows.
pub proof fn lemma_server_msg_round_trip(m: ServerMessagesView, rest: Seq<u8>)
    requires
        spec_server_msg_encodable(m),
    ensures
        sd_server_msg(se_server_msg(m) + rest) == Some((m, rest)),
{
    match m {
        ServerMessagesView::PlayerCreate { entity, player } => {
            let t1 = se_u64(entity) + (se_player(player) + rest);
            assert(se_server_msg(m) + rest =~= se_u8(0) + t1);
            lemma_u8_round_trip(0, t1);
            lemma_u64_round_trip(entity, se_player(player) + rest);
            lemma_player_round_trip(player, rest);
        },
        ServerMessagesView::PlayerRemove { id } => {
            assert(se_server_msg(m) + rest =~= se_u8(1) + (se_u64(id.0) + rest));
            lemma_u8_round_trip(1, se_u64(id.0) + rest);
            lemma_u64_round_trip(id.0, rest);
            assert(PlayerId(id.0) == id);
        },
        ServerMessagesView::UpdateTick { target_tick, commands } => {
            let t1 = se_i64(target_tick.0) + (se_entry(commands) + rest);
            assert(se_server_msg(m) + rest =~= se_u8(2) + t1);
            lemma_u8_round_trip(2, t1);
            lemma_i64_round_trip(target_tick.0, se_entry(commands) + rest);
            lemma_entry_round_trip(commands, rest);
            assert(Tick(target_tick.0) == target_tick);
        },
    }
}

/// A participant-to-coordinator message: a tag byte, then the payload.
pub open spec fn se_client_msg(m: ClientMessagesView) -> Seq<u8> {
    match m {
        ClientMessagesView::ClientUpdateTick { current_tick, commands } => se_u8(0) + se_i64(
            current_tick.0,
        ) + se_batch(commands),
    }
}

/// Reads one participant-to-coordinator message off the front. An
/// unrecognized tag is a decode error.
pub open spec fn sd_client_msg(b: Seq<u8>) -> Option<(ClientMessagesView, Seq<u8>)> {
    match sd_u8(b) {
        Some((tag, b)) => if tag == 0 {
            match sd_i64(b) {
                Some((t, b)) => match sd_batch(b) {
                    Some((commands, b)) => Some(
                        (
                            ClientMessagesView::ClientUpdateTick {
                                current_tick: Tick(t),
                                commands,
                            },
                            b,
                        ),
                    ),
                    None => None,
                },
                None => None,
            }
        } else {
            None
        },
        None => None,
    }
}

/// A participant message is encodable when its batch is.
pub open spec fn spec_client_msg_encodable(m: ClientMessagesView) -> bool {
    match m {
        ClientMessagesView::ClientUpdateTick { current_tick, commands } => spec_batch_encodable(
            commands,
        ),
    }
}

/// A participant-message encoding decodes back, whatever follows.
pub proof fn lemma_client_msg_round_trip(m: ClientMessagesView, rest: Seq<u8>)
    requires
        spec_client_msg_encodable(m),
    ensures
        sd_client_msg(se_client_msg(m) + rest) == Some((m, rest)),
{
    match m {
        ClientMessagesView::ClientUpdateTick { current_tick, commands } => {
            let t1 = se_i64(current_tick.0) + (se_batch(commands) + rest);
            assert(se_client_msg(m) + rest =~= se_u8(0) + t1);
            lemma_u8_round_trip(0, t1);
            lemma_i64_round_trip(current_tick.0, se_batch(commands) + rest);
            lemma_batch_round_trip(commands, rest);
            assert(Tick(current_tick.0) == current_tick);
        },
    }
}

/// Appending one command to a batch appends its encoding.
pub proof fn lemma_se_batch_items_push(s: Seq<PlayerCommandView>, x: PlayerCommandView)
    ensures
        se_batch_items(s.push(x)) == se_batch_items(s) + se_command(x),
    decreases s.len(),
{
    reveal_with_fuel(se_batch_items, 3);
    if s.len() == 0 {
        assert(s.push(x).drop_first() =~= Seq::<PlayerCommandView>::empty());
        assert(se_batch_items(s.push(x)) =~= se_batch_items(s) + se_command(x));
    } else {
        assert(s.push(x).drop_first() =~= s.drop_first().push(x));
        lemma_se_batch_items_push(s.drop_first(), x);
        assert(se_batch_items(s.push(x)) =~= se_batch_items(s) + se_command(x));
    }
}

/// Appending one contribution to a commands list appends its encoding.
pub proof fn lemma_se_list_items_push(
    l: Seq<(PlayerId, Seq<PlayerCommandView>)>,
    x: (PlayerId, Seq<PlayerCommandView>),
)
    ensures
        se_list_items(l.push(x)) == se_list_items(l) + se_list_pair(x),
    decreases l.len(),
{
    reveal_with_fuel(se_list_items, 3);
    if l.len() == 0 {
        assert(l.push(x).drop_first() =~= Seq::<(PlayerId, Seq<PlayerCommandView>)>::empty());
        assert(se_list_items(l.push(x)) =~= se_list_items(l) + se_list_pair(x));
    } else {
        assert(l.push(x).drop_first() =~= l.drop_first().push(x));
        lemma_se_list_items_push(l.drop_first(), x);
        assert(se_list_items(l.push(x)) =~= se_list_items(l) + se_list_pair(x));
    }
}

/// Appending one (tick, entry) pair to a ledger appends its encoding.
pub proof fn lemma_se_ledger_items_push(
    s: Seq<(Tick, SyncedPlayerCommandView)>,
    x: (Tick, SyncedPlayerCommandView),
)
    ensures
        se_ledger_items(s.push(x)) == se_ledger_items(s) + se_i64(x.0.0) + se_entry(x.1),
    decreases s.len(),
{
    reveal_with_fuel(se_ledger_items, 3);
    if s.len() == 0 {
        assert(s.push(x).drop_first() =~= Seq::<(Tick, SyncedPlayerCommandView)>::empty());
        assert(se_ledger_items(s.push(x)) =~= se_ledger_items(s) + se_i64(x.0.0) + se_entry(x.1));
    } else {
        assert(s.push(x).drop_first() =~= s.drop_first().push(x));
        lemma_se_ledger_items_push(s.drop_first(), x);
        assert(se_ledger_items(s.push(x)) =~= se_ledger_items(s) + se_i64(x.0.0) + se_entry(x.1));
    }
}

/// Appends the encoding of a vector of bit patterns.
pub fn enc_vec3(out: &mut Vec<u8>, v: &Vec3Bits)
    ensures
        final(out)@ == old(out)@ + se_vec3(*v),
{
    enc_u32(out, v.x);
    enc_u32(out, v.y);
    enc_u32(out, v.z);
    proof {
        assert(final(out)@ =~= old(out)@ + se_vec3(*v));
    }
}

/// Appends the encoding of a rotation.
pub fn enc_quat(out: &mut Vec<u8>, q: &QuatBits)
    ensures
        final(out)@ == old(out)@ + se_quat(*q),
{
    enc_u32(out, q.x);
    enc_u32(out, q.y);
    enc_u32(out, q.z);
    enc_u32(out, q.w);
    proof {
        assert(final(out)@ =~= old(out)@ + se_quat(*q));
    }
}

/// Appends the encoding of a camera movement report.
pub fn enc_camera(out: &mut Vec<u8>, m: &CameraMovement)
    ensures
        final(out)@ == old(out)@ + se_camera(*m),
{
    enc_vec3(out, &m.velocity);
    enc_u32(out, m.target_camera_height);
    enc_u32(out, m.last_mouse_position_x);
    enc_u32(out, m.last_mouse_position_y);
    enc_u32(out, m.mouse_yaw);
    enc_u32(out, m.mouse_pitch);
    proof {
        assert(final(out)@ =~= old(out)@ + se_camera(*m));
    }
}

/// Appends the encoding of a transform report.
pub fn enc_transform(out: &mut Vec<u8>, t: &SerializableTransform)
    ensures
        final(out)@ == old(out)@ + se_transform(*t),
{
    enc_vec3(out, &t.translation);
    enc_quat(out, &t.rotation);
    enc_vec3(out, &t.scale);
    proof {
        assert(final(out)@ =~= old(out)@ + se_transform(*t));
    }
}

/// Appends the encoding of a command.
pub fn enc_command(out: &mut Vec<u8>, c: &PlayerCommand)
    ensures
        final(out)@ == old(out)@ + se_command(c@),
{
    match c {
        PlayerCommand::Test(s) => {
            enc_u8(out, 0);
            enc_string(out, s.as_str());
        },
        PlayerCommand::SetTargetPosition(v) => {
            enc_u8(out, 1);
            enc_vec3(out, v);
        },
        PlayerCommand::SpawnUnit(v) => {
            enc_u8(out, 2);
            enc_vec3(out, v);
        },
        PlayerCommand::UpdatePlayerPosition(m, t) => {
            enc_u8(out, 3);
            enc_camera(out, m);
            enc_transform(out, t);
        },
    }
    proof {
        assert(final(out)@ =~= old(out)@ + se_command(c@));
    }
}

/// Appends the encoding of a batch.
pub fn enc_batch(out: &mut Vec<u8>, v: &Vec<PlayerCommand>)
    ensures
        final(out)@ == old(out)@ + se_batch(spec_batch_view(*v)),
{
    let n = v.len();
    proof {
        assert(spec_batch_view(*v).len() == v@.len());
    }
    enc_u64(out, n as u64);
    let mut i: usize = 0;
    proof {
        assert(spec_batch_view(*v).subrange(0, 0) =~= Seq::<PlayerCommandView>::empty());
    }
    while i < n
        invariant
            i <= n,
            n == v@.len(),
            spec_batch_view(*v).len() == n,
            out@ =~= old(out)@ + se_u64(n as u64) + se_batch_items(
                spec_batch_view(*v).subrange(0, i as int),
            ),
        decreases n - i,
    {
        enc_command(out, &v[i]);
        i = i + 1;
        proof {
            let sv = spec_batch_view(*v);
            assert(sv.subrange(0, i as int) =~= sv.subrange(0, i - 1).push(sv[i - 1]));
            lemma_se_batch_items_push(sv.subrange(0, i - 1), sv[i - 1]);
            assert(sv[i - 1] == v@[i - 1]@);
            assert(out@ =~= old(out)@ + se_u64(n as u64) + se_batch_items(
                sv.subrange(0, i as int),
            ));
        }
    }
    proof {
        let sv = spec_batch_view(*v);
        assert(sv.subrange(0, n as int) =~= sv);
        assert(final(out)@ =~= old(out)@ + se_batch(sv));
    }
}

/// Appends the encoding of a commands list.
pub fn enc_list(out: &mut Vec<u8>, l: &PlayerCommandsList)
    ensures
        final(out)@ == old(out)@ + se_list(l@),
{
    let n = l.0.len();
    proof {
        assert(l@.len() == l.0@.len());
    }
    enc_u64(out, n as u64);
    let mut i: usize = 0;
    proof {
        assert(l@.subrange(0, 0) =~= Seq::<(PlayerId, Seq<PlayerCommandView>)>::empty());
    }
    while i < n
        invariant
            i <= n,
            n == l.0@.len(),
            l@.len() == n,
            out@ =~= old(out)@ + se_u64(n as u64) + se_list_items(l@.subrange(0, i as int)),
        decreases n - i,
    {
        proof {
            assert(l@[i as int] == (l.0@[i as int].0, spec_batch_view(l.0@[i as int].1)));
        }
        let pair = &l.0[i];
        enc_u64(out, pair.0.0);
        enc_batch(out, &pair.1);
        i = i + 1;
        proof {
            assert(l@.subrange(0, i as int) =~= l@.subrange(0, i - 1).push(l@[i - 1]));
            lemma_se_list_items_push(l@.subrange(0, i - 1), l@[i - 1]);
            assert(out@ =~= old(out)@ + se_u64(n as u64) + se_list_items(
                l@.subrange(0, i as int),
            ));
        }
    }
    proof {
        assert(l@.subrange(0, n as int) =~= l@);
        assert(final(out)@ =~= old(out)@ + se_list(l@));
    }
}

/// Appends the encoding of a ledger entry.
pub fn enc_entry(out: &mut Vec<u8>, e: &SyncedPlayerCommand)
    ensures
        final(out)@ == old(out)@ + se_entry(e@),
{
    enc_list(out, &e.0);
    enc_i64(out, e.1.0);
    proof {
        assert(final(out)@ =~= old(out)@ + se_entry(e@));
    }
}

/// Appends the encoding of a ledger.
pub fn enc_ledger(out: &mut Vec<u8>, l: &SyncedPlayerCommandsList)
    ensures
        final(out)@ == old(out)@ + se_ledger(l@),
{
    let n = l.0.len();
    proof {
        assert(l@.len() == l.0@.len());
    }
    enc_u64(out, n as u64);
    let mut i: usize = 0;
    proof {
        assert(l@.subrange(0, 0) =~= Seq::<(Tick, SyncedPlayerCommandView)>::empty());
    }
    while i < n
        invariant
            i <= n,
            n == l.0@.len(),
            l@.len() == n,
            out@ =~= old(out)@ + se_u64(n as u64) + se_ledger_items(l@.subrange(0, i as int)),
        decreases n - i,
    {
        proof {
            assert(l@[i as int] == (l.0@[i as int].0, l.0@[i as int].1@));
        }
        let pair = &l.0[i];
        enc_i64(out, pair.0.0);
        enc_entry(out, &pair.1);
        i = i + 1;
        proof {
            assert(l@.subrange(0, i as int) =~= l@.subrange(0, i - 1).push(l@[i - 1]));
            lemma_se_ledger_items_push(l@.subrange(0, i - 1), l@[i - 1]);
            assert(out@ =~= old(out)@ + se_u64(n as u64) + se_ledger_items(
                l@.subrange(0, i as int),
            ));
        }
    }
    proof {
        assert(l@.subrange(0, n as int) =~= l@);
        assert(final(out)@ =~= old(out)@ + se_ledger(l@));
    }
}

/// Appends the encoding of an optional `u64`.
pub fn enc_opt_u64(out: &mut Vec<u8>, o: &Option<u64>)
    ensures
        final(out)@ == old(out)@ + se_opt_u64(*o),
{
    match o {
        None => {
            enc_u8(out, 0);
        },
        Some(x) => {
            enc_u8(out, 1);
            enc_u64(out, *x);
        },
    }
    proof {
        assert(final(out)@ =~= old(out)@ + se_opt_u64(*o));
    }
}

/// Appends the encoding of an optional camera movement report.
pub fn enc_opt_camera(out: &mut Vec<u8>, o: &Option<CameraMovement>)
    ensures
        final(out)@ == old(out)@ + se_opt_camera(*o),
{
    match o {
        None => {
            enc_u8(out, 0);
        },
        Some(m) => {
            enc_u8(out, 1);
            enc_camera(out, m);
        },
    }
    proof {
        assert(final(out)@ =~= old(out)@ + se_opt_camera(*o));
    }
}

/// Appends the encoding of a participant record.
pub fn enc_player(out: &mut Vec<u8>, p: &Player)
    ensures
        final(out)@ == old(out)@ + se_player(p@),
{
    enc_u64(out, p.id.0);
    enc_string(out, p.username.0.as_str());
    enc_opt_u64(out, &p.entity);
    enc_opt_camera(out, &p.movement);
    proof {
        assert(final(out)@ =~= old(out)@ + se_player(p@));
    }
}

/// The encoded form of a coordinator-to-participant message.
pub fn encode_server_message(m: &ServerMessages) -> (r: Vec<u8>)
    ensures
        r@ == se_server_msg(m@),
{
    let mut out: Vec<u8> = Vec::new();
    match m {
        ServerMessages::PlayerCreate { entity, player } => {
            enc_u8(&mut out, 0);
            enc_u64(&mut out, *entity);
            enc_player(&mut out, player);
        },
        ServerMessages::PlayerRemove { id } => {
            enc_u8(&mut out, 1);
            enc_u64(&mut out, id.0);
        },
        ServerMessages::UpdateTick { target_tick, commands } => {
            enc_u8(&mut out, 2);
            enc_i64(&mut out, target_tick.0);
            enc_entry(&mut out, commands);
        },
    }
    proof {
        assert(out@ =~= se_server_msg(m@));
    }
    out
}

/// The encoded form of a participant-to-coordinator message.
pub fn encode_client_message(m: &ClientMessages) -> (r: Vec<u8>)
    ensures
        r@ == se_client_msg(m@),
{
    let mut out: Vec<u8> = Vec::new();
    match m {
        ClientMessages::ClientUpdateTick { current_tick, commands } => {
            enc_u8(&mut out, 0);
            enc_i64(&mut out, current_tick.0);
            enc_batch(&mut out, commands);
        },
    }
    proof {
        assert(out@ =~= se_client_msg(m@));
    }
    out
}

/// Reads one vector of bit patterns at `pos`.
pub fn dec_vec3(b: &Vec<u8>, pos: usize) -> (r: Option<(Vec3Bits, usize)>)
    ensures
        match r {
            Some((v, p)) => pos <= p <= b@.len() && sd_vec3(b@.skip(pos as int)) == Some(
                (v, b@.skip(p as int)),
            ),
            None => pos > b@.len() || sd_vec3(b@.skip(pos as int)) is None,
        },
{
    let (x, p) = match dec_u32(b, pos) {
        Some(v) => v,
        None => {
            return None;
        },
    };
    let (y, p) = match dec_u32(b, p) {
        Some(v) => v,
        None => {
            return None;
        },
    };
    let (z, p) = match dec_u32(b, p) {
        Some(v) => v,
        None => {
            return None;
        },
    };
    Some((Vec3Bits { x, y, z }, p))
}

/// Reads one rotation at `pos`.
pub fn dec_quat(b: &Vec<u8>, pos: usize) -> (r: Option<(QuatBits, usize)>)
    ensures
        match r {
            Some((q, p)) => pos <= p <= b@.len() && sd_quat(b@.skip(pos as int)) == Some(
                (q, b@.skip(p as int)),
            ),
            None => pos > b@.len() || sd_quat(b@.skip(pos as int)) is None,
        },
{
    let (x, p) = match dec_u32(b, pos) {
        Some(v) => v,
        None => {
            return None;
        },
    };
    let (y, p) = match dec_u32(b, p) {
        Some(v) => v,
        None => {
            return None;
        },
    };
    let (z, p) = match dec_u32(b, p) {
        Some(v) => v,
        None => {
            return None;
        },
    };
    let (w, p) = match dec_u32(b, p) {
        Some(v) => v,
        None => {
            return None;
        },
    };
    Some((QuatBits { x, y, z, w }, p))
}

/// Reads one camera movement report at `pos`.
pub fn dec_camera(b: &Vec<u8>, pos: usize) -> (r: Option<(CameraMovement, usize)>)
    ensures
        match r {
            Some((m, p)) => pos <= p <= b@.len() && sd_camera(b@.skip(pos as int)) == Some(
                (m, b@.skip(p as int)),
            ),
            None => pos > b@.len() || sd_camera(b@.skip(pos as int)) is None,
        },
{
    let (velocity, p) = match dec_vec3(b, pos) {
        Some(v) => v,
        None => {
            return None;
        },
    };
    let (target_camera_height, p) = match dec_u32(b, p) {
        Some(v) => v,
        None => {
            return None;
        },
    };
    let (last_mouse_position_x, p) = match dec_u32(b, p) {
        Some(v) => v,
        None => {
            return None;
        },
    };
    let (last_mouse_position_y, p) = match dec_u32(b, p) {
        Some(v) => v,
        None => {
            return None;
        },
    };
    let (mouse_yaw, p) = match dec_u32(b, p) {
        Some(v) => v,
        None => {
            return None;
        },
    };
    let (mouse_pitch, p) = match dec_u32(b, p) {
        Some(v) => v,
        None => {
            return None;
        },
    };
    Some(
        (
            CameraMovement {
                velocity,
                target_camera_height,
                last_mouse_position_x,
                last_mouse_position_y,
                mouse_yaw,
                mouse_pitch,
            },
            p,
        ),
    )
}

/// Reads one transform report at `pos`.
pub fn dec_transform(b: &Vec<u8>, pos: usize) -> (r: Option<(SerializableTransform, usize)>)
    ensures
        match r {
            Some((t, p)) => pos <= p <= b@.len() && sd_transform(b@.skip(pos as int)) == Some(
                (t, b@.skip(p as int)),
            ),
            None => pos > b@.len() || sd_transform(b@.skip(pos as int)) is None,
        },
{
    let (translation, p) = match dec_vec3(b, pos) {
        Some(v) => v,
        None => {
            return None;
        },
    };
    let (rotation, p) = match dec_quat(b, p) {
        Some(v) => v,
        None => {
            return None;
        },
    };
    let (scale, p) = match dec_vec3(b, p) {
        Some(v) => v,
        None => {
            return None;
        },
    };
    Some((SerializableTransform { translation, rotation, scale }, p))
}

/// Reads one command at `pos`. An unrecognized tag is a decode error.
pub fn dec_command(b: &Vec<u8>, pos: usize) -> (r: Option<(PlayerCommand, usize)>)
    ensures
        match r {
            Some((c, p)) => pos <= p <= b@.len() && (sd_command(b@.skip(pos as int)) matches Some(
                (cv, rest),
            ) && cv == c@ && rest == b@.skip(p as int)),
            None => pos > b@.len() || sd_command(b@.skip(pos as int)) is None,
        },
{
    let (tag, p) = match dec_u8(b, pos) {
        Some(v) => v,
        None => {
            return None;
        },
    };
    if tag == 0 {
        match dec_string(b, p) {
            Some((s, p2)) => Some((PlayerCommand::Test(s), p2)),
            None => None,
        }
    } else if tag == 1 {
        match dec_vec3(b, p) {
            Some((v, p2)) => Some((PlayerCommand::SetTargetPosition(v), p2)),
            None => None,
        }
    } else if tag == 2 {
        match dec_vec3(b, p) {
            Some((v, p2)) => Some((PlayerCommand::SpawnUnit(v), p2)),
            None => None,
        }
    } else if tag == 3 {
        let (m, p2) = match dec_camera(b, p) {
            Some(v) => v,
            None => {
                return None;
            },
        };
        match dec_transform(b, p2) {
            Some((t, p3)) => Some((PlayerCommand::UpdatePlayerPosition(m, t), p3)),
            None => None,
        }
    } else {
        None
    }
}

/// Reads one batch at `pos`.
pub fn dec_batch(b: &Vec<u8>, pos: usize) -> (r: Option<(Vec<PlayerCommand>, usize)>)
    ensures
        match r {
            Some((v, p)) => pos <= p <= b@.len() && (sd_batch(b@.skip(pos as int)) matches Some(
                (sv, rest),
            ) && sv == spec_batch_view(v) && rest == b@.skip(p as int)),
            None => pos > b@.len() || sd_batch(b@.skip(pos as int)) is None,
        },
{
    let (n, p0) = match dec_u64(b, pos) {
        Some(v) => v,
        None => {
            return None;
        },
    };
    let mut out: Vec<PlayerCommand> = Vec::new();
    let mut p = p0;
    let mut i: u64 = 0;
    proof {
        assert(spec_batch_view(out) =~= Seq::<PlayerCommandView>::empty());
        assert(Seq::<PlayerCommandView>::empty() + (match sd_batch_items(
            b@.skip(p0 as int),
            n as nat,
        ) {
            Some((s2, _)) => s2,
            None => Seq::<PlayerCommandView>::empty(),
        }) =~= (match sd_batch_items(b@.skip(p0 as int), n as nat) {
            Some((s2, _)) => s2,
            None => Seq::<PlayerCommandView>::empty(),
        }));
    }
    while i < n
        invariant
            i <= n,
            pos <= p <= b@.len(),
            pos <= p0 <= b@.len(),
            sd_u64(b@.skip(pos as int)) == Some((n, b@.skip(p0 as int))),
            spec_batch_view(out).len() == i,
            sd_batch_items(b@.skip(p0 as int), n as nat) == (match sd_batch_items(
                b@.skip(p as int),
                (n - i) as nat,
            ) {
                Some((s2, r2)) => Some((spec_batch_view(out) + s2, r2)),
                None => None::<(Seq<PlayerCommandView>, Seq<u8>)>,
            }),
        decreases n - i,
    {
        let ghost prev = spec_batch_view(out);
        let ghost prev_raw = out@;
        let (c, p2) = match dec_command(b, p) {
            Some(v) => v,
            None => {
                return None;
            },
        };
        out.push(c);
        proof {
            assert(prev_raw.map_values(|x: PlayerCommand| x@).len() == prev_raw.len());
            assert(spec_batch_view(out) =~= prev.push(c@));
            let s_mid = sd_batch_items(b@.skip(p2 as int), (n - i - 1) as nat);
            match s_mid {
                Some((s2, r2)) => {
                    assert(prev + (seq![c@] + s2) =~= prev.push(c@) + s2);
                },
                None => {},
            }
        }
        p = p2;
        i = i + 1;
    }
    proof {
        assert(sd_batch_items(b@.skip(p as int), 0) == Some(
            (Seq::<PlayerCommandView>::empty(), b@.skip(p as int)),
        ));
        assert(spec_batch_view(out) + Seq::<PlayerCommandView>::empty() =~= spec_batch_view(out));
    }
    Some((out, p))
}

/// Reads one commands list at `pos`.
pub fn dec_list(b: &Vec<u8>, pos: usize) -> (r: Option<(PlayerCommandsList, usize)>)
    ensures
        match r {
            Some((l, p)) => pos <= p <= b@.len() && (sd_list(b@.skip(pos as int)) matches Some(
                (lv, rest),
            ) && lv == l@ && rest == b@.skip(p as int)),
            None => pos > b@.len() || sd_list(b@.skip(pos as int)) is None,
        },
{
    let (n, p0) = match dec_u64(b, pos) {
        Some(v) => v,
        None => {
            return None;
        },
    };
    let mut out = PlayerCommandsList(Vec::new());
    let mut p = p0;
    let mut i: u64 = 0;
    proof {
        assert(out@ =~= Seq::<(PlayerId, Seq<PlayerCommandView>)>::empty());
    }
    while i < n
        invariant
            i <= n,
            pos <= p <= b@.len(),
            pos <= p0 <= b@.len(),
            sd_u64(b@.skip(pos as int)) == Some((n, b@.skip(p0 as int))),
            out@.len() == i,
            sd_list_items(b@.skip(p0 as int), n as nat) == (match sd_list_items(
                b@.skip(p as int),
                (n - i) as nat,
            ) {
                Some((s2, r2)) => Some((out@ + s2, r2)),
                None => None::<(Seq<(PlayerId, Seq<PlayerCommandView>)>, Seq<u8>)>,
            }),
        decreases n - i,
    {
        let ghost prev = out@;
        let (id, p1) = match dec_u64(b, p) {
            Some(v) => v,
            None => {
                return None;
            },
        };
        let (batch, p2) = match dec_batch(b, p1) {
            Some(v) => v,
            None => {
                return None;
            },
        };
        out.push_batch(PlayerId(id), batch);
        proof {
            let s_mid = sd_list_items(b@.skip(p2 as int), (n - i - 1) as nat);
            match s_mid {
                Some((s2, r2)) => {
                    assert(prev + (seq![(PlayerId(id), spec_batch_view(batch))] + s2) =~= prev.push(
                        (PlayerId(id), spec_batch_view(batch)),
                    ) + s2);
                },
                None => {},
            }
        }
        p = p2;
        i = i + 1;
    }
    proof {
        assert(out@ + Seq::<(PlayerId, Seq<PlayerCommandView>)>::empty() =~= out@);
    }
    Some((out, p))
}

/// Reads one ledger entry at `pos`.
pub fn dec_entry(b: &Vec<u8>, pos: usize) -> (r: Option<(SyncedPlayerCommand, usize)>)
    ensures
        match r {
            Some((e, p)) => pos <= p <= b@.len() && (sd_entry(b@.skip(pos as int)) matches Some(
                (ev, rest),
            ) && ev == e@ && rest == b@.skip(p as int)),
            None => pos > b@.len() || sd_entry(b@.skip(pos as int)) is None,
        },
{
    let (l, p) = match dec_list(b, pos) {
        Some(v) => v,
        None => {
            return None;
        },
    };
    let (t, p2) = match dec_i64(b, p) {
        Some(v) => v,
        None => {
            return None;
        },
    };
    Some((SyncedPlayerCommand(l, MyDateTime(t)), p2))
}

/// Reads one ledger at `pos`.
pub fn dec_ledger(b: &Vec<u8>, pos: usize) -> (r: Option<(SyncedPlayerCommandsList, usize)>)
    ensures
        match r {
            Some((l, p)) => pos <= p <= b@.len() && (sd_ledger(b@.skip(pos as int)) matches Some(
                (lv, rest),
            ) && lv == l@ && rest == b@.skip(p as int)),
            None => pos > b@.len() || sd_ledger(b@.skip(pos as int)) is None,
        },
{
    let (n, p0) = match dec_u64(b, pos) {
        Some(v) => v,
        None => {
            return None;
        },
    };
    let mut out = SyncedPlayerCommandsList(Vec::new());
    let mut p = p0;
    let mut i: u64 = 0;
    proof {
        assert(out@ =~= Seq::<(Tick, SyncedPlayerCommandView)>::empty());
    }
    while i < n
        invariant
            i <= n,
            pos <= p <= b@.len(),
            pos <= p0 <= b@.len(),
            sd_u64(b@.skip(pos as int)) == Some((n, b@.skip(p0 as int))),
            out@.len() == i,
            out@.len() == out.0@.len(),
            sd_ledger_items(b@.skip(p0 as int), n as nat) == (match sd_ledger_items(
                b@.skip(p as int),
                (n - i) as nat,
            ) {
                Some((s2, r2)) => Some((out@ + s2, r2)),
                None => None::<(Seq<(Tick, SyncedPlayerCommandView)>, Seq<u8>)>,
            }),
        decreases n - i,
    {
        let ghost prev = out@;
        let ghost prev_raw = out.0@;
        let (t, p1) = match dec_i64(b, p) {
            Some(v) => v,
            None => {
                return None;
            },
        };
        let (e, p2) = match dec_entry(b, p1) {
            Some(v) => v,
            None => {
                return None;
            },
        };
        let ghost ev = e@;
        out.0.push((Tick(t), e));
        proof {
            assert(prev_raw.map_values(|x: (Tick, SyncedPlayerCommand)| (x.0, x.1@)).len()
                == prev_raw.len());
            assert(out@ =~= prev.push((Tick(t), ev)));
            let s_mid = sd_ledger_items(b@.skip(p2 as int), (n - i - 1) as nat);
            match s_mid {
                Some((s2, r2)) => {
                    assert(prev + (seq![(Tick(t), ev)] + s2) =~= prev.push((Tick(t), ev)) + s2);
                },
                None => {},
            }
        }
        p = p2;
        i = i + 1;
    }
    proof {
        assert(out@ + Seq::<(Tick, SyncedPlayerCommandView)>::empty() =~= out@);
    }
    Some((out, p))
}

/// Reads one optional `u64` at `pos`.
pub fn dec_opt_u64(b: &Vec<u8>, pos: usize) -> (r: Option<(Option<u64>, usize)>)
    ensures
        match r {
            Some((o, p)) => pos <= p <= b@.len() && sd_opt_u64(b@.skip(pos as int)) == Some(
                (o, b@.skip(p as int)),
            ),
            None => pos > b@.len() || sd_opt_u64(b@.skip(pos as int)) is None,
        },
{
    let (tag, p) = match dec_u8(b, pos) {
        Some(v) => v,
        None => {
            return None;
        },
    };
    if tag == 0 {
        Some((None, p))
    } else if tag == 1 {
        match dec_u64(b, p) {
            Some((x, p2)) => Some((Some(x), p2)),
            None => None,
        }
    } else {
        None
    }
}

/// Reads one optional camera movement report at `pos`.
pub fn dec_opt_camera(b: &Vec<u8>, pos: usize) -> (r: Option<(Option<CameraMovement>, usize)>)
    ensures
        match r {
            Some((o, p)) => pos <= p <= b@.len() && sd_opt_camera(b@.skip(pos as int)) == Some(
                (o, b@.skip(p as int)),
            ),
            None => pos > b@.len() || sd_opt_camera(b@.skip(pos as int)) is None,
        },
{
    let (tag, p) = match dec_u8(b, pos) {
        Some(v) => v,
        None => {
            return None;
        },
    };
    if tag == 0 {
        Some((None, p))
    } else if tag == 1 {
        match dec_camera(b, p) {
            Some((m, p2)) => Some((Some(m), p2)),
            None => None,
        }
    } else {
        None
    }
}

/// Reads one participant record at `pos`.
pub fn dec_player(b: &Vec<u8>, pos: usize) -> (r: Option<(Player, usize)>)
    ensures
        match r {
            Some((q, p)) => pos <= p <= b@.len() && (sd_player(b@.skip(pos as int)) matches Some(
                (pv, rest),
            ) && pv == q@ && rest == b@.skip(p as int)),
            None => pos > b@.len() || sd_player(b@.skip(pos as int)) is None,
        },
{
    let (id, p) = match dec_u64(b, pos) {
        Some(v) => v,
        None => {
            return None;
        },
    };
    let (username, p) = match dec_string(b, p) {
        Some(v) => v,
        None => {
            return None;
        },
    };
    let (entity, p) = match dec_opt_u64(b, p) {
        Some(v) => v,
        None => {
            return None;
        },
    };
    let (movement, p) = match dec_opt_camera(b, p) {
        Some(v) => v,
        None => {
            return None;
        },
    };
    Some(
        (
            Player {
                id: PlayerId(id),
                username: crate::Username(username),
                entity,
                movement,
            },
            p,
        ),
    )
}

/// Decodes one coordinator-to-participant message; the message must fill
/// the buffer exactly. An unknown tag or trailing bytes are a protocol
/// mismatch and fail the decode.
pub fn decode_server_message(b: &Vec<u8>) -> (r: Option<ServerMessages>)
    ensures
        match r {
            Some(m) => sd_server_msg(b@) matches Some((mv, rest)) && mv == m@ && rest.len() == 0,
            None => sd_server_msg(b@) is None || (sd_server_msg(b@) matches Some((mv, rest))
                && rest.len() > 0),
        },
{
    proof {
        assert(b@.skip(0) =~= b@);
    }
    let (tag, p) = match dec_u8(b, 0) {
        Some(v) => v,
        None => {
            return None;
        },
    };
    let parsed: Option<(ServerMessages, usize)> = if tag == 0 {
        let (entity, p1) = match dec_u64(b, p) {
            Some(v) => v,
            None => {
                return None;
            },
        };
        match dec_player(b, p1) {
            Some((player, p2)) => Some((ServerMessages::PlayerCreate { entity, player }, p2)),
            None => None,
        }
    } else if tag == 1 {
        match dec_u64(b, p) {
            Some((id, p1)) => Some((ServerMessages::PlayerRemove { id: PlayerId(id) }, p1)),
            None => None,
        }
    } else if tag == 2 {
        let (t, p1) = match dec_i64(b, p) {
            Some(v) => v,
            None => {
                return None;
            },
        };
        match dec_entry(b, p1) {
            Some((commands, p2)) => Some(
                (ServerMessages::UpdateTick { target_tick: Tick(t), commands }, p2),
            ),
            None => None,
        }
    } else {
        None
    };
    match parsed {
        Some((m, p2)) => {
            if p2 == b.len() {
                proof {
                    assert(b@.skip(p2 as int).len() == 0);
                }
                Some(m)
            } else {
                None
            }
        },
        None => None,
    }
}

/// Decodes one participant-to-coordinator message; the message must fill
/// the buffer exactly. An unknown tag or trailing bytes are a protocol
/// mismatch and fail the decode.
pub fn decode_client_message(b: &Vec<u8>) -> (r: Option<ClientMessages>)
    ensures
        match r {
            Some(m) => sd_client_msg(b@) matches Some((mv, rest)) && mv == m@ && rest.len() == 0,
            None => sd_client_msg(b@) is None || (sd_client_msg(b@) matches Some((mv, rest))
                && rest.len() > 0),
        },
{
    proof {
        assert(b@.skip(0) =~= b@);
    }
    let (tag, p) = match dec_u8(b, 0) {
        Some(v) => v,
        None => {
            return None;
        },
    };
    if tag != 0 {
        return None;
    }
    let (t, p1) = match dec_i64(b, p) {
        Some(v) => v,
        None => {
            return None;
        },
    };
    let (commands, p2) = match dec_batch(b, p1) {
        Some(v) => v,
        None => {
            return None;
        },
    };
    if p2 == b.len() {
        proof {
            assert(b@.skip(p2 as int).len() == 0);
        }
        Some(ClientMessages::ClientUpdateTick { current_tick: Tick(t), commands })
    } else {
        None
    }
}

} // verus!
