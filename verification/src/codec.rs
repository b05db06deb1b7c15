//! The binary format for persisted encounter detail: a length-prefixed,
//! fixed-width encoding of the per-entity records, with a proved round
//! trip — decoding an encoded record list yields the same content.

use vstd::prelude::*;
use vstd::utf8::{decode_utf8, encode_utf8, encode_utf8_decode_utf8, valid_utf8};

use crate::stats::CombatStats;
use crate::tables::Skill;

verus! {

/// One persisted entity record: the identity and aggregates the read-side
/// queries reconstruct.
#[derive(Debug, Clone, PartialEq, Eq)]
pub struct PersistedEntity {
    /// The entity id.
    pub entity_id: i64,
    /// Whether the entity is a player character.
    pub is_character: bool,
    /// Whether the entity counted as a boss.
    pub is_boss: bool,
    /// The display name.
    pub name: String,
    /// The class id.
    pub class_id: i32,
    /// The class specialisation.
    pub class_spec: i32,
    /// The ability score.
    pub ability_score: i32,
    /// Damage dealt.
    pub damage: CombatStats,
    /// Healing dealt.
    pub healing: CombatStats,
    /// Damage taken.
    pub taken: CombatStats,
    /// Damage dealt to bosses only.
    pub damage_boss_only: CombatStats,
    /// Accumulated active damage time in milliseconds.
    pub active_dmg_time_ms: u64,
    /// Per-skill damage rows.
    pub dmg_skills: Vec<Skill>,
    /// Per-skill healing rows.
    pub heal_skills: Vec<Skill>,
    /// Per-skill taken rows.
    pub taken_skills: Vec<Skill>,
}

/// Two persisted records carry the same content.
pub open spec fn pe_like(a: PersistedEntity, b: PersistedEntity) -> bool {
    &&& a.entity_id == b.entity_id
    &&& a.is_character == b.is_character
    &&& a.is_boss == b.is_boss
    &&& a.name@ == b.name@
    &&& a.class_id == b.class_id
    &&& a.class_spec == b.class_spec
    &&& a.ability_score == b.ability_score
    &&& a.damage == b.damage
    &&& a.healing == b.healing
    &&& a.taken == b.taken
    &&& a.damage_boss_only == b.damage_boss_only
    &&& a.active_dmg_time_ms == b.active_dmg_time_ms
    &&& a.dmg_skills@ == b.dmg_skills@
    &&& a.heal_skills@ == b.heal_skills@
    &&& a.taken_skills@ == b.taken_skills@
}

/// Two persisted record lists carry the same content.
pub open spec fn pes_like(a: Seq<PersistedEntity>, b: Seq<PersistedEntity>) -> bool {
    a.len() == b.len() && forall|i: int| 0 <= i < a.len() ==> pe_like(a[i], #[trigger] b[i])
}

// ---------------------------------------------------------------------------
// Primitives
// ---------------------------------------------------------------------------

/// The eight little-endian bytes of a 64-bit value.
pub open spec fn spec_enc_u64(x: u64) -> Seq<u8> {
    seq![
        (x & 0xff) as u8,
        ((x >> 8) & 0xff) as u8,
        ((x >> 16) & 0xff) as u8,
        ((x >> 24) & 0xff) as u8,
        ((x >> 32) & 0xff) as u8,
        ((x >> 40) & 0xff) as u8,
        ((x >> 48) & 0xff) as u8,
        ((x >> 56) & 0xff) as u8,
    ]
}

/// Append the eight little-endian bytes of `x`.
fn enc_u64(out: &mut Vec<u8>, x: u64)
    ensures
        final(out)@ == old(out)@ + spec_enc_u64(x),
{
    let ghost o0 = out@;
    out.push((x & 0xff) as u8);
    out.push(((x >> 8) & 0xff) as u8);
    out.push(((x >> 16) & 0xff) as u8);
    out.push(((x >> 24) & 0xff) as u8);
    out.push(((x >> 32) & 0xff) as u8);
    out.push(((x >> 40) & 0xff) as u8);
    out.push(((x >> 48) & 0xff) as u8);
    out.push(((x >> 56) & 0xff) as u8);
    proof {
        assert(out@ =~= o0 + spec_enc_u64(x));
    }
}

/// Read eight little-endian bytes at `pos`; the value read back from an
/// encoding is the encoded value.
fn dec_u64(buf: &Vec<u8>, pos: usize) -> (r: Option<(u64, usize)>)
    ensures
        match r {
            Some((v, p2)) => p2 == pos + 8 && pos + 8 <= buf@.len() && (forall|x: u64|
                buf@.subrange(pos as int, pos as int + 8) == spec_enc_u64(x) ==> v == x),
            None => pos + 8 > buf@.len(),
        },
{
    if pos >= buf.len() || buf.len() - pos < 8 {
        return None;
    }
    let b0 = buf[pos] as u64;
    let b1 = buf[pos + 1] as u64;
    let b2 = buf[pos + 2] as u64;
    let b3 = buf[pos + 3] as u64;
    let b4 = buf[pos + 4] as u64;
    let b5 = buf[pos + 5] as u64;
    let b6 = buf[pos + 6] as u64;
    let b7 = buf[pos + 7] as u64;
    let v = b0 | (b1 << 8) | (b2 << 16) | (b3 << 24) | (b4 << 32) | (b5 << 40) | (b6 << 48) | (b7
        << 56);
    proof {
        assert forall|x: u64|
            buf@.subrange(pos as int, pos as int + 8) == spec_enc_u64(x) implies v == x by {
            assert(buf@.subrange(pos as int, pos as int + 8)[0] == buf@[pos as int]);
            assert(buf@.subrange(pos as int, pos as int + 8)[1] == buf@[pos as int + 1]);
            assert(buf@.subrange(pos as int, pos as int + 8)[2] == buf@[pos as int + 2]);
            assert(buf@.subrange(pos as int, pos as int + 8)[3] == buf@[pos as int + 3]);
            assert(buf@.subrange(pos as int, pos as int + 8)[4] == buf@[pos as int + 4]);
            assert(buf@.subrange(pos as int, pos as int + 8)[5] == buf@[pos as int + 5]);
            assert(buf@.subrange(pos as int, pos as int + 8)[6] == buf@[pos as int + 6]);
            assert(buf@.subrange(pos as int, pos as int + 8)[7] == buf@[pos as int + 7]);
            assert((((x & 0xff) as u8) as u64) | ((((x >> 8) & 0xff) as u8) as u64) << 8 | ((((x
                >> 16) & 0xff) as u8) as u64) << 16 | ((((x >> 24) & 0xff) as u8) as u64) << 24 | (
            (((x >> 32) & 0xff) as u8) as u64) << 32 | ((((x >> 40) & 0xff) as u8) as u64) << 40 | (
            (((x >> 48) & 0xff) as u8) as u64) << 48 | ((((x >> 56) & 0xff) as u8) as u64) << 56
                == x) by (bit_vector);
        }
    }
    Some((v, pos + 8))
}

/// The sixteen little-endian bytes of a 128-bit value: low half first.
pub open spec fn spec_enc_u128(x: u128) -> Seq<u8> {
    spec_enc_u64(x as u64) + spec_enc_u64((x >> 64) as u64)
}

/// Append the sixteen little-endian bytes of `x`.
fn enc_u128(out: &mut Vec<u8>, x: u128)
    ensures
        final(out)@ == old(out)@ + spec_enc_u128(x),
{
    let ghost o0 = out@;
    enc_u64(out, x as u64);
    enc_u64(out, (x >> 64) as u64);
    proof {
        assert(out@ =~= o0 + spec_enc_u128(x));
    }
}

/// Read sixteen little-endian bytes at `pos`.
fn dec_u128(buf: &Vec<u8>, pos: usize) -> (r: Option<(u128, usize)>)
    ensures
        match r {
            Some((v, p2)) => p2 == pos + 16 && pos + 16 <= buf@.len() && (forall|x: u128|
                buf@.subrange(pos as int, pos as int + 16) == spec_enc_u128(x) ==> v == x),
            None => pos + 16 > buf@.len(),
        },
{
    let (lo, p1) = match dec_u64(buf, pos) {
        Some(r) => r,
        None => {
            return None;
        },
    };
    let (hi, p2) = match dec_u64(buf, p1) {
        Some(r) => r,
        None => {
            return None;
        },
    };
    let v = (lo as u128) | ((hi as u128) << 64);
    proof {
        assert forall|x: u128|
            buf@.subrange(pos as int, pos as int + 16) == spec_enc_u128(x) implies v == x by {
            let sub = buf@.subrange(pos as int, pos as int + 16);
            assert(sub.subrange(0, 8) =~= buf@.subrange(pos as int, pos as int + 8));
            assert(sub.subrange(8, 16) =~= buf@.subrange(pos as int + 8, pos as int + 16));
            assert(spec_enc_u128(x).subrange(0, 8) =~= spec_enc_u64(x as u64));
            assert(spec_enc_u128(x).subrange(8, 16) =~= spec_enc_u64((x >> 64) as u64));
            assert(lo == x as u64);
            assert(hi == (x >> 64) as u64);
            assert(((x as u64) as u128) | ((((x >> 64) as u64) as u128) << 64) == x)
                by (bit_vector);
        }
    }
    Some((v, pos + 16))
}

/// The little-endian bytes of a signed 64-bit value (two's complement).
pub open spec fn spec_enc_i64(x: i64) -> Seq<u8> {
    spec_enc_u64(x as u64)
}

/// Append a signed 64-bit value.
fn enc_i64(out: &mut Vec<u8>, x: i64)
    ensures
        final(out)@ == old(out)@ + spec_enc_i64(x),
{
    enc_u64(out, x as u64);
}

/// Read a signed 64-bit value at `pos`.
fn dec_i64(buf: &Vec<u8>, pos: usize) -> (r: Option<(i64, usize)>)
    ensures
        match r {
            Some((v, p2)) => p2 == pos + 8 && pos + 8 <= buf@.len() && (forall|x: i64|
                buf@.subrange(pos as int, pos as int + 8) == spec_enc_i64(x) ==> v == x),
            None => pos + 8 > buf@.len(),
        },
{
    let (u, p2) = match dec_u64(buf, pos) {
        Some(r) => r,
        None => {
            return None;
        },
    };
    let v = u as i64;
    proof {
        assert forall|x: i64|
            buf@.subrange(pos as int, pos as int + 8) == spec_enc_i64(x) implies v == x by {
            assert(u == x as u64);
            assert(((x as u64) as i64) == x) by (bit_vector);
        }
    }
    Some((v, p2))
}

/// The little-endian bytes of a signed 32-bit value, widened.
pub open spec fn spec_enc_i32(x: i32) -> Seq<u8> {
    spec_enc_i64(x as i64)
}

/// Append a signed 32-bit value.
fn enc_i32(out: &mut Vec<u8>, x: i32)
    ensures
        final(out)@ == old(out)@ + spec_enc_i32(x),
{
    enc_i64(out, x as i64);
}

/// Read a signed 32-bit value at `pos`. Out-of-range stored values fail.
fn dec_i32(buf: &Vec<u8>, pos: usize) -> (r: Option<(i32, usize)>)
    ensures
        match r {
            Some((v, p2)) => p2 == pos + 8 && pos + 8 <= buf@.len() && (forall|x: i32|
                buf@.subrange(pos as int, pos as int + 8) == spec_enc_i32(x) ==> v == x),
            None => pos + 8 > buf@.len() || (forall|x: i32|
                buf@.subrange(pos as int, pos as int + 8) != spec_enc_i32(x)),
        },
{
    let (w, p2) = match dec_i64(buf, pos) {
        Some(r) => r,
        None => {
            return None;
        },
    };
    if w < i32::MIN as i64 || w > i32::MAX as i64 {
        proof {
            assert forall|x: i32|
                buf@.subrange(pos as int, pos as int + 8) != spec_enc_i32(x) by {
                if buf@.subrange(pos as int, pos as int + 8) == spec_enc_i32(x) {
                    assert(w == x as i64);
                }
            }
        }
        return None;
    }
    Some((w as i32, p2))
}

/// A one-byte boolean.
pub open spec fn spec_enc_bool(x: bool) -> Seq<u8> {
    seq![if x { 1u8 } else { 0u8 }]
}

/// Append a boolean.
fn enc_bool(out: &mut Vec<u8>, x: bool)
    ensures
        final(out)@ == old(out)@ + spec_enc_bool(x),
{
    let ghost o0 = out@;
    out.push(if x { 1 } else { 0 });
    proof {
        assert(out@ =~= o0 + spec_enc_bool(x));
    }
}

/// Read a boolean at `pos`.
fn dec_bool(buf: &Vec<u8>, pos: usize) -> (r: Option<(bool, usize)>)
    ensures
        match r {
            Some((v, p2)) => p2 == pos + 1 && pos + 1 <= buf@.len() && (forall|x: bool|
                buf@.subrange(pos as int, pos as int + 1) == spec_enc_bool(x) ==> v == x),
            None => pos + 1 > buf@.len(),
        },
{
    if pos >= buf.len() {
        return None;
    }
    let v = buf[pos] != 0;
    proof {
        assert forall|x: bool|
            buf@.subrange(pos as int, pos as int + 1) == spec_enc_bool(x) implies v == x by {
            assert(buf@.subrange(pos as int, pos as int + 1)[0] == buf@[pos as int]);
        }
    }
    Some((v, pos + 1))
}

/// The six counters of a record, in order.
pub open spec fn spec_enc_stats(s: CombatStats) -> Seq<u8> {
    spec_enc_u128(s.total) + spec_enc_u128(s.hits) + spec_enc_u128(s.crit_hits) + spec_enc_u128(
        s.crit_total,
    ) + spec_enc_u128(s.lucky_hits) + spec_enc_u128(s.lucky_total)
}

/// Append a counter record.
fn enc_stats(out: &mut Vec<u8>, s: &CombatStats)
    ensures
        final(out)@ == old(out)@ + spec_enc_stats(*s),
{
    let ghost o0 = out@;
    enc_u128(out, s.total);
    enc_u128(out, s.hits);
    enc_u128(out, s.crit_hits);
    enc_u128(out, s.crit_total);
    enc_u128(out, s.lucky_hits);
    enc_u128(out, s.lucky_total);
    proof {
        assert(out@ =~= o0 + spec_enc_stats(*s));
    }
}

/// Read a counter record at `pos`.
fn dec_stats(buf: &Vec<u8>, pos: usize) -> (r: Option<(CombatStats, usize)>)
    ensures
        match r {
            Some((v, p2)) => p2 == pos + 96 && pos + 96 <= buf@.len() && (forall|x: CombatStats|
                buf@.subrange(pos as int, pos as int + 96) == spec_enc_stats(x) ==> v == x),
            None => pos + 96 > buf@.len(),
        },
{
    let (total, p1) = match dec_u128(buf, pos) {
        Some(r) => r,
        None => {
            return None;
        },
    };
    let (hits, p2) = match dec_u128(buf, p1) {
        Some(r) => r,
        None => {
            return None;
        },
    };
    let (crit_hits, p3) = match dec_u128(buf, p2) {
        Some(r) => r,
        None => {
            return None;
        },
    };
    let (crit_total, p4) = match dec_u128(buf, p3) {
        Some(r) => r,
        None => {
            return None;
        },
    };
    let (lucky_hits, p5) = match dec_u128(buf, p4) {
        Some(r) => r,
        None => {
            return None;
        },
    };
    let (lucky_total, p6) = match dec_u128(buf, p5) {
        Some(r) => r,
        None => {
            return None;
        },
    };
    let v = CombatStats { total, hits, crit_hits, crit_total, lucky_hits, lucky_total };
    proof {
        assert forall|x: CombatStats|
            buf@.subrange(pos as int, pos as int + 96) == spec_enc_stats(x) implies v == x by {
            let sub = buf@.subrange(pos as int, pos as int + 96);
            assert(buf@.subrange(pos as int, pos as int + 16) =~= sub.subrange(0, 16));
            assert(buf@.subrange(pos as int + 16, pos as int + 32) =~= sub.subrange(16, 32));
            assert(buf@.subrange(pos as int + 32, pos as int + 48) =~= sub.subrange(32, 48));
            assert(buf@.subrange(pos as int + 48, pos as int + 64) =~= sub.subrange(48, 64));
            assert(buf@.subrange(pos as int + 64, pos as int + 80) =~= sub.subrange(64, 80));
            assert(buf@.subrange(pos as int + 80, pos as int + 96) =~= sub.subrange(80, 96));
            assert(sub.subrange(0, 16) =~= spec_enc_u128(x.total));
            assert(sub.subrange(16, 32) =~= spec_enc_u128(x.hits));
            assert(sub.subrange(32, 48) =~= spec_enc_u128(x.crit_hits));
            assert(sub.subrange(48, 64) =~= spec_enc_u128(x.crit_total));
            assert(sub.subrange(64, 80) =~= spec_enc_u128(x.lucky_hits));
            assert(sub.subrange(80, 96) =~= spec_enc_u128(x.lucky_total));
        }
    }
    Some((v, p6))
}

} // verus!

verus! {

/// A length-prefixed UTF-8 string.
pub open spec fn spec_enc_str(s: Seq<char>) -> Seq<u8> {
    spec_enc_u64(encode_utf8(s).len() as u64) + encode_utf8(s)
}

/// Decode a byte vector as UTF-8.
///
/// Relies on `String::from_utf8`: it accepts exactly the valid UTF-8 byte
/// sequences and decodes them; anything else is an error.
#[verifier::external_body]
pub(crate) fn bytes_to_string(v: Vec<u8>) -> (r: Option<String>)
    ensures
        match r {
            Some(s) => valid_utf8(v@) && s@ == decode_utf8(v@),
            None => !valid_utf8(v@),
        },
{
    match String::from_utf8(v) {
        Ok(s) => Some(s),
        Err(_) => None,
    }
}

/// Append a length-prefixed string.
fn enc_str(out: &mut Vec<u8>, s: &String)
    ensures
        final(out)@ == old(out)@ + spec_enc_str(s@),
{
    let ghost o0 = out@;
    let bytes: &[u8] = s.as_str().as_bytes();
    let blen: usize = bytes.len();
    proof {
        assert(bytes@ == encode_utf8(s@));
    }
    enc_u64(out, blen as u64);
    let mut i: usize = 0;
    while i < blen
        invariant
            blen == bytes@.len(),
            bytes@ == encode_utf8(s@),
            0 <= i <= blen,
            out@ == o0 + spec_enc_u64(blen as u64) + bytes@.take(i as int),
        decreases blen - i,
    {
        let ghost before = out@;
        out.push(bytes[i]);
        proof {
            assert(out@ =~= o0 + spec_enc_u64(blen as u64) + bytes@.take(i as int + 1));
        }
        i = i + 1;
    }
    proof {
        assert(bytes@.take(blen as int) =~= bytes@);
        assert(out@ =~= o0 + spec_enc_str(s@));
    }
}

/// Read a length-prefixed string at `pos`.
fn dec_str(buf: &Vec<u8>, pos: usize) -> (r: Option<(String, usize)>)
    ensures
        match r {
            Some((s, p2)) => forall|x: Seq<char>|
                spec_str_at(buf@, pos as int, x) ==> s@ == x && p2 == pos + spec_enc_str(x).len(),
            None => forall|x: Seq<char>| !spec_str_at(buf@, pos as int, x),
        },
{
    let (blen, p1) = match dec_u64(buf, pos) {
        Some(r) => r,
        None => {
            proof {
                lemma_no_str_short(buf@, pos as int);
            }
            return None;
        },
    };
    let total_len: usize = buf.len();
    if blen > usize::MAX as u64 || p1 as u64 > (total_len as u64) || blen > (total_len - p1)
        as u64 {
        proof {
            assert forall|x: Seq<char>| !spec_str_at(buf@, pos as int, x) by {
                if spec_str_at(buf@, pos as int, x) {
                    lemma_str_at_parts(buf@, pos as int, x);
                    assert(pos + 8 + encode_utf8(x).len() <= total_len);
                    assert(encode_utf8(x).len() <= usize::MAX);
                    assert(blen == encode_utf8(x).len());
                }
            }
        }
        return None;
    }
    let n: usize = blen as usize;
    let mut bytes: Vec<u8> = Vec::new();
    let mut i: usize = 0;
    while i < n
        invariant
            p1 + n <= buf@.len(),
            buf@.len() <= usize::MAX,
            0 <= i <= n,
            bytes@.len() == i,
            forall|j: int| 0 <= j < i ==> bytes@[j] == buf@[p1 + j],
        decreases n - i,
    {
        bytes.push(buf[p1 + i]);
        i = i + 1;
    }
    proof {
        assert(bytes@ =~= buf@.subrange(p1 as int, p1 as int + n));
    }
    let s = match bytes_to_string(bytes) {
        Some(s) => s,
        None => {
            proof {
                assert forall|x: Seq<char>| !spec_str_at(buf@, pos as int, x) by {
                    if spec_str_at(buf@, pos as int, x) {
                        lemma_str_at_parts(buf@, pos as int, x);
                        vstd::utf8::encode_utf8_valid_utf8(x);
                    }
                }
            }
            return None;
        },
    };
    proof {
        assert forall|x: Seq<char>|
            spec_str_at(buf@, pos as int, x) implies s@ == x && p1 + n == pos + spec_enc_str(
            x,
        ).len() by {
            lemma_str_at_parts(buf@, pos as int, x);
            assert(encode_utf8(x).len() as u64 == blen);
            assert(buf@.subrange(p1 as int, p1 as int + n) =~= encode_utf8(x));
            encode_utf8_decode_utf8(x);
        }
    }
    Some((s, p1 + n))
}

/// The buffer holds the encoding of string `x` at `i`.
pub open spec fn spec_str_at(buf: Seq<u8>, i: int, x: Seq<char>) -> bool {
    &&& 0 <= i
    &&& i + spec_enc_str(x).len() <= buf.len()
    &&& buf.subrange(i, i + spec_enc_str(x).len()) == spec_enc_str(x)
}

/// Unpacking a string encoding into its length prefix and payload.
proof fn lemma_str_at_parts(buf: Seq<u8>, i: int, x: Seq<char>)
    requires
        spec_str_at(buf, i, x),
    ensures
        i + 8 <= buf.len(),
        buf.subrange(i, i + 8) == spec_enc_u64(encode_utf8(x).len() as u64),
        buf.subrange(i + 8, i + 8 + encode_utf8(x).len()) == encode_utf8(x),
{
    let e = spec_enc_str(x);
    assert(buf.subrange(i, i + 8) =~= e.subrange(0, 8));
    assert(e.subrange(0, 8) =~= spec_enc_u64(encode_utf8(x).len() as u64));
    assert(buf.subrange(i + 8, i + 8 + encode_utf8(x).len()) =~= e.subrange(8, e.len() as int));
    assert(e.subrange(8, e.len() as int) =~= encode_utf8(x));
}

/// Too little room even for a length prefix: no string is encoded here.
proof fn lemma_no_str_short(buf: Seq<u8>, i: int)
    requires
        i + 8 > buf.len() || i < 0,
    ensures
        forall|x: Seq<char>| !spec_str_at(buf, i, x),
{
}

} // verus!

verus! {

/// One per-skill row: its id and counters.
pub open spec fn spec_enc_skill(k: Skill) -> Seq<u8> {
    spec_enc_i64(k.skill_id) + spec_enc_stats(k.stats)
}

/// A list of per-skill rows, without a length prefix.
pub open spec fn spec_enc_skill_rows(s: Seq<Skill>) -> Seq<u8>
    decreases s.len(),
{
    if s.len() == 0 {
        Seq::<u8>::empty()
    } else {
        spec_enc_skill(s[0]) + spec_enc_skill_rows(s.drop_first())
    }
}

/// A length-prefixed per-skill table.
#[verifier::opaque]
pub open spec fn spec_enc_skills(s: Seq<Skill>) -> Seq<u8> {
    spec_enc_u64(s.len() as u64) + spec_enc_skill_rows(s)
}

/// Append a per-skill table.
fn enc_skills(out: &mut Vec<u8>, v: &Vec<Skill>)
    ensures
        final(out)@ == old(out)@ + spec_enc_skills(v@),
{
    let ghost o0 = out@;
    let n: usize = v.len();
    enc_u64(out, n as u64);
    let mut i: usize = 0;
    proof {
        reveal(crate::codec::spec_enc_skills);
        assert(spec_enc_skill_rows(v@.take(0int)) =~= Seq::<u8>::empty());
        assert(out@ =~= o0 + spec_enc_u64(n as u64) + spec_enc_skill_rows(v@.take(0int)));
    }
    while i < n
        invariant
            n == v@.len(),
            0 <= i <= n,
            out@ == o0 + spec_enc_u64(n as u64) + spec_enc_skill_rows(v@.take(i as int)),
        decreases n - i,
    {
        let row = v[i];
        let ghost before = out@;
        enc_i64(out, row.skill_id);
        enc_stats(out, &row.stats);
        proof {
            lemma_enc_skill_rows_snoc(v@, i as int);
            assert(out@ =~= o0 + spec_enc_u64(n as u64) + spec_enc_skill_rows(
                v@.take(i as int + 1),
            ));
        }
        i = i + 1;
    }
    proof {
        reveal(crate::codec::spec_enc_skills);
        assert(v@.take(n as int) =~= v@);
    }
}

/// A row list grows at the back by one encoded row.
proof fn lemma_enc_skill_rows_snoc(s: Seq<Skill>, i: int)
    requires
        0 <= i < s.len(),
    ensures
        spec_enc_skill_rows(s.take(i + 1)) == spec_enc_skill_rows(s.take(i)) + spec_enc_skill(
            s[i],
        ),
    decreases i,
{
    if i == 0 {
        assert(s.take(1)[0] == s[0]);
        assert(s.take(1).drop_first() =~= Seq::<Skill>::empty());
        assert(spec_enc_skill_rows(Seq::<Skill>::empty()) =~= Seq::<u8>::empty());
        assert(spec_enc_skill(s[0]) + Seq::<u8>::empty() =~= spec_enc_skill(s[0]));
        assert(spec_enc_skill_rows(s.take(1)) =~= spec_enc_skill(s[0]));
        assert(spec_enc_skill_rows(s.take(0)) =~= Seq::<u8>::empty());
        assert(spec_enc_skill_rows(s.take(0)) + spec_enc_skill(s[0]) =~= spec_enc_skill(s[0]));
    } else {
        assert(s.take(i + 1)[0] == s[0]);
        assert(s.take(i + 1).drop_first() =~= s.drop_first().take(i));
        assert(s.take(i)[0] == s[0]);
        assert(s.take(i).drop_first() =~= s.drop_first().take(i - 1));
        lemma_enc_skill_rows_snoc(s.drop_first(), i - 1);
        assert(s.drop_first()[i - 1] == s[i]);
        assert(spec_enc_skill(s[0]) + (spec_enc_skill_rows(s.drop_first().take(i - 1))
            + spec_enc_skill(s[i])) =~= (spec_enc_skill(s[0]) + spec_enc_skill_rows(
            s.drop_first().take(i - 1),
        )) + spec_enc_skill(s[i]));
    }
}

/// Read `count` per-skill rows at `pos`.
#[verifier::rlimit(100)]
#[verifier::spinoff_prover]
fn dec_skill_rows(buf: &Vec<u8>, pos: usize, count: usize) -> (r: Option<(Vec<Skill>, usize)>)
    ensures
        match r {
            Some((v, p2)) => v@.len() == count && (forall|xs: Seq<Skill>|
                #![trigger spec_enc_skill_rows(xs)]
                xs.len() == count && spec_rows_at(buf@, pos as int, xs) ==> v@ == xs && p2 == pos
                    + spec_enc_skill_rows(xs).len()),
            None => forall|xs: Seq<Skill>|
                #![trigger spec_enc_skill_rows(xs)]
                xs.len() == count ==> !spec_rows_at(buf@, pos as int, xs),
        },
    decreases count,
{
    if count == 0 {
        proof {
            assert forall|xs: Seq<Skill>|
                #![trigger spec_enc_skill_rows(xs)]
                xs.len() == 0 && spec_rows_at(buf@, pos as int, xs) implies Seq::<Skill>::empty()
                == xs && pos as int == pos + spec_enc_skill_rows(xs).len() by {
                assert(xs =~= Seq::<Skill>::empty());
            }
        }
        let v: Vec<Skill> = Vec::new();
        return Some((v, pos));
    }
    let (skill_id, p1) = match dec_i64(buf, pos) {
        Some(r) => r,
        None => {
            proof {
                assert forall|xs: Seq<Skill>|
                    #![trigger spec_enc_skill_rows(xs)]
                    xs.len() == count implies !spec_rows_at(buf@, pos as int, xs) by {
                    if spec_rows_at(buf@, pos as int, xs) {
                        lemma_rows_parts(buf@, pos as int, xs);
                    }
                }
            }
            return None;
        },
    };
    let (stats, p2) = match dec_stats(buf, p1) {
        Some(r) => r,
        None => {
            proof {
                assert forall|xs: Seq<Skill>|
                    #![trigger spec_enc_skill_rows(xs)]
                    xs.len() == count implies !spec_rows_at(buf@, pos as int, xs) by {
                    if spec_rows_at(buf@, pos as int, xs) {
                        lemma_rows_parts(buf@, pos as int, xs);
                    }
                }
            }
            return None;
        },
    };
    let (rest, p3) = match dec_skill_rows(buf, p2, count - 1) {
        Some(r) => r,
        None => {
            proof {
                assert forall|xs: Seq<Skill>|
                    #![trigger spec_enc_skill_rows(xs)]
                    xs.len() == count implies !spec_rows_at(buf@, pos as int, xs) by {
                    if spec_rows_at(buf@, pos as int, xs) {
                        lemma_rows_parts(buf@, pos as int, xs);
                        assert(xs.drop_first().len() == count - 1);
                        assert(spec_enc_skill_rows(xs.drop_first()) == spec_enc_skill_rows(
                            xs.drop_first(),
                        ));
                    }
                }
            }
            return None;
        },
    };
    let mut v: Vec<Skill> = Vec::new();
    v.push(Skill { skill_id, stats });
    let mut rest = rest;
    let rn: usize = rest.len();
    let mut k: usize = 0;
    while k < rn
        invariant
            rn == rest@.len(),
            0 <= k <= rn,
            v@.len() == k + 1,
            v@[0] == (Skill { skill_id, stats }),
            forall|j: int| 0 <= j < k ==> v@[j + 1] == rest@[j],
        decreases rn - k,
    {
        v.push(rest[k]);
        k = k + 1;
    }
    proof {
        assert forall|xs: Seq<Skill>|
            #![trigger spec_enc_skill_rows(xs)]
            xs.len() == count && spec_rows_at(buf@, pos as int, xs) implies v@ == xs && p3 == pos
            + spec_enc_skill_rows(xs).len() by {
            let e = spec_enc_skill_rows(xs);
            assert(e == spec_enc_skill(xs[0]) + spec_enc_skill_rows(xs.drop_first()));
            let e0 = spec_enc_skill(xs[0]);
            let er = spec_enc_skill_rows(xs.drop_first());
            assert(buf@.subrange(pos as int, pos as int + 8) =~= e.subrange(0, 8));
            assert(e.subrange(0, 8) =~= spec_enc_i64(xs[0].skill_id));
            assert(skill_id == xs[0].skill_id);
            assert(buf@.subrange(pos as int + 8, pos as int + 104) =~= e.subrange(8, 104));
            assert(e.subrange(8, 104) =~= spec_enc_stats(xs[0].stats));
            assert(stats == xs[0].stats);
            assert(xs.drop_first().len() == count - 1);
            assert(buf@.subrange(p2 as int, p2 as int + er.len()) =~= e.subrange(
                104,
                e.len() as int,
            ));
            assert(e.subrange(104, e.len() as int) =~= er);
            assert(spec_rows_at(buf@, p2 as int, xs.drop_first()));
            assert(rest@ == xs.drop_first());
            assert forall|j: int| 0 <= j < xs.len() implies v@[j] == xs[j] by {
                if j == 0 {
                    assert(v@[0] == (Skill { skill_id, stats }));
                } else {
                    assert(v@[j] == rest@[j - 1]);
                    assert(rest@[j - 1] == xs.drop_first()[j - 1]);
                }
            }
            assert(v@ =~= xs);
        }
    }
    Some((v, p3))
}

/// The buffer holds the row-list encoding of `xs` at `i`.
pub open spec fn spec_rows_at(buf: Seq<u8>, i: int, xs: Seq<Skill>) -> bool {
    &&& 0 <= i
    &&& i + spec_enc_skill_rows(xs).len() <= buf.len()
    &&& buf.subrange(i, i + spec_enc_skill_rows(xs).len()) == spec_enc_skill_rows(xs)
}

} // verus!

verus! {

/// The view content of a persisted record, for specification purposes:
/// every field with references to vectors and strings replaced by their
/// views.
pub struct PeView {
    /// The entity id.
    pub entity_id: i64,
    /// Whether the entity is a player character.
    pub is_character: bool,
    /// Whether the entity counted as a boss.
    pub is_boss: bool,
    /// The display name.
    pub name: Seq<char>,
    /// The class id.
    pub class_id: i32,
    /// The class specialisation.
    pub class_spec: i32,
    /// The ability score.
    pub ability_score: i32,
    /// Damage dealt.
    pub damage: CombatStats,
    /// Healing dealt.
    pub healing: CombatStats,
    /// Damage taken.
    pub taken: CombatStats,
    /// Damage dealt to bosses only.
    pub damage_boss_only: CombatStats,
    /// Accumulated active damage time in milliseconds.
    pub active_dmg_time_ms: u64,
    /// Per-skill damage rows.
    pub dmg_skills: Seq<Skill>,
    /// Per-skill healing rows.
    pub heal_skills: Seq<Skill>,
    /// Per-skill taken rows.
    pub taken_skills: Seq<Skill>,
}

impl PersistedEntity {
    /// The record's content.
    pub open spec fn view_pe(self) -> PeView {
        PeView {
            entity_id: self.entity_id,
            is_character: self.is_character,
            is_boss: self.is_boss,
            name: self.name@,
            class_id: self.class_id,
            class_spec: self.class_spec,
            ability_score: self.ability_score,
            damage: self.damage,
            healing: self.healing,
            taken: self.taken,
            damage_boss_only: self.damage_boss_only,
            active_dmg_time_ms: self.active_dmg_time_ms,
            dmg_skills: self.dmg_skills@,
            heal_skills: self.heal_skills@,
            taken_skills: self.taken_skills@,
        }
    }
}

/// The identity group of a record's encoding.
#[verifier::opaque]
pub open spec fn spec_enc_pe_g1(x: PeView) -> Seq<u8> {
    spec_enc_i64(x.entity_id) + (spec_enc_bool(x.is_character) + (spec_enc_bool(x.is_boss)
        + spec_enc_str(x.name)))
}

/// The class group of a record's encoding.
#[verifier::opaque]
pub open spec fn spec_enc_pe_g2(x: PeView) -> Seq<u8> {
    spec_enc_i32(x.class_id) + (spec_enc_i32(x.class_spec) + spec_enc_i32(x.ability_score))
}

/// The first half of the counter group.
#[verifier::opaque]
pub open spec fn spec_enc_pe_g3a(x: PeView) -> Seq<u8> {
    spec_enc_stats(x.damage) + spec_enc_stats(x.healing)
}

/// The second half of the counter group.
#[verifier::opaque]
pub open spec fn spec_enc_pe_g3b(x: PeView) -> Seq<u8> {
    spec_enc_stats(x.taken) + (spec_enc_stats(x.damage_boss_only) + spec_enc_u64(
        x.active_dmg_time_ms,
    ))
}

/// The counter group of a record's encoding.
#[verifier::opaque]
pub open spec fn spec_enc_pe_g3(x: PeView) -> Seq<u8> {
    spec_enc_pe_g3a(x) + spec_enc_pe_g3b(x)
}

/// The table group of a record's encoding.
pub open spec fn spec_enc_pe_g4(x: PeView) -> Seq<u8> {
    spec_enc_skills(x.dmg_skills) + (spec_enc_skills(x.heal_skills) + spec_enc_skills(
        x.taken_skills,
    ))
}

/// The fixed part of a record's encoding after the identity group.
#[verifier::opaque]
pub open spec fn spec_enc_pe_g23(x: PeView) -> Seq<u8> {
    spec_enc_pe_g2(x) + spec_enc_pe_g3(x)
}

/// The encoding of one persisted record's content.
#[verifier::opaque]
pub open spec fn spec_enc_pe(x: PeView) -> Seq<u8> {
    spec_enc_pe_g1(x) + (spec_enc_pe_g23(x) + spec_enc_pe_g4(x))
}

/// Append the identity group of a record.
#[verifier::rlimit(100)]
#[verifier::spinoff_prover]
fn enc_pe_g1(out: &mut Vec<u8>, e: &PersistedEntity)
    ensures
        final(out)@ == old(out)@ + spec_enc_pe_g1(e.view_pe()),
{
    let ghost o0 = out@;
    enc_i64(out, e.entity_id);
    enc_bool(out, e.is_character);
    enc_bool(out, e.is_boss);
    enc_str(out, &e.name);
    proof {
        reveal(crate::codec::spec_enc_pe_g1);
        assert(out@ =~= o0 + spec_enc_pe_g1(e.view_pe()));
    }
}

/// Append the class group of a record.
#[verifier::rlimit(100)]
#[verifier::spinoff_prover]
fn enc_pe_g2(out: &mut Vec<u8>, e: &PersistedEntity)
    ensures
        final(out)@ == old(out)@ + spec_enc_pe_g2(e.view_pe()),
{
    let ghost o0 = out@;
    enc_i32(out, e.class_id);
    enc_i32(out, e.class_spec);
    enc_i32(out, e.ability_score);
    proof {
        reveal(crate::codec::spec_enc_pe_g2);
        assert(out@ =~= o0 + spec_enc_pe_g2(e.view_pe()));
    }
}

/// Append the counter group of a record.
#[verifier::rlimit(100)]
#[verifier::spinoff_prover]
fn enc_pe_g3(out: &mut Vec<u8>, e: &PersistedEntity)
    ensures
        final(out)@ == old(out)@ + spec_enc_pe_g3(e.view_pe()),
{
    let ghost o0 = out@;
    enc_stats(out, &e.damage);
    enc_stats(out, &e.healing);
    proof {
        reveal(crate::codec::spec_enc_pe_g3a);
        assert(out@ =~= o0 + spec_enc_pe_g3a(e.view_pe()));
    }
    let ghost o1 = out@;
    enc_stats(out, &e.taken);
    enc_stats(out, &e.damage_boss_only);
    enc_u64(out, e.active_dmg_time_ms);
    proof {
        reveal(crate::codec::spec_enc_pe_g3a);
        reveal(crate::codec::spec_enc_pe_g3b);
        reveal(crate::codec::spec_enc_pe_g3);
        assert(out@ =~= o1 + spec_enc_pe_g3b(e.view_pe()));
        assert(out@ =~= o0 + spec_enc_pe_g3(e.view_pe()));
    }
}

/// Append the table group of a record.
#[verifier::rlimit(100)]
#[verifier::spinoff_prover]
fn enc_pe_g4(out: &mut Vec<u8>, e: &PersistedEntity)
    ensures
        final(out)@ == old(out)@ + spec_enc_pe_g4(e.view_pe()),
{
    let ghost o0 = out@;
    enc_skills(out, &e.dmg_skills);
    enc_skills(out, &e.heal_skills);
    enc_skills(out, &e.taken_skills);
    proof {
        reveal(crate::codec::spec_enc_pe_g4);
        assert(out@ =~= o0 + spec_enc_pe_g4(e.view_pe()));
    }
}

/// Append one persisted record.
#[verifier::rlimit(100)]
#[verifier::spinoff_prover]
fn enc_pe(out: &mut Vec<u8>, e: &PersistedEntity)
    ensures
        final(out)@ == old(out)@ + spec_enc_pe(e.view_pe()),
{
    let ghost o0 = out@;
    enc_pe_g1(out, e);
    let ghost o1 = out@;
    enc_pe_g2(out, e);
    let ghost o2 = out@;
    enc_pe_g3(out, e);
    let ghost o3 = out@;
    enc_pe_g4(out, e);
    proof {
        reveal(crate::codec::spec_enc_pe_g23);
        reveal(crate::codec::spec_enc_pe);
        assert(o2 =~= o0 + (spec_enc_pe_g1(e.view_pe()) + spec_enc_pe_g2(e.view_pe())));
        assert(out@ =~= o0 + spec_enc_pe(e.view_pe()));
    }
}

/// The buffer holds the encoding of record content `x` at `i`.
pub open spec fn spec_pe_at(buf: Seq<u8>, i: int, x: PeView) -> bool {
    &&& 0 <= i
    &&& i + spec_enc_pe(x).len() <= buf.len()
    &&& buf.subrange(i, i + spec_enc_pe(x).len()) == spec_enc_pe(x)
}

/// The decoded identity group.
pub struct PeG1 {
    /// The entity id.
    pub entity_id: i64,
    /// Whether the entity is a player character.
    pub is_character: bool,
    /// Whether the entity counted as a boss.
    pub is_boss: bool,
    /// The display name.
    pub name: String,
}

/// The decoded class and counter groups.
pub struct PeG23 {
    /// The class id.
    pub class_id: i32,
    /// The class specialisation.
    pub class_spec: i32,
    /// The ability score.
    pub ability_score: i32,
    /// Damage dealt.
    pub damage: CombatStats,
    /// Healing dealt.
    pub healing: CombatStats,
    /// Damage taken.
    pub taken: CombatStats,
    /// Damage dealt to bosses only.
    pub damage_boss_only: CombatStats,
    /// Accumulated active damage time in milliseconds.
    pub active_dmg_time_ms: u64,
}

/// Read the identity group at `pos`.
#[verifier::rlimit(100)]
#[verifier::spinoff_prover]
fn dec_pe_g1(buf: &Vec<u8>, pos: usize) -> (r: Option<(PeG1, usize)>)
    ensures
        match r {
            Some((g, p2)) => forall|x: PeView|
                spec_part_at(buf@, pos as int, spec_enc_pe_g1(x)) ==> g.entity_id == x.entity_id
                    && g.is_character == x.is_character && g.is_boss == x.is_boss && g.name@
                    == x.name && p2 == pos + spec_enc_pe_g1(x).len(),
            None => forall|x: PeView| !spec_part_at(buf@, pos as int, spec_enc_pe_g1(x)),
        },
{
    let (entity_id, p1) = match dec_i64(buf, pos) {
        Some(r) => r,
        None => {
            proof {
                assert forall|x: PeView| !spec_part_at(
                    buf@,
                    pos as int,
                    spec_enc_pe_g1(x),
                ) by {
                    if spec_part_at(buf@, pos as int, spec_enc_pe_g1(x)) {
                        lemma_g1_parts(buf@, pos as int, x);
                    }
                }
            }
            return None;
        },
    };
    let (is_character, p2) = match dec_bool(buf, p1) {
        Some(r) => r,
        None => {
            proof {
                assert forall|x: PeView| !spec_part_at(
                    buf@,
                    pos as int,
                    spec_enc_pe_g1(x),
                ) by {
                    if spec_part_at(buf@, pos as int, spec_enc_pe_g1(x)) {
                        lemma_g1_parts(buf@, pos as int, x);
                    }
                }
            }
            return None;
        },
    };
    let (is_boss, p3) = match dec_bool(buf, p2) {
        Some(r) => r,
        None => {
            proof {
                assert forall|x: PeView| !spec_part_at(
                    buf@,
                    pos as int,
                    spec_enc_pe_g1(x),
                ) by {
                    if spec_part_at(buf@, pos as int, spec_enc_pe_g1(x)) {
                        lemma_g1_parts(buf@, pos as int, x);
                    }
                }
            }
            return None;
        },
    };
    let (name, p4) = match dec_str(buf, p3) {
        Some(r) => r,
        None => {
            proof {
                assert forall|x: PeView| !spec_part_at(
                    buf@,
                    pos as int,
                    spec_enc_pe_g1(x),
                ) by {
                    if spec_part_at(buf@, pos as int, spec_enc_pe_g1(x)) {
                        lemma_g1_parts(buf@, pos as int, x);
                    }
                }
            }
            return None;
        },
    };
    proof {
        assert forall|x: PeView|
            spec_part_at(buf@, pos as int, spec_enc_pe_g1(x)) implies entity_id == x.entity_id
            && is_character == x.is_character && is_boss == x.is_boss && name@ == x.name && p4
            == pos + spec_enc_pe_g1(x).len() by {
            reveal(crate::codec::spec_enc_pe_g1);
            let q0 = pos as int;
            let s_id = spec_enc_i64(x.entity_id);
            let s_ch = spec_enc_bool(x.is_character);
            let s_bo = spec_enc_bool(x.is_boss);
            let s_nm = spec_enc_str(x.name);
            lemma_split_at(buf@, q0, s_id, s_ch + (s_bo + s_nm));
            lemma_split_at(buf@, q0 + 8, s_ch, s_bo + s_nm);
            lemma_split_at(buf@, q0 + 9, s_bo, s_nm);
            assert(spec_str_at(buf@, p3 as int, x.name));
        }
    }
    Some((PeG1 { entity_id, is_character, is_boss, name }, p4))
}

/// Read the class group at `pos`.
#[verifier::rlimit(100)]
#[verifier::spinoff_prover]
fn dec_pe_g2(buf: &Vec<u8>, pos: usize) -> (r: Option<((i32, i32, i32), usize)>)
    ensures
        match r {
            Some((g, p2)) => forall|x: PeView|
                spec_part_at(buf@, pos as int, spec_enc_pe_g2(x)) ==> g.0 == x.class_id && g.1
                    == x.class_spec && g.2 == x.ability_score && p2 == pos + spec_enc_pe_g2(
                    x,
                ).len(),
            None => forall|x: PeView| !spec_part_at(buf@, pos as int, spec_enc_pe_g2(x)),
        },
{
    let (class_id, p5) = match dec_i32(buf, pos) {
        Some(r) => r,
        None => {
            proof {
                assert forall|x: PeView| !spec_part_at(
                    buf@,
                    pos as int,
                    spec_enc_pe_g2(x),
                ) by {
                    if spec_part_at(buf@, pos as int, spec_enc_pe_g2(x)) {
                        lemma_g2_parts(buf@, pos as int, x);
                    }
                }
            }
            return None;
        },
    };
    let (class_spec, p6) = match dec_i32(buf, p5) {
        Some(r) => r,
        None => {
            proof {
                assert forall|x: PeView| !spec_part_at(
                    buf@,
                    pos as int,
                    spec_enc_pe_g2(x),
                ) by {
                    if spec_part_at(buf@, pos as int, spec_enc_pe_g2(x)) {
                        lemma_g2_parts(buf@, pos as int, x);
                    }
                }
            }
            return None;
        },
    };
    let (ability_score, p7) = match dec_i32(buf, p6) {
        Some(r) => r,
        None => {
            proof {
                assert forall|x: PeView| !spec_part_at(
                    buf@,
                    pos as int,
                    spec_enc_pe_g2(x),
                ) by {
                    if spec_part_at(buf@, pos as int, spec_enc_pe_g2(x)) {
                        lemma_g2_parts(buf@, pos as int, x);
                    }
                }
            }
            return None;
        },
    };
    proof {
        assert forall|x: PeView|
            spec_part_at(buf@, pos as int, spec_enc_pe_g2(x)) implies class_id == x.class_id
            && class_spec == x.class_spec && ability_score == x.ability_score && p7 == pos
            + spec_enc_pe_g2(x).len() by {
            reveal(crate::codec::spec_enc_pe_g2);
            let q1 = pos as int;
            let s_ci = spec_enc_i32(x.class_id);
            let s_cs = spec_enc_i32(x.class_spec);
            let s_ab = spec_enc_i32(x.ability_score);
            lemma_split_at(buf@, q1, s_ci, s_cs + s_ab);
            lemma_split_at(buf@, q1 + 8, s_cs, s_ab);
        }
    }
    Some(((class_id, class_spec, ability_score), p7))
}

/// Read the first half of the counter group at `pos`.
#[verifier::rlimit(100)]
#[verifier::spinoff_prover]
fn dec_pe_g3a(buf: &Vec<u8>, pos: usize) -> (r: Option<((CombatStats, CombatStats), usize)>)
    ensures
        match r {
            Some((g, p2)) => forall|x: PeView|
                spec_part_at(buf@, pos as int, spec_enc_pe_g3a(x)) ==> g.0 == x.damage && g.1
                    == x.healing && p2 == pos + spec_enc_pe_g3a(x).len(),
            None => forall|x: PeView| !spec_part_at(buf@, pos as int, spec_enc_pe_g3a(x)),
        },
{
    let (damage, p8) = match dec_stats(buf, pos) {
        Some(r) => r,
        None => {
            proof {
                assert forall|x: PeView| !spec_part_at(
                    buf@,
                    pos as int,
                    spec_enc_pe_g3a(x),
                ) by {
                    if spec_part_at(buf@, pos as int, spec_enc_pe_g3a(x)) {
                        lemma_g3a_len(x);
                    }
                }
            }
            return None;
        },
    };
    let (healing, p9) = match dec_stats(buf, p8) {
        Some(r) => r,
        None => {
            proof {
                assert forall|x: PeView| !spec_part_at(
                    buf@,
                    pos as int,
                    spec_enc_pe_g3a(x),
                ) by {
                    if spec_part_at(buf@, pos as int, spec_enc_pe_g3a(x)) {
                        lemma_g3a_len(x);
                    }
                }
            }
            return None;
        },
    };
    proof {
        assert forall|x: PeView|
            spec_part_at(buf@, pos as int, spec_enc_pe_g3a(x)) implies damage == x.damage
            && healing == x.healing && p9 == pos + spec_enc_pe_g3a(x).len() by {
            reveal(crate::codec::spec_enc_pe_g3a);
            lemma_split_at(buf@, pos as int, spec_enc_stats(x.damage), spec_enc_stats(x.healing));
        }
    }
    Some(((damage, healing), p9))
}

/// Read the second half of the counter group at `pos`.
#[verifier::rlimit(100)]
#[verifier::spinoff_prover]
fn dec_pe_g3b(buf: &Vec<u8>, pos: usize) -> (r: Option<
    ((CombatStats, CombatStats, u64), usize),
>)
    ensures
        match r {
            Some((g, p2)) => forall|x: PeView|
                spec_part_at(buf@, pos as int, spec_enc_pe_g3b(x)) ==> g.0 == x.taken && g.1
                    == x.damage_boss_only && g.2 == x.active_dmg_time_ms && p2 == pos
                    + spec_enc_pe_g3b(x).len(),
            None => forall|x: PeView| !spec_part_at(buf@, pos as int, spec_enc_pe_g3b(x)),
        },
{
    let (taken, p10) = match dec_stats(buf, pos) {
        Some(r) => r,
        None => {
            proof {
                assert forall|x: PeView| !spec_part_at(
                    buf@,
                    pos as int,
                    spec_enc_pe_g3b(x),
                ) by {
                    if spec_part_at(buf@, pos as int, spec_enc_pe_g3b(x)) {
                        lemma_g3b_len(x);
                    }
                }
            }
            return None;
        },
    };
    let (damage_boss_only, p11) = match dec_stats(buf, p10) {
        Some(r) => r,
        None => {
            proof {
                assert forall|x: PeView| !spec_part_at(
                    buf@,
                    pos as int,
                    spec_enc_pe_g3b(x),
                ) by {
                    if spec_part_at(buf@, pos as int, spec_enc_pe_g3b(x)) {
                        lemma_g3b_len(x);
                    }
                }
            }
            return None;
        },
    };
    let (active_dmg_time_ms, p12) = match dec_u64(buf, p11) {
        Some(r) => r,
        None => {
            proof {
                assert forall|x: PeView| !spec_part_at(
                    buf@,
                    pos as int,
                    spec_enc_pe_g3b(x),
                ) by {
                    if spec_part_at(buf@, pos as int, spec_enc_pe_g3b(x)) {
                        lemma_g3b_len(x);
                    }
                }
            }
            return None;
        },
    };
    proof {
        assert forall|x: PeView|
            spec_part_at(buf@, pos as int, spec_enc_pe_g3b(x)) implies taken == x.taken
            && damage_boss_only == x.damage_boss_only && active_dmg_time_ms
            == x.active_dmg_time_ms && p12 == pos + spec_enc_pe_g3b(x).len() by {
            reveal(crate::codec::spec_enc_pe_g3b);
            let s_t = spec_enc_stats(x.taken);
            let s_b = spec_enc_stats(x.damage_boss_only);
            let s_ac = spec_enc_u64(x.active_dmg_time_ms);
            lemma_split_at(buf@, pos as int, s_t, s_b + s_ac);
            lemma_split_at(buf@, pos as int + 96, s_b, s_ac);
        }
    }
    Some(((taken, damage_boss_only, active_dmg_time_ms), p12))
}

/// Read one length-prefixed per-skill table at `pos`.
#[verifier::rlimit(100)]
#[verifier::spinoff_prover]
fn dec_skills(buf: &Vec<u8>, pos: usize) -> (r: Option<(Vec<Skill>, usize)>)
    ensures
        match r {
            Some((v, p2)) => forall|xs: Seq<Skill>|
                #![trigger spec_enc_skills(xs)]
                spec_part_at(buf@, pos as int, spec_enc_skills(xs)) ==> v@ == xs && p2 == pos
                    + spec_enc_skills(xs).len(),
            None => forall|xs: Seq<Skill>|
                #![trigger spec_enc_skills(xs)]
                !spec_part_at(buf@, pos as int, spec_enc_skills(xs)),
        },
{
    let total_len: usize = buf.len();
    let (n, p1) = match dec_u64(buf, pos) {
        Some(r) => r,
        None => {
            proof {
                assert forall|xs: Seq<Skill>|
                    #![trigger spec_enc_skills(xs)]
                    !spec_part_at(buf@, pos as int, spec_enc_skills(xs)) by {
                    if spec_part_at(buf@, pos as int, spec_enc_skills(xs)) {
                        lemma_skills_parts(buf@, pos as int, xs, total_len as int);
                    }
                }
            }
            return None;
        },
    };
    if n > usize::MAX as u64 {
        proof {
            assert forall|xs: Seq<Skill>|
                #![trigger spec_enc_skills(xs)]
                !spec_part_at(buf@, pos as int, spec_enc_skills(xs)) by {
                if spec_part_at(buf@, pos as int, spec_enc_skills(xs)) {
                    lemma_skills_parts(buf@, pos as int, xs, total_len as int);
                    assert(n == xs.len() as u64);
                }
            }
        }
        return None;
    }
    let (v, p2) = match dec_skill_rows(buf, p1, n as usize) {
        Some(r) => r,
        None => {
            proof {
                assert forall|xs: Seq<Skill>|
                    #![trigger spec_enc_skills(xs)]
                    !spec_part_at(buf@, pos as int, spec_enc_skills(xs)) by {
                    if spec_part_at(buf@, pos as int, spec_enc_skills(xs)) {
                        lemma_skills_parts(buf@, pos as int, xs, total_len as int);
                        assert(n == xs.len() as u64);
                        assert(xs.len() == n as usize);
                        assert(spec_enc_skill_rows(xs) == spec_enc_skill_rows(xs));
                    }
                }
            }
            return None;
        },
    };
    proof {
        assert forall|xs: Seq<Skill>|
            #![trigger spec_enc_skills(xs)]
            spec_part_at(buf@, pos as int, spec_enc_skills(xs)) implies v@ == xs && p2 == pos
            + spec_enc_skills(xs).len() by {
            reveal(crate::codec::spec_enc_skills);
            lemma_rows_len(xs);
            lemma_split_at(buf@, pos as int, spec_enc_u64(xs.len() as u64), spec_enc_skill_rows(xs));
            assert(pos + 8 + 104 * xs.len() <= total_len);
            assert(xs.len() <= usize::MAX);
            assert(n == xs.len() as u64);
            assert(n == xs.len());
            assert(spec_rows_at(buf@, p1 as int, xs));
        }
    }
    Some((v, p2))
}

/// The buffer holds byte sequence `part` at `i`.
pub open spec fn spec_part_at(buf: Seq<u8>, i: int, part: Seq<u8>) -> bool {
    &&& 0 <= i
    &&& i + part.len() <= buf.len()
    &&& buf.subrange(i, i + part.len()) == part
}

/// Read one persisted record at `pos`: the record read back from an
/// encoding carries the encoded content.
#[verifier::rlimit(100)]
#[verifier::spinoff_prover]
fn dec_pe(buf: &Vec<u8>, pos: usize) -> (r: Option<(PersistedEntity, usize)>)
    ensures
        match r {
            Some((e, p2)) => forall|x: PeView|
                spec_pe_at(buf@, pos as int, x) ==> e.view_pe() == x && p2 == pos + spec_enc_pe(
                    x,
                ).len(),
            None => forall|x: PeView| !spec_pe_at(buf@, pos as int, x),
        },
{
    let (g1, p1) = match dec_pe_g1(buf, pos) {
        Some(r) => r,
        None => {
            proof {
                assert forall|x: PeView| !spec_pe_at(buf@, pos as int, x) by {
                    if spec_pe_at(buf@, pos as int, x) {
                        lemma_pe_parts(buf@, pos as int, x);
                    }
                }
            }
            return None;
        },
    };
    let (g2, p1b) = match dec_pe_g2(buf, p1) {
        Some(r) => r,
        None => {
            proof {
                assert forall|x: PeView| !spec_pe_at(buf@, pos as int, x) by {
                    if spec_pe_at(buf@, pos as int, x) {
                        lemma_pe_parts(buf@, pos as int, x);
                    }
                }
            }
            return None;
        },
    };
    let (g3a, p1c) = match dec_pe_g3a(buf, p1b) {
        Some(r) => r,
        None => {
            proof {
                assert forall|x: PeView| !spec_pe_at(buf@, pos as int, x) by {
                    if spec_pe_at(buf@, pos as int, x) {
                        lemma_pe_parts(buf@, pos as int, x);
                    }
                }
            }
            return None;
        },
    };
    let (g3b, p2) = match dec_pe_g3b(buf, p1c) {
        Some(r) => r,
        None => {
            proof {
                assert forall|x: PeView| !spec_pe_at(buf@, pos as int, x) by {
                    if spec_pe_at(buf@, pos as int, x) {
                        lemma_pe_parts(buf@, pos as int, x);
                    }
                }
            }
            return None;
        },
    };
    let (dmg_skills, p3) = match dec_skills(buf, p2) {
        Some(r) => r,
        None => {
            proof {
                assert forall|x: PeView| !spec_pe_at(buf@, pos as int, x) by {
                    if spec_pe_at(buf@, pos as int, x) {
                        lemma_pe_parts(buf@, pos as int, x);
                    }
                }
            }
            return None;
        },
    };
    let (heal_skills, p4) = match dec_skills(buf, p3) {
        Some(r) => r,
        None => {
            proof {
                assert forall|x: PeView| !spec_pe_at(buf@, pos as int, x) by {
                    if spec_pe_at(buf@, pos as int, x) {
                        lemma_pe_parts(buf@, pos as int, x);
                    }
                }
            }
            return None;
        },
    };
    let (taken_skills, p5) = match dec_skills(buf, p4) {
        Some(r) => r,
        None => {
            proof {
                assert forall|x: PeView| !spec_pe_at(buf@, pos as int, x) by {
                    if spec_pe_at(buf@, pos as int, x) {
                        lemma_pe_parts(buf@, pos as int, x);
                    }
                }
            }
            return None;
        },
    };
    let e = PersistedEntity {
        entity_id: g1.entity_id,
        is_character: g1.is_character,
        is_boss: g1.is_boss,
        name: g1.name,
        class_id: g2.0,
        class_spec: g2.1,
        ability_score: g2.2,
        damage: g3a.0,
        healing: g3a.1,
        taken: g3b.0,
        damage_boss_only: g3b.1,
        active_dmg_time_ms: g3b.2,
        dmg_skills,
        heal_skills,
        taken_skills,
    };
    proof {
        assert forall|x: PeView|
            spec_pe_at(buf@, pos as int, x) implies e.view_pe() == x && p5 == pos + spec_enc_pe(
            x,
        ).len() by {
            reveal(crate::codec::spec_enc_pe);
            reveal(crate::codec::spec_enc_pe_g23);
            reveal(crate::codec::spec_enc_pe_g3);
            reveal(crate::codec::spec_enc_pe_g4);
            let q0 = pos as int;
            let h1 = spec_enc_pe_g1(x);
            let h2 = spec_enc_pe_g2(x);
            let h3 = spec_enc_pe_g3(x);
            let h23 = spec_enc_pe_g23(x);
            let h4 = spec_enc_pe_g4(x);
            lemma_split_at(buf@, q0, h1, h23 + h4);
            assert(spec_part_at(buf@, q0, h1));
            let q1 = q0 + h1.len();
            lemma_split_at(buf@, q1, h23, h4);
            lemma_split_at(buf@, q1, h2, h3);
            assert(spec_part_at(buf@, q1, h2));
            let q1b = q1 + h2.len();
            assert(spec_part_at(buf@, q1b, h3));
            lemma_split_at(buf@, q1b, spec_enc_pe_g3a(x), spec_enc_pe_g3b(x));
            assert(spec_part_at(buf@, q1b, spec_enc_pe_g3a(x)));
            let q1c = q1b + spec_enc_pe_g3a(x).len();
            assert(spec_part_at(buf@, q1c, spec_enc_pe_g3b(x)));
            let q2 = q1 + h23.len();
            let s_ds = spec_enc_skills(x.dmg_skills);
            let s_hs = spec_enc_skills(x.heal_skills);
            let s_ts = spec_enc_skills(x.taken_skills);
            lemma_split_at(buf@, q2, s_ds, s_hs + s_ts);
            assert(spec_part_at(buf@, q2, s_ds));
            let q3 = q2 + s_ds.len();
            lemma_split_at(buf@, q3, s_hs, s_ts);
            assert(spec_part_at(buf@, q3, s_hs));
            let q4 = q3 + s_hs.len();
            assert(spec_part_at(buf@, q4, s_ts));
        }
    }
    Some((e, p5))
}

} // verus!

verus! {

/// Splitting a stored concatenation into its two parts.
proof fn lemma_split_at(buf: Seq<u8>, i: int, a: Seq<u8>, b: Seq<u8>)
    requires
        0 <= i,
        i + a.len() + b.len() <= buf.len(),
        buf.subrange(i, i + a.len() + b.len()) == a + b,
    ensures
        buf.subrange(i, i + a.len()) == a,
        buf.subrange(i + a.len(), i + a.len() + b.len()) == b,
{
    let s = buf.subrange(i, i + a.len() + b.len());
    assert forall|j: int| 0 <= j < a.len() implies buf.subrange(i, i + a.len())[j] == a[j] by {
        assert(s[j] == buf[i + j]);
        assert(s[j] == (a + b)[j]);
    }
    assert(buf.subrange(i, i + a.len()) =~= a);
    assert forall|j: int|
        0 <= j < b.len() implies buf.subrange(i + a.len(), i + a.len() + b.len())[j] == b[j] by {
        assert(s[a.len() + j] == buf[i + a.len() + j]);
        assert(s[a.len() + j] == (a + b)[a.len() + j]);
    }
    assert(buf.subrange(i + a.len(), i + a.len() + b.len()) =~= b);
}

/// Each encoded per-skill row takes 104 bytes.
proof fn lemma_rows_len(s: Seq<Skill>)
    ensures
        spec_enc_skill_rows(s).len() == 104 * s.len(),
    decreases s.len(),
{
    if s.len() > 0 {
        lemma_rows_len(s.drop_first());
    }
}

} // verus!

verus! {

/// The record list's content.
pub open spec fn spec_pes_views(s: Seq<PersistedEntity>) -> Seq<PeView> {
    s.map_values(|e: PersistedEntity| e.view_pe())
}

/// A list of records, without a length prefix.
pub open spec fn spec_enc_pe_rows(s: Seq<PeView>) -> Seq<u8>
    decreases s.len(),
{
    if s.len() == 0 {
        Seq::<u8>::empty()
    } else {
        spec_enc_pe(s[0]) + spec_enc_pe_rows(s.drop_first())
    }
}

/// The blob format: a record count followed by the records.
pub open spec fn spec_enc_pes(s: Seq<PeView>) -> Seq<u8> {
    spec_enc_u64(s.len() as u64) + spec_enc_pe_rows(s)
}

/// A record list grows at the back by one encoded record.
proof fn lemma_enc_pe_rows_snoc(s: Seq<PeView>, i: int)
    requires
        0 <= i < s.len(),
    ensures
        spec_enc_pe_rows(s.take(i + 1)) == spec_enc_pe_rows(s.take(i)) + spec_enc_pe(s[i]),
    decreases i,
{
    if i == 0 {
        assert(s.take(1)[0] == s[0]);
        assert(s.take(1).drop_first() =~= Seq::<PeView>::empty());
        assert(spec_enc_pe_rows(Seq::<PeView>::empty()) =~= Seq::<u8>::empty());
        assert(spec_enc_pe(s[0]) + Seq::<u8>::empty() =~= spec_enc_pe(s[0]));
        assert(spec_enc_pe_rows(s.take(1)) =~= spec_enc_pe(s[0]));
        assert(spec_enc_pe_rows(s.take(0)) =~= Seq::<u8>::empty());
        assert(spec_enc_pe_rows(s.take(0)) + spec_enc_pe(s[0]) =~= spec_enc_pe(s[0]));
    } else {
        assert(s.take(i + 1)[0] == s[0]);
        assert(s.take(i + 1).drop_first() =~= s.drop_first().take(i));
        assert(s.take(i)[0] == s[0]);
        assert(s.take(i).drop_first() =~= s.drop_first().take(i - 1));
        lemma_enc_pe_rows_snoc(s.drop_first(), i - 1);
        assert(s.drop_first()[i - 1] == s[i]);
        assert(spec_enc_pe(s[0]) + (spec_enc_pe_rows(s.drop_first().take(i - 1)) + spec_enc_pe(
            s[i],
        )) =~= (spec_enc_pe(s[0]) + spec_enc_pe_rows(s.drop_first().take(i - 1))) + spec_enc_pe(
            s[i],
        ));
    }
}

/// Encode a record list into the blob format.
pub fn encode_entities(entities: &Vec<PersistedEntity>) -> (r: Vec<u8>)
    ensures
        r@ == spec_enc_pes(spec_pes_views(entities@)),
{
    let mut out: Vec<u8> = Vec::new();
    let n: usize = entities.len();
    enc_u64(&mut out, n as u64);
    let ghost views = spec_pes_views(entities@);
    proof {
        assert(views.take(0int) =~= Seq::<PeView>::empty());
        assert(spec_enc_pe_rows(views.take(0int)) =~= Seq::<u8>::empty());
        assert(out@ =~= spec_enc_u64(n as u64) + spec_enc_pe_rows(views.take(0int)));
    }
    let mut i: usize = 0;
    while i < n
        invariant
            n == entities@.len(),
            views == spec_pes_views(entities@),
            0 <= i <= n,
            out@ == spec_enc_u64(n as u64) + spec_enc_pe_rows(views.take(i as int)),
        decreases n - i,
    {
        let e = &entities[i];
        enc_pe(&mut out, e);
        proof {
            assert(views[i as int] == entities@[i as int].view_pe());
            lemma_enc_pe_rows_snoc(views, i as int);
            assert(out@ =~= spec_enc_u64(n as u64) + spec_enc_pe_rows(views.take(i as int + 1)));
        }
        i = i + 1;
    }
    proof {
        assert(views.take(n as int) =~= views);
    }
    out
}

/// Read `count` records at `pos`.
#[verifier::rlimit(100)]
#[verifier::spinoff_prover]
fn dec_pe_rows(buf: &Vec<u8>, pos: usize, count: usize) -> (r: Option<
    (Vec<PersistedEntity>, usize),
>)
    ensures
        match r {
            Some((v, p2)) => v@.len() == count && (forall|xs: Seq<PeView>|
                #![trigger spec_enc_pe_rows(xs)]
                xs.len() == count && spec_part_at(buf@, pos as int, spec_enc_pe_rows(xs))
                    ==> spec_pes_views(v@) == xs && p2 == pos + spec_enc_pe_rows(xs).len()),
            None => forall|xs: Seq<PeView>|
                #![trigger spec_enc_pe_rows(xs)]
                xs.len() == count ==> !spec_part_at(buf@, pos as int, spec_enc_pe_rows(xs)),
        },
    decreases count,
{
    if count == 0 {
        proof {
            assert forall|xs: Seq<PeView>|
                #![trigger spec_enc_pe_rows(xs)]
                xs.len() == 0 && spec_part_at(buf@, pos as int, spec_enc_pe_rows(xs)) implies
                spec_pes_views(Seq::<PersistedEntity>::empty()) == xs && pos as int == pos
                + spec_enc_pe_rows(xs).len() by {
                assert(xs =~= Seq::<PeView>::empty());
                assert(spec_pes_views(Seq::<PersistedEntity>::empty()) =~= Seq::<PeView>::empty());
            }
        }
        let v: Vec<PersistedEntity> = Vec::new();
        proof {
            assert(spec_pes_views(v@) =~= Seq::<PeView>::empty());
        }
        return Some((v, pos));
    }
    let (first, p1) = match dec_pe(buf, pos) {
        Some(r) => r,
        None => {
            proof {
                assert forall|xs: Seq<PeView>|
                    #![trigger spec_enc_pe_rows(xs)]
                    xs.len() == count implies !spec_part_at(
                    buf@,
                    pos as int,
                    spec_enc_pe_rows(xs),
                ) by {
                    if spec_part_at(buf@, pos as int, spec_enc_pe_rows(xs)) {
                        lemma_pe_rows_parts(buf@, pos as int, xs);
                        assert(xs.drop_first().len() == count - 1);
                        assert(spec_enc_pe_rows(xs.drop_first()) == spec_enc_pe_rows(
                            xs.drop_first(),
                        ));
                    }
                }
            }
            return None;
        },
    };
    let (rest, p2) = match dec_pe_rows(buf, p1, count - 1) {
        Some(r) => r,
        None => {
            proof {
                assert forall|xs: Seq<PeView>|
                    #![trigger spec_enc_pe_rows(xs)]
                    xs.len() == count implies !spec_part_at(
                    buf@,
                    pos as int,
                    spec_enc_pe_rows(xs),
                ) by {
                    if spec_part_at(buf@, pos as int, spec_enc_pe_rows(xs)) {
                        lemma_pe_rows_parts(buf@, pos as int, xs);
                        assert(xs.drop_first().len() == count - 1);
                        assert(spec_enc_pe_rows(xs.drop_first()) == spec_enc_pe_rows(
                            xs.drop_first(),
                        ));
                    }
                }
            }
            return None;
        },
    };
    let mut v: Vec<PersistedEntity> = Vec::new();
    let ghost first_view = first.view_pe();
    v.push(first);
    let mut rest = rest;
    let ghost rest0 = rest@;
    let rest_len: usize = rest.len();
    proof {
        assert(rest0.len() == rest_len);
    }
    let mut k: usize = 0;
    while rest.len() > 0
        invariant
            0 <= k <= rest0.len(),
            rest0.len() <= usize::MAX,
            rest@ =~= rest0.skip(k as int),
            v@.len() == k + 1,
            v@[0].view_pe() == first_view,
            forall|j: int| 0 <= j < k ==> v@[j + 1] == rest0[j],
        decreases rest@.len(),
    {
        let x = rest.remove(0);
        proof {
            assert(x == rest0.skip(k as int)[0]);
            assert(x == rest0[k as int]);
            assert(rest0.skip(k as int).drop_first() =~= rest0.skip(k as int).subrange(
                1,
                rest0.skip(k as int).len() as int,
            ));
            assert(rest0.skip(k as int).subrange(1, rest0.skip(k as int).len() as int)
                =~= rest0.skip(k as int + 1));
        }
        let ghost v0 = v@;
        v.push(x);
        proof {
            assert(forall|j: int| 0 <= j < v0.len() ==> v@[j] == v0[j]);
            assert(v@[v0.len() as int] == rest0[k as int]);
        }
        k = k + 1;
    }
    proof {
        assert(rest0.skip(k as int).len() == 0);
        assert(k == rest0.len());
        assert forall|xs: Seq<PeView>|
            #![trigger spec_enc_pe_rows(xs)]
            xs.len() == count && spec_part_at(buf@, pos as int, spec_enc_pe_rows(xs)) implies
            spec_pes_views(v@) == xs && p2 == pos + spec_enc_pe_rows(xs).len() by {
            let e_ = spec_enc_pe_rows(xs);
            assert(e_ == spec_enc_pe(xs[0]) + spec_enc_pe_rows(xs.drop_first()));
            lemma_split_at(buf@, pos as int, spec_enc_pe(xs[0]), spec_enc_pe_rows(xs.drop_first()));
            assert(spec_pe_at(buf@, pos as int, xs[0]));
            assert(first_view == xs[0]);
            assert(p1 == pos + spec_enc_pe(xs[0]).len());
            assert(xs.drop_first().len() == count - 1);
            assert(spec_part_at(buf@, p1 as int, spec_enc_pe_rows(xs.drop_first())));
            assert(spec_pes_views(rest0) == xs.drop_first());
            assert forall|j: int| 0 <= j < xs.len() implies spec_pes_views(v@)[j] == xs[j] by {
                if j == 0 {
                    assert(v@[0].view_pe() == xs[0]);
                } else {
                    assert(v@[j] == rest0[j - 1]);
                    assert(spec_pes_views(rest0)[j - 1] == rest0[j - 1].view_pe());
                    assert(xs.drop_first()[j - 1] == xs[j]);
                }
            }
            assert(spec_pes_views(v@) =~= xs);
        }
    }
    Some((v, p2))
}

} // verus!

verus! {

/// Decode a blob back into its record list.
///
/// The round trip is total: a blob produced by [`encode_entities`] decodes
/// successfully, to a list with exactly the encoded content.
pub fn decode_entities(bytes: &Vec<u8>) -> (r: Option<Vec<PersistedEntity>>)
    ensures
        forall|xs: Seq<PeView>|
            bytes@ == spec_enc_pes(xs) ==> r is Some && spec_pes_views(#[trigger] r->Some_0@)
                == xs,
{
    let total_len: usize = bytes.len();
    let (n, p1) = match dec_u64(bytes, 0) {
        Some(r) => r,
        None => {
            proof {
                assert forall|xs: Seq<PeView>| bytes@ != spec_enc_pes(xs) by {
                    if bytes@ == spec_enc_pes(xs) {
                        assert(bytes@.len() >= 8);
                    }
                }
            }
            return None;
        },
    };
    if n > usize::MAX as u64 {
        proof {
            assert forall|xs: Seq<PeView>| bytes@ != spec_enc_pes(xs) by {
                if bytes@ == spec_enc_pes(xs) {
                    lemma_pe_rows_min(xs);
                    assert(bytes@.len() == 8 + spec_enc_pe_rows(xs).len());
                    assert(xs.len() <= total_len);
                    assert(bytes@.subrange(0, 8) =~= spec_enc_u64(xs.len() as u64));
                }
            }
        }
        return None;
    }
    let (v, _p2) = match dec_pe_rows(bytes, p1, n as usize) {
        Some(r) => r,
        None => {
            proof {
                assert forall|xs: Seq<PeView>| bytes@ != spec_enc_pes(xs) by {
                    if bytes@ == spec_enc_pes(xs) {
                        lemma_pe_rows_min(xs);
                        assert(bytes@.len() == 8 + spec_enc_pe_rows(xs).len());
                        assert(xs.len() <= total_len);
                        assert(bytes@.subrange(0, 8) =~= spec_enc_u64(xs.len() as u64));
                        assert(n == xs.len());
                        assert(bytes@.subrange(8, bytes@.len() as int) =~= spec_enc_pe_rows(xs));
                        assert(spec_part_at(bytes@, 8, spec_enc_pe_rows(xs)));
                        assert(spec_enc_pe_rows(xs) == spec_enc_pe_rows(xs));
                    }
                }
            }
            return None;
        },
    };
    proof {
        assert forall|xs: Seq<PeView>|
            bytes@ == spec_enc_pes(xs) implies spec_pes_views(v@) == xs by {
            lemma_pe_rows_min(xs);
            assert(bytes@.len() == 8 + spec_enc_pe_rows(xs).len());
            assert(xs.len() <= total_len);
            assert(bytes@.subrange(0, 8) =~= spec_enc_u64(xs.len() as u64));
            assert(n == xs.len());
            assert(bytes@.subrange(8, bytes@.len() as int) =~= spec_enc_pe_rows(xs));
            assert(spec_part_at(bytes@, 8, spec_enc_pe_rows(xs)));
        }
    }
    Some(v)
}

/// Every record takes at least one byte, so a list's record count is
/// bounded by its encoding's length.
proof fn lemma_pe_rows_min(xs: Seq<PeView>)
    ensures
        spec_enc_pe_rows(xs).len() >= xs.len(),
    decreases xs.len(),
{
    if xs.len() > 0 {
        reveal(crate::codec::spec_enc_pe);
        reveal(crate::codec::spec_enc_pe_g1);
        lemma_pe_rows_min(xs.drop_first());
    }
}

} // verus!

verus! {

/// Decompose a stored skill-row list into its first row's parts and the
/// remaining rows.
proof fn lemma_rows_parts(buf: Seq<u8>, pos: int, xs: Seq<Skill>)
    requires
        xs.len() > 0,
        spec_part_at(buf, pos, spec_enc_skill_rows(xs)),
    ensures
        pos + 8 <= buf.len(),
        buf.subrange(pos, pos + 8) == spec_enc_i64(xs[0].skill_id),
        pos + 104 <= buf.len(),
        buf.subrange(pos + 8, pos + 104) == spec_enc_stats(xs[0].stats),
        spec_part_at(buf, pos + 104, spec_enc_skill_rows(xs.drop_first())),
{
    let e = spec_enc_skill_rows(xs);
    assert(e == spec_enc_skill(xs[0]) + spec_enc_skill_rows(xs.drop_first()));
    let rest = spec_enc_skill_rows(xs.drop_first());
    assert(spec_enc_skill(xs[0]) =~= spec_enc_i64(xs[0].skill_id) + spec_enc_stats(xs[0].stats));
    assert(e =~= spec_enc_i64(xs[0].skill_id) + (spec_enc_stats(xs[0].stats) + rest));
    lemma_split_at(buf, pos, spec_enc_i64(xs[0].skill_id), spec_enc_stats(xs[0].stats) + rest);
    lemma_split_at(buf, pos + 8, spec_enc_stats(xs[0].stats), rest);
}

/// Decompose a stored skill table into its count and its rows.
proof fn lemma_skills_parts(buf: Seq<u8>, pos: int, xs: Seq<Skill>, total_len: int)
    requires
        spec_part_at(buf, pos, spec_enc_skills(xs)),
        buf.len() <= total_len,
        total_len <= usize::MAX,
    ensures
        pos + 8 <= buf.len(),
        xs.len() <= usize::MAX,
        buf.subrange(pos, pos + 8) == spec_enc_u64(xs.len() as u64),
        spec_rows_at(buf, pos + 8, xs),
{
    reveal(crate::codec::spec_enc_skills);
    lemma_rows_len(xs);
    lemma_split_at(buf, pos, spec_enc_u64(xs.len() as u64), spec_enc_skill_rows(xs));
}

/// Decompose a stored record into its groups' positions.
proof fn lemma_pe_parts(buf: Seq<u8>, pos: int, x: PeView)
    requires
        spec_pe_at(buf, pos, x),
    ensures
        spec_part_at(buf, pos, spec_enc_pe_g1(x)),
        spec_part_at(buf, pos + spec_enc_pe_g1(x).len(), spec_enc_pe_g2(x)),
        spec_part_at(
            buf,
            pos + spec_enc_pe_g1(x).len() + spec_enc_pe_g2(x).len(),
            spec_enc_pe_g3a(x),
        ),
        spec_part_at(
            buf,
            pos + spec_enc_pe_g1(x).len() + spec_enc_pe_g2(x).len() + spec_enc_pe_g3a(x).len(),
            spec_enc_pe_g3b(x),
        ),
        spec_part_at(
            buf,
            pos + spec_enc_pe_g1(x).len() + spec_enc_pe_g2(x).len() + spec_enc_pe_g3a(x).len()
                + spec_enc_pe_g3b(x).len(),
            spec_enc_skills(x.dmg_skills),
        ),
        spec_part_at(
            buf,
            pos + spec_enc_pe_g1(x).len() + spec_enc_pe_g2(x).len() + spec_enc_pe_g3a(x).len()
                + spec_enc_pe_g3b(x).len() + spec_enc_skills(x.dmg_skills).len(),
            spec_enc_skills(x.heal_skills),
        ),
        spec_part_at(
            buf,
            pos + spec_enc_pe_g1(x).len() + spec_enc_pe_g2(x).len() + spec_enc_pe_g3a(x).len()
                + spec_enc_pe_g3b(x).len() + spec_enc_skills(x.dmg_skills).len()
                + spec_enc_skills(x.heal_skills).len(),
            spec_enc_skills(x.taken_skills),
        ),
        spec_enc_pe(x).len() == spec_enc_pe_g1(x).len() + spec_enc_pe_g2(x).len()
            + spec_enc_pe_g3a(x).len() + spec_enc_pe_g3b(x).len() + spec_enc_skills(
            x.dmg_skills,
        ).len() + spec_enc_skills(x.heal_skills).len() + spec_enc_skills(x.taken_skills).len(),
{
    reveal(crate::codec::spec_enc_pe);
    reveal(crate::codec::spec_enc_pe_g23);
    reveal(crate::codec::spec_enc_pe_g3);
    reveal(crate::codec::spec_enc_pe_g4);
    let g1 = spec_enc_pe_g1(x);
    let g2 = spec_enc_pe_g2(x);
    let g3a = spec_enc_pe_g3a(x);
    let g3b = spec_enc_pe_g3b(x);
    let s_ds = spec_enc_skills(x.dmg_skills);
    let s_hs = spec_enc_skills(x.heal_skills);
    let s_ts = spec_enc_skills(x.taken_skills);
    let h23 = spec_enc_pe_g23(x);
    let h4 = spec_enc_pe_g4(x);
    lemma_split_at(buf, pos, g1, h23 + h4);
    let q1 = pos + g1.len();
    lemma_split_at(buf, q1, h23, h4);
    lemma_split_at(buf, q1, g2, spec_enc_pe_g3(x));
    let q1b = q1 + g2.len();
    lemma_split_at(buf, q1b, g3a, g3b);
    let q2 = q1 + h23.len();
    lemma_split_at(buf, q2, s_ds, s_hs + s_ts);
    let q3 = q2 + s_ds.len();
    lemma_split_at(buf, q3, s_hs, s_ts);
}

/// Decompose a stored record list into its first record and the rest.
proof fn lemma_pe_rows_parts(buf: Seq<u8>, pos: int, xs: Seq<PeView>)
    requires
        xs.len() > 0,
        spec_part_at(buf, pos, spec_enc_pe_rows(xs)),
    ensures
        spec_pe_at(buf, pos, xs[0]),
        spec_part_at(buf, pos + spec_enc_pe(xs[0]).len(), spec_enc_pe_rows(xs.drop_first())),
{
    let e = spec_enc_pe_rows(xs);
    assert(e == spec_enc_pe(xs[0]) + spec_enc_pe_rows(xs.drop_first()));
    lemma_split_at(buf, pos, spec_enc_pe(xs[0]), spec_enc_pe_rows(xs.drop_first()));
}

} // verus!

verus! {

/// A 64-bit encoding takes eight bytes.
proof fn lemma_enc_u64_len(x: u64)
    ensures
        spec_enc_u64(x).len() == 8,
{
}

/// A 128-bit encoding takes sixteen bytes.
proof fn lemma_enc_u128_len(x: u128)
    ensures
        spec_enc_u128(x).len() == 16,
{
    lemma_enc_u64_len(x as u64);
    lemma_enc_u64_len((x >> 64) as u64);
}

/// A counter-record encoding takes 96 bytes.
proof fn lemma_enc_stats_len(s: CombatStats)
    ensures
        spec_enc_stats(s).len() == 96,
{
    lemma_enc_u128_len(s.total);
    lemma_enc_u128_len(s.hits);
    lemma_enc_u128_len(s.crit_hits);
    lemma_enc_u128_len(s.crit_total);
    lemma_enc_u128_len(s.lucky_hits);
    lemma_enc_u128_len(s.lucky_total);
}

/// The first counter half always takes 192 bytes.
proof fn lemma_g3a_len(x: PeView)
    ensures
        spec_enc_pe_g3a(x).len() == 192,
{
    reveal(crate::codec::spec_enc_pe_g3a);
    lemma_enc_stats_len(x.damage);
    lemma_enc_stats_len(x.healing);
}

/// The second counter half always takes 200 bytes.
proof fn lemma_g3b_len(x: PeView)
    ensures
        spec_enc_pe_g3b(x).len() == 200,
{
    reveal(crate::codec::spec_enc_pe_g3b);
    lemma_enc_stats_len(x.taken);
    lemma_enc_stats_len(x.damage_boss_only);
    lemma_enc_u64_len(x.active_dmg_time_ms);
}

/// Decompose a stored identity group into its field positions.
proof fn lemma_g1_parts(buf: Seq<u8>, pos: int, x: PeView)
    requires
        spec_part_at(buf, pos, spec_enc_pe_g1(x)),
    ensures
        pos + 8 <= buf.len(),
        buf.subrange(pos, pos + 8) == spec_enc_i64(x.entity_id),
        pos + 9 <= buf.len(),
        buf.subrange(pos + 8, pos + 9) == spec_enc_bool(x.is_character),
        pos + 10 <= buf.len(),
        buf.subrange(pos + 9, pos + 10) == spec_enc_bool(x.is_boss),
        spec_str_at(buf, pos + 10, x.name),
{
    reveal(crate::codec::spec_enc_pe_g1);
    let s_id = spec_enc_i64(x.entity_id);
    let s_ch = spec_enc_bool(x.is_character);
    let s_bo = spec_enc_bool(x.is_boss);
    let s_nm = spec_enc_str(x.name);
    lemma_split_at(buf, pos, s_id, s_ch + (s_bo + s_nm));
    lemma_split_at(buf, pos + 8, s_ch, s_bo + s_nm);
    lemma_split_at(buf, pos + 9, s_bo, s_nm);
}

/// Decompose a stored class group into its field positions.
proof fn lemma_g2_parts(buf: Seq<u8>, pos: int, x: PeView)
    requires
        spec_part_at(buf, pos, spec_enc_pe_g2(x)),
    ensures
        pos + 8 <= buf.len(),
        buf.subrange(pos, pos + 8) == spec_enc_i32(x.class_id),
        pos + 16 <= buf.len(),
        buf.subrange(pos + 8, pos + 16) == spec_enc_i32(x.class_spec),
        pos + 24 <= buf.len(),
        buf.subrange(pos + 16, pos + 24) == spec_enc_i32(x.ability_score),
{
    reveal(crate::codec::spec_enc_pe_g2);
    let s_ci = spec_enc_i32(x.class_id);
    let s_cs = spec_enc_i32(x.class_spec);
    let s_ab = spec_enc_i32(x.ability_score);
    lemma_split_at(buf, pos, s_ci, s_cs + s_ab);
    lemma_split_at(buf, pos + 8, s_cs, s_ab);
}

} // verus!
