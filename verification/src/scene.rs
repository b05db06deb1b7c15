//! Scene-id extraction: scene ids arrive in opaque places, so candidate
//! numbers are pulled from digit runs in the scene guid, from varints at
//! every byte offset, from 4-byte little- and big-endian words, and from
//! short ASCII decimal runs — accepting the first candidate the registry
//! knows.

use vstd::prelude::*;

verus! {

/// The registered scenes: ids the extraction may accept, each with a
/// display name.
#[derive(Debug, Clone, PartialEq, Eq)]
pub struct SceneEntry {
    /// The scene id.
    pub id: i32,
    /// Its display name.
    pub name: String,
}

/// The registry of known scenes.
#[derive(Debug, Clone, PartialEq, Eq)]
pub struct SceneRegistry {
    /// The known scenes.
    pub entries: Vec<SceneEntry>,
}

/// Whether the registry knows `id`.
pub open spec fn spec_scene_known(s: Seq<SceneEntry>, id: i32) -> bool {
    exists|i: int| 0 <= i < s.len() && (#[trigger] s[i]).id == id
}

/// The name stored for `id`, when known.
pub open spec fn spec_scene_name(s: Seq<SceneEntry>, id: i32) -> Option<Seq<char>>
    decreases s.len(),
{
    if s.len() == 0 {
        None
    } else if s[0].id == id {
        Some(s[0].name@)
    } else {
        spec_scene_name(s.drop_first(), id)
    }
}

impl SceneRegistry {
    /// Whether the registry knows `id`.
    pub fn contains(&self, id: i32) -> (r: bool)
        ensures
            r == spec_scene_known(self.entries@, id),
    {
        let n: usize = self.entries.len();
        let mut i: usize = 0;
        while i < n
            invariant
                n == self.entries@.len(),
                0 <= i <= n,
                forall|j: int| 0 <= j < i ==> (#[trigger] self.entries@[j]).id != id,
            decreases n - i,
        {
            if self.entries[i].id == id {
                return true;
            }
            i = i + 1;
        }
        proof {
            if spec_scene_known(self.entries@, id) {
                let k = choose|k: int| 0 <= k < n && (#[trigger] self.entries@[k]).id == id;
            }
        }
        false
    }

    /// The display name stored for `id`, when known.
    pub fn lookup(&self, id: i32) -> (r: Option<String>)
        ensures
            match r {
                Some(nm) => spec_scene_name(self.entries@, id) == Some(nm@),
                None => spec_scene_name(self.entries@, id) is None,
            },
    {
        let n: usize = self.entries.len();
        let mut i: usize = 0;
        proof {
            assert(self.entries@.skip(0) =~= self.entries@);
        }
        while i < n
            invariant
                n == self.entries@.len(),
                0 <= i <= n,
                spec_scene_name(self.entries@, id) == spec_scene_name(
                    self.entries@.skip(i as int),
                    id,
                ),
            decreases n - i,
        {
            proof {
                assert(self.entries@.skip(i as int)[0] == self.entries@[i as int]);
                assert(self.entries@.skip(i as int).drop_first() =~= self.entries@.skip(
                    i as int + 1,
                ));
            }
            if self.entries[i].id == id {
                return Some(self.entries[i].name.clone());
            }
            i = i + 1;
        }
        proof {
            assert(self.entries@.skip(n as int) =~= Seq::<SceneEntry>::empty());
        }
        None
    }
}

/// The value of the base-128 varint starting at `i`, with its end offset:
/// each byte contributes its low seven bits, least significant group
/// first, until a byte without the continuation bit; at most ten bytes are
/// read and the run must end inside the buffer.
pub open spec fn spec_varint_at(data: Seq<u8>, i: int, fuel: nat) -> Option<(nat, int)>
    decreases fuel,
{
    if fuel == 0 || i < 0 || i >= data.len() {
        None
    } else {
        let b = data[i];
        if b < 128 {
            Some((b as nat, i + 1))
        } else {
            match spec_varint_at(data, i + 1, (fuel - 1) as nat) {
                Some((v, j)) => Some(((b - 128) as nat + 128 * v, j)),
                None => None,
            }
        }
    }
}

/// Read the varint at offset `i`, returning its value and end offset when
/// one ends within ten bytes and its value fits 64 bits.
pub fn parse_varint(data: &Vec<u8>, i: usize) -> (r: Option<(u64, usize)>)
    ensures
        match r {
            Some((v, j)) => spec_varint_at(data@, i as int, 10) == Some((v as nat, j as int)),
            None => (match spec_varint_at(data@, i as int, 10) {
                Some((v, j)) => v > u64::MAX,
                None => true,
            }),
        },
{
    let n: usize = data.len();
    if i >= n {
        return None;
    }
    let mut acc: u128 = 0;
    let mut mult: u128 = 1;
    let mut k: usize = 0;
    let mut pos: usize = i;
    while k < 10
        invariant
            n == data@.len(),
            i <= pos <= n,
            0 <= k <= 10,
            pos == i + k,
            mult as int == spec_pow128(k as nat),
            mult <= 0x4000000000000000000u128,
            acc < mult,
            (match spec_varint_at(data@, i as int, 10) {
                Some((v, j)) => match spec_varint_at(data@, pos as int, (10 - k) as nat) {
                    Some((v2, j2)) => v == acc + mult * v2 && j == j2,
                    None => false,
                },
                None => spec_varint_at(data@, pos as int, (10 - k) as nat) is None,
            }),
        decreases 10 - k,
    {
        if pos >= n {
            return None;
        }
        let b = data[pos];
        if b < 128 {
            let ghost v2 = b as nat;
            proof {
                assert(spec_varint_at(data@, pos as int, (10 - k) as nat) == Some(
                    (b as nat, pos as int + 1),
                ));
                assert(acc + mult * (b as nat) <= acc + mult * 127) by (nonlinear_arith)
                    requires
                        mult >= 0,
                        b < 128,
                ;
                assert(mult * 127 <= 0x4000000000000000000u128 * 127) by (nonlinear_arith)
                    requires
                        0 <= mult <= 0x4000000000000000000u128,
                ;
            }
            let total: u128 = acc + mult * (b as u128);
            if total > u64::MAX as u128 {
                return None;
            }
            return Some((total as u64, pos + 1));
        }
        let ghost acc0 = acc;
        let ghost mult0 = mult;
        proof {
            assert(mult * ((b - 128) as u128) <= mult * 127) by (nonlinear_arith)
                requires
                    mult >= 0,
                    128 <= b < 256,
            ;
            assert(mult * 127 + mult <= mult * 128) by (nonlinear_arith)
                requires
                    mult >= 0,
            ;
            assert(mult * 128 <= 0x4000000000000000000u128 * 128) by (nonlinear_arith)
                requires
                    0 <= mult <= 0x4000000000000000000u128,
            ;
        }
        acc = acc + mult * ((b - 128) as u128);
        if k < 9 {
            mult = mult * 128;
        } else {
            mult = mult * 128;
        }
        pos = pos + 1;
        k = k + 1;
        proof {
            assert(mult0 as int * 128 == spec_pow128(k as nat));
            assert(acc < mult) by (nonlinear_arith)
                requires
                    acc0 < mult0,
                    acc == acc0 + mult0 * ((data@[pos - 1] - 128) as u128),
                    data@[pos - 1] >= 128,
                    data@[pos - 1] < 256,
                    mult == mult0 * 128,
                    mult0 >= 1,
            ;
            lemma_pow128_le(k as nat);
            // Chain the varint decomposition one byte further.
            match spec_varint_at(data@, i as int, 10) {
                Some((v, j)) => {
                    assert(spec_varint_at(data@, (pos - 1) as int, (10 - (k - 1)) as nat) == (
                    match spec_varint_at(data@, pos as int, (10 - k) as nat) {
                        Some((v2, j2)) => Some(
                            (((data@[pos - 1] - 128) as nat + 128 * v2), j2),
                        ),
                        None => None::<(nat, int)>,
                    }));
                    match spec_varint_at(data@, pos as int, (10 - k) as nat) {
                        Some((v2, j2)) => {
                            assert(v == acc0 + mult0 * ((data@[pos - 1] - 128) as nat + 128 * v2));
                            assert(mult0 * ((data@[pos - 1] - 128) as nat + 128 * v2) == mult0 * (
                            (data@[pos - 1] - 128) as nat) + (mult0 * 128) * v2)
                                by (nonlinear_arith);
                            assert(v == acc + mult * v2);
                        },
                        None => {},
                    }
                },
                None => {},
            }
        }
    }
    None
}

/// 128 to the `k`-th power, as a mathematical integer.
pub open spec fn spec_pow128(k: nat) -> int
    decreases k,
{
    if k == 0 {
        1
    } else {
        128 * spec_pow128((k - 1) as nat)
    }
}

/// Powers of 128 are at least one.
proof fn lemma_pow128_pos(k: nat)
    ensures
        spec_pow128(k) >= 1,
    decreases k,
{
    if k > 0 {
        lemma_pow128_pos((k - 1) as nat);
    }
}

/// Powers of 128 grow with the exponent.
proof fn lemma_pow128_mono(a: nat, b: nat)
    requires
        a <= b,
    ensures
        spec_pow128(a) <= spec_pow128(b),
    decreases b,
{
    if a < b {
        lemma_pow128_mono(a, (b - 1) as nat);
        lemma_pow128_pos((b - 1) as nat);
    }
}

/// Proof of the power bound for small exponents.
proof fn lemma_pow128_le(k: nat)
    requires
        k <= 10,
    ensures
        spec_pow128(k) <= 0x4000000000000000000,
    decreases k,
{
    lemma_pow128_mono(k, 10);
    assert(spec_pow128(0) == 1);
    assert(spec_pow128(1) == 128 * spec_pow128(0));
    assert(spec_pow128(2) == 128 * spec_pow128(1));
    assert(spec_pow128(3) == 128 * spec_pow128(2));
    assert(spec_pow128(4) == 128 * spec_pow128(3));
    assert(spec_pow128(5) == 128 * spec_pow128(4));
    assert(spec_pow128(6) == 128 * spec_pow128(5));
    assert(spec_pow128(7) == 128 * spec_pow128(6));
    assert(spec_pow128(8) == 128 * spec_pow128(7));
    assert(spec_pow128(9) == 128 * spec_pow128(8));
    assert(spec_pow128(10) == 128 * spec_pow128(9));
    assert(spec_pow128(10) == 0x400000000000000000);
}

} // verus!

verus! {

/// Whether a byte is an ASCII digit.
pub open spec fn spec_is_digit(b: u8) -> bool {
    48 <= b <= 57
}

/// The 32-bit little-endian word at `i`.
pub open spec fn spec_le32(data: Seq<u8>, i: int) -> int {
    data[i] + 256 * (data[i + 1] + 256 * (data[i + 2] + 256 * data[i + 3]))
}

/// The 32-bit big-endian word at `i`.
pub open spec fn spec_be32(data: Seq<u8>, i: int) -> int {
    data[i + 3] + 256 * (data[i + 2] + 256 * (data[i + 1] + 256 * data[i]))
}

/// The registered scene id the varint at offset `i` yields, if any: its
/// value must fit a 32-bit signed id and be known.
pub open spec fn spec_varint_hit(data: Seq<u8>, reg: Seq<SceneEntry>, i: int) -> Option<i32> {
    match spec_varint_at(data, i, 10) {
        Some((v, j)) => if v <= i32::MAX && spec_scene_known(reg, v as i32) {
            Some(v as i32)
        } else {
            None
        },
        None => None,
    }
}

/// The first registered scene id any varint yields at or after offset `i`.
pub open spec fn spec_first_varint_hit(data: Seq<u8>, reg: Seq<SceneEntry>, i: int) -> Option<i32>
    decreases data.len() - i,
{
    if i < 0 || i >= data.len() {
        None
    } else {
        match spec_varint_hit(data, reg, i) {
            Some(v) => Some(v),
            None => spec_first_varint_hit(data, reg, i + 1),
        }
    }
}

/// The registered scene id the 4-byte words at `i` yield: the little-endian
/// reading is preferred, then the big-endian one; either must be a positive
/// signed 32-bit value and known.
pub open spec fn spec_lebe_hit(data: Seq<u8>, reg: Seq<SceneEntry>, i: int) -> Option<i32> {
    let le = spec_le32(data, i);
    let be = spec_be32(data, i);
    if 0 < le <= i32::MAX && spec_scene_known(reg, le as i32) {
        Some(le as i32)
    } else if 0 < be <= i32::MAX && spec_scene_known(reg, be as i32) {
        Some(be as i32)
    } else {
        None
    }
}

/// The first registered scene id any 4-byte word yields at or after `i`.
pub open spec fn spec_first_lebe_hit(data: Seq<u8>, reg: Seq<SceneEntry>, i: int) -> Option<i32>
    decreases data.len() - i,
{
    if i < 0 || i + 4 > data.len() {
        None
    } else {
        match spec_lebe_hit(data, reg, i) {
            Some(v) => Some(v),
            None => spec_first_lebe_hit(data, reg, i + 1),
        }
    }
}

/// Where the digit run starting at `i` ends (exclusive).
pub open spec fn spec_run_end(data: Seq<u8>, i: int) -> int
    decreases data.len() - i,
{
    if i < 0 || i >= data.len() || !spec_is_digit(data[i]) {
        i
    } else {
        spec_run_end(data, i + 1)
    }
}

/// The decimal value of the digits in `[i, j)`.
pub open spec fn spec_dec_value(data: Seq<u8>, i: int, j: int) -> int
    decreases j - i,
{
    if j <= i {
        0
    } else {
        spec_dec_value(data, i, j - 1) * 10 + (data[j - 1] - 48)
    }
}

/// The registered scene id the maximal digit run starting at `i` yields:
/// the run must really start at `i`, span two to six digits, and name a
/// known id.
pub open spec fn spec_ascii_hit(data: Seq<u8>, reg: Seq<SceneEntry>, i: int) -> Option<i32> {
    let e = spec_run_end(data, i);
    if 0 <= i < data.len() && spec_is_digit(data[i]) && (i == 0 || !spec_is_digit(data[i - 1]))
        && 2 <= e - i <= 6 && spec_scene_known(reg, spec_dec_value(data, i, e) as i32) {
        Some(spec_dec_value(data, i, e) as i32)
    } else {
        None
    }
}

/// The first registered scene id any maximal digit run yields at or after
/// `i`.
pub open spec fn spec_first_ascii_hit(data: Seq<u8>, reg: Seq<SceneEntry>, i: int) -> Option<i32>
    decreases data.len() - i,
{
    if i < 0 || i >= data.len() {
        None
    } else {
        match spec_ascii_hit(data, reg, i) {
            Some(v) => Some(v),
            None => spec_first_ascii_hit(data, reg, i + 1),
        }
    }
}

/// The scene id a byte blob yields: the first varint hit, else the first
/// 4-byte word hit, else the first ASCII digit-run hit.
pub open spec fn spec_scene_id_in_bytes(data: Seq<u8>, reg: Seq<SceneEntry>) -> Option<i32> {
    match spec_first_varint_hit(data, reg, 0) {
        Some(v) => Some(v),
        None => match spec_first_lebe_hit(data, reg, 0) {
            Some(v) => Some(v),
            None => spec_first_ascii_hit(data, reg, 0),
        },
    }
}

/// Scan a byte blob for a registered scene id, per
/// [`spec_scene_id_in_bytes`]: varints at every offset first, then 4-byte
/// words, then short ASCII decimal runs.
pub fn find_scene_id_in_bytes(data: &Vec<u8>, reg: &SceneRegistry) -> (r: Option<i32>)
    ensures
        r == spec_scene_id_in_bytes(data@, reg.entries@),
        r is Some ==> spec_scene_known(reg.entries@, r->Some_0),
{
    let n: usize = data.len();
    // Varints at every offset.
    let mut i: usize = 0;
    while i < n
        invariant
            n == data@.len(),
            0 <= i <= n,
            spec_first_varint_hit(data@, reg.entries@, 0) == spec_first_varint_hit(
                data@,
                reg.entries@,
                i as int,
            ),
        decreases n - i,
    {
        match parse_varint(data, i) {
            Some((v, _)) => {
                if v <= i32::MAX as u64 {
                    let cand = v as i32;
                    if reg.contains(cand) {
                        return Some(cand);
                    }
                }
            },
            None => {},
        }
        proof {
            assert(spec_varint_hit(data@, reg.entries@, i as int) is None);
        }
        i = i + 1;
    }
    // 4-byte little- and big-endian words.
    if n >= 4 {
        let mut i: usize = 0;
        while i <= n - 4
            invariant
                n == data@.len(),
                n >= 4,
                0 <= i,
                i <= n,
                spec_first_varint_hit(data@, reg.entries@, 0) is None,
                spec_first_lebe_hit(data@, reg.entries@, 0) == spec_first_lebe_hit(
                    data@,
                    reg.entries@,
                    i as int,
                ),
            decreases n - i,
        {
            let le: u32 = data[i] as u32 + 256 * (data[i + 1] as u32 + 256 * (data[i + 2] as u32
                + 256 * data[i + 3] as u32));
            let be: u32 = data[i + 3] as u32 + 256 * (data[i + 2] as u32 + 256 * (data[i + 1] as u32
                + 256 * data[i] as u32));
            if 0 < le && le <= i32::MAX as u32 {
                let cand = le as i32;
                if reg.contains(cand) {
                    return Some(cand);
                }
            }
            if 0 < be && be <= i32::MAX as u32 {
                let cand = be as i32;
                if reg.contains(cand) {
                    return Some(cand);
                }
            }
            proof {
                assert(spec_lebe_hit(data@, reg.entries@, i as int) is None);
            }
            i = i + 1;
        }
    }
    // Maximal ASCII decimal runs of two to six digits.
    let mut i: usize = 0;
    while i < n
        invariant
            n == data@.len(),
            0 <= i <= n,
            spec_first_varint_hit(data@, reg.entries@, 0) is None,
            spec_first_lebe_hit(data@, reg.entries@, 0) is None,
            spec_first_ascii_hit(data@, reg.entries@, 0) == spec_first_ascii_hit(
                data@,
                reg.entries@,
                i as int,
            ),
        decreases n - i,
    {
        let starts_run = 48 <= data[i] && data[i] <= 57 && (i == 0 || !(48 <= data[i - 1]
            && data[i - 1] <= 57));
        if starts_run {
            // Find the end of the run and its decimal value.
            let mut e: usize = i;
            let mut val: u64 = 0;
            let mut overflowed = false;
            while e < n && 48 <= data[e] && data[e] <= 57
                invariant
                    n == data@.len(),
                    i <= e <= n,
                    spec_run_end(data@, i as int) == spec_run_end(data@, e as int),
                    forall|l: int| i <= l < e ==> spec_is_digit(data@[l]),
                    !overflowed ==> val == spec_dec_value(data@, i as int, e as int),
                    !overflowed ==> e - i <= 7 && val < spec_pow10((e - i) as nat),
                    overflowed ==> e - i > 6,
                decreases n - e,
            {
                if !overflowed {
                    proof {
                        lemma_pow10_values();
                    }
                    if e - i <= 6 {
                        val = val * 10 + (data[e] - 48) as u64;
                        proof {
                            assert(spec_pow10((e - i + 1) as nat) == 10 * spec_pow10(
                                (e - i) as nat,
                            ));
                        }
                    } else {
                        overflowed = true;
                    }
                }
                e = e + 1;
            }
            proof {
                assert(spec_run_end(data@, e as int) == e);
                assert(spec_run_end(data@, i as int) == e);
            }
            if !overflowed && e - i >= 2 && e - i <= 6 && val <= i32::MAX as u64 {
                let cand = val as i32;
                if reg.contains(cand) {
                    return Some(cand);
                }
            }
            proof {
                lemma_pow10_values();
                lemma_dec_value_nonneg(data@, i as int, e as int);
                assert(spec_ascii_hit(data@, reg.entries@, i as int) is None);
            }
        } else {
            proof {
                assert(spec_ascii_hit(data@, reg.entries@, i as int) is None);
            }
        }
        i = i + 1;
    }
    None
}

/// Ten to the `k`-th power, as a mathematical integer.
pub open spec fn spec_pow10(k: nat) -> int
    decreases k,
{
    if k == 0 {
        1
    } else {
        10 * spec_pow10((k - 1) as nat)
    }
}

/// The small powers of ten the digit-run scan relies on.
proof fn lemma_pow10_values()
    ensures
        spec_pow10(0) == 1,
        spec_pow10(1) == 10,
        spec_pow10(2) == 100,
        spec_pow10(3) == 1000,
        spec_pow10(4) == 10000,
        spec_pow10(5) == 100000,
        spec_pow10(6) == 1000000,
        spec_pow10(7) == 10000000,
{
    assert(spec_pow10(1) == 10 * spec_pow10(0));
    assert(spec_pow10(2) == 10 * spec_pow10(1));
    assert(spec_pow10(3) == 10 * spec_pow10(2));
    assert(spec_pow10(4) == 10 * spec_pow10(3));
    assert(spec_pow10(5) == 10 * spec_pow10(4));
    assert(spec_pow10(6) == 10 * spec_pow10(5));
    assert(spec_pow10(7) == 10 * spec_pow10(6));
}

/// Decimal values of digit runs are non-negative.
proof fn lemma_dec_value_nonneg(data: Seq<u8>, i: int, j: int)
    requires
        forall|l: int| i <= l < j ==> spec_is_digit(data[l]),
    ensures
        spec_dec_value(data, i, j) >= 0,
    decreases j - i,
{
    if j > i {
        lemma_dec_value_nonneg(data, i, j - 1);
    }
}

/// The registered scene id the maximal digit run starting at `i` of a
/// guid yields: the run must really start at `i`, its value must fit a
/// 32-bit signed id, and the registry must know it.
pub open spec fn spec_guid_run_hit(data: Seq<u8>, reg: Seq<SceneEntry>, i: int) -> Option<i32> {
    let e = spec_run_end(data, i);
    if 0 <= i < data.len() && spec_is_digit(data[i]) && (i == 0 || !spec_is_digit(data[i - 1]))
        && spec_dec_value(data, i, e) <= i32::MAX && spec_scene_known(
        reg,
        spec_dec_value(data, i, e) as i32,
    ) {
        Some(spec_dec_value(data, i, e) as i32)
    } else {
        None
    }
}

/// The first registered scene id any maximal digit run of a guid yields
/// at or after `i`.
pub open spec fn spec_first_guid_hit(data: Seq<u8>, reg: Seq<SceneEntry>, i: int) -> Option<i32>
    decreases data.len() - i,
{
    if i < 0 || i >= data.len() {
        None
    } else {
        match spec_guid_run_hit(data, reg, i) {
            Some(v) => Some(v),
            None => spec_first_guid_hit(data, reg, i + 1),
        }
    }
}

/// The scene id a guid yields: its contiguous digit runs are scanned in
/// order, each parsed as an integer, and the first value the registry
/// knows is taken.
pub open spec fn spec_guid_scene_id(data: Seq<u8>, reg: Seq<SceneEntry>) -> Option<i32> {
    spec_first_guid_hit(data, reg, 0)
}

/// Scan the guid's contiguous digit runs in order, parse each as an
/// integer, and return the first value the registry knows, per
/// [`spec_guid_scene_id`].
pub fn parse_guid_scene_id(guid: &Vec<u8>, reg: &SceneRegistry) -> (r: Option<i32>)
    ensures
        r == spec_guid_scene_id(guid@, reg.entries@),
        r is Some ==> spec_scene_known(reg.entries@, r->Some_0),
{
    let n: usize = guid.len();
    let mut i: usize = 0;
    while i < n
        invariant
            n == guid@.len(),
            0 <= i <= n,
            spec_first_guid_hit(guid@, reg.entries@, 0) == spec_first_guid_hit(
                guid@,
                reg.entries@,
                i as int,
            ),
        decreases n - i,
    {
        let starts_run = 48 <= guid[i] && guid[i] <= 57 && (i == 0 || !(48 <= guid[i - 1]
            && guid[i - 1] <= 57));
        if starts_run {
            // Find the end of the run and its decimal value, marking runs
            // whose value leaves the 32-bit signed range.
            let mut e: usize = i;
            let mut val: u64 = 0;
            let mut overflowed = false;
            while e < n && 48 <= guid[e] && guid[e] <= 57
                invariant
                    n == guid@.len(),
                    i <= e <= n,
                    spec_run_end(guid@, i as int) == spec_run_end(guid@, e as int),
                    forall|l: int| i <= l < e ==> spec_is_digit(guid@[l]),
                    !overflowed ==> val == spec_dec_value(guid@, i as int, e as int) && val
                        <= i32::MAX as u64,
                    overflowed ==> spec_dec_value(guid@, i as int, e as int) > i32::MAX,
                decreases n - e,
            {
                if !overflowed {
                    let next: u64 = val * 10 + (guid[e] - 48) as u64;
                    if next > i32::MAX as u64 {
                        overflowed = true;
                        proof {
                            assert(spec_dec_value(guid@, i as int, e as int + 1) == next);
                        }
                    } else {
                        val = next;
                    }
                } else {
                    proof {
                        lemma_dec_value_grows(guid@, i as int, e as int);
                    }
                }
                e = e + 1;
            }
            proof {
                assert(spec_run_end(guid@, e as int) == e);
                assert(spec_run_end(guid@, i as int) == e);
            }
            if !overflowed {
                let cand = val as i32;
                if reg.contains(cand) {
                    return Some(cand);
                }
            }
            proof {
                lemma_dec_value_nonneg(guid@, i as int, e as int);
                assert(spec_guid_run_hit(guid@, reg.entries@, i as int) is None);
            }
        } else {
            proof {
                assert(spec_guid_run_hit(guid@, reg.entries@, i as int) is None);
            }
        }
        i = i + 1;
    }
    None
}

/// Appending one digit never shrinks a run's decimal value.
proof fn lemma_dec_value_grows(data: Seq<u8>, i: int, j: int)
    requires
        i <= j,
        forall|l: int| i <= l < j + 1 ==> spec_is_digit(data[l]),
    ensures
        spec_dec_value(data, i, j + 1) >= spec_dec_value(data, i, j),
{
    lemma_dec_value_nonneg(data, i, j);
    assert(spec_dec_value(data, i, j) * 10 >= spec_dec_value(data, i, j)) by (nonlinear_arith)
        requires
            spec_dec_value(data, i, j) >= 0,
    ;
}

} // verus!
