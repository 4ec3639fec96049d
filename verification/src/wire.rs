//! The crawler wire formats.
//!
//! A player report's `info` field is the game's slash-delimited integer
//! encoding of one player; a hall-of-fame page is a semicolon-delimited
//! listing of comma-delimited entries. Both formats are external
//! contracts of the game protocol; the constants below name the field
//! positions and thresholds the service reads.

use vstd::prelude::*;

use crate::codec::{EquipIdent, spec_compress, compress_ident};
use crate::text::{
    spec_split, spec_trim, spec_parse_i64, spec_parse_u64, is_space, split_str, trim_spaces,
    parse_i64,
};

verus! {

/// Index of the player's level in the integer list.
pub const IDX_LEVEL: usize = 2;

/// Index of the player's experience.
pub const IDX_EXPERIENCE: usize = 3;

/// Index of the player's honor.
pub const IDX_HONOR: usize = 5;

/// First index of the five base attribute values.
pub const IDX_BASE_ATTRS: usize = 21;

/// First index of the five bonus attribute values.
pub const IDX_BONUS_ATTRS: usize = 26;

/// First index of the equipment block.
pub const EQUIP_OFFSET: usize = 39;

/// Values per item in the equipment block.
pub const ITEM_LEN: usize = 19;

/// Equipment slots per player.
pub const SLOT_COUNT: usize = 10;

/// Smallest length of a well-formed player encoding: everything up to and
/// including the equipment block.
pub const MIN_FIELDS: usize = 229;

/// Model ids at or above this threshold are cosmetic or placeholder
/// items, not real equipment; they are kept out of the stored ident set.
pub const REAL_ITEM_MODEL_CUTOFF: u16 = 100;

/// The integer list a report's `info` field denotes: every slash-separated
/// piece of the trimmed text must parse as a signed 64-bit integer.
pub open spec fn spec_info_values(info: Seq<char>) -> Option<Seq<i64>> {
    let parts = spec_split(spec_trim(info, |c: char| is_space(c)), '/');
    if forall|i: int| 0 <= i < parts.len() ==> spec_parse_i64(#[trigger] parts[i]) is Some {
        Option::Some(Seq::new(parts.len(), |i: int| spec_parse_i64(parts[i]).unwrap()))
    } else {
        Option::None
    }
}

/// Parses a report's `info` field into its integer list.
#[verifier::loop_isolation(false)]
pub fn parse_info_values(info: &str) -> (r: Option<Vec<i64>>)
    ensures
        match r {
            Option::Some(v) => spec_info_values(info@) == Option::Some(v@),
            Option::None => spec_info_values(info@) is None,
        },
{
    let trimmed = trim_spaces(info);
    let parts = split_str(trimmed.as_str(), '/');
    let ghost sparts = spec_split(spec_trim(info@, |c: char| is_space(c)), '/');
    let mut values: Vec<i64> = Vec::new();
    let n = parts.len();
    let mut i: usize = 0;
    while i < n
        invariant
            i <= n == parts@.len(),
            parts.deep_view() == sparts,
            values@.len() == i,
            forall|k: int| 0 <= k < i ==> spec_parse_i64(#[trigger] sparts[k]) == Option::Some(
                values@[k],
            ),
        decreases n - i,
    {
        proof {
            assert(parts@[i as int]@ == sparts[i as int]);
        }
        match parse_i64(parts[i].as_str()) {
            Some(v) => {
                values.push(v);
            },
            None => {
                return None;
            },
        }
        i = i + 1;
    }
    proof {
        assert(spec_info_values(info@) == Option::Some(
            Seq::new(sparts.len(), |k: int| spec_parse_i64(sparts[k]).unwrap()),
        ));
        assert(values@ =~= Seq::new(sparts.len(), |k: int| spec_parse_i64(sparts[k]).unwrap()));
    }
    Some(values)
}

/// An attribute value as the store counts it: values outside the game's
/// unsigned 32-bit range are treated as absent.
pub open spec fn attr_clamp(v: i64) -> int {
    if 0 <= v <= u32::MAX {
        v as int
    } else {
        0
    }
}

/// Sum of a run of attribute values, clamped value by value.
pub open spec fn sum_clamped(s: Seq<i64>) -> int
    decreases s.len(),
{
    if s.len() == 0 {
        0
    } else {
        sum_clamped(s.drop_last()) + attr_clamp(s.last())
    }
}

/// The encoding carries all fields the service reads, in their expected
/// ranges. This is the grammar of *this* service: it validates exactly
/// the fields it goes on to store. The game's full encoding carries many
/// more fields (portrait, race, class, rank and others) that game
/// clients check but this service never reads; an encoding malformed
/// only in such a field is accepted here as long as it is long enough
/// and the stored fields are in range.
pub open spec fn spec_report_valid(data: Seq<i64>) -> bool {
    &&& data.len() >= MIN_FIELDS
    &&& 0 <= data[IDX_LEVEL as int] <= u16::MAX
    &&& data[IDX_EXPERIENCE as int] >= 0
    &&& 0 <= data[IDX_HONOR as int] <= u32::MAX
}

/// The summed attributes of the encoded player: five base and five bonus
/// values.
pub open spec fn spec_attr_sum(data: Seq<i64>) -> int {
    sum_clamped(data.subrange(IDX_BASE_ATTRS as int, IDX_BASE_ATTRS + 5))
        + sum_clamped(data.subrange(IDX_BONUS_ATTRS as int, IDX_BONUS_ATTRS + 5))
}

/// The values of one equipment slot.
pub open spec fn slot_chunk(data: Seq<i64>, k: int) -> Seq<i64> {
    data.subrange(EQUIP_OFFSET + k * ITEM_LEN, EQUIP_OFFSET + (k + 1) * ITEM_LEN)
}

/// The slot holds an item (the encoding writes type code 0 for an empty
/// slot).
pub open spec fn slot_filled(data: Seq<i64>, k: int) -> bool {
    slot_chunk(data, k)[0] & 0xFF != 0
}

/// How many slots hold an item, among the first `k`.
pub open spec fn equip_count_upto(data: Seq<i64>, k: int) -> int
    decreases k,
{
    if k <= 0 {
        0
    } else {
        equip_count_upto(data, k - 1) + if slot_filled(data, k - 1) {
            1int
        } else {
            0int
        }
    }
}

/// The equipment slot code the game's listing uses for an item type code,
/// for the ten wearable types; the codes differ between the two
/// enumerations.
pub open spec fn spec_slot_code(raw_typ: i64) -> i64 {
    if raw_typ == 1 {
        9
    } else if raw_typ == 2 {
        10
    } else if raw_typ == 3 {
        2
    } else if raw_typ == 4 {
        4
    } else if raw_typ == 5 {
        3
    } else if raw_typ == 6 {
        1
    } else if raw_typ == 7 {
        6
    } else if raw_typ == 8 {
        5
    } else if raw_typ == 9 {
        7
    } else {
        8
    }
}

/// Item type codes 1 through 7 carry a class restriction.
pub open spec fn spec_is_class_item(raw_typ: i64) -> bool {
    1 <= raw_typ <= 7
}

/// The color variation of an item: derived from the sum of eight of its
/// values for ordinary models, fixed for epic models and talismans.
pub open spec fn spec_item_color(chunk: Seq<i64>, model_id: int, raw_typ: i64) -> int {
    if model_id <= 49 && raw_typ != 10 {
        let s = chunk.subrange(5, 13).fold_left(0int, |acc: int, v: i64| acc + v);
        if s > 0 {
            (s % 5) + 1
        } else {
            1
        }
    } else {
        1
    }
}

/// The equipment identifier of the item in slot `k`, if the slot holds a
/// wearable item.
pub open spec fn spec_slot_ident(data: Seq<i64>, k: int) -> Option<EquipIdent> {
    let chunk = slot_chunk(data, k);
    let raw_typ = chunk[0] & 0xFF;
    if 1 <= raw_typ <= 10 {
        let sub = chunk[3] & 0xFFFF;
        let model_id = sub % 1000;
        let class_val = sub / 1000;
        Option::Some(
            EquipIdent {
                model_id: model_id as u16,
                color: spec_item_color(chunk, model_id as int, raw_typ) as u8,
                typ: spec_slot_code(raw_typ) as u8,
                class: if spec_is_class_item(raw_typ) && 0 <= class_val <= 11 {
                    Option::Some(class_val as u8)
                } else {
                    Option::None
                },
            },
        )
    } else {
        Option::None
    }
}

/// Slot `k` holds a real (non-cosmetic) wearable item whose packed
/// identifier is `x`.
pub open spec fn slot_has_real_ident(data: Seq<i64>, k: int, x: i32) -> bool {
    match spec_slot_ident(data, k) {
        Option::Some(id) => id.model_id < REAL_ITEM_MODEL_CUTOFF && spec_compress(id) == x,
        Option::None => false,
    }
}

/// Strictly ascending, so each identifier appears once.
pub open spec fn strictly_sorted(s: Seq<i32>) -> bool {
    forall|i: int, j: int| 0 <= i < j < s.len() ==> s[i] < s[j]
}

/// What the service reads out of one player encoding.
pub struct PlayerFacts {
    /// The player's level.
    pub level: i64,
    /// The player's experience.
    pub experience: i64,
    /// The player's honor.
    pub honor: i64,
    /// The summed base and bonus attributes.
    pub attributes: i64,
    /// How many slots hold an item.
    pub equip_count: i64,
    /// The packed identifiers of the real wearable items, each once, in
    /// ascending order.
    pub equip_idents: Vec<i32>,
}

/// Inserts `x` into an ascending list, keeping it ascending and free of
/// repeats.
#[verifier::loop_isolation(false)]
fn insert_sorted_unique(v: &mut Vec<i32>, x: i32)
    requires
        strictly_sorted(old(v)@),
        old(v)@.len() < 1000,
    ensures
        strictly_sorted(final(v)@),
        final(v)@.len() <= old(v)@.len() + 1,
        forall|y: i32| final(v)@.contains(y) <==> (old(v)@.contains(y) || y == x),
{
    let n = v.len();
    let mut pos: usize = 0;
    while pos < n && v[pos] < x
        invariant
            pos <= n == v@.len(),
            forall|j: int| 0 <= j < pos ==> v@[j] < x,
        decreases n - pos,
    {
        pos = pos + 1;
    }
    if pos < n && v[pos] == x {
        proof {
            assert(v@.contains(x));
        }
        return ;
    }
    let ghost pre = v@;
    v.insert(pos, x);
    proof {
        assert(v@ =~= pre.insert(pos as int, x));
        assert forall|i: int, j: int| 0 <= i < j < v@.len() implies v@[i] < v@[j] by {
            if i < pos && j == pos {
                assert(v@[i] == pre[i]);
            } else if i == pos && j > pos {
                assert(v@[j] == pre[j - 1]);
                assert(pre[pos as int] > x || pos == pre.len());
                if j - 1 == pos {
                    assert(pre[j - 1] >= pre[pos as int]);
                }
            } else if i < pos && j > pos {
                assert(v@[i] == pre[i] && v@[j] == pre[j - 1]);
            } else if j < pos {
                assert(v@[i] == pre[i] && v@[j] == pre[j]);
            } else if i > pos {
                assert(v@[i] == pre[i - 1] && v@[j] == pre[j - 1]);
            }
        }
        assert forall|y: i32| v@.contains(y) implies (pre.contains(y) || y == x) by {
            let w = choose|w: int| 0 <= w < v@.len() && v@[w] == y;
            if w < pos {
                assert(pre[w] == y);
                assert(pre.contains(y));
            } else if w > pos {
                assert(pre[w - 1] == y);
                assert(pre.contains(y));
            }
        }
        assert forall|y: i32| pre.contains(y) || y == x implies v@.contains(y) by {
            if pre.contains(y) {
                let w = choose|w: int| 0 <= w < pre.len() && pre[w] == y;
                if w < pos {
                    assert(v@[w] == y);
                } else {
                    assert(v@[w + 1] == y);
                }
            } else {
                assert(v@[pos as int] == y);
            }
        }
        assert(v@[pos as int] == x);
        assert(v@.contains(x));
    }
}

/// Reads the fields the service stores out of one player encoding,
/// rejecting encodings that are too short or whose level, experience or
/// honor lie outside the game's ranges.
#[verifier::loop_isolation(false)]
pub fn extract_player_facts(data: &Vec<i64>) -> (r: Option<PlayerFacts>)
    ensures
        match r {
            Option::Some(f) => {
                &&& spec_report_valid(data@)
                &&& f.level == data@[IDX_LEVEL as int]
                &&& f.experience == data@[IDX_EXPERIENCE as int]
                &&& f.honor == data@[IDX_HONOR as int]
                &&& f.attributes == spec_attr_sum(data@)
                &&& f.equip_count == equip_count_upto(data@, SLOT_COUNT as int)
                &&& strictly_sorted(f.equip_idents@)
                &&& f.equip_idents@.len() <= SLOT_COUNT
                &&& forall|x: i32|
                    f.equip_idents@.contains(x) <==> exists|k: int|
                        0 <= k < SLOT_COUNT && slot_has_real_ident(data@, k, x)
            },
            Option::None => !spec_report_valid(data@),
        },
{
    if data.len() < MIN_FIELDS {
        return None;
    }
    let level = data[IDX_LEVEL];
    let experience = data[IDX_EXPERIENCE];
    let honor = data[IDX_HONOR];
    if level < 0 || level > 0xFFFF || experience < 0 || honor < 0 || honor > 0xFFFF_FFFF {
        return None;
    }

    // Attributes: five base and five bonus values, clamped one by one.
    let mut attributes: i64 = 0;
    let mut i: usize = IDX_BASE_ATTRS;
    while i < IDX_BASE_ATTRS + 5
        invariant
            IDX_BASE_ATTRS <= i <= IDX_BASE_ATTRS + 5,
            attributes == sum_clamped(data@.subrange(IDX_BASE_ATTRS as int, i as int)),
            0 <= attributes <= (i - IDX_BASE_ATTRS) * (u32::MAX as int),
        decreases IDX_BASE_ATTRS + 5 - i,
    {
        proof {
            assert(data@.subrange(IDX_BASE_ATTRS as int, i + 1 as int).drop_last() =~= data@.subrange(
                IDX_BASE_ATTRS as int,
                i as int,
            ));
        }
        let v = data[i];
        if 0 <= v && v <= 0xFFFF_FFFF {
            attributes = attributes + v;
        }
        i = i + 1;
    }
    let mut j: usize = IDX_BONUS_ATTRS;
    let mut bonus: i64 = 0;
    while j < IDX_BONUS_ATTRS + 5
        invariant
            IDX_BONUS_ATTRS <= j <= IDX_BONUS_ATTRS + 5,
            bonus == sum_clamped(data@.subrange(IDX_BONUS_ATTRS as int, j as int)),
            0 <= bonus <= (j - IDX_BONUS_ATTRS) * (u32::MAX as int),
        decreases IDX_BONUS_ATTRS + 5 - j,
    {
        proof {
            assert(data@.subrange(IDX_BONUS_ATTRS as int, j + 1 as int).drop_last()
                =~= data@.subrange(IDX_BONUS_ATTRS as int, j as int));
        }
        let v = data[j];
        if 0 <= v && v <= 0xFFFF_FFFF {
            bonus = bonus + v;
        }
        j = j + 1;
    }
    let attributes = attributes + bonus;

    // The equipment block: count filled slots and collect the packed
    // identifiers of real wearable items.
    let mut equip_count: i64 = 0;
    let mut idents: Vec<i32> = Vec::new();
    let mut k: usize = 0;
    while k < SLOT_COUNT
        invariant
            k <= SLOT_COUNT,
            data@.len() >= MIN_FIELDS,
            equip_count == equip_count_upto(data@, k as int),
            0 <= equip_count <= k,
            strictly_sorted(idents@),
            idents@.len() <= k,
            forall|x: i32|
                idents@.contains(x) <==> exists|kk: int|
                    0 <= kk < k && slot_has_real_ident(data@, kk, x),
        decreases SLOT_COUNT - k,
    {
        let base: usize = EQUIP_OFFSET + k * ITEM_LEN;
        let ghost chunk = slot_chunk(data@, k as int);
        proof {
            assert(chunk[0] == data@[base as int]);
            assert(chunk[3] == data@[base + 3]);
        }
        let raw0 = data[base];
        let rt = raw0 & 0xFF;
        proof {
            assert(0 <= raw0 & 0xFF < 256) by (bit_vector);
        }
        if rt != 0 {
            equip_count = equip_count + 1;
        }
        if 1 <= rt && rt <= 10 {
            let raw3 = data[base + 3];
            let sub = raw3 & 0xFFFF;
            proof {
                assert(0 <= raw3 & 0xFFFF < 0x10000) by (bit_vector);
            }
            let model_id = sub % 1000;
            let class_val = sub / 1000;
            let typ: u8 = if rt == 1 {
                9
            } else if rt == 2 {
                10
            } else if rt == 3 {
                2
            } else if rt == 4 {
                4
            } else if rt == 5 {
                3
            } else if rt == 6 {
                1
            } else if rt == 7 {
                6
            } else if rt == 8 {
                5
            } else if rt == 9 {
                7
            } else {
                8
            };
            let color: u8 = if model_id <= 49 && rt != 10 {
                let mut s: i128 = 0;
                let mut m: usize = base + 5;
                while m < base + 13
                    invariant
                        base + 5 <= m <= base + 13,
                        base + 13 <= data@.len(),
                        s == data@.subrange(base + 5, m as int).fold_left(
                            0int,
                            |acc: int, v: i64| acc + v,
                        ),
                        (m - base - 5) * (i64::MIN as int) <= s <= (m - base - 5) * (
                        i64::MAX as int),
                    decreases base + 13 - m,
                {
                    proof {
                        assert(data@.subrange(base + 5, m + 1 as int).drop_last() =~= data@.subrange(
                            base + 5,
                            m as int,
                        ));
                    }
                    s = s + (data[m] as i128);
                    m = m + 1;
                }
                proof {
                    assert(chunk.subrange(5, 13) =~= data@.subrange(base + 5, base + 13));
                }
                if s > 0 {
                    ((s % 5) + 1) as u8
                } else {
                    1
                }
            } else {
                1
            };
            let ident = EquipIdent {
                model_id: model_id as u16,
                color,
                typ,
                class: if rt <= 7 && class_val <= 11 {
                    Some(class_val as u8)
                } else {
                    None
                },
            };
            proof {
                assert(Option::Some(ident) == spec_slot_ident(data@, k as int));
            }
            if model_id < (REAL_ITEM_MODEL_CUTOFF as i64) {
                let packed = compress_ident(ident);
                proof {
                    assert(slot_has_real_ident(data@, k as int, packed));
                }
                insert_sorted_unique(&mut idents, packed);
            }
        }
        proof {
            assert forall|x: i32|
                idents@.contains(x) <==> exists|kk: int|
                    0 <= kk < k + 1 && slot_has_real_ident(data@, kk, x) by {}
        }
        k = k + 1;
    }

    Some(
        PlayerFacts {
            level,
            experience,
            honor,
            attributes,
            equip_count,
            equip_idents: idents,
        },
    )
}

/// A field that must parse as an unsigned 32-bit number.
pub open spec fn valid_u32_field(s: Seq<char>) -> bool {
    match spec_parse_u64(s) {
        Option::Some(v) => v <= u32::MAX,
        Option::None => false,
    }
}

/// The class field of a listing entry: a number naming one of the game's
/// twelve classes.
pub open spec fn valid_class_field(s: Seq<char>) -> bool {
    match spec_parse_i64(s) {
        Option::Some(c) => 1 <= c <= 12,
        Option::None => false,
    }
}

/// What one comma-delimited listing entry denotes: rank, name, guild,
/// level, honor and class, of which the service keeps name and level.
/// Rank, level and honor must be unsigned 32-bit numbers and the class
/// must name one of the game's classes.
pub open spec fn spec_hof_entry(s: Seq<char>) -> Option<(Seq<char>, u64)> {
    let f = spec_split(s, ',');
    if f.len() >= 6 && valid_u32_field(f[0]) && valid_u32_field(f[3]) && valid_u32_field(f[4])
        && valid_class_field(f[5]) {
        Option::Some((f[1], spec_parse_u64(f[3]).unwrap()))
    } else {
        Option::None
    }
}

/// One hall-of-fame listing entry the service keeps.
pub struct HofEntry {
    /// The player's name.
    pub name: String,
    /// The player's level.
    pub level: u64,
}

/// Parses one listing entry, keeping the name and level.
pub fn parse_hof_entry(s: &str) -> (r: Option<HofEntry>)
    ensures
        match r {
            Option::Some(e) => spec_hof_entry(s@) == Option::Some((e.name@, e.level)) && e.level
                <= u32::MAX,
            Option::None => spec_hof_entry(s@) is None,
        },
{
    let parts = split_str(s, ',');
    let ghost f = spec_split(s@, ',');
    if parts.len() < 6 {
        return None;
    }
    proof {
        assert(parts@[0]@ == f[0] && parts@[1]@ == f[1] && parts@[3]@ == f[3] && parts@[4]@ == f[4]
            && parts@[5]@ == f[5]);
    }
    let rank_ok = match crate::text::parse_u64(parts[0].as_str()) {
        Some(v) => v <= 0xFFFF_FFFF,
        None => false,
    };
    let level = match crate::text::parse_u64(parts[3].as_str()) {
        Some(v) => v,
        None => {
            return None;
        },
    };
    let honor_ok = match crate::text::parse_u64(parts[4].as_str()) {
        Some(v) => v <= 0xFFFF_FFFF,
        None => false,
    };
    let class_ok = match crate::text::parse_i64(parts[5].as_str()) {
        Some(c) => 1 <= c && c <= 12,
        None => false,
    };
    if !rank_ok || level > 0xFFFF_FFFF || !honor_ok || !class_ok {
        return None;
    }
    let name = parts[1].clone();
    Some(HofEntry { name, level })
}

} // verus!
