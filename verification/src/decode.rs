//! The decoder: a byte-level specification of how a save stream is read
//! (including exactly which error each malformed stream produces), and
//! the `Parser` that consumes a byte vector into a `SaveFile`, verified
//! to return exactly what the specification says.

use vstd::prelude::*;

use crate::err::magic_of;
use crate::err::magic_from;
use crate::err::SaveError;
use crate::err::TypeKey;
use crate::model::button_name;
use crate::model::bytes_eq;
use crate::model::button_name_bytes;
use crate::model::cm_insert;
use crate::model::cm_lookup_id;
use crate::model::comps_view;
use crate::model::display_name;
use crate::model::display_name_bytes;
use crate::model::fold_addr;
use crate::model::footer_magic;
use crate::model::footer_magic_bytes;
use crate::model::header_magic;
use crate::model::header_magic_bytes;
use crate::model::max_addr;
use crate::model::max_i32;
use crate::model::mods_insert;
use crate::model::mods_view;
use crate::model::switch_name;
use crate::model::switch_name_bytes;
use crate::model::CompMap;
use crate::model::CompV;
use crate::model::Component;
use crate::model::CustomData;
use crate::model::CustomV;
use crate::model::PegAddress;
use crate::model::PegType;
use crate::model::Quat;
use crate::model::SaveFile;
use crate::model::SaveV;
use crate::model::States;
use crate::model::Vec3;
use crate::model::Version;
use crate::model::Wire;
use crate::prim::i32_of;
use crate::prim::u16_of;
use crate::prim::u32_of;
use crate::utf8::check_utf8;
use crate::utf8::is_utf8;

verus! {

/// A negative record count behaves as zero (the read loop simply never
/// runs); this clamp is shared by every counted section.
pub open spec fn max0(n: i32) -> int {
    if n < 0 {
        0
    } else {
        n as int
    }
}

/// Reads one byte at `i`.
pub open spec fn sd_u8(s: Seq<u8>, i: int) -> Result<(u8, int), SaveError> {
    if 0 <= i && i + 1 <= s.len() {
        Result::Ok((s[i], i + 1))
    } else {
        Result::Err(SaveError::UnexpectedEof { at: i as usize })
    }
}

/// Reads a little-endian 16-bit id at `i`.
pub open spec fn sd_u16(s: Seq<u8>, i: int) -> Result<(u16, int), SaveError> {
    if 0 <= i && i + 2 <= s.len() {
        Result::Ok((u16_of(s[i], s[i + 1]), i + 2))
    } else {
        Result::Err(SaveError::UnexpectedEof { at: i as usize })
    }
}

/// Reads a little-endian unsigned 32-bit value at `i`.
pub open spec fn sd_u32(s: Seq<u8>, i: int) -> Result<(u32, int), SaveError> {
    if 0 <= i && i + 4 <= s.len() {
        Result::Ok((u32_of(s[i], s[i + 1], s[i + 2], s[i + 3]), i + 4))
    } else {
        Result::Err(SaveError::UnexpectedEof { at: i as usize })
    }
}

/// Reads a little-endian signed 32-bit value at `i`.
pub open spec fn sd_i32(s: Seq<u8>, i: int) -> Result<(i32, int), SaveError> {
    if 0 <= i && i + 4 <= s.len() {
        Result::Ok((i32_of(s[i], s[i + 1], s[i + 2], s[i + 3]), i + 4))
    } else {
        Result::Err(SaveError::UnexpectedEof { at: i as usize })
    }
}

/// Reads exactly `n` raw bytes at `i`.
pub open spec fn sd_raw(s: Seq<u8>, i: int, n: int) -> Result<(Seq<u8>, int), SaveError> {
    if 0 <= i && 0 <= n && i + n <= s.len() {
        Result::Ok((s.subrange(i, i + n), i + n))
    } else {
        Result::Err(SaveError::UnexpectedEof { at: i as usize })
    }
}

/// Reads a length-prefixed text field: a signed 32-bit byte length (a
/// negative length can never be satisfied and reads as truncation), that
/// many raw bytes, which must be valid UTF-8.
pub open spec fn sd_string(s: Seq<u8>, i: int) -> Result<(Seq<u8>, int), SaveError> {
    match sd_i32(s, i) {
        Result::Err(e) => Result::Err(e),
        Result::Ok((len, j)) => if len < 0 {
            Result::Err(SaveError::UnexpectedEof { at: i as usize })
        } else {
            match sd_raw(s, j, len as int) {
                Result::Err(e) => Result::Err(e),
                Result::Ok((bytes, k)) => if is_utf8(bytes) {
                    Result::Ok((bytes, k))
                } else {
                    Result::Err(SaveError::InvalidUtf8Text { at: j as usize })
                },
            }
        },
    }
}

/// Reads a version quad: four signed 32-bit values.
pub open spec fn sd_version(s: Seq<u8>, i: int) -> Result<(Version, int), SaveError> {
    match sd_i32(s, i) {
        Result::Err(e) => Result::Err(e),
        Result::Ok((a, i1)) => match sd_i32(s, i1) {
            Result::Err(e) => Result::Err(e),
            Result::Ok((b, i2)) => match sd_i32(s, i2) {
                Result::Err(e) => Result::Err(e),
                Result::Ok((c, i3)) => match sd_i32(s, i3) {
                    Result::Err(e) => Result::Err(e),
                    Result::Ok((d, i4)) => Result::Ok((Version(a, b, c, d), i4)),
                },
            },
        },
    }
}

/// Reads `n` mod table entries, folding each into the accumulated table
/// with last-occurrence-wins replacement for a repeated name.
pub open spec fn sd_mods(
    s: Seq<u8>,
    i: int,
    n: int,
    acc: Seq<(Seq<u8>, Version)>,
) -> Result<(Seq<(Seq<u8>, Version)>, int), SaveError>
    decreases n,
{
    if n <= 0 {
        Result::Ok((acc, i))
    } else {
        match sd_string(s, i) {
            Result::Err(e) => Result::Err(e),
            Result::Ok((name, j)) => match sd_version(s, j) {
                Result::Err(e) => Result::Err(e),
                Result::Ok((ver, k)) => sd_mods(s, k, n - 1, mods_insert(acc, name, ver)),
            },
        }
    }
}

/// Reads `n` type-dictionary entries, folding each into the accumulated
/// dictionary with lockstep replacement of a repeated id or name.
pub open spec fn sd_cm(
    s: Seq<u8>,
    i: int,
    n: int,
    acc: Seq<(u16, Seq<u8>)>,
) -> Result<(Seq<(u16, Seq<u8>)>, int), SaveError>
    decreases n,
{
    if n <= 0 {
        Result::Ok((acc, i))
    } else {
        match sd_u16(s, i) {
            Result::Err(e) => Result::Err(e),
            Result::Ok((id, j)) => match sd_string(s, j) {
                Result::Err(e) => Result::Err(e),
                Result::Ok((name, k)) => sd_cm(s, k, n - 1, cm_insert(acc, id, name)),
            },
        }
    }
}

/// Reads one state id and raises the running high-water mark to it if it
/// is greater.
pub open spec fn sd_state_id(s: Seq<u8>, i: int, h: i32) -> Result<(i32, int, i32), SaveError> {
    match sd_i32(s, i) {
        Result::Err(e) => Result::Err(e),
        Result::Ok((v, j)) => Result::Ok((v, j, max_i32(h, v))),
    }
}

/// Reads `n` state ids, accumulating the list and the high-water mark.
pub open spec fn sd_ids(
    s: Seq<u8>,
    i: int,
    n: int,
    h: i32,
    acc: Seq<i32>,
) -> Result<(Seq<i32>, int, i32), SaveError>
    decreases n,
{
    if n <= 0 {
        Result::Ok((acc, i, h))
    } else {
        match sd_i32(s, i) {
            Result::Err(e) => Result::Err(e),
            Result::Ok((v, j)) => sd_ids(s, j, n - 1, max_i32(h, v), acc.push(v)),
        }
    }
}

/// Dispatches a raw payload by the component's type name: the known
/// names parse their fixed layout (at least 4 bytes; surplus bytes are
/// dropped), every other name keeps the raw bytes unchanged.
pub open spec fn sd_custom(name: Seq<u8>, d: Seq<u8>, at: int) -> Result<CustomV, SaveError> {
    if name == switch_name() || name == button_name() {
        if d.len() >= 4 {
            Result::Ok(CustomV::Switch { color: (d[0], d[1], d[2]), on: d[3] != 0 })
        } else {
            Result::Err(SaveError::UnexpectedEof { at: at as usize })
        }
    } else if name == display_name() {
        if d.len() >= 4 {
            Result::Ok(CustomV::Display { color_mode: u32_of(d[0], d[1], d[2], d[3]) })
        } else {
            Result::Err(SaveError::UnexpectedEof { at: at as usize })
        }
    } else {
        Result::Ok(CustomV::Unknown(d))
    }
}

/// Reads a grid position: three signed 32-bit coordinates.
pub open spec fn sd_pos(s: Seq<u8>, i: int) -> Result<(Vec3, int), SaveError> {
    match sd_i32(s, i) {
        Result::Err(e) => Result::Err(e),
        Result::Ok((x, i1)) => match sd_i32(s, i1) {
            Result::Err(e) => Result::Err(e),
            Result::Ok((y, i2)) => match sd_i32(s, i2) {
                Result::Err(e) => Result::Err(e),
                Result::Ok((z, i3)) => Result::Ok((Vec3 { x, y, z }, i3)),
            },
        },
    }
}

/// Reads a rotation: four raw 32-bit float bit patterns.
pub open spec fn sd_rot(s: Seq<u8>, i: int) -> Result<(Quat, int), SaveError> {
    match sd_u32(s, i) {
        Result::Err(e) => Result::Err(e),
        Result::Ok((x, i1)) => match sd_u32(s, i1) {
            Result::Err(e) => Result::Err(e),
            Result::Ok((y, i2)) => match sd_u32(s, i2) {
                Result::Err(e) => Result::Err(e),
                Result::Ok((z, i3)) => match sd_u32(s, i3) {
                    Result::Err(e) => Result::Err(e),
                    Result::Ok((w, i4)) => Result::Ok((Quat { x, y, z, w }, i4)),
                },
            },
        },
    }
}

/// Reads one component record, resolving its numeric type id through the
/// dictionary before anything after it is read, and threading the
/// state-id high-water mark through its peg lists.
pub open spec fn sd_component(
    s: Seq<u8>,
    i: int,
    m: Seq<(u16, Seq<u8>)>,
    h: i32,
) -> Result<(CompV, int, i32), SaveError> {
    match sd_u32(s, i) {
        Result::Err(e) => Result::Err(e),
        Result::Ok((address, i1)) => match sd_u32(s, i1) {
            Result::Err(e) => Result::Err(e),
            Result::Ok((parent, i2)) => match sd_u16(s, i2) {
                Result::Err(e) => Result::Err(e),
                Result::Ok((num, i3)) => match cm_lookup_id(m, num) {
                    Option::None => Result::Err(
                        SaveError::MissingTypeMapping(TypeKey::Id(num)),
                    ),
                    Option::Some(name) => match sd_pos(s, i3) {
                        Result::Err(e) => Result::Err(e),
                        Result::Ok((position, i4)) => match sd_rot(s, i4) {
                            Result::Err(e) => Result::Err(e),
                            Result::Ok((rotation, i5)) => match sd_i32(s, i5) {
                                Result::Err(e) => Result::Err(e),
                                Result::Ok((n_in, i6)) => match sd_ids(
                                    s,
                                    i6,
                                    max0(n_in),
                                    h,
                                    Seq::empty(),
                                ) {
                                    Result::Err(e) => Result::Err(e),
                                    Result::Ok((inputs, i7, h1)) => match sd_i32(s, i7) {
                                        Result::Err(e) => Result::Err(e),
                                        Result::Ok((n_out, i8)) => match sd_ids(
                                            s,
                                            i8,
                                            max0(n_out),
                                            h1,
                                            Seq::empty(),
                                        ) {
                                            Result::Err(e) => Result::Err(e),
                                            Result::Ok((outputs, i9, h2)) => match sd_i32(s, i9) {
                                                Result::Err(e) => Result::Err(e),
                                                Result::Ok((dlen, i10)) => match sd_raw(
                                                    s,
                                                    i10,
                                                    max0(dlen),
                                                ) {
                                                    Result::Err(e) => Result::Err(e),
                                                    Result::Ok((payload, i11)) => match sd_custom(
                                                        name,
                                                        payload,
                                                        i10,
                                                    ) {
                                                        Result::Err(e) => Result::Err(e),
                                                        Result::Ok(cd) => Result::Ok(
                                                            (
                                                                CompV {
                                                                    address,
                                                                    parent,
                                                                    id: name,
                                                                    position,
                                                                    rotation,
                                                                    inputs,
                                                                    outputs,
                                                                    custom_data: cd,
                                                                },
                                                                i11,
                                                                h2,
                                                            ),
                                                        ),
                                                    },
                                                },
                                            },
                                        },
                                    },
                                },
                            },
                        },
                    },
                },
            },
        },
    }
}

/// Reads `n` component records.
pub open spec fn sd_components(
    s: Seq<u8>,
    i: int,
    n: int,
    m: Seq<(u16, Seq<u8>)>,
    h: i32,
    acc: Seq<CompV>,
) -> Result<(Seq<CompV>, int, i32), SaveError>
    decreases n,
{
    if n <= 0 {
        Result::Ok((acc, i, h))
    } else {
        match sd_component(s, i, m, h) {
            Result::Err(e) => Result::Err(e),
            Result::Ok((c, j, h1)) => sd_components(s, j, n - 1, m, h1, acc.push(c)),
        }
    }
}

/// Reads one peg address: a kind tag (`1` input, `2` output, anything
/// else fails with `UnknownPegType` before the rest of the record is
/// touched), a component address, and a raw peg index.
pub open spec fn sd_peg(s: Seq<u8>, i: int) -> Result<(PegAddress, int), SaveError> {
    match sd_u8(s, i) {
        Result::Err(e) => Result::Err(e),
        Result::Ok((t, j)) => if t == 1 || t == 2 {
            match sd_u32(s, j) {
                Result::Err(e) => Result::Err(e),
                Result::Ok((component, k)) => match sd_i32(s, k) {
                    Result::Err(e) => Result::Err(e),
                    Result::Ok((index, l)) => Result::Ok(
                        (
                            PegAddress {
                                type_: if t == 1 {
                                    PegType::Input
                                } else {
                                    PegType::Output
                                },
                                component,
                                index,
                            },
                            l,
                        ),
                    ),
                },
            }
        } else {
            Result::Err(SaveError::UnknownPegType { found: t, at: i as usize })
        },
    }
}

/// Reads one wire record: start peg, end peg, state id (raising the
/// high-water mark), rotation bits.
pub open spec fn sd_wire(s: Seq<u8>, i: int, h: i32) -> Result<(Wire, int, i32), SaveError> {
    match sd_peg(s, i) {
        Result::Err(e) => Result::Err(e),
        Result::Ok((start, i1)) => match sd_peg(s, i1) {
            Result::Err(e) => Result::Err(e),
            Result::Ok((end, i2)) => match sd_state_id(s, i2, h) {
                Result::Err(e) => Result::Err(e),
                Result::Ok((state_id, i3, h1)) => match sd_u32(s, i3) {
                    Result::Err(e) => Result::Err(e),
                    Result::Ok((rotation, i4)) => Result::Ok(
                        (Wire { start, end, state_id, rotation }, i4, h1),
                    ),
                },
            },
        },
    }
}

/// Reads `n` wire records.
pub open spec fn sd_wires(
    s: Seq<u8>,
    i: int,
    n: int,
    h: i32,
    acc: Seq<Wire>,
) -> Result<(Seq<Wire>, int, i32), SaveError>
    decreases n,
{
    if n <= 0 {
        Result::Ok((acc, i, h))
    } else {
        match sd_wire(s, i, h) {
            Result::Err(e) => Result::Err(e),
            Result::Ok((w, j, h1)) => sd_wires(s, j, n - 1, h1, acc.push(w)),
        }
    }
}

/// Reads a whole save stream: header magic, format version `7`, game
/// version, save type `1`, the component and wire counts, the mod table,
/// the type dictionary, the components, the wires, the state buffer, and
/// the footer magic; bytes after the footer are ignored. The result
/// carries the accumulated state-id high-water mark and the greatest
/// component address seen (1 when there are none).
pub open spec fn sd_save(s: Seq<u8>) -> Result<SaveV, SaveError> {
    match sd_raw(s, 0, 16) {
        Result::Err(e) => Result::Err(e),
        Result::Ok((hdr, i0)) => if hdr != header_magic() {
            Result::Err(SaveError::HeaderMismatch { found: magic_of(hdr) })
        } else {
            match sd_u8(s, i0) {
                Result::Err(e) => Result::Err(e),
                Result::Ok((fmt, i1)) => if fmt != 7 {
                    Result::Err(SaveError::UnsupportedFormatVersion { found: fmt, at: i0 as usize })
                } else {
                    match sd_version(s, i1) {
                        Result::Err(e) => Result::Err(e),
                        Result::Ok((gv, i2)) => match sd_u8(s, i2) {
                            Result::Err(e) => Result::Err(e),
                            Result::Ok((st, i3)) => if st != 1 {
                                Result::Err(
                                    SaveError::UnsupportedSaveType { found: st, at: i2 as usize },
                                )
                            } else {
                                match sd_i32(s, i3) {
                                    Result::Err(e) => Result::Err(e),
                                    Result::Ok((n_comp, i4)) => match sd_i32(s, i4) {
                                        Result::Err(e) => Result::Err(e),
                                        Result::Ok((n_wire, i5)) => match sd_i32(s, i5) {
                                            Result::Err(e) => Result::Err(e),
                                            Result::Ok((n_mods, i6)) => match sd_mods(
                                                s,
                                                i6,
                                                max0(n_mods),
                                                Seq::empty(),
                                            ) {
                                                Result::Err(e) => Result::Err(e),
                                                Result::Ok((mods, i7)) => match sd_i32(s, i7) {
                                                    Result::Err(e) => Result::Err(e),
                                                    Result::Ok((n_cm, i8)) => match sd_cm(
                                                        s,
                                                        i8,
                                                        max0(n_cm),
                                                        Seq::empty(),
                                                    ) {
                                                        Result::Err(e) => Result::Err(e),
                                                        Result::Ok((cm, i9)) => match sd_components(
                                                            s,
                                                            i9,
                                                            max0(n_comp),
                                                            cm,
                                                            0,
                                                            Seq::empty(),
                                                        ) {
                                                            Result::Err(e) => Result::Err(e),
                                                            Result::Ok(
                                                                (comps, i10, h1),
                                                            ) => match sd_wires(
                                                                s,
                                                                i10,
                                                                max0(n_wire),
                                                                h1,
                                                                Seq::empty(),
                                                            ) {
                                                                Result::Err(e) => Result::Err(e),
                                                                Result::Ok(
                                                                    (ws, i11, h2),
                                                                ) => match sd_i32(s, i11) {
                                                                    Result::Err(e) => Result::Err(
                                                                        e,
                                                                    ),
                                                                    Result::Ok(
                                                                        (n_st, i12),
                                                                    ) => match sd_raw(
                                                                        s,
                                                                        i12,
                                                                        max0(n_st),
                                                                    ) {
                                                                        Result::Err(e)
                                                                            => Result::Err(e),
                                                                        Result::Ok(
                                                                            (stb, i13),
                                                                        ) => match sd_raw(
                                                                            s,
                                                                            i13,
                                                                            16,
                                                                        ) {
                                                                            Result::Err(e)
                                                                                => Result::Err(e),
                                                                            Result::Ok(
                                                                                (ftr, i14),
                                                                            ) => if ftr
                                                                                != footer_magic() {
                                                                                Result::Err(
                                                                                    SaveError::FooterMismatch {
                                                                                        found: magic_of(ftr),
                                                                                        at: i13 as usize,
                                                                                    },
                                                                                )
                                                                            } else {
                                                                                Result::Ok(
                                                                                    SaveV {
                                                                                        game_version: gv,
                                                                                        mod_versions: mods,
                                                                                        comp_map: cm,
                                                                                        components: comps,
                                                                                        wires: ws,
                                                                                        states: stb,
                                                                                        highest_state_id: h2,
                                                                                        highest_address: max_addr(
                                                                                            comps,
                                                                                        ),
                                                                                    },
                                                                                )
                                                                            },
                                                                        },
                                                                    },
                                                                },
                                                            },
                                                        },
                                                    },
                                                },
                                            },
                                        },
                                    },
                                }
                            },
                        },
                    }
                },
            }
        },
    }
}

/// Replacement of an entry at a known position is the same as the
/// last-wins insertion of its name.
pub proof fn lemma_mods_insert_at(m: Seq<(Seq<u8>, Version)>, name: Seq<u8>, ver: Version, k: int)
    requires
        0 <= k < m.len(),
        m[k].0 == name,
        forall|i: int| 0 <= i < k ==> (#[trigger] m[i]).0 != name,
    ensures
        mods_insert(m, name, ver) == m.update(k, (name, ver)),
    decreases k,
{
    if k == 0 {
        assert(seq![(name, ver)] + m.skip(1) =~= m.update(0, (name, ver)));
    } else {
        assert(m.skip(1)[k - 1] == m[k]);
        assert(forall|i: int| 0 <= i < k - 1 ==> (#[trigger] m.skip(1)[i]).0 == m[i + 1].0);
        lemma_mods_insert_at(m.skip(1), name, ver, k - 1);
        assert(seq![m[0]] + m.skip(1).update(k - 1, (name, ver)) =~= m.update(k, (name, ver)));
    }
}

/// Insertion of a name that is absent appends the entry.
pub proof fn lemma_mods_insert_absent(m: Seq<(Seq<u8>, Version)>, name: Seq<u8>, ver: Version)
    requires
        forall|i: int| 0 <= i < m.len() ==> (#[trigger] m[i]).0 != name,
    ensures
        mods_insert(m, name, ver) == m.push((name, ver)),
    decreases m.len(),
{
    if m.len() == 0 {
        assert(seq![(name, ver)] =~= m.push((name, ver)));
    } else {
        assert(forall|i: int| 0 <= i < m.skip(1).len() ==> (#[trigger] m.skip(1)[i]) == m[i + 1]);
        lemma_mods_insert_absent(m.skip(1), name, ver);
        assert(seq![m[0]] + m.skip(1).push((name, ver)) =~= m.push((name, ver)));
    }
}

/// Puts a mod entry into the table with last-occurrence-wins semantics:
/// an existing entry for the same name is replaced in place, a new name
/// is appended.
fn mods_put(list: &mut Vec<(Vec<u8>, Version)>, name: Vec<u8>, ver: Version)
    ensures
        mods_view(final(list)@) == mods_insert(mods_view(old(list)@), name@, ver),
{
    let ghost mv = mods_view(list@);
    let n = list.len();
    let mut i: usize = 0;
    while i < n
        invariant
            i <= n,
            n == list.len(),
            *list == *old(list),
            mv == mods_view(list@),
            forall|k: int| 0 <= k < i ==> (#[trigger] mv[k]).0 != name@,
        decreases n - i,
    {
        proof {
            assert(mv[i as int] == (list@[i as int].0@, list@[i as int].1));
        }
        if bytes_eq(&list[i].0, &name) {
            let _ = list.remove(i);
            list.insert(i, (name, ver));
            proof {
                lemma_mods_insert_at(mv, mv[i as int].0, ver, i as int);
                assert(mods_view(list@) =~= mv.update(i as int, (mv[i as int].0, ver)));
            }
            return;
        }
        i = i + 1;
    }
    list.push((name, ver));
    proof {
        lemma_mods_insert_absent(mv, name@, ver);
        assert(mods_view(list@) =~= mv.push((name@, ver)));
    }
}

/// Consumes a byte stream into a `SaveFile`, one fixed section sequence
/// at a time; any failure aborts the whole decode with the error the
/// byte-level specification assigns to the stream.
pub struct Parser {
    data: Vec<u8>,
    pos: usize,
    id_mapping: CompMap,
    highest_state_id: i32,
}

impl View for Parser {
    type V = Seq<u8>;

    closed spec fn view(&self) -> Seq<u8> {
        self.data@
    }
}

impl Parser {
    /// At the very start of the stream, with an empty dictionary and a
    /// zero state-id mark.
    pub closed spec fn fresh(self) -> bool {
        self.pos == 0 && self.id_mapping@ == Seq::<(u16, Seq<u8>)>::empty()
            && self.highest_state_id == 0
    }

    /// A parser over a whole save stream.
    pub fn new(data: Vec<u8>) -> (r: Parser)
        ensures
            r@ == data@,
            r.fresh(),
    {
        Parser {
            data,
            pos: 0,
            id_mapping: CompMap::with_capacity(0),
            highest_state_id: 0,
        }
    }

    /// Reads one byte.
    fn read_byte(&mut self) -> (r: Result<u8, SaveError>)
        requires
            old(self).pos <= old(self).data@.len(),
        ensures
            final(self).data == old(self).data,
            final(self).id_mapping == old(self).id_mapping,
            final(self).highest_state_id == old(self).highest_state_id,
            final(self).pos <= final(self).data@.len(),
            match sd_u8(old(self).data@, old(self).pos as int) {
                Result::Ok((v, j)) => r == Result::<u8, SaveError>::Ok(v) && final(self).pos as int == j,
                Result::Err(e) => r == Result::<u8, SaveError>::Err(e) && final(self).pos == old(self).pos,
            },
    {
        if self.data.len() - self.pos >= 1 {
            let b = self.data[self.pos];
            self.pos = self.pos + 1;
            Result::Ok(b)
        } else {
            Result::Err(SaveError::UnexpectedEof { at: self.pos })
        }
    }

    /// Reads a little-endian unsigned 32-bit value (a component address).
    fn read_address(&mut self) -> (r: Result<u32, SaveError>)
        requires
            old(self).pos <= old(self).data@.len(),
        ensures
            final(self).data == old(self).data,
            final(self).id_mapping == old(self).id_mapping,
            final(self).highest_state_id == old(self).highest_state_id,
            final(self).pos <= final(self).data@.len(),
            match sd_u32(old(self).data@, old(self).pos as int) {
                Result::Ok((v, j)) => r == Result::<u32, SaveError>::Ok(v) && final(self).pos as int == j,
                Result::Err(e) => r == Result::<u32, SaveError>::Err(e) && final(self).pos == old(self).pos,
            },
    {
        if self.data.len() - self.pos >= 4 {
            let b0 = self.data[self.pos];
            let b1 = self.data[self.pos + 1];
            let b2 = self.data[self.pos + 2];
            let b3 = self.data[self.pos + 3];
            self.pos = self.pos + 4;
            Result::Ok(
                (b0 as u32) | ((b1 as u32) << 8u32) | ((b2 as u32) << 16u32) | ((b3 as u32)
                    << 24u32),
            )
        } else {
            Result::Err(SaveError::UnexpectedEof { at: self.pos })
        }
    }

    /// Reads a 32-bit float as its raw bit pattern.
    fn read_float_bits(&mut self) -> (r: Result<u32, SaveError>)
        requires
            old(self).pos <= old(self).data@.len(),
        ensures
            final(self).data == old(self).data,
            final(self).id_mapping == old(self).id_mapping,
            final(self).highest_state_id == old(self).highest_state_id,
            final(self).pos <= final(self).data@.len(),
            match sd_u32(old(self).data@, old(self).pos as int) {
                Result::Ok((v, j)) => r == Result::<u32, SaveError>::Ok(v) && final(self).pos as int == j,
                Result::Err(e) => r == Result::<u32, SaveError>::Err(e) && final(self).pos == old(self).pos,
            },
    {
        self.read_address()
    }

    /// Reads a little-endian signed 32-bit value.
    fn read_int(&mut self) -> (r: Result<i32, SaveError>)
        requires
            old(self).pos <= old(self).data@.len(),
        ensures
            final(self).data == old(self).data,
            final(self).id_mapping == old(self).id_mapping,
            final(self).highest_state_id == old(self).highest_state_id,
            final(self).pos <= final(self).data@.len(),
            match sd_i32(old(self).data@, old(self).pos as int) {
                Result::Ok((v, j)) => r == Result::<i32, SaveError>::Ok(v) && final(self).pos as int == j,
                Result::Err(e) => r == Result::<i32, SaveError>::Err(e) && final(self).pos == old(self).pos,
            },
    {
        match self.read_address() {
            Result::Ok(v) => Result::Ok(#[verifier::truncate] (v as i32)),
            Result::Err(e) => Result::Err(e),
        }
    }

    /// Reads a little-endian 16-bit numeric type id.
    fn read_id(&mut self) -> (r: Result<u16, SaveError>)
        requires
            old(self).pos <= old(self).data@.len(),
        ensures
            final(self).data == old(self).data,
            final(self).id_mapping == old(self).id_mapping,
            final(self).highest_state_id == old(self).highest_state_id,
            final(self).pos <= final(self).data@.len(),
            match sd_u16(old(self).data@, old(self).pos as int) {
                Result::Ok((v, j)) => r == Result::<u16, SaveError>::Ok(v) && final(self).pos as int == j,
                Result::Err(e) => r == Result::<u16, SaveError>::Err(e) && final(self).pos == old(self).pos,
            },
    {
        if self.data.len() - self.pos >= 2 {
            let b0 = self.data[self.pos];
            let b1 = self.data[self.pos + 1];
            self.pos = self.pos + 2;
            Result::Ok((b0 as u16) | ((b1 as u16) << 8u16))
        } else {
            Result::Err(SaveError::UnexpectedEof { at: self.pos })
        }
    }

    /// Reads a state id and raises the running high-water mark to it.
    fn read_state_id(&mut self) -> (r: Result<i32, SaveError>)
        requires
            old(self).pos <= old(self).data@.len(),
        ensures
            final(self).data == old(self).data,
            final(self).id_mapping == old(self).id_mapping,
            final(self).pos <= final(self).data@.len(),
            match sd_state_id(
                old(self).data@,
                old(self).pos as int,
                old(self).highest_state_id,
            ) {
                Result::Ok((v, j, h)) => r == Result::<i32, SaveError>::Ok(v) && final(self).pos as int == j && final(self).highest_state_id == h,
                Result::Err(e) => r == Result::<i32, SaveError>::Err(e),
            },
    {
        match self.read_int() {
            Result::Ok(id) => {
                if id > self.highest_state_id {
                    self.highest_state_id = id;
                }
                Result::Ok(id)
            },
            Result::Err(e) => Result::Err(e),
        }
    }

    /// Reads exactly `n` raw bytes.
    fn read_n_bytes(&mut self, n: usize) -> (r: Result<Vec<u8>, SaveError>)
        requires
            old(self).pos <= old(self).data@.len(),
        ensures
            final(self).data == old(self).data,
            final(self).id_mapping == old(self).id_mapping,
            final(self).highest_state_id == old(self).highest_state_id,
            final(self).pos <= final(self).data@.len(),
            match sd_raw(old(self).data@, old(self).pos as int, n as int) {
                Result::Ok((bs, j)) => r is Ok && r.unwrap()@ == bs && final(self).pos as int == j,
                Result::Err(e) => r == Result::<Vec<u8>, SaveError>::Err(e) && final(self).pos
                    == old(self).pos,
            },
    {
        if self.data.len() - self.pos >= n {
            let mut out: Vec<u8> = Vec::new();
            let mut k: usize = 0;
            while k < n
                invariant
                    k <= n,
                    self.pos + n <= self.data@.len(),
                    self.pos + n <= usize::MAX,
                    *self == *old(self),
                    out@ == self.data@.subrange(self.pos as int, self.pos + k as int),
                decreases n - k,
            {
                let b = self.data[self.pos + k];
                out.push(b);
                proof {
                    assert(out@ =~= self.data@.subrange(self.pos as int, self.pos + (k + 1)));
                }
                k = k + 1;
            }
            self.pos = self.pos + n;
            Result::Ok(out)
        } else {
            Result::Err(SaveError::UnexpectedEof { at: self.pos })
        }
    }

    /// Reads a length-prefixed UTF-8 text field as validated bytes.
    fn read_string(&mut self) -> (r: Result<Vec<u8>, SaveError>)
        requires
            old(self).pos <= old(self).data@.len(),
        ensures
            final(self).data == old(self).data,
            final(self).id_mapping == old(self).id_mapping,
            final(self).highest_state_id == old(self).highest_state_id,
            final(self).pos <= final(self).data@.len(),
            match sd_string(old(self).data@, old(self).pos as int) {
                Result::Ok((bs, j)) => r is Ok && r.unwrap()@ == bs && final(self).pos as int == j,
                Result::Err(e) => r == Result::<Vec<u8>, SaveError>::Err(e),
            },
    {
        let start = self.pos;
        let count = match self.read_int() {
            Result::Ok(v) => v,
            Result::Err(e) => {
                return Result::Err(e);
            },
        };
        if count < 0 {
            return Result::Err(SaveError::UnexpectedEof { at: start });
        }
        let bstart = self.pos;
        let bytes = match self.read_n_bytes(count as usize) {
            Result::Ok(v) => v,
            Result::Err(e) => {
                return Result::Err(e);
            },
        };
        if check_utf8(&bytes) {
            Result::Ok(bytes)
        } else {
            Result::Err(SaveError::InvalidUtf8Text { at: bstart })
        }
    }

    /// Reads a version quad.
    fn read_version(&mut self) -> (r: Result<Version, SaveError>)
        requires
            old(self).pos <= old(self).data@.len(),
        ensures
            final(self).data == old(self).data,
            final(self).id_mapping == old(self).id_mapping,
            final(self).highest_state_id == old(self).highest_state_id,
            final(self).pos <= final(self).data@.len(),
            match sd_version(old(self).data@, old(self).pos as int) {
                Result::Ok((v, j)) => r == Result::<Version, SaveError>::Ok(v) && final(self).pos as int == j,
                Result::Err(e) => r == Result::<Version, SaveError>::Err(e),
            },
    {
        let a = match self.read_int() {
            Result::Ok(v) => v,
            Result::Err(e) => {
                return Result::Err(e);
            },
        };
        let b = match self.read_int() {
            Result::Ok(v) => v,
            Result::Err(e) => {
                return Result::Err(e);
            },
        };
        let c = match self.read_int() {
            Result::Ok(v) => v,
            Result::Err(e) => {
                return Result::Err(e);
            },
        };
        let d = match self.read_int() {
            Result::Ok(v) => v,
            Result::Err(e) => {
                return Result::Err(e);
            },
        };
        Result::Ok(Version(a, b, c, d))
    }

    /// Reads a grid position.
    fn read_pos(&mut self) -> (r: Result<Vec3, SaveError>)
        requires
            old(self).pos <= old(self).data@.len(),
        ensures
            final(self).data == old(self).data,
            final(self).id_mapping == old(self).id_mapping,
            final(self).highest_state_id == old(self).highest_state_id,
            final(self).pos <= final(self).data@.len(),
            match sd_pos(old(self).data@, old(self).pos as int) {
                Result::Ok((v, j)) => r == Result::<Vec3, SaveError>::Ok(v) && final(self).pos as int == j,
                Result::Err(e) => r == Result::<Vec3, SaveError>::Err(e),
            },
    {
        let x = match self.read_int() {
            Result::Ok(v) => v,
            Result::Err(e) => {
                return Result::Err(e);
            },
        };
        let y = match self.read_int() {
            Result::Ok(v) => v,
            Result::Err(e) => {
                return Result::Err(e);
            },
        };
        let z = match self.read_int() {
            Result::Ok(v) => v,
            Result::Err(e) => {
                return Result::Err(e);
            },
        };
        Result::Ok(Vec3 { x, y, z })
    }

    /// Reads a rotation as four raw float bit patterns.
    fn read_rot(&mut self) -> (r: Result<Quat, SaveError>)
        requires
            old(self).pos <= old(self).data@.len(),
        ensures
            final(self).data == old(self).data,
            final(self).id_mapping == old(self).id_mapping,
            final(self).highest_state_id == old(self).highest_state_id,
            final(self).pos <= final(self).data@.len(),
            match sd_rot(old(self).data@, old(self).pos as int) {
                Result::Ok((v, j)) => r == Result::<Quat, SaveError>::Ok(v) && final(self).pos as int == j,
                Result::Err(e) => r == Result::<Quat, SaveError>::Err(e),
            },
    {
        let x = match self.read_float_bits() {
            Result::Ok(v) => v,
            Result::Err(e) => {
                return Result::Err(e);
            },
        };
        let y = match self.read_float_bits() {
            Result::Ok(v) => v,
            Result::Err(e) => {
                return Result::Err(e);
            },
        };
        let z = match self.read_float_bits() {
            Result::Ok(v) => v,
            Result::Err(e) => {
                return Result::Err(e);
            },
        };
        let w = match self.read_float_bits() {
            Result::Ok(v) => v,
            Result::Err(e) => {
                return Result::Err(e);
            },
        };
        Result::Ok(Quat { x, y, z, w })
    }

    /// Dispatches a raw payload by type name into its typed variant, or
    /// the opaque passthrough variant for an unrecognised name.
    fn parse_custom_data(&self, id: &Vec<u8>, data: Vec<u8>, at: usize) -> (r: Result<
        CustomData,
        SaveError,
    >)
        ensures
            match sd_custom(id@, data@, at as int) {
                Result::Ok(cd) => r is Ok && r.unwrap()@ == cd,
                Result::Err(e) => r == Result::<CustomData, SaveError>::Err(e),
            },
    {
        let sw = switch_name_bytes();
        let bt = button_name_bytes();
        let dp = display_name_bytes();
        if bytes_eq(id, &sw) || bytes_eq(id, &bt) {
            if data.len() >= 4 {
                Result::Ok(
                    CustomData::Switch { color: (data[0], data[1], data[2]), on: data[3] != 0 },
                )
            } else {
                Result::Err(SaveError::UnexpectedEof { at })
            }
        } else if bytes_eq(id, &dp) {
            if data.len() >= 4 {
                Result::Ok(
                    CustomData::Display {
                        color_mode: (data[0] as u32) | ((data[1] as u32) << 8u32) | ((data[2]
                            as u32) << 16u32) | ((data[3] as u32) << 24u32),
                    },
                )
            } else {
                Result::Err(SaveError::UnexpectedEof { at })
            }
        } else {
            Result::Ok(CustomData::Unknown(data))
        }
    }

    /// Reads the type dictionary: a count, then that many id/name pairs,
    /// replacing the parser's dictionary wholesale.
    #[verifier::rlimit(100)]
    #[verifier::loop_isolation(false)]
    fn read_comp_map(&mut self) -> (r: Result<(), SaveError>)
        requires
            old(self).pos <= old(self).data@.len(),
        ensures
            final(self).data == old(self).data,
            final(self).highest_state_id == old(self).highest_state_id,
            final(self).pos <= final(self).data@.len(),
            match sd_i32(old(self).data@, old(self).pos as int) {
                Result::Err(e) => r == Result::<(), SaveError>::Err(e),
                Result::Ok((cnt, j)) => match sd_cm(old(self).data@, j, max0(cnt), Seq::empty()) {
                    Result::Err(e) => r == Result::<(), SaveError>::Err(e),
                    Result::Ok((cm, k)) => r is Ok && final(self).id_mapping@ == cm && final(self).pos as int == k,
                },
            },
    {
        let cnt = match self.read_int() {
            Result::Ok(v) => v,
            Result::Err(e) => {
                return Result::Err(e);
            },
        };
        self.id_mapping = CompMap::with_capacity(0);
        let ghost s = self.data@;
        let ghost j0 = self.pos as int;
        let mut k: i32 = 0;
        while k < cnt
            invariant
                0 <= k,
                cnt <= 0 ==> k == 0,
                cnt > 0 ==> k <= cnt,
                self.data@ == s,
                self.pos <= s.len(),
                self.highest_state_id == old(self).highest_state_id,
                self.data == old(self).data,
                sd_cm(s, j0, max0(cnt), Seq::empty()) == sd_cm(
                    s,
                    self.pos as int,
                    max0(cnt) - k,
                    self.id_mapping@,
                ),
            decreases cnt - k,
        {
            let id = match self.read_id() {
                Result::Ok(v) => v,
                Result::Err(e) => {
                    return Result::Err(e);
                },
            };
            let name = match self.read_string() {
                Result::Ok(v) => v,
                Result::Err(e) => {
                    return Result::Err(e);
                },
            };
            self.id_mapping.insert(id, name);
            k = k + 1;
        }
        Result::Ok(())
    }

    /// Reads the mod version table: a count, then that many name/version
    /// pairs, collected with last-occurrence-wins on a repeated name.
    #[verifier::rlimit(100)]
    #[verifier::loop_isolation(false)]
    fn read_mod_versions(&mut self) -> (r: Result<Vec<(Vec<u8>, Version)>, SaveError>)
        requires
            old(self).pos <= old(self).data@.len(),
        ensures
            final(self).data == old(self).data,
            final(self).id_mapping == old(self).id_mapping,
            final(self).highest_state_id == old(self).highest_state_id,
            final(self).pos <= final(self).data@.len(),
            match sd_i32(old(self).data@, old(self).pos as int) {
                Result::Err(e) => r == Result::<Vec<(Vec<u8>, Version)>, SaveError>::Err(e),
                Result::Ok((cnt, j)) => match sd_mods(
                    old(self).data@,
                    j,
                    max0(cnt),
                    Seq::empty(),
                ) {
                    Result::Err(e) => r == Result::<Vec<(Vec<u8>, Version)>, SaveError>::Err(e),
                    Result::Ok((mods, k)) => r is Ok && mods_view(r.unwrap()@) == mods && final(self).pos as int == k,
                },
            },
    {
        let cnt = match self.read_int() {
            Result::Ok(v) => v,
            Result::Err(e) => {
                return Result::Err(e);
            },
        };
        let mut mapping: Vec<(Vec<u8>, Version)> = Vec::new();
        proof {
            assert(mods_view(mapping@) =~= Seq::<(Seq<u8>, Version)>::empty());
        }
        let ghost s = self.data@;
        let ghost j0 = self.pos as int;
        let mut k: i32 = 0;
        while k < cnt
            invariant
                0 <= k,
                cnt <= 0 ==> k == 0,
                cnt > 0 ==> k <= cnt,
                self.data@ == s,
                self.pos <= s.len(),
                self.highest_state_id == old(self).highest_state_id,
                self.data == old(self).data,
                self.id_mapping == old(self).id_mapping,
                sd_mods(s, j0, max0(cnt), Seq::empty()) == sd_mods(
                    s,
                    self.pos as int,
                    max0(cnt) - k,
                    mods_view(mapping@),
                ),
            decreases cnt - k,
        {
            let name = match self.read_string() {
                Result::Ok(v) => v,
                Result::Err(e) => {
                    return Result::Err(e);
                },
            };
            let ver = match self.read_version() {
                Result::Ok(v) => v,
                Result::Err(e) => {
                    return Result::Err(e);
                },
            };
            mods_put(&mut mapping, name, ver);
            k = k + 1;
        }
        Result::Ok(mapping)
    }

    /// Validates the 16-byte header magic.
    fn validate_header(&mut self) -> (r: Result<(), SaveError>)
        requires
            old(self).pos <= old(self).data@.len(),
        ensures
            final(self).data == old(self).data,
            final(self).id_mapping == old(self).id_mapping,
            final(self).highest_state_id == old(self).highest_state_id,
            final(self).pos <= final(self).data@.len(),
            match sd_raw(old(self).data@, old(self).pos as int, 16) {
                Result::Err(e) => r == Result::<(), SaveError>::Err(e),
                Result::Ok((hdr, j)) => if hdr == header_magic() {
                    r is Ok && final(self).pos as int == j
                } else {
                    r == Result::<(), SaveError>::Err(
                        SaveError::HeaderMismatch { found: magic_of(hdr) },
                    )
                },
            },
    {
        let bytes = match self.read_n_bytes(16) {
            Result::Ok(v) => v,
            Result::Err(e) => {
                return Result::Err(e);
            },
        };
        let expected = header_magic_bytes();
        if bytes_eq(&bytes, &expected) {
            Result::Ok(())
        } else {
            Result::Err(SaveError::HeaderMismatch { found: magic_from(&bytes) })
        }
    }

    /// Validates the 16-byte footer magic.
    fn validate_footer(&mut self) -> (r: Result<(), SaveError>)
        requires
            old(self).pos <= old(self).data@.len(),
        ensures
            final(self).data == old(self).data,
            final(self).id_mapping == old(self).id_mapping,
            final(self).highest_state_id == old(self).highest_state_id,
            final(self).pos <= final(self).data@.len(),
            match sd_raw(old(self).data@, old(self).pos as int, 16) {
                Result::Err(e) => r == Result::<(), SaveError>::Err(e),
                Result::Ok((ftr, j)) => if ftr == footer_magic() {
                    r is Ok && final(self).pos as int == j
                } else {
                    r == Result::<(), SaveError>::Err(
                        SaveError::FooterMismatch { found: magic_of(ftr), at: old(self).pos },
                    )
                },
            },
    {
        let fstart = self.pos;
        let bytes = match self.read_n_bytes(16) {
            Result::Ok(v) => v,
            Result::Err(e) => {
                return Result::Err(e);
            },
        };
        let expected = footer_magic_bytes();
        if bytes_eq(&bytes, &expected) {
            Result::Ok(())
        } else {
            Result::Err(SaveError::FooterMismatch { found: magic_from(&bytes), at: fstart })
        }
    }

    /// Validates the format-version byte, which must be `7`.
    fn validate_version(&mut self) -> (r: Result<(), SaveError>)
        requires
            old(self).pos <= old(self).data@.len(),
        ensures
            final(self).data == old(self).data,
            final(self).id_mapping == old(self).id_mapping,
            final(self).highest_state_id == old(self).highest_state_id,
            final(self).pos <= final(self).data@.len(),
            match sd_u8(old(self).data@, old(self).pos as int) {
                Result::Err(e) => r == Result::<(), SaveError>::Err(e),
                Result::Ok((v, j)) => if v == 7 {
                    r is Ok && final(self).pos as int == j
                } else {
                    r == Result::<(), SaveError>::Err(
                        SaveError::UnsupportedFormatVersion { found: v, at: old(self).pos },
                    )
                },
            },
    {
        let start = self.pos;
        let version = match self.read_byte() {
            Result::Ok(v) => v,
            Result::Err(e) => {
                return Result::Err(e);
            },
        };
        if version == 7 {
            Result::Ok(())
        } else {
            Result::Err(SaveError::UnsupportedFormatVersion { found: version, at: start })
        }
    }

    /// Validates the save-type byte, which must be `1`.
    fn validate_save_type(&mut self) -> (r: Result<(), SaveError>)
        requires
            old(self).pos <= old(self).data@.len(),
        ensures
            final(self).data == old(self).data,
            final(self).id_mapping == old(self).id_mapping,
            final(self).highest_state_id == old(self).highest_state_id,
            final(self).pos <= final(self).data@.len(),
            match sd_u8(old(self).data@, old(self).pos as int) {
                Result::Err(e) => r == Result::<(), SaveError>::Err(e),
                Result::Ok((v, j)) => if v == 1 {
                    r is Ok && final(self).pos as int == j
                } else {
                    r == Result::<(), SaveError>::Err(
                        SaveError::UnsupportedSaveType { found: v, at: old(self).pos },
                    )
                },
            },
    {
        let start = self.pos;
        let save_type = match self.read_byte() {
            Result::Ok(v) => v,
            Result::Err(e) => {
                return Result::Err(e);
            },
        };
        if save_type == 1 {
            Result::Ok(())
        } else {
            Result::Err(SaveError::UnsupportedSaveType { found: save_type, at: start })
        }
    }

    /// Reads one peg address.
    fn read_peg_address(&mut self) -> (r: Result<PegAddress, SaveError>)
        requires
            old(self).pos <= old(self).data@.len(),
        ensures
            final(self).data == old(self).data,
            final(self).id_mapping == old(self).id_mapping,
            final(self).highest_state_id == old(self).highest_state_id,
            final(self).pos <= final(self).data@.len(),
            match sd_peg(old(self).data@, old(self).pos as int) {
                Result::Ok((p, j)) => r == Result::<PegAddress, SaveError>::Ok(p) && final(self).pos as int == j,
                Result::Err(e) => r == Result::<PegAddress, SaveError>::Err(e),
            },
    {
        let start = self.pos;
        let tag = match self.read_byte() {
            Result::Ok(v) => v,
            Result::Err(e) => {
                return Result::Err(e);
            },
        };
        let type_ = if tag == 1 {
            PegType::Input
        } else if tag == 2 {
            PegType::Output
        } else {
            return Result::Err(SaveError::UnknownPegType { found: tag, at: start });
        };
        let component = match self.read_address() {
            Result::Ok(v) => v,
            Result::Err(e) => {
                return Result::Err(e);
            },
        };
        let index = match self.read_int() {
            Result::Ok(v) => v,
            Result::Err(e) => {
                return Result::Err(e);
            },
        };
        Result::Ok(PegAddress { type_, component, index })
    }

    /// Reads one wire record.
    fn read_wire(&mut self) -> (r: Result<Wire, SaveError>)
        requires
            old(self).pos <= old(self).data@.len(),
        ensures
            final(self).data == old(self).data,
            final(self).id_mapping == old(self).id_mapping,
            final(self).pos <= final(self).data@.len(),
            match sd_wire(old(self).data@, old(self).pos as int, old(self).highest_state_id) {
                Result::Ok((w, j, h)) => r == Result::<Wire, SaveError>::Ok(w) && final(self).pos as int == j && final(self).highest_state_id == h,
                Result::Err(e) => r == Result::<Wire, SaveError>::Err(e),
            },
    {
        let start = match self.read_peg_address() {
            Result::Ok(v) => v,
            Result::Err(e) => {
                return Result::Err(e);
            },
        };
        let end = match self.read_peg_address() {
            Result::Ok(v) => v,
            Result::Err(e) => {
                return Result::Err(e);
            },
        };
        let state_id = match self.read_state_id() {
            Result::Ok(v) => v,
            Result::Err(e) => {
                return Result::Err(e);
            },
        };
        let rotation = match self.read_float_bits() {
            Result::Ok(v) => v,
            Result::Err(e) => {
                return Result::Err(e);
            },
        };
        Result::Ok(Wire { start, end, state_id, rotation })
    }

    /// Reads one component record, resolving its numeric type id through
    /// the dictionary read earlier.
    #[verifier::rlimit(100)]
    #[verifier::loop_isolation(false)]
    fn read_component(&mut self) -> (r: Result<Component, SaveError>)
        requires
            old(self).pos <= old(self).data@.len(),
        ensures
            final(self).data == old(self).data,
            final(self).id_mapping == old(self).id_mapping,
            final(self).pos <= final(self).data@.len(),
            match sd_component(
                old(self).data@,
                old(self).pos as int,
                old(self).id_mapping@,
                old(self).highest_state_id,
            ) {
                Result::Ok((c, j, h)) => r is Ok && r.unwrap()@ == c && final(self).pos as int == j
                    && final(self).highest_state_id == h,
                Result::Err(e) => r == Result::<Component, SaveError>::Err(e),
            },
    {
        let address = match self.read_address() {
            Result::Ok(v) => v,
            Result::Err(e) => {
                return Result::Err(e);
            },
        };
        let parent = match self.read_address() {
            Result::Ok(v) => v,
            Result::Err(e) => {
                return Result::Err(e);
            },
        };
        let num = match self.read_id() {
            Result::Ok(v) => v,
            Result::Err(e) => {
                return Result::Err(e);
            },
        };
        let id = match self.id_mapping.get_id(num) {
            Result::Ok(v) => v,
            Result::Err(e) => {
                return Result::Err(e);
            },
        };
        let position = match self.read_pos() {
            Result::Ok(v) => v,
            Result::Err(e) => {
                return Result::Err(e);
            },
        };
        let rotation = match self.read_rot() {
            Result::Ok(v) => v,
            Result::Err(e) => {
                return Result::Err(e);
            },
        };

        let ghost s = self.data@;
        let input_count = match self.read_int() {
            Result::Ok(v) => v,
            Result::Err(e) => {
                return Result::Err(e);
            },
        };
        let mut inputs: Vec<i32> = Vec::new();
        let ghost jin = self.pos as int;
        let ghost hin = self.highest_state_id;
        proof {
            assert(inputs@ =~= Seq::<i32>::empty());
        }
        let mut k: i32 = 0;
        while k < input_count
            invariant
                0 <= k,
                input_count <= 0 ==> k == 0,
                input_count > 0 ==> k <= input_count,
                self.data@ == s,
                self.pos <= s.len(),
                self.data == old(self).data,
                self.id_mapping == old(self).id_mapping,
                sd_ids(s, jin, max0(input_count), hin, Seq::empty()) == sd_ids(
                    s,
                    self.pos as int,
                    max0(input_count) - k,
                    self.highest_state_id,
                    inputs@,
                ),
            decreases input_count - k,
        {
            let v = match self.read_state_id() {
                Result::Ok(v) => v,
                Result::Err(e) => {
                    return Result::Err(e);
                },
            };
            inputs.push(v);
            k = k + 1;
        }

        let output_count = match self.read_int() {
            Result::Ok(v) => v,
            Result::Err(e) => {
                return Result::Err(e);
            },
        };
        let mut outputs: Vec<i32> = Vec::new();
        let ghost jout = self.pos as int;
        let ghost hout = self.highest_state_id;
        proof {
            assert(outputs@ =~= Seq::<i32>::empty());
        }
        let mut k2: i32 = 0;
        while k2 < output_count
            invariant
                0 <= k2,
                output_count <= 0 ==> k2 == 0,
                output_count > 0 ==> k2 <= output_count,
                self.data@ == s,
                self.pos <= s.len(),
                self.data == old(self).data,
                self.id_mapping == old(self).id_mapping,
                sd_ids(s, jout, max0(output_count), hout, Seq::empty()) == sd_ids(
                    s,
                    self.pos as int,
                    max0(output_count) - k2,
                    self.highest_state_id,
                    outputs@,
                ),
            decreases output_count - k2,
        {
            let v = match self.read_state_id() {
                Result::Ok(v) => v,
                Result::Err(e) => {
                    return Result::Err(e);
                },
            };
            outputs.push(v);
            k2 = k2 + 1;
        }

        let custom_data_amount = match self.read_int() {
            Result::Ok(v) => v,
            Result::Err(e) => {
                return Result::Err(e);
            },
        };
        let dl: usize = if custom_data_amount < 0 {
            0
        } else {
            custom_data_amount as usize
        };
        let pstart = self.pos;
        let data = match self.read_n_bytes(dl) {
            Result::Ok(v) => v,
            Result::Err(e) => {
                return Result::Err(e);
            },
        };
        let custom_data = match self.parse_custom_data(&id, data, pstart) {
            Result::Ok(v) => v,
            Result::Err(e) => {
                return Result::Err(e);
            },
        };

        Result::Ok(
            Component { address, parent, id, position, rotation, inputs, outputs, custom_data },
        )
    }

    /// Consumes the whole stream into a `SaveFile`, returning exactly
    /// what the byte-level specification assigns to the input bytes: the
    /// decoded model, or the error of the first malformed record; no
    /// partial model is ever handed out.
    #[verifier::rlimit(100)]
    #[verifier::loop_isolation(false)]
    pub fn parse_save(self) -> (r: Result<SaveFile, SaveError>)
        requires
            self.fresh(),
        ensures
            match r {
                Result::Ok(m) => sd_save(self@) == Result::<SaveV, SaveError>::Ok(m@),
                Result::Err(e) => sd_save(self@) == Result::<SaveV, SaveError>::Err(e),
            },
    {
        let mut this = self;
        let ghost s = this.data@;

        match this.validate_header() {
            Result::Ok(_) => {},
            Result::Err(e) => {
                return Result::Err(e);
            },
        }
        match this.validate_version() {
            Result::Ok(_) => {},
            Result::Err(e) => {
                return Result::Err(e);
            },
        }
        let game_version = match this.read_version() {
            Result::Ok(v) => v,
            Result::Err(e) => {
                return Result::Err(e);
            },
        };
        match this.validate_save_type() {
            Result::Ok(_) => {},
            Result::Err(e) => {
                return Result::Err(e);
            },
        }

        let num_components = match this.read_int() {
            Result::Ok(v) => v,
            Result::Err(e) => {
                return Result::Err(e);
            },
        };
        let num_wires = match this.read_int() {
            Result::Ok(v) => v,
            Result::Err(e) => {
                return Result::Err(e);
            },
        };

        let mod_versions = match this.read_mod_versions() {
            Result::Ok(v) => v,
            Result::Err(e) => {
                return Result::Err(e);
            },
        };
        match this.read_comp_map() {
            Result::Ok(_) => {},
            Result::Err(e) => {
                return Result::Err(e);
            },
        }
        let ghost cm = this.id_mapping@;

        let mut components: Vec<Component> = Vec::new();
        let ghost jc = this.pos as int;
        proof {
            assert(comps_view(components@) =~= Seq::<CompV>::empty());
        }
        let mut k: i32 = 0;
        while k < num_components
            invariant
                0 <= k,
                num_components <= 0 ==> k == 0,
                num_components > 0 ==> k <= num_components,
                this.data@ == s,
                this.pos <= s.len(),
                this.id_mapping@ == cm,
                sd_components(s, jc, max0(num_components), cm, 0, Seq::empty()) == sd_components(
                    s,
                    this.pos as int,
                    max0(num_components) - k,
                    cm,
                    this.highest_state_id,
                    comps_view(components@),
                ),
            decreases num_components - k,
        {
            let ghost prev = comps_view(components@);
            let c = match this.read_component() {
                Result::Ok(v) => v,
                Result::Err(e) => {
                    return Result::Err(e);
                },
            };
            components.push(c);
            proof {
                assert(comps_view(components@) =~= prev.push(c@));
            }
            k = k + 1;
        }

        let mut wires: Vec<Wire> = Vec::new();
        let ghost jw = this.pos as int;
        let ghost hw = this.highest_state_id;
        proof {
            assert(wires@ =~= Seq::<Wire>::empty());
        }
        let mut k2: i32 = 0;
        while k2 < num_wires
            invariant
                0 <= k2,
                num_wires <= 0 ==> k2 == 0,
                num_wires > 0 ==> k2 <= num_wires,
                this.data@ == s,
                this.pos <= s.len(),
                this.id_mapping@ == cm,
                sd_wires(s, jw, max0(num_wires), hw, Seq::empty()) == sd_wires(
                    s,
                    this.pos as int,
                    max0(num_wires) - k2,
                    this.highest_state_id,
                    wires@,
                ),
            decreases num_wires - k2,
        {
            let w = match this.read_wire() {
                Result::Ok(v) => v,
                Result::Err(e) => {
                    return Result::Err(e);
                },
            };
            wires.push(w);
            k2 = k2 + 1;
        }

        let num_states = match this.read_int() {
            Result::Ok(v) => v,
            Result::Err(e) => {
                return Result::Err(e);
            },
        };
        let sl: usize = if num_states < 0 {
            0
        } else {
            num_states as usize
        };
        let state_bytes = match this.read_n_bytes(sl) {
            Result::Ok(v) => v,
            Result::Err(e) => {
                return Result::Err(e);
            },
        };

        match this.validate_footer() {
            Result::Ok(_) => {},
            Result::Err(e) => {
                return Result::Err(e);
            },
        }

        let ghost cv = comps_view(components@);
        let n = components.len();
        let mut highest_address: u32 = 1;
        if n > 0 {
            highest_address = components[0].address;
            proof {
                assert(cv[0] == components@[0]@);
                assert(cv.skip(1) =~= cv.skip(1));
            }
            let mut t: usize = 1;
            while t < n
                invariant
                    1 <= t,
                    t <= n,
                    n == components.len(),
                    cv == comps_view(components@),
                    fold_addr(highest_address, cv.skip(t as int)) == max_addr(cv),
                decreases n - t,
            {
                proof {
                    assert(cv.skip(t as int)[0] == cv[t as int]);
                    assert(cv.skip(t as int).skip(1) =~= cv.skip(t + 1));
                    assert(cv[t as int] == components@[t as int]@);
                }
                if components[t].address > highest_address {
                    highest_address = components[t].address;
                }
                t = t + 1;
            }
            proof {
                assert(cv.skip(n as int) =~= Seq::<CompV>::empty());
            }
        }

        let hs = this.highest_state_id;
        let m = SaveFile {
            game_version,
            mod_versions,
            comp_map: this.id_mapping,
            components,
            wires,
            states: States(state_bytes),
            highest_state_id: hs,
            highest_address,
        };
        proof {
            assert(sd_save(s) == Result::<SaveV, SaveError>::Ok(m@));
        }
        Result::Ok(m)
    }
}

} // verus!
