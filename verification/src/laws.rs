//! The codec's laws, proved record by record, bottom-up: decoding an
//! encoding gives back exactly what was encoded (the round-trip theorem,
//! with its corollary that decoding is idempotent across a re-encode),
//! and cutting a well-formed stream anywhere short of its end makes the
//! decode fail as a truncation (the truncation theorem).

use vstd::prelude::*;

use crate::decode::max0;
use crate::decode::sd_cm;
use crate::decode::sd_component;
use crate::decode::sd_components;
use crate::decode::sd_custom;
use crate::decode::sd_i32;
use crate::decode::sd_ids;
use crate::decode::sd_mods;
use crate::decode::sd_peg;
use crate::decode::sd_pos;
use crate::decode::sd_raw;
use crate::decode::sd_rot;
use crate::decode::sd_save;
use crate::decode::sd_string;
use crate::decode::sd_u16;
use crate::decode::sd_u32;
use crate::decode::sd_u8;
use crate::decode::sd_version;
use crate::decode::sd_wire;
use crate::decode::sd_wires;
use crate::encode::peg_tag;
use crate::encode::se_cm;
use crate::encode::se_component;
use crate::encode::se_components;
use crate::encode::se_custom;
use crate::encode::se_ids;
use crate::encode::se_mods;
use crate::encode::se_peg;
use crate::encode::se_save;
use crate::encode::se_string;
use crate::encode::se_version;
use crate::encode::se_wire;
use crate::encode::se_wires;
use crate::err::SaveError;
use crate::model::button_name;
use crate::model::cm_insert;
use crate::model::cm_lookup_id;
use crate::model::cm_lookup_name;
use crate::model::cm_max_id;
use crate::model::cm_remove;
use crate::model::cm_wf;
use crate::model::comp_hsid;
use crate::model::comps_hsid;
use crate::model::display_name;
use crate::model::fold_ids;
use crate::model::footer_magic;
use crate::model::header_magic;
use crate::model::max_addr;
use crate::model::max_i32;
use crate::model::mods_insert;
use crate::model::model_hsid;
use crate::model::switch_name;
use crate::model::wf_component;
use crate::model::wf_custom;
use crate::model::wf_name;
use crate::model::wf_save;
use crate::model::CompV;
use crate::model::CustomV;
use crate::model::PegAddress;
use crate::model::Quat;
use crate::model::SaveV;
use crate::model::Vec3;
use crate::model::Version;
use crate::model::Wire;
use crate::prim::le16;
use crate::prim::le32i;
use crate::prim::le32u;
use crate::prim::lemma_le16_rt;
use crate::prim::lemma_le32i_rt;
use crate::prim::lemma_le32u_rt;
use crate::prim::lemma_subrange_split;

verus! {

/// A byte written at `i` is read back at `i`.
pub proof fn lemma_rt_u8(s: Seq<u8>, i: int, b: u8)
    requires
        0 <= i,
        i + 1 <= s.len(),
        s.subrange(i, i + 1) == seq![b],
    ensures
        sd_u8(s, i) == Result::<(u8, int), SaveError>::Ok((b, i + 1)),
{
    assert(s[i] == s.subrange(i, i + 1)[0]);
}

/// A 16-bit value written at `i` is read back at `i`.
pub proof fn lemma_rt_u16(s: Seq<u8>, i: int, v: u16)
    requires
        0 <= i,
        i + 2 <= s.len(),
        s.subrange(i, i + 2) == le16(v),
    ensures
        sd_u16(s, i) == Result::<(u16, int), SaveError>::Ok((v, i + 2)),
{
    assert(s[i] == s.subrange(i, i + 2)[0]);
    assert(s[i + 1] == s.subrange(i, i + 2)[1]);
    lemma_le16_rt(v);
}

/// An unsigned 32-bit value written at `i` is read back at `i`.
pub proof fn lemma_rt_u32(s: Seq<u8>, i: int, v: u32)
    requires
        0 <= i,
        i + 4 <= s.len(),
        s.subrange(i, i + 4) == le32u(v),
    ensures
        sd_u32(s, i) == Result::<(u32, int), SaveError>::Ok((v, i + 4)),
{
    assert(s[i] == s.subrange(i, i + 4)[0]);
    assert(s[i + 1] == s.subrange(i, i + 4)[1]);
    assert(s[i + 2] == s.subrange(i, i + 4)[2]);
    assert(s[i + 3] == s.subrange(i, i + 4)[3]);
    lemma_le32u_rt(v);
}

/// A signed 32-bit value written at `i` is read back at `i`.
pub proof fn lemma_rt_i32(s: Seq<u8>, i: int, v: i32)
    requires
        0 <= i,
        i + 4 <= s.len(),
        s.subrange(i, i + 4) == le32i(v),
    ensures
        sd_i32(s, i) == Result::<(i32, int), SaveError>::Ok((v, i + 4)),
{
    assert(s[i] == s.subrange(i, i + 4)[0]);
    assert(s[i + 1] == s.subrange(i, i + 4)[1]);
    assert(s[i + 2] == s.subrange(i, i + 4)[2]);
    assert(s[i + 3] == s.subrange(i, i + 4)[3]);
    lemma_le32i_rt(v);
}

/// Raw bytes written at `i` are read back at `i`.
pub proof fn lemma_rt_raw(s: Seq<u8>, i: int, b: Seq<u8>)
    requires
        0 <= i,
        i + b.len() <= s.len(),
        s.subrange(i, i + b.len()) == b,
    ensures
        sd_raw(s, i, b.len() as int) == Result::<(Seq<u8>, int), SaveError>::Ok(
            (b, i + b.len()),
        ),
{
}

/// A writable text field written at `i` is read back at `i`.
pub proof fn lemma_rt_string(s: Seq<u8>, i: int, name: Seq<u8>)
    requires
        wf_name(name),
        0 <= i,
        i + se_string(name).len() <= s.len(),
        s.subrange(i, i + se_string(name).len()) == se_string(name),
    ensures
        sd_string(s, i) == Result::<(Seq<u8>, int), SaveError>::Ok(
            (name, i + se_string(name).len()),
        ),
{
    lemma_subrange_split(s, i, le32i(name.len() as i32), name);
    lemma_rt_i32(s, i, name.len() as i32);
    lemma_rt_raw(s, i + 4, name);
}

/// A version quad written at `i` is read back at `i`.
pub proof fn lemma_rt_version(s: Seq<u8>, i: int, v: Version)
    requires
        0 <= i,
        i + 16 <= s.len(),
        s.subrange(i, i + 16) == se_version(v),
    ensures
        sd_version(s, i) == Result::<(Version, int), SaveError>::Ok((v, i + 16)),
{
    lemma_subrange_split(s, i, le32i(v.0) + le32i(v.1) + le32i(v.2), le32i(v.3));
    lemma_subrange_split(s, i, le32i(v.0) + le32i(v.1), le32i(v.2));
    lemma_subrange_split(s, i, le32i(v.0), le32i(v.1));
    lemma_rt_i32(s, i, v.0);
    lemma_rt_i32(s, i + 4, v.1);
    lemma_rt_i32(s, i + 8, v.2);
    lemma_rt_i32(s, i + 12, v.3);
}

/// A state-id list serializes to four bytes per id.
pub proof fn lemma_se_ids_len(ids: Seq<i32>)
    ensures
        se_ids(ids).len() == 4 * ids.len(),
    decreases ids.len(),
{
    if ids.len() > 0 {
        lemma_se_ids_len(ids.skip(1));
    }
}

/// A state-id list written at `i` is read back at `i`, with the
/// high-water mark folded over it.
pub proof fn lemma_rt_ids(s: Seq<u8>, i: int, ids: Seq<i32>, h: i32, acc: Seq<i32>)
    requires
        0 <= i,
        i + se_ids(ids).len() <= s.len(),
        s.subrange(i, i + se_ids(ids).len()) == se_ids(ids),
    ensures
        sd_ids(s, i, ids.len() as int, h, acc) == Result::<(Seq<i32>, int, i32), SaveError>::Ok(
            (acc + ids, i + se_ids(ids).len(), fold_ids(h, ids)),
        ),
    decreases ids.len(),
{
    lemma_se_ids_len(ids);
    if ids.len() == 0 {
        assert(acc + ids =~= acc);
    } else {
        lemma_se_ids_len(ids.skip(1));
        lemma_subrange_split(s, i, le32i(ids[0]), se_ids(ids.skip(1)));
        lemma_rt_i32(s, i, ids[0]);
        lemma_rt_ids(s, i + 4, ids.skip(1), max_i32(h, ids[0]), acc.push(ids[0]));
        assert(acc.push(ids[0]) + ids.skip(1) =~= acc + ids);
    }
}

/// A payload serialized from its typed variant parses back to the same
/// variant under the same name.
pub proof fn lemma_rt_custom(name: Seq<u8>, cd: CustomV, at: int)
    requires
        wf_custom(name, cd),
    ensures
        sd_custom(name, se_custom(cd), at) == Result::<CustomV, SaveError>::Ok(cd),
{
    match cd {
        CustomV::Switch { color, on } => {
            let d = se_custom(cd);
            assert(d.len() == 4);
            assert(d[0] == color.0 && d[1] == color.1 && d[2] == color.2);
            assert((d[3] != 0) == on);
        },
        CustomV::Display { color_mode } => {
            assert(display_name() != switch_name());
            assert(display_name() != button_name());
            lemma_le32u_rt(color_mode);
        },
        CustomV::Unknown(d) => {
        },
    }
}

/// A grid position written at `i` is read back at `i`.
pub proof fn lemma_rt_pos(s: Seq<u8>, i: int, p: Vec3)
    requires
        0 <= i,
        i + 12 <= s.len(),
        s.subrange(i, i + 12) == le32i(p.x) + le32i(p.y) + le32i(p.z),
    ensures
        sd_pos(s, i) == Result::<(Vec3, int), SaveError>::Ok((p, i + 12)),
{
    lemma_subrange_split(s, i, le32i(p.x) + le32i(p.y), le32i(p.z));
    lemma_subrange_split(s, i, le32i(p.x), le32i(p.y));
    lemma_rt_i32(s, i, p.x);
    lemma_rt_i32(s, i + 4, p.y);
    lemma_rt_i32(s, i + 8, p.z);
}

/// A rotation written at `i` is read back at `i`, bit for bit.
pub proof fn lemma_rt_rot(s: Seq<u8>, i: int, q: Quat)
    requires
        0 <= i,
        i + 16 <= s.len(),
        s.subrange(i, i + 16) == le32u(q.x) + le32u(q.y) + le32u(q.z) + le32u(q.w),
    ensures
        sd_rot(s, i) == Result::<(Quat, int), SaveError>::Ok((q, i + 16)),
{
    lemma_subrange_split(s, i, le32u(q.x) + le32u(q.y) + le32u(q.z), le32u(q.w));
    lemma_subrange_split(s, i, le32u(q.x) + le32u(q.y), le32u(q.z));
    lemma_subrange_split(s, i, le32u(q.x), le32u(q.y));
    lemma_rt_u32(s, i, q.x);
    lemma_rt_u32(s, i + 4, q.y);
    lemma_rt_u32(s, i + 8, q.z);
    lemma_rt_u32(s, i + 12, q.w);
}

/// A peg address written at `i` is read back at `i`.
pub proof fn lemma_rt_peg(s: Seq<u8>, i: int, p: PegAddress)
    requires
        0 <= i,
        i + 9 <= s.len(),
        s.subrange(i, i + 9) == se_peg(p),
    ensures
        sd_peg(s, i) == Result::<(PegAddress, int), SaveError>::Ok((p, i + 9)),
{
    lemma_subrange_split(s, i, seq![peg_tag(p.type_)] + le32u(p.component), le32i(p.index));
    lemma_subrange_split(s, i, seq![peg_tag(p.type_)], le32u(p.component));
    lemma_rt_u8(s, i, peg_tag(p.type_));
    lemma_rt_u32(s, i + 1, p.component);
    lemma_rt_i32(s, i + 5, p.index);
}

/// A wire written at `i` is read back at `i`, raising the high-water
/// mark to its state id.
pub proof fn lemma_rt_wire(s: Seq<u8>, i: int, w: Wire, h: i32)
    requires
        0 <= i,
        i + 26 <= s.len(),
        s.subrange(i, i + 26) == se_wire(w),
    ensures
        sd_wire(s, i, h) == Result::<(Wire, int, i32), SaveError>::Ok(
            (w, i + 26, max_i32(h, w.state_id)),
        ),
{
    lemma_subrange_split(s, i, se_peg(w.start) + se_peg(w.end) + le32i(w.state_id), le32u(
        w.rotation,
    ));
    lemma_subrange_split(s, i, se_peg(w.start) + se_peg(w.end), le32i(w.state_id));
    lemma_subrange_split(s, i, se_peg(w.start), se_peg(w.end));
    lemma_rt_peg(s, i, w.start);
    lemma_rt_peg(s, i + 9, w.end);
    lemma_rt_i32(s, i + 18, w.state_id);
    lemma_rt_u32(s, i + 22, w.rotation);
}

/// A wire list written at `i` is read back at `i`, with the high-water
/// mark folded over it.
pub proof fn lemma_rt_wires(s: Seq<u8>, i: int, ws: Seq<Wire>, h: i32, acc: Seq<Wire>)
    requires
        0 <= i,
        i + se_wires(ws).len() <= s.len(),
        s.subrange(i, i + se_wires(ws).len()) == se_wires(ws),
    ensures
        sd_wires(s, i, ws.len() as int, h, acc) == Result::<(Seq<Wire>, int, i32), SaveError>::Ok(
            (acc + ws, i + se_wires(ws).len(), crate::model::wires_hsid(h, ws)),
        ),
    decreases ws.len(),
{
    if ws.len() == 0 {
        assert(acc + ws =~= acc);
    } else {
        lemma_subrange_split(s, i, se_wire(ws[0]), se_wires(ws.skip(1)));
        lemma_rt_wire(s, i, ws[0], h);
        lemma_rt_wires(s, i + 26, ws.skip(1), max_i32(h, ws[0].state_id), acc.push(ws[0]));
        assert(acc.push(ws[0]) + ws.skip(1) =~= acc + ws);
    }
}

/// Removal keyed by an id and a name that occur nowhere changes nothing.
pub proof fn lemma_cm_remove_fresh(m: Seq<(u16, Seq<u8>)>, id: u16, name: Seq<u8>)
    requires
        forall|k: int| 0 <= k < m.len() ==> (#[trigger] m[k]).0 != id && m[k].1 != name,
    ensures
        cm_remove(m, id, name) == m,
    decreases m.len(),
{
    if m.len() == 0 {
        assert(cm_remove(m, id, name) =~= m);
    } else {
        assert(forall|k: int| 0 <= k < m.skip(1).len() ==> (#[trigger] m.skip(1)[k]) == m[k + 1]);
        lemma_cm_remove_fresh(m.skip(1), id, name);
        assert(seq![m[0]] + m.skip(1) =~= m);
    }
}

/// Insertion of an id and a name that occur nowhere appends the pair.
pub proof fn lemma_cm_insert_fresh(m: Seq<(u16, Seq<u8>)>, id: u16, name: Seq<u8>)
    requires
        forall|k: int| 0 <= k < m.len() ==> (#[trigger] m[k]).0 != id && m[k].1 != name,
    ensures
        cm_insert(m, id, name) == m.push((id, name)),
{
    lemma_cm_remove_fresh(m, id, name);
}

/// A successful name lookup names a pair that is present.
pub proof fn lemma_cm_lookup_name_mem(m: Seq<(u16, Seq<u8>)>, name: Seq<u8>)
    requires
        cm_lookup_name(m, name) is Some,
    ensures
        exists|k: int|
            0 <= k < m.len() && (#[trigger] m[k]).0 == cm_lookup_name(m, name).unwrap()
                && m[k].1 == name,
    decreases m.len(),
{
    if m[0].1 == name {
        assert(m[0].0 == cm_lookup_name(m, name).unwrap() && m[0].1 == name);
    } else {
        lemma_cm_lookup_name_mem(m.skip(1), name);
        let k = choose|k: int|
            0 <= k < m.skip(1).len() && (#[trigger] m.skip(1)[k]).0 == cm_lookup_name(
                m.skip(1),
                name,
            ).unwrap() && m.skip(1)[k].1 == name;
        assert(m[k + 1] == m.skip(1)[k]);
    }
}

/// In a bijective dictionary, the id found for a name maps back to that
/// name.
pub proof fn lemma_cm_bij(m: Seq<(u16, Seq<u8>)>, name: Seq<u8>)
    requires
        cm_wf(m),
        cm_lookup_name(m, name) is Some,
    ensures
        cm_lookup_id(m, cm_lookup_name(m, name).unwrap()) == Option::Some(name),
    decreases m.len(),
{
    let id = cm_lookup_name(m, name).unwrap();
    if m[0].1 == name {
    } else {
        assert(forall|k: int| 0 <= k < m.skip(1).len() ==> (#[trigger] m.skip(1)[k]) == m[k + 1]);
        lemma_cm_lookup_name_mem(m, name);
        let k = choose|k: int|
            0 <= k < m.len() && (#[trigger] m[k]).0 == id && m[k].1 == name;
        assert(k != 0);
        assert(m[0].0 != m[k].0);
        lemma_cm_bij(m.skip(1), name);
    }
}

/// A bijective dictionary written at `i` is read back at `i`: the
/// lockstep insertions reduce to appends, in order.
pub proof fn lemma_rt_cm(s: Seq<u8>, i: int, m: Seq<(u16, Seq<u8>)>, acc: Seq<(u16, Seq<u8>)>)
    requires
        0 <= i,
        i + se_cm(m).len() <= s.len(),
        s.subrange(i, i + se_cm(m).len()) == se_cm(m),
        cm_wf(acc + m),
        forall|k: int| 0 <= k < m.len() ==> wf_name((#[trigger] m[k]).1),
    ensures
        sd_cm(s, i, m.len() as int, acc) == Result::<(Seq<(u16, Seq<u8>)>, int), SaveError>::Ok(
            (acc + m, i + se_cm(m).len()),
        ),
    decreases m.len(),
{
    if m.len() == 0 {
        assert(acc + m =~= acc);
    } else {
        lemma_subrange_split(s, i, le16(m[0].0) + se_string(m[0].1), se_cm(m.skip(1)));
        lemma_subrange_split(s, i, le16(m[0].0), se_string(m[0].1));
        lemma_rt_u16(s, i, m[0].0);
        lemma_rt_string(s, i + 2, m[0].1);
        assert forall|j: int| 0 <= j < acc.len() implies (#[trigger] acc[j]).0 != m[0].0
            && acc[j].1 != m[0].1 by {
            assert((acc + m)[j] == acc[j]);
            assert((acc + m)[acc.len() as int] == m[0]);
            assert((acc + m)[j].0 != (acc + m)[acc.len() as int].0 && (acc + m)[j].1 != (acc
                + m)[acc.len() as int].1);
        }
        lemma_cm_insert_fresh(acc, m[0].0, m[0].1);
        assert(acc.push(m[0]) + m.skip(1) =~= acc + m);
        assert(forall|k: int|
            0 <= k < m.skip(1).len() ==> (#[trigger] m.skip(1)[k]) == m[k + 1]);
        lemma_rt_cm(s, i + 2 + se_string(m[0].1).len(), m.skip(1), acc.push(m[0]));
    }
}

/// A mod table with pairwise distinct names written at `i` is read back
/// at `i`: the last-wins insertions reduce to appends, in order.
pub proof fn lemma_rt_mods(
    s: Seq<u8>,
    i: int,
    ms: Seq<(Seq<u8>, Version)>,
    acc: Seq<(Seq<u8>, Version)>,
)
    requires
        0 <= i,
        i + se_mods(ms).len() <= s.len(),
        s.subrange(i, i + se_mods(ms).len()) == se_mods(ms),
        forall|a: int, b: int|
            0 <= a < b < (acc + ms).len() ==> (#[trigger] (acc + ms)[a]).0 != (#[trigger] (acc
                + ms)[b]).0,
        forall|k: int| 0 <= k < ms.len() ==> wf_name((#[trigger] ms[k]).0),
    ensures
        sd_mods(s, i, ms.len() as int, acc) == Result::<
            (Seq<(Seq<u8>, Version)>, int),
            SaveError,
        >::Ok((acc + ms, i + se_mods(ms).len())),
    decreases ms.len(),
{
    if ms.len() == 0 {
        assert(acc + ms =~= acc);
    } else {
        lemma_subrange_split(s, i, se_string(ms[0].0) + se_version(ms[0].1), se_mods(ms.skip(1)));
        lemma_subrange_split(s, i, se_string(ms[0].0), se_version(ms[0].1));
        lemma_rt_string(s, i, ms[0].0);
        lemma_rt_version(s, i + se_string(ms[0].0).len(), ms[0].1);
        assert forall|j: int| 0 <= j < acc.len() implies (#[trigger] acc[j]).0 != ms[0].0 by {
            assert((acc + ms)[j] == acc[j]);
            assert((acc + ms)[acc.len() as int] == ms[0]);
            assert((acc + ms)[j].0 != (acc + ms)[acc.len() as int].0);
        }
        crate::decode::lemma_mods_insert_absent(acc, ms[0].0, ms[0].1);
        assert(acc.push(ms[0]) + ms.skip(1) =~= acc + ms);
        assert(forall|k: int|
            0 <= k < ms.skip(1).len() ==> (#[trigger] ms.skip(1)[k]) == ms[k + 1]);
        lemma_rt_mods(s, i + se_string(ms[0].0).len() + 16, ms.skip(1), acc.push(ms[0]));
    }
}

/// A component record written at `i` under a bijective dictionary is
/// read back at `i`, with the high-water mark folded over its peg lists.
#[verifier::rlimit(100)]
pub proof fn lemma_rt_component(s: Seq<u8>, i: int, c: CompV, m: Seq<(u16, Seq<u8>)>, h: i32)
    requires
        cm_wf(m),
        wf_component(c, m),
        0 <= i,
        i + se_component(c, m).len() <= s.len(),
        s.subrange(i, i + se_component(c, m).len()) == se_component(c, m),
    ensures
        sd_component(s, i, m, h) == Result::<(CompV, int, i32), SaveError>::Ok(
            (c, i + se_component(c, m).len(), comp_hsid(h, c)),
        ),
{
    let nid = cm_lookup_name(m, c.id).unwrap();
    let a1 = le32u(c.address);
    let a2 = le32u(c.parent);
    let a3 = le16(nid);
    let a4 = le32i(c.position.x);
    let a5 = le32i(c.position.y);
    let a6 = le32i(c.position.z);
    let a7 = le32u(c.rotation.x);
    let a8 = le32u(c.rotation.y);
    let a9 = le32u(c.rotation.z);
    let a10 = le32u(c.rotation.w);
    let a11 = le32i(c.inputs.len() as i32);
    let a12 = se_ids(c.inputs);
    let a13 = le32i(c.outputs.len() as i32);
    let a14 = se_ids(c.outputs);
    let a15 = le32i(se_custom(c.custom_data).len() as i32);
    let a16 = se_custom(c.custom_data);
    let p2 = a1 + a2;
    let p3 = p2 + a3;
    let p4 = p3 + a4;
    let p5 = p4 + a5;
    let p6 = p5 + a6;
    let p7 = p6 + a7;
    let p8 = p7 + a8;
    let p9 = p8 + a9;
    let p10 = p9 + a10;
    let p11 = p10 + a11;
    let p12 = p11 + a12;
    let p13 = p12 + a13;
    let p14 = p13 + a14;
    let p15 = p14 + a15;
    assert(se_component(c, m) == p15 + a16);
    lemma_subrange_split(s, i, p15, a16);
    lemma_subrange_split(s, i, p14, a15);
    lemma_subrange_split(s, i, p13, a14);
    lemma_subrange_split(s, i, p12, a13);
    lemma_subrange_split(s, i, p11, a12);
    lemma_subrange_split(s, i, p10, a11);
    lemma_subrange_split(s, i, p9, a10);
    lemma_subrange_split(s, i, p8, a9);
    lemma_subrange_split(s, i, p7, a8);
    lemma_subrange_split(s, i, p6, a7);
    lemma_subrange_split(s, i, p5, a6);
    lemma_subrange_split(s, i, p4, a5);
    lemma_subrange_split(s, i, p3, a4);
    lemma_subrange_split(s, i, p2, a3);
    lemma_subrange_split(s, i, a1, a2);
    lemma_se_ids_len(c.inputs);
    lemma_se_ids_len(c.outputs);

    lemma_rt_u32(s, i, c.address);
    lemma_rt_u32(s, i + 4, c.parent);
    lemma_rt_u16(s, i + 8, nid);
    lemma_cm_bij(m, c.id);

    assert(s.subrange(i + 10, i + 22) =~= a4 + a5 + a6);
    lemma_rt_pos(s, i + 10, c.position);
    assert(s.subrange(i + 22, i + 38) =~= a7 + a8 + a9 + a10);
    lemma_rt_rot(s, i + 22, c.rotation);

    lemma_rt_i32(s, i + 38, c.inputs.len() as i32);
    lemma_rt_ids(s, i + 42, c.inputs, h, Seq::empty());
    assert(Seq::<i32>::empty() + c.inputs =~= c.inputs);

    let oi = i + 42 + 4 * c.inputs.len();
    lemma_rt_i32(s, oi, c.outputs.len() as i32);
    lemma_rt_ids(s, oi + 4, c.outputs, fold_ids(h, c.inputs), Seq::empty());
    assert(Seq::<i32>::empty() + c.outputs =~= c.outputs);

    let od = oi + 4 + 4 * c.outputs.len();
    assert(se_custom(c.custom_data).len() <= 0x7fffffff) by {
        match c.custom_data {
            CustomV::Unknown(d) => {},
            CustomV::Switch { color, on } => {},
            CustomV::Display { color_mode } => {},
        }
    }
    lemma_rt_i32(s, od, se_custom(c.custom_data).len() as i32);
    lemma_rt_raw(s, od + 4, se_custom(c.custom_data));
    lemma_rt_custom(c.id, c.custom_data, od + 4);

    assert(sd_component(s, i, m, h) == Result::<(CompV, int, i32), SaveError>::Ok(
        (c, i + se_component(c, m).len(), comp_hsid(h, c)),
    ));
}

/// A component list written at `i` under a bijective dictionary is read
/// back at `i`, in order, with the high-water mark folded over it.
pub proof fn lemma_rt_components(
    s: Seq<u8>,
    i: int,
    cs: Seq<CompV>,
    m: Seq<(u16, Seq<u8>)>,
    h: i32,
    acc: Seq<CompV>,
)
    requires
        cm_wf(m),
        forall|k: int| 0 <= k < cs.len() ==> wf_component(#[trigger] cs[k], m),
        0 <= i,
        i + se_components(cs, m).len() <= s.len(),
        s.subrange(i, i + se_components(cs, m).len()) == se_components(cs, m),
    ensures
        sd_components(s, i, cs.len() as int, m, h, acc) == Result::<
            (Seq<CompV>, int, i32),
            SaveError,
        >::Ok((acc + cs, i + se_components(cs, m).len(), comps_hsid(h, cs))),
    decreases cs.len(),
{
    if cs.len() == 0 {
        assert(acc + cs =~= acc);
    } else {
        lemma_subrange_split(s, i, se_component(cs[0], m), se_components(cs.skip(1), m));
        lemma_rt_component(s, i, cs[0], m, h);
        assert(forall|k: int|
            0 <= k < cs.skip(1).len() ==> (#[trigger] cs.skip(1)[k]) == cs[k + 1]);
        lemma_rt_components(
            s,
            i + se_component(cs[0], m).len(),
            cs.skip(1),
            m,
            comp_hsid(h, cs[0]),
            acc.push(cs[0]),
        );
        assert(acc.push(cs[0]) + cs.skip(1) =~= acc + cs);
    }
}

/// Where each section of an encoded save lies: the subrange of the
/// output that each piece occupies, by offset.
#[verifier::rlimit(100)]
pub proof fn lemma_save_sections(v: SaveV)
    ensures
        ({
            let s = se_save(v);
            let o9: int = 46 + se_mods(v.mod_versions).len() as int;
            let o11: int = o9 + 4 + se_cm(v.comp_map).len();
            let o12: int = o11 + se_components(v.components, v.comp_map).len();
            let o13: int = o12 + se_wires(v.wires).len();
            let o15: int = o13 + 4 + v.states.len();
            &&& s.len() == o15 + 16
            &&& s.subrange(0, 16) == header_magic()
            &&& s.subrange(16, 17) == seq![7u8]
            &&& s.subrange(17, 33) == se_version(v.game_version)
            &&& s.subrange(33, 34) == seq![1u8]
            &&& s.subrange(34, 38) == le32i(v.components.len() as i32)
            &&& s.subrange(38, 42) == le32i(v.wires.len() as i32)
            &&& s.subrange(42, 46) == le32i(v.mod_versions.len() as i32)
            &&& s.subrange(46, o9 as int) == se_mods(v.mod_versions)
            &&& s.subrange(o9 as int, o9 + 4) == le32i(v.comp_map.len() as i32)
            &&& s.subrange(o9 + 4, o11 as int) == se_cm(v.comp_map)
            &&& s.subrange(o11 as int, o12 as int) == se_components(v.components, v.comp_map)
            &&& s.subrange(o12 as int, o13 as int) == se_wires(v.wires)
            &&& s.subrange(o13 as int, o13 + 4) == le32i(v.states.len() as i32)
            &&& s.subrange(o13 + 4, o15 as int) == v.states
            &&& s.subrange(o15 as int, o15 + 16) == footer_magic()
        }),
{
    let s = se_save(v);
    let a1 = header_magic();
    let a2 = seq![7u8];
    let a3 = se_version(v.game_version);
    let a4 = seq![1u8];
    let a5 = le32i(v.components.len() as i32);
    let a6 = le32i(v.wires.len() as i32);
    let a7 = le32i(v.mod_versions.len() as i32);
    let a8 = se_mods(v.mod_versions);
    let a9 = le32i(v.comp_map.len() as i32);
    let a10 = se_cm(v.comp_map);
    let a11 = se_components(v.components, v.comp_map);
    let a12 = se_wires(v.wires);
    let a13 = le32i(v.states.len() as i32);
    let a14 = v.states;
    let a15 = footer_magic();
    let p2 = a1 + a2;
    let p3 = p2 + a3;
    let p4 = p3 + a4;
    let p5 = p4 + a5;
    let p6 = p5 + a6;
    let p7 = p6 + a7;
    let p8 = p7 + a8;
    let p9 = p8 + a9;
    let p10 = p9 + a10;
    let p11 = p10 + a11;
    let p12 = p11 + a12;
    let p13 = p12 + a13;
    let p14 = p13 + a14;
    assert(s == p14 + a15);
    assert(s.subrange(0, s.len() as int) =~= s);
    lemma_subrange_split(s, 0, p14, a15);
    lemma_subrange_split(s, 0, p13, a14);
    lemma_subrange_split(s, 0, p12, a13);
    lemma_subrange_split(s, 0, p11, a12);
    lemma_subrange_split(s, 0, p10, a11);
    lemma_subrange_split(s, 0, p9, a10);
    lemma_subrange_split(s, 0, p8, a9);
    lemma_subrange_split(s, 0, p7, a8);
    lemma_subrange_split(s, 0, p6, a7);
    lemma_subrange_split(s, 0, p5, a6);
    lemma_subrange_split(s, 0, p4, a5);
    lemma_subrange_split(s, 0, p3, a4);
    lemma_subrange_split(s, 0, p2, a3);
    lemma_subrange_split(s, 0, a1, a2);
}

/// Assembling a whole-save parse from the parses of its sections.
#[verifier::rlimit(100)]
pub proof fn lemma_rt_save_assemble(
    s: Seq<u8>,
    v: SaveV,
    o9: int,
    o11: int,
    o12: int,
    o13: int,
    o15: int,
)
    requires
        v.components.len() <= 0x7fffffff,
        v.wires.len() <= 0x7fffffff,
        v.mod_versions.len() <= 0x7fffffff,
        v.comp_map.len() <= 0x7fffffff,
        v.states.len() <= 0x7fffffff,
        sd_raw(s, 0, 16) == Result::<(Seq<u8>, int), SaveError>::Ok((header_magic(), 16)),
        sd_u8(s, 16) == Result::<(u8, int), SaveError>::Ok((7u8, 17)),
        sd_version(s, 17) == Result::<(Version, int), SaveError>::Ok((v.game_version, 33)),
        sd_u8(s, 33) == Result::<(u8, int), SaveError>::Ok((1u8, 34)),
        sd_i32(s, 34) == Result::<(i32, int), SaveError>::Ok((v.components.len() as i32, 38)),
        sd_i32(s, 38) == Result::<(i32, int), SaveError>::Ok((v.wires.len() as i32, 42)),
        sd_i32(s, 42) == Result::<(i32, int), SaveError>::Ok((v.mod_versions.len() as i32, 46)),
        sd_mods(s, 46, v.mod_versions.len() as int, Seq::empty()) == Result::<
            (Seq<(Seq<u8>, Version)>, int),
            SaveError,
        >::Ok((v.mod_versions, o9)),
        sd_i32(s, o9) == Result::<(i32, int), SaveError>::Ok((v.comp_map.len() as i32, o9 + 4)),
        sd_cm(s, o9 + 4, v.comp_map.len() as int, Seq::empty()) == Result::<
            (Seq<(u16, Seq<u8>)>, int),
            SaveError,
        >::Ok((v.comp_map, o11)),
        sd_components(s, o11, v.components.len() as int, v.comp_map, 0, Seq::empty())
            == Result::<(Seq<CompV>, int, i32), SaveError>::Ok(
            (v.components, o12, comps_hsid(0, v.components)),
        ),
        sd_wires(s, o12, v.wires.len() as int, comps_hsid(0, v.components), Seq::empty())
            == Result::<(Seq<Wire>, int, i32), SaveError>::Ok(
            (v.wires, o13, v.highest_state_id),
        ),
        sd_i32(s, o13) == Result::<(i32, int), SaveError>::Ok((v.states.len() as i32, o13 + 4)),
        sd_raw(s, o13 + 4, v.states.len() as int) == Result::<(Seq<u8>, int), SaveError>::Ok(
            (v.states, o15),
        ),
        sd_raw(s, o15, 16) == Result::<(Seq<u8>, int), SaveError>::Ok(
            (footer_magic(), o15 + 16),
        ),
        v.highest_address == max_addr(v.components),
    ensures
        sd_save(s) == Result::<SaveV, SaveError>::Ok(v),
{
    assert(max0(v.components.len() as i32) == v.components.len());
    assert(max0(v.wires.len() as i32) == v.wires.len());
    assert(max0(v.mod_versions.len() as i32) == v.mod_versions.len());
    assert(max0(v.comp_map.len() as i32) == v.comp_map.len());
    assert(max0(v.states.len() as i32) == v.states.len());
    let w = SaveV {
        game_version: v.game_version,
        mod_versions: v.mod_versions,
        comp_map: v.comp_map,
        components: v.components,
        wires: v.wires,
        states: v.states,
        highest_state_id: v.highest_state_id,
        highest_address: max_addr(v.components),
    };
    assert(w =~= v);
    assert(sd_save(s) == Result::<SaveV, SaveError>::Ok(w));
}

/// Round trip: decoding the encoding of any well-formed model gives the
/// model back, field for field — the dictionary and the mod table in
/// order, the component and wire sequences in order, the state buffer
/// byte for byte, and both high-water marks.
#[verifier::rlimit(100)]
pub proof fn lemma_round_trip(v: SaveV)
    requires
        wf_save(v),
    ensures
        sd_save(se_save(v)) == Result::<SaveV, SaveError>::Ok(v),
{
    let s = se_save(v);
    lemma_save_sections(v);
    let o9: int = 46 + se_mods(v.mod_versions).len() as int;
    let o11: int = o9 + 4 + se_cm(v.comp_map).len();
    let o12: int = o11 + se_components(v.components, v.comp_map).len();
    let o13: int = o12 + se_wires(v.wires).len();
    let o15: int = o13 + 4 + v.states.len();

    lemma_rt_raw(s, 0, header_magic());
    lemma_rt_u8(s, 16, 7u8);
    lemma_rt_version(s, 17, v.game_version);
    lemma_rt_u8(s, 33, 1u8);
    lemma_rt_i32(s, 34, v.components.len() as i32);
    lemma_rt_i32(s, 38, v.wires.len() as i32);
    lemma_rt_i32(s, 42, v.mod_versions.len() as i32);

    assert(Seq::<(Seq<u8>, Version)>::empty() + v.mod_versions =~= v.mod_versions);
    lemma_rt_mods(s, 46, v.mod_versions, Seq::empty());

    lemma_rt_i32(s, o9, v.comp_map.len() as i32);
    assert(Seq::<(u16, Seq<u8>)>::empty() + v.comp_map =~= v.comp_map);
    lemma_rt_cm(s, o9 + 4, v.comp_map, Seq::empty());

    assert(Seq::<CompV>::empty() + v.components =~= v.components);
    lemma_rt_components(s, o11, v.components, v.comp_map, 0, Seq::empty());

    assert(Seq::<Wire>::empty() + v.wires =~= v.wires);
    lemma_rt_wires(s, o12, v.wires, comps_hsid(0, v.components), Seq::empty());

    lemma_rt_i32(s, o13, v.states.len() as i32);
    lemma_rt_raw(s, o13 + 4, v.states);
    lemma_rt_raw(s, o15, footer_magic());

    lemma_rt_save_assemble(s, v, o9, o11, o12, o13, o15);
}

/// Every id in the dictionary is at most the greatest id.
pub proof fn lemma_cm_max_id_bound(m: Seq<(u16, Seq<u8>)>)
    ensures
        forall|k: int| 0 <= k < m.len() ==> (#[trigger] m[k]).0 <= cm_max_id(m),
    decreases m.len(),
{
    if m.len() > 0 {
        lemma_cm_max_id_bound(m.skip(1));
        assert forall|k: int| 0 <= k < m.len() implies (#[trigger] m[k]).0 <= cm_max_id(m) by {
            if k > 0 {
                assert(m.skip(1)[k - 1] == m[k]);
                assert(m.skip(1)[k - 1].0 <= cm_max_id(m.skip(1)));
            }
        }
    }
}

/// What `ensure` does for a missing name: the id it assigns is strictly
/// greater than every id currently present, and the insertion only
/// appends the new pair — no existing mapping is mutated, and ids are
/// never reused.
pub proof fn lemma_ensure_assigns_fresh_id(m: Seq<(u16, Seq<u8>)>, name: Seq<u8>)
    requires
        cm_lookup_name(m, name) is None,
        cm_max_id(m) < 0xffff,
    ensures
        forall|k: int| 0 <= k < m.len() ==> (#[trigger] m[k]).0 < cm_max_id(m) + 1,
        cm_insert(m, (cm_max_id(m) + 1) as u16, name) == m.push(
            ((cm_max_id(m) + 1) as u16, name),
        ),
{
    lemma_cm_max_id_bound(m);
    assert forall|k: int| 0 <= k < m.len() implies (#[trigger] m[k]).1 != name by {
        if m[k].1 == name {
            lemma_cm_mem_name(m, name);
        }
    }
    lemma_cm_insert_fresh(m, (cm_max_id(m) + 1) as u16, name);
}

/// Removal keeps the dictionary bijective, removes every trace of the
/// key, and invents no pair.
pub proof fn lemma_cm_remove_wf(m: Seq<(u16, Seq<u8>)>, id: u16, name: Seq<u8>)
    requires
        cm_wf(m),
    ensures
        cm_wf(cm_remove(m, id, name)),
        cm_remove(m, id, name).len() <= m.len(),
        forall|k: int|
            0 <= k < cm_remove(m, id, name).len() ==> (#[trigger] cm_remove(m, id, name)[k]).0
                != id && cm_remove(m, id, name)[k].1 != name,
        forall|k: int|
            0 <= k < cm_remove(m, id, name).len() ==> exists|j: int|
                0 <= j < m.len() && m[j] == (#[trigger] cm_remove(m, id, name)[k]),
    decreases m.len(),
{
    if m.len() == 0 {
    } else {
        let rest = m.skip(1);
        assert(forall|k: int| 0 <= k < rest.len() ==> (#[trigger] rest[k]) == m[k + 1]);
        lemma_cm_remove_wf(rest, id, name);
        let rr = cm_remove(rest, id, name);
        assert(forall|k: int|
            0 <= k < rr.len() ==> exists|j: int| 0 <= j < m.len() && m[j] == (#[trigger] rr[k]))
            by {
            assert forall|k: int| 0 <= k < rr.len() implies exists|j: int|
                0 <= j < m.len() && m[j] == (#[trigger] rr[k]) by {
                let j = choose|j: int| 0 <= j < rest.len() && rest[j] == rr[k];
                assert(m[j + 1] == rr[k]);
            }
        }
        if m[0].0 == id || m[0].1 == name {
        } else {
            let out = seq![m[0]] + rr;
            assert(out[0] == m[0]);
            assert(forall|k: int| 1 <= k < out.len() ==> (#[trigger] out[k]) == rr[k - 1]);
            assert forall|a: int, b: int| 0 <= a < b < out.len() implies (#[trigger] out[a]).0
                != (#[trigger] out[b]).0 && out[a].1 != out[b].1 by {
                if a == 0 {
                    let j = choose|j: int| 0 <= j < m.len() && m[j] == rr[b - 1];
                    if j == 0 {
                        assert(m[0] == rr[b - 1]);
                        assert(rr[b - 1].0 != id && rr[b - 1].1 != name);
                        assert(false);
                    }
                    assert(m[0].0 != m[j].0 && m[0].1 != m[j].1);
                } else {
                    assert(cm_wf(rr));
                }
            }
        }
    }
}

/// Insertion keeps the dictionary bijective and invents no pair beyond
/// the inserted one.
pub proof fn lemma_cm_insert_wf(m: Seq<(u16, Seq<u8>)>, id: u16, name: Seq<u8>)
    requires
        cm_wf(m),
    ensures
        cm_wf(cm_insert(m, id, name)),
        cm_insert(m, id, name).len() <= m.len() + 1,
        forall|k: int|
            0 <= k < cm_insert(m, id, name).len() ==> (#[trigger] cm_insert(m, id, name)[k]) == (
            id, name) || exists|j: int|
                0 <= j < m.len() && m[j] == cm_insert(m, id, name)[k],
{
    lemma_cm_remove_wf(m, id, name);
    let rem = cm_remove(m, id, name);
    let out = cm_insert(m, id, name);
    assert(out[out.len() - 1] == (id, name));
    assert(forall|k: int| 0 <= k < rem.len() ==> (#[trigger] out[k]) == rem[k]);
    assert forall|a: int, b: int| 0 <= a < b < out.len() implies (#[trigger] out[a]).0 != (
        #[trigger] out[b]).0 && out[a].1 != out[b].1 by {
        if b == out.len() - 1 {
            assert(rem[a].0 != id && rem[a].1 != name);
        } else {
            assert(cm_wf(rem));
        }
    }
}

/// A dictionary read from the stream is bijective, has writable names,
/// and grows by at most one pair per entry read.
pub proof fn lemma_sd_cm_wf(s: Seq<u8>, i: int, n: int, acc: Seq<(u16, Seq<u8>)>)
    requires
        0 <= n,
        cm_wf(acc),
        forall|k: int| 0 <= k < acc.len() ==> wf_name((#[trigger] acc[k]).1),
        sd_cm(s, i, n, acc) is Ok,
    ensures
        cm_wf(sd_cm(s, i, n, acc).unwrap().0),
        sd_cm(s, i, n, acc).unwrap().0.len() <= acc.len() + n,
        forall|k: int|
            0 <= k < sd_cm(s, i, n, acc).unwrap().0.len() ==> wf_name(
                (#[trigger] sd_cm(s, i, n, acc).unwrap().0[k]).1,
            ),
    decreases n,
{
    if n <= 0 {
    } else {
        let (id, j) = sd_u16(s, i).unwrap();
        let (name, k2) = sd_string(s, j).unwrap();
        assert(wf_name(name));
        lemma_cm_insert_wf(acc, id, name);
        assert forall|t: int| 0 <= t < cm_insert(acc, id, name).len() implies wf_name(
            (#[trigger] cm_insert(acc, id, name)[t]).1,
        ) by {
            if cm_insert(acc, id, name)[t] == (id, name) {
            } else {
                let j2 = choose|j2: int|
                    0 <= j2 < acc.len() && acc[j2] == cm_insert(acc, id, name)[t];
            }
        }
        lemma_sd_cm_wf(s, k2, n - 1, cm_insert(acc, id, name));
    }
}

/// Last-wins insertion keeps mod names pairwise distinct and writable,
/// and grows the table by at most one entry.
pub proof fn lemma_mods_insert_wf(m: Seq<(Seq<u8>, Version)>, name: Seq<u8>, ver: Version)
    requires
        forall|a: int, b: int|
            0 <= a < b < m.len() ==> (#[trigger] m[a]).0 != (#[trigger] m[b]).0,
        forall|k: int| 0 <= k < m.len() ==> wf_name((#[trigger] m[k]).0),
        wf_name(name),
    ensures
        forall|a: int, b: int|
            0 <= a < b < mods_insert(m, name, ver).len() ==> (#[trigger] mods_insert(
                m,
                name,
                ver,
            )[a]).0 != (#[trigger] mods_insert(m, name, ver)[b]).0,
        forall|k: int|
            0 <= k < mods_insert(m, name, ver).len() ==> wf_name(
                (#[trigger] mods_insert(m, name, ver)[k]).0,
            ),
        mods_insert(m, name, ver).len() <= m.len() + 1,
    decreases m.len(),
{
    if m.len() == 0 {
    } else if m[0].0 == name {
        let out = seq![(name, ver)] + m.skip(1);
        assert(out[0].0 == m[0].0);
        assert(forall|k: int| 1 <= k < out.len() ==> (#[trigger] out[k]) == m[k]);
    } else {
        let rest = m.skip(1);
        assert(forall|k: int| 0 <= k < rest.len() ==> (#[trigger] rest[k]) == m[k + 1]);
        lemma_mods_insert_wf(rest, name, ver);
        let rr = mods_insert(rest, name, ver);
        let out = seq![m[0]] + rr;
        assert(out[0] == m[0]);
        assert(forall|k: int| 1 <= k < out.len() ==> (#[trigger] out[k]) == rr[k - 1]);
        assert forall|a: int, b: int| 0 <= a < b < out.len() implies (#[trigger] out[a]).0 != (
            #[trigger] out[b]).0 by {
            if a == 0 {
                lemma_mods_insert_mem(rest, name, ver, b - 1);
            }
        }
    }
}

/// Every entry of a last-wins insertion is an old entry or carries the
/// inserted name.
pub proof fn lemma_mods_insert_mem(
    m: Seq<(Seq<u8>, Version)>,
    name: Seq<u8>,
    ver: Version,
    k: int,
)
    requires
        0 <= k < mods_insert(m, name, ver).len(),
    ensures
        mods_insert(m, name, ver)[k].0 == name || exists|j: int|
            0 <= j < m.len() && (#[trigger] m[j]).0 == mods_insert(m, name, ver)[k].0,
    decreases m.len(),
{
    if m.len() == 0 {
    } else if m[0].0 == name {
        if k > 0 {
            assert(mods_insert(m, name, ver)[k] == m.skip(1)[k - 1]);
            assert(m[k] == m.skip(1)[k - 1]);
        }
    } else {
        if k == 0 {
        } else {
            lemma_mods_insert_mem(m.skip(1), name, ver, k - 1);
            let rr = mods_insert(m.skip(1), name, ver);
            assert(mods_insert(m, name, ver)[k] == rr[k - 1]);
            if rr[k - 1].0 != name {
                let j = choose|j: int| 0 <= j < m.skip(1).len() && (#[trigger] m.skip(1)[j]).0
                    == rr[k - 1].0;
                assert(m[j + 1] == m.skip(1)[j]);
            }
        }
    }
}

/// A mod table read from the stream has pairwise distinct, writable
/// names and at most one entry per pair read.
pub proof fn lemma_sd_mods_wf(s: Seq<u8>, i: int, n: int, acc: Seq<(Seq<u8>, Version)>)
    requires
        0 <= n,
        forall|a: int, b: int|
            0 <= a < b < acc.len() ==> (#[trigger] acc[a]).0 != (#[trigger] acc[b]).0,
        forall|k: int| 0 <= k < acc.len() ==> wf_name((#[trigger] acc[k]).0),
        sd_mods(s, i, n, acc) is Ok,
    ensures
        forall|a: int, b: int|
            0 <= a < b < sd_mods(s, i, n, acc).unwrap().0.len() ==> (#[trigger] sd_mods(
                s,
                i,
                n,
                acc,
            ).unwrap().0[a]).0 != (#[trigger] sd_mods(s, i, n, acc).unwrap().0[b]).0,
        forall|k: int|
            0 <= k < sd_mods(s, i, n, acc).unwrap().0.len() ==> wf_name(
                (#[trigger] sd_mods(s, i, n, acc).unwrap().0[k]).0,
            ),
        sd_mods(s, i, n, acc).unwrap().0.len() <= acc.len() + n,
    decreases n,
{
    if n <= 0 {
    } else {
        let (name, j) = sd_string(s, i).unwrap();
        let (ver, k2) = sd_version(s, j).unwrap();
        assert(wf_name(name));
        lemma_mods_insert_wf(acc, name, ver);
        lemma_sd_mods_wf(s, k2, n - 1, mods_insert(acc, name, ver));
    }
}

/// What a state-id list read yields: the accumulator extended by as many
/// ids as were asked for, with the mark folded over the new ids.
pub proof fn lemma_sd_ids_props(s: Seq<u8>, i: int, n: int, h: i32, acc: Seq<i32>)
    requires
        0 <= n,
        sd_ids(s, i, n, h, acc) is Ok,
    ensures
        sd_ids(s, i, n, h, acc).unwrap().0.len() == acc.len() + n,
        sd_ids(s, i, n, h, acc).unwrap().0.take(acc.len() as int) == acc,
        sd_ids(s, i, n, h, acc).unwrap().2 == fold_ids(
            h,
            sd_ids(s, i, n, h, acc).unwrap().0.skip(acc.len() as int),
        ),
    decreases n,
{
    let ids = sd_ids(s, i, n, h, acc).unwrap().0;
    if n <= 0 {
        assert(ids.take(acc.len() as int) =~= acc);
        assert(ids.skip(acc.len() as int) =~= Seq::<i32>::empty());
    } else {
        let (v, j) = sd_i32(s, i).unwrap();
        lemma_sd_ids_props(s, j, n - 1, max_i32(h, v), acc.push(v));
        assert(ids.take(acc.len() as int + 1) == acc.push(v));
        assert forall|t: int| 0 <= t < acc.len() implies ids[t] == acc[t] by {
            assert(ids.take(acc.len() as int + 1)[t] == ids[t]);
            assert(acc.push(v)[t] == acc[t]);
        }
        assert(ids.take(acc.len() as int) =~= acc);
        assert(ids[acc.len() as int] == ids.take(acc.len() as int + 1)[acc.len() as int]);
        assert(ids.skip(acc.len() as int)[0] == v);
        assert(ids.skip(acc.len() as int).skip(1) =~= ids.skip(acc.len() as int + 1));
        assert(fold_ids(h, ids.skip(acc.len() as int)) == fold_ids(
            max_i32(h, v),
            ids.skip(acc.len() as int + 1),
        ));
    }
}

/// Whatever a payload dispatch accepts matches the name-keyed dispatch.
pub proof fn lemma_sd_custom_wf(name: Seq<u8>, d: Seq<u8>, at: int)
    requires
        d.len() <= 0x7fffffff,
        sd_custom(name, d, at) is Ok,
    ensures
        wf_custom(name, sd_custom(name, d, at).unwrap()),
{
}

/// A name that occurs in the dictionary is found by name lookup.
pub proof fn lemma_cm_mem_name(m: Seq<(u16, Seq<u8>)>, name: Seq<u8>)
    requires
        exists|k: int| 0 <= k < m.len() && (#[trigger] m[k]).1 == name,
    ensures
        cm_lookup_name(m, name) is Some,
    decreases m.len(),
{
    let k = choose|k: int| 0 <= k < m.len() && (#[trigger] m[k]).1 == name;
    if m[0].1 == name {
    } else {
        assert(m.skip(1)[k - 1] == m[k]);
        lemma_cm_mem_name(m.skip(1), name);
    }
}

/// A successful id lookup names a pair that is present.
pub proof fn lemma_cm_lookup_id_mem(m: Seq<(u16, Seq<u8>)>, id: u16)
    requires
        cm_lookup_id(m, id) is Some,
    ensures
        exists|k: int|
            0 <= k < m.len() && (#[trigger] m[k]).0 == id && m[k].1 == cm_lookup_id(
                m,
                id,
            ).unwrap(),
    decreases m.len(),
{
    if m[0].0 == id {
        assert(m[0].0 == id && m[0].1 == cm_lookup_id(m, id).unwrap());
    } else {
        lemma_cm_lookup_id_mem(m.skip(1), id);
        let k = choose|k: int|
            0 <= k < m.skip(1).len() && (#[trigger] m.skip(1)[k]).0 == id && m.skip(1)[k].1
                == cm_lookup_id(m.skip(1), id).unwrap();
        assert(m[k + 1] == m.skip(1)[k]);
    }
}

/// A component record the decoder accepts is writable back through the
/// same dictionary, and advances the mark by exactly its own ids.
#[verifier::rlimit(100)]
pub proof fn lemma_sd_component_wf(s: Seq<u8>, i: int, m: Seq<(u16, Seq<u8>)>, h: i32)
    requires
        sd_component(s, i, m, h) is Ok,
    ensures
        wf_component(sd_component(s, i, m, h).unwrap().0, m),
        sd_component(s, i, m, h).unwrap().2 == comp_hsid(h, sd_component(s, i, m, h).unwrap().0),
{
    let (num, i3) = sd_u16(s, i + 4 + 4).unwrap();
    let name = cm_lookup_id(m, num).unwrap();
    lemma_cm_lookup_id_mem(m, num);
    lemma_cm_mem_name(m, name);
    let (n_in, i6) = sd_i32(s, i3 + 12 + 16).unwrap();
    lemma_sd_ids_props(s, i6, max0(n_in), h, Seq::empty());
    let (inputs, i7, h1) = sd_ids(s, i6, max0(n_in), h, Seq::empty()).unwrap();
    assert(inputs.skip(0) =~= inputs);
    let (n_out, i8) = sd_i32(s, i7).unwrap();
    lemma_sd_ids_props(s, i8, max0(n_out), h1, Seq::empty());
    let (outputs, i9, h2) = sd_ids(s, i8, max0(n_out), h1, Seq::empty()).unwrap();
    assert(outputs.skip(0) =~= outputs);
    let (dlen, i10) = sd_i32(s, i9).unwrap();
    let (payload, i11) = sd_raw(s, i10, max0(dlen)).unwrap();
    lemma_sd_custom_wf(name, payload, i10);
}

/// A component list the decoder accepts extends the accumulator by
/// writable components, with the mark folded over the new part.
pub proof fn lemma_sd_components_wf(
    s: Seq<u8>,
    i: int,
    n: int,
    m: Seq<(u16, Seq<u8>)>,
    h: i32,
    acc: Seq<CompV>,
)
    requires
        0 <= n,
        sd_components(s, i, n, m, h, acc) is Ok,
    ensures
        sd_components(s, i, n, m, h, acc).unwrap().0.len() == acc.len() + n,
        sd_components(s, i, n, m, h, acc).unwrap().0.take(acc.len() as int) == acc,
        forall|k: int|
            acc.len() <= k < acc.len() + n ==> wf_component(
                #[trigger] sd_components(s, i, n, m, h, acc).unwrap().0[k],
                m,
            ),
        sd_components(s, i, n, m, h, acc).unwrap().2 == comps_hsid(
            h,
            sd_components(s, i, n, m, h, acc).unwrap().0.skip(acc.len() as int),
        ),
    decreases n,
{
    let cs = sd_components(s, i, n, m, h, acc).unwrap().0;
    if n <= 0 {
        assert(cs.take(acc.len() as int) =~= acc);
        assert(cs.skip(acc.len() as int) =~= Seq::<CompV>::empty());
    } else {
        let (c, j, h1) = sd_component(s, i, m, h).unwrap();
        lemma_sd_component_wf(s, i, m, h);
        lemma_sd_components_wf(s, j, n - 1, m, h1, acc.push(c));
        assert(cs.take(acc.len() as int + 1) == acc.push(c));
        assert forall|t: int| 0 <= t < acc.len() implies cs[t] == acc[t] by {
            assert(cs.take(acc.len() as int + 1)[t] == cs[t]);
            assert(acc.push(c)[t] == acc[t]);
        }
        assert(cs.take(acc.len() as int) =~= acc);
        assert(cs[acc.len() as int] == cs.take(acc.len() as int + 1)[acc.len() as int]);
        assert(cs.skip(acc.len() as int)[0] == c);
        assert(cs.skip(acc.len() as int).skip(1) =~= cs.skip(acc.len() as int + 1));
        assert(comps_hsid(h, cs.skip(acc.len() as int)) == comps_hsid(
            comp_hsid(h, c),
            cs.skip(acc.len() as int + 1),
        ));
    }
}

/// A wire list the decoder accepts extends the accumulator by as many
/// wires as were asked for, with the mark folded over the new part.
pub proof fn lemma_sd_wires_wf(s: Seq<u8>, i: int, n: int, h: i32, acc: Seq<Wire>)
    requires
        0 <= n,
        sd_wires(s, i, n, h, acc) is Ok,
    ensures
        sd_wires(s, i, n, h, acc).unwrap().0.len() == acc.len() + n,
        sd_wires(s, i, n, h, acc).unwrap().0.take(acc.len() as int) == acc,
        sd_wires(s, i, n, h, acc).unwrap().2 == crate::model::wires_hsid(
            h,
            sd_wires(s, i, n, h, acc).unwrap().0.skip(acc.len() as int),
        ),
    decreases n,
{
    let ws = sd_wires(s, i, n, h, acc).unwrap().0;
    if n <= 0 {
        assert(ws.take(acc.len() as int) =~= acc);
        assert(ws.skip(acc.len() as int) =~= Seq::<Wire>::empty());
    } else {
        let (w, j, h1) = sd_wire(s, i, h).unwrap();
        assert(h1 == max_i32(h, w.state_id));
        lemma_sd_wires_wf(s, j, n - 1, h1, acc.push(w));
        assert(ws.take(acc.len() as int + 1) == acc.push(w));
        assert forall|t: int| 0 <= t < acc.len() implies ws[t] == acc[t] by {
            assert(ws.take(acc.len() as int + 1)[t] == ws[t]);
            assert(acc.push(w)[t] == acc[t]);
        }
        assert(ws.take(acc.len() as int) =~= acc);
        assert(ws[acc.len() as int] == ws.take(acc.len() as int + 1)[acc.len() as int]);
        assert(ws.skip(acc.len() as int)[0] == w);
        assert(ws.skip(acc.len() as int).skip(1) =~= ws.skip(acc.len() as int + 1));
        assert(crate::model::wires_hsid(h, ws.skip(acc.len() as int))
            == crate::model::wires_hsid(h1, ws.skip(acc.len() as int + 1)));
    }
}

/// Whatever the decoder accepts is a well-formed model: its dictionary
/// is bijective, every component is writable back through it, and the
/// high-water marks agree with the contents.
#[verifier::rlimit(100)]
pub proof fn lemma_decode_wf(s: Seq<u8>)
    requires
        sd_save(s) is Ok,
    ensures
        wf_save(sd_save(s).unwrap()),
{
    let v = sd_save(s).unwrap();
    let (gv, i2) = sd_version(s, 17).unwrap();
    let (n_comp, i4) = sd_i32(s, 34).unwrap();
    let (n_wire, i5) = sd_i32(s, i4).unwrap();
    let (n_mods, i6) = sd_i32(s, i5).unwrap();
    lemma_sd_mods_wf(s, i6, max0(n_mods), Seq::empty());
    let (mods, i7) = sd_mods(s, i6, max0(n_mods), Seq::empty()).unwrap();
    let (n_cm, i8) = sd_i32(s, i7).unwrap();
    lemma_sd_cm_wf(s, i8, max0(n_cm), Seq::empty());
    let (cm, i9) = sd_cm(s, i8, max0(n_cm), Seq::empty()).unwrap();
    lemma_sd_components_wf(s, i9, max0(n_comp), cm, 0, Seq::empty());
    let (comps, i10, h1) = sd_components(s, i9, max0(n_comp), cm, 0, Seq::empty()).unwrap();
    assert(comps.skip(0) =~= comps);
    lemma_sd_wires_wf(s, i10, max0(n_wire), h1, Seq::empty());
    let (ws, i11, h2) = sd_wires(s, i10, max0(n_wire), h1, Seq::empty()).unwrap();
    assert(ws.skip(0) =~= ws);
    assert(v.components == comps && v.wires == ws && v.comp_map == cm && v.mod_versions == mods);
    assert(v.highest_state_id == h2);
    assert(model_hsid(v) == h2);
}

/// Idempotent re-decode: re-encoding whatever a decode produced and
/// decoding again gives the same result as the first decode.
pub proof fn lemma_redecode_idempotent(b: Seq<u8>)
    requires
        sd_save(b) is Ok,
    ensures
        sd_save(se_save(sd_save(b).unwrap())) == sd_save(b),
{
    lemma_decode_wf(b);
    lemma_round_trip(sd_save(b).unwrap());
}

/// A stream whose first 16 bytes are not the header magic fails with
/// `HeaderMismatch`; nothing past the header decides that.
pub proof fn lemma_header_mismatch(s: Seq<u8>)
    requires
        s.len() >= 16,
        s.subrange(0, 16) != header_magic(),
    ensures
        sd_save(s) == Result::<SaveV, SaveError>::Err(
            SaveError::HeaderMismatch { found: crate::err::magic_of(s.subrange(0, 16)) },
        ),
{
}

/// Unknown-payload passthrough, in both directions: a payload under a
/// name outside the known set decodes to the opaque variant holding
/// exactly its bytes, and the opaque variant serializes back to exactly
/// those bytes.
pub proof fn lemma_unknown_payload_passthrough(name: Seq<u8>, d: Seq<u8>, at: int)
    requires
        name != switch_name(),
        name != button_name(),
        name != display_name(),
    ensures
        sd_custom(name, d, at) == Result::<CustomV, SaveError>::Ok(CustomV::Unknown(d)),
        se_custom(CustomV::Unknown(d)) == d,
{
}

/// A peg kind byte other than `1` or `2` fails with `UnknownPegType`
/// carrying that byte and its offset; nothing past the tag byte decides
/// or is consumed.
pub proof fn lemma_bad_peg_tag(s: Seq<u8>, i: int, t: u8)
    requires
        0 <= i < s.len(),
        s[i] == t,
        t != 1,
        t != 2,
    ensures
        sd_peg(s, i) == Result::<(PegAddress, int), SaveError>::Err(
            SaveError::UnknownPegType { found: t, at: i as usize },
        ),
{
}

/// A decode result that failed as a truncation, whatever the offset.
pub open spec fn is_eof<T>(r: Result<T, SaveError>) -> bool {
    r matches Result::Err(SaveError::UnexpectedEof { .. })
}

/// Truncating a stream after a byte read leaves the read unchanged;
/// truncating before its end turns it into a truncation failure.
pub proof fn lemma_tr_u8(s: Seq<u8>, k: int, i: int)
    requires
        0 <= i <= k <= s.len(),
        sd_u8(s, i) is Ok,
    ensures
        i + 1 <= k ==> sd_u8(s.take(k), i) == sd_u8(s, i),
        k < i + 1 ==> is_eof(sd_u8(s.take(k), i)),
{
}

/// Truncation behaviour of a 16-bit read.
pub proof fn lemma_tr_u16(s: Seq<u8>, k: int, i: int)
    requires
        0 <= i <= k <= s.len(),
        sd_u16(s, i) is Ok,
    ensures
        i + 2 <= k ==> sd_u16(s.take(k), i) == sd_u16(s, i),
        k < i + 2 ==> is_eof(sd_u16(s.take(k), i)),
{
}

/// Truncation behaviour of an unsigned 32-bit read.
pub proof fn lemma_tr_u32(s: Seq<u8>, k: int, i: int)
    requires
        0 <= i <= k <= s.len(),
        sd_u32(s, i) is Ok,
    ensures
        i + 4 <= k ==> sd_u32(s.take(k), i) == sd_u32(s, i),
        k < i + 4 ==> is_eof(sd_u32(s.take(k), i)),
{
}

/// Truncation behaviour of a signed 32-bit read.
pub proof fn lemma_tr_i32(s: Seq<u8>, k: int, i: int)
    requires
        0 <= i <= k <= s.len(),
        sd_i32(s, i) is Ok,
    ensures
        i + 4 <= k ==> sd_i32(s.take(k), i) == sd_i32(s, i),
        k < i + 4 ==> is_eof(sd_i32(s.take(k), i)),
{
}

/// Truncation behaviour of a raw byte-block read.
pub proof fn lemma_tr_raw(s: Seq<u8>, k: int, i: int, n: int)
    requires
        0 <= i <= k <= s.len(),
        sd_raw(s, i, n) is Ok,
    ensures
        i + n <= k ==> sd_raw(s.take(k), i, n) == sd_raw(s, i, n),
        k < i + n ==> is_eof(sd_raw(s.take(k), i, n)),
{
    if i + n <= k {
        assert(s.take(k).subrange(i, i + n) =~= s.subrange(i, i + n));
    }
}

/// Truncation behaviour of a text-field read.
pub proof fn lemma_tr_string(s: Seq<u8>, k: int, i: int)
    requires
        0 <= i <= k <= s.len(),
        sd_string(s, i) is Ok,
    ensures
        i <= sd_string(s, i).unwrap().1,
        sd_string(s, i).unwrap().1 <= k ==> sd_string(s.take(k), i) == sd_string(s, i),
        k < sd_string(s, i).unwrap().1 ==> is_eof(sd_string(s.take(k), i)),
{
    let (len, j) = sd_i32(s, i).unwrap();
    lemma_tr_i32(s, k, i);
    if j <= k {
        lemma_tr_raw(s, k, j, len as int);
    }
}

/// Truncation behaviour of a version-quad read.
pub proof fn lemma_tr_version(s: Seq<u8>, k: int, i: int)
    requires
        0 <= i <= k <= s.len(),
        sd_version(s, i) is Ok,
    ensures
        i + 16 <= k ==> sd_version(s.take(k), i) == sd_version(s, i),
        k < i + 16 ==> is_eof(sd_version(s.take(k), i)),
{
    lemma_tr_i32(s, k, i);
    if i + 4 <= k {
        lemma_tr_i32(s, k, i + 4);
    }
    if i + 8 <= k {
        lemma_tr_i32(s, k, i + 8);
    }
    if i + 12 <= k {
        lemma_tr_i32(s, k, i + 12);
    }
}

/// Truncation behaviour of a grid-position read.
pub proof fn lemma_tr_pos(s: Seq<u8>, k: int, i: int)
    requires
        0 <= i <= k <= s.len(),
        sd_pos(s, i) is Ok,
    ensures
        i + 12 <= k ==> sd_pos(s.take(k), i) == sd_pos(s, i),
        k < i + 12 ==> is_eof(sd_pos(s.take(k), i)),
{
    lemma_tr_i32(s, k, i);
    if i + 4 <= k {
        lemma_tr_i32(s, k, i + 4);
    }
    if i + 8 <= k {
        lemma_tr_i32(s, k, i + 8);
    }
}

/// Truncation behaviour of a rotation read.
pub proof fn lemma_tr_rot(s: Seq<u8>, k: int, i: int)
    requires
        0 <= i <= k <= s.len(),
        sd_rot(s, i) is Ok,
    ensures
        i + 16 <= k ==> sd_rot(s.take(k), i) == sd_rot(s, i),
        k < i + 16 ==> is_eof(sd_rot(s.take(k), i)),
{
    lemma_tr_u32(s, k, i);
    if i + 4 <= k {
        lemma_tr_u32(s, k, i + 4);
    }
    if i + 8 <= k {
        lemma_tr_u32(s, k, i + 8);
    }
    if i + 12 <= k {
        lemma_tr_u32(s, k, i + 12);
    }
}

/// Truncation behaviour of a peg-address read.
pub proof fn lemma_tr_peg(s: Seq<u8>, k: int, i: int)
    requires
        0 <= i <= k <= s.len(),
        sd_peg(s, i) is Ok,
    ensures
        i + 9 <= k ==> sd_peg(s.take(k), i) == sd_peg(s, i),
        k < i + 9 ==> is_eof(sd_peg(s.take(k), i)),
{
    lemma_tr_u8(s, k, i);
    if i + 1 <= k {
        lemma_tr_u32(s, k, i + 1);
    }
    if i + 5 <= k {
        lemma_tr_i32(s, k, i + 5);
    }
}

/// Truncation behaviour of a wire read.
pub proof fn lemma_tr_wire(s: Seq<u8>, k: int, i: int, h: i32)
    requires
        0 <= i <= k <= s.len(),
        sd_wire(s, i, h) is Ok,
    ensures
        i + 26 <= k ==> sd_wire(s.take(k), i, h) == sd_wire(s, i, h),
        k < i + 26 ==> is_eof(sd_wire(s.take(k), i, h)),
{
    lemma_tr_peg(s, k, i);
    if i + 9 <= k {
        lemma_tr_peg(s, k, i + 9);
    }
    if i + 18 <= k {
        lemma_tr_i32(s, k, i + 18);
    }
    if i + 22 <= k {
        lemma_tr_u32(s, k, i + 22);
    }
}

/// A state-id list read never moves the position backwards.
pub proof fn lemma_mono_ids(s: Seq<u8>, i: int, n: int, h: i32, acc: Seq<i32>)
    requires
        sd_ids(s, i, n, h, acc) is Ok,
    ensures
        i <= sd_ids(s, i, n, h, acc).unwrap().1,
    decreases n,
{
    if n > 0 {
        let (v, j) = sd_i32(s, i).unwrap();
        lemma_mono_ids(s, j, n - 1, max_i32(h, v), acc.push(v));
    }
}

/// A mod-table read never moves the position backwards.
pub proof fn lemma_mono_mods(s: Seq<u8>, i: int, n: int, acc: Seq<(Seq<u8>, Version)>)
    requires
        sd_mods(s, i, n, acc) is Ok,
    ensures
        i <= sd_mods(s, i, n, acc).unwrap().1,
    decreases n,
{
    if n > 0 {
        let (name, j) = sd_string(s, i).unwrap();
        let (ver, j2) = sd_version(s, j).unwrap();
        lemma_mono_mods(s, j2, n - 1, mods_insert(acc, name, ver));
    }
}

/// A dictionary read never moves the position backwards.
pub proof fn lemma_mono_cm(s: Seq<u8>, i: int, n: int, acc: Seq<(u16, Seq<u8>)>)
    requires
        sd_cm(s, i, n, acc) is Ok,
    ensures
        i <= sd_cm(s, i, n, acc).unwrap().1,
    decreases n,
{
    if n > 0 {
        let (id, j) = sd_u16(s, i).unwrap();
        let (name, j2) = sd_string(s, j).unwrap();
        lemma_mono_cm(s, j2, n - 1, cm_insert(acc, id, name));
    }
}

/// A component read never moves the position backwards.
pub proof fn lemma_mono_component(s: Seq<u8>, i: int, m: Seq<(u16, Seq<u8>)>, h: i32)
    requires
        sd_component(s, i, m, h) is Ok,
    ensures
        i <= sd_component(s, i, m, h).unwrap().1,
{
    let (n_in, i6) = sd_i32(s, i + 38).unwrap();
    lemma_mono_ids(s, i6, max0(n_in), h, Seq::empty());
    let (inputs, i7, h1) = sd_ids(s, i6, max0(n_in), h, Seq::empty()).unwrap();
    let (n_out, i8) = sd_i32(s, i7).unwrap();
    lemma_mono_ids(s, i8, max0(n_out), h1, Seq::empty());
}

/// A component-list read never moves the position backwards.
pub proof fn lemma_mono_components(
    s: Seq<u8>,
    i: int,
    n: int,
    m: Seq<(u16, Seq<u8>)>,
    h: i32,
    acc: Seq<CompV>,
)
    requires
        sd_components(s, i, n, m, h, acc) is Ok,
    ensures
        i <= sd_components(s, i, n, m, h, acc).unwrap().1,
    decreases n,
{
    if n > 0 {
        let (c, j, h1) = sd_component(s, i, m, h).unwrap();
        lemma_mono_component(s, i, m, h);
        lemma_mono_components(s, j, n - 1, m, h1, acc.push(c));
    }
}

/// A wire-list read never moves the position backwards.
pub proof fn lemma_mono_wires(s: Seq<u8>, i: int, n: int, h: i32, acc: Seq<Wire>)
    requires
        sd_wires(s, i, n, h, acc) is Ok,
    ensures
        i <= sd_wires(s, i, n, h, acc).unwrap().1,
    decreases n,
{
    if n > 0 {
        let (w, j, h1) = sd_wire(s, i, h).unwrap();
        lemma_mono_wires(s, j, n - 1, h1, acc.push(w));
    }
}

/// Truncation behaviour of a state-id list read.
pub proof fn lemma_tr_ids(s: Seq<u8>, k: int, i: int, n: int, h: i32, acc: Seq<i32>)
    requires
        0 <= i <= k <= s.len(),
        sd_ids(s, i, n, h, acc) is Ok,
    ensures
        sd_ids(s, i, n, h, acc).unwrap().1 <= k ==> sd_ids(s.take(k), i, n, h, acc) == sd_ids(
            s,
            i,
            n,
            h,
            acc,
        ),
        k < sd_ids(s, i, n, h, acc).unwrap().1 ==> is_eof(sd_ids(s.take(k), i, n, h, acc)),
    decreases n,
{
    if n > 0 {
        let (v, j) = sd_i32(s, i).unwrap();
        lemma_tr_i32(s, k, i);
        if j <= k {
            lemma_tr_ids(s, k, j, n - 1, max_i32(h, v), acc.push(v));
        } else {
            lemma_mono_ids(s, j, n - 1, max_i32(h, v), acc.push(v));
        }
    }
}

/// Truncation behaviour of a mod-table read.
pub proof fn lemma_tr_mods(s: Seq<u8>, k: int, i: int, n: int, acc: Seq<(Seq<u8>, Version)>)
    requires
        0 <= i <= k <= s.len(),
        sd_mods(s, i, n, acc) is Ok,
    ensures
        sd_mods(s, i, n, acc).unwrap().1 <= k ==> sd_mods(s.take(k), i, n, acc) == sd_mods(
            s,
            i,
            n,
            acc,
        ),
        k < sd_mods(s, i, n, acc).unwrap().1 ==> is_eof(sd_mods(s.take(k), i, n, acc)),
    decreases n,
{
    if n > 0 {
        let (name, j) = sd_string(s, i).unwrap();
        let (ver, j2) = sd_version(s, j).unwrap();
        lemma_tr_string(s, k, i);
        if j <= k {
            lemma_tr_version(s, k, j);
            if j2 <= k {
                lemma_tr_mods(s, k, j2, n - 1, mods_insert(acc, name, ver));
            } else {
                lemma_mono_mods(s, j2, n - 1, mods_insert(acc, name, ver));
            }
        } else {
            lemma_mono_mods(s, j2, n - 1, mods_insert(acc, name, ver));
        }
    }
}

/// Truncation behaviour of a dictionary read.
pub proof fn lemma_tr_cm(s: Seq<u8>, k: int, i: int, n: int, acc: Seq<(u16, Seq<u8>)>)
    requires
        0 <= i <= k <= s.len(),
        sd_cm(s, i, n, acc) is Ok,
    ensures
        sd_cm(s, i, n, acc).unwrap().1 <= k ==> sd_cm(s.take(k), i, n, acc) == sd_cm(s, i, n, acc),
        k < sd_cm(s, i, n, acc).unwrap().1 ==> is_eof(sd_cm(s.take(k), i, n, acc)),
    decreases n,
{
    if n > 0 {
        let (id, j) = sd_u16(s, i).unwrap();
        let (name, j2) = sd_string(s, j).unwrap();
        lemma_tr_u16(s, k, i);
        if j <= k {
            lemma_tr_string(s, k, j);
            if j2 <= k {
                lemma_tr_cm(s, k, j2, n - 1, cm_insert(acc, id, name));
            } else {
                lemma_mono_cm(s, j2, n - 1, cm_insert(acc, id, name));
            }
        } else {
            lemma_mono_cm(s, j2, n - 1, cm_insert(acc, id, name));
        }
    }
}

/// Truncation behaviour of a wire-list read.
pub proof fn lemma_tr_wires(s: Seq<u8>, k: int, i: int, n: int, h: i32, acc: Seq<Wire>)
    requires
        0 <= i <= k <= s.len(),
        sd_wires(s, i, n, h, acc) is Ok,
    ensures
        sd_wires(s, i, n, h, acc).unwrap().1 <= k ==> sd_wires(s.take(k), i, n, h, acc)
            == sd_wires(s, i, n, h, acc),
        k < sd_wires(s, i, n, h, acc).unwrap().1 ==> is_eof(sd_wires(s.take(k), i, n, h, acc)),
    decreases n,
{
    if n > 0 {
        let (w, j, h1) = sd_wire(s, i, h).unwrap();
        lemma_tr_wire(s, k, i, h);
        if j <= k {
            lemma_tr_wires(s, k, j, n - 1, h1, acc.push(w));
        } else {
            lemma_mono_wires(s, j, n - 1, h1, acc.push(w));
        }
    }
}

/// Truncation behaviour of a component-record read.
#[verifier::rlimit(100)]
pub proof fn lemma_tr_component(s: Seq<u8>, k: int, i: int, m: Seq<(u16, Seq<u8>)>, h: i32)
    requires
        0 <= i <= k <= s.len(),
        sd_component(s, i, m, h) is Ok,
    ensures
        sd_component(s, i, m, h).unwrap().1 <= k ==> sd_component(s.take(k), i, m, h)
            == sd_component(s, i, m, h),
        k < sd_component(s, i, m, h).unwrap().1 ==> is_eof(sd_component(s.take(k), i, m, h)),
{
    let (n_in, i6) = sd_i32(s, i + 38).unwrap();
    let (inputs, i7, h1) = sd_ids(s, i6, max0(n_in), h, Seq::empty()).unwrap();
    let (n_out, i8) = sd_i32(s, i7).unwrap();
    let (outputs, i9, h2) = sd_ids(s, i8, max0(n_out), h1, Seq::empty()).unwrap();
    let (dlen, i10) = sd_i32(s, i9).unwrap();
    lemma_mono_ids(s, i6, max0(n_in), h, Seq::empty());
    lemma_mono_ids(s, i8, max0(n_out), h1, Seq::empty());
    lemma_tr_u32(s, k, i);
    if i + 4 <= k {
        lemma_tr_u32(s, k, i + 4);
    }
    if i + 8 <= k {
        lemma_tr_u16(s, k, i + 8);
    }
    if i + 10 <= k {
        lemma_tr_pos(s, k, i + 10);
    }
    if i + 22 <= k {
        lemma_tr_rot(s, k, i + 22);
    }
    if i + 38 <= k {
        lemma_tr_i32(s, k, i + 38);
    }
    if i + 42 <= k {
        lemma_tr_ids(s, k, i + 42, max0(n_in), h, Seq::empty());
    }
    if i7 <= k {
        lemma_tr_i32(s, k, i7);
    }
    if i8 <= k {
        lemma_tr_ids(s, k, i8, max0(n_out), h1, Seq::empty());
    }
    if i9 <= k {
        lemma_tr_i32(s, k, i9);
    }
    if i10 <= k {
        lemma_tr_raw(s, k, i10, max0(dlen));
    }
}

/// Truncation behaviour of a component-list read.
pub proof fn lemma_tr_components(
    s: Seq<u8>,
    k: int,
    i: int,
    n: int,
    m: Seq<(u16, Seq<u8>)>,
    h: i32,
    acc: Seq<CompV>,
)
    requires
        0 <= i <= k <= s.len(),
        sd_components(s, i, n, m, h, acc) is Ok,
    ensures
        sd_components(s, i, n, m, h, acc).unwrap().1 <= k ==> sd_components(
            s.take(k),
            i,
            n,
            m,
            h,
            acc,
        ) == sd_components(s, i, n, m, h, acc),
        k < sd_components(s, i, n, m, h, acc).unwrap().1 ==> is_eof(
            sd_components(s.take(k), i, n, m, h, acc),
        ),
    decreases n,
{
    if n > 0 {
        let (c, j, h1) = sd_component(s, i, m, h).unwrap();
        lemma_tr_component(s, k, i, m, h);
        if j <= k {
            lemma_tr_components(s, k, j, n - 1, m, h1, acc.push(c));
        } else {
            lemma_mono_components(s, j, n - 1, m, h1, acc.push(c));
        }
    }
}

/// Assembling a whole-save truncation failure from the per-section
/// facts: on a cut stream `t` of length `k`, every section that fits is
/// read as on the full stream and the first section the cut lands in
/// reads as a truncation.
#[verifier::rlimit(100)]
pub proof fn lemma_tr_save_assemble(
    t: Seq<u8>,
    k: int,
    v: SaveV,
    o9: int,
    o11: int,
    o12: int,
    o13: int,
    o15: int,
)
    requires
        0 <= k,
        k < o15 + 16,
        46 <= o9,
        o9 + 4 <= o11 <= o12 <= o13,
        o13 + 4 <= o15,
        max0(v.components.len() as i32) == v.components.len(),
        max0(v.wires.len() as i32) == v.wires.len(),
        max0(v.mod_versions.len() as i32) == v.mod_versions.len(),
        max0(v.comp_map.len() as i32) == v.comp_map.len(),
        max0(v.states.len() as i32) == v.states.len(),
        k < 16 ==> is_eof(sd_raw(t, 0, 16)),
        16 <= k ==> sd_raw(t, 0, 16) == Result::<(Seq<u8>, int), SaveError>::Ok(
            (header_magic(), 16),
        ),
        16 <= k < 17 ==> is_eof(sd_u8(t, 16)),
        17 <= k ==> sd_u8(t, 16) == Result::<(u8, int), SaveError>::Ok((7u8, 17)),
        17 <= k < 33 ==> is_eof(sd_version(t, 17)),
        33 <= k ==> sd_version(t, 17) == Result::<(Version, int), SaveError>::Ok(
            (v.game_version, 33),
        ),
        33 <= k < 34 ==> is_eof(sd_u8(t, 33)),
        34 <= k ==> sd_u8(t, 33) == Result::<(u8, int), SaveError>::Ok((1u8, 34)),
        34 <= k < 38 ==> is_eof(sd_i32(t, 34)),
        38 <= k ==> sd_i32(t, 34) == Result::<(i32, int), SaveError>::Ok(
            (v.components.len() as i32, 38),
        ),
        38 <= k < 42 ==> is_eof(sd_i32(t, 38)),
        42 <= k ==> sd_i32(t, 38) == Result::<(i32, int), SaveError>::Ok(
            (v.wires.len() as i32, 42),
        ),
        42 <= k < 46 ==> is_eof(sd_i32(t, 42)),
        46 <= k ==> sd_i32(t, 42) == Result::<(i32, int), SaveError>::Ok(
            (v.mod_versions.len() as i32, 46),
        ),
        46 <= k < o9 ==> is_eof(sd_mods(t, 46, v.mod_versions.len() as int, Seq::empty())),
        o9 <= k ==> sd_mods(t, 46, v.mod_versions.len() as int, Seq::empty()) == Result::<
            (Seq<(Seq<u8>, Version)>, int),
            SaveError,
        >::Ok((v.mod_versions, o9)),
        o9 <= k < o9 + 4 ==> is_eof(sd_i32(t, o9)),
        o9 + 4 <= k ==> sd_i32(t, o9) == Result::<(i32, int), SaveError>::Ok(
            (v.comp_map.len() as i32, o9 + 4),
        ),
        o9 + 4 <= k < o11 ==> is_eof(sd_cm(t, o9 + 4, v.comp_map.len() as int, Seq::empty())),
        o11 <= k ==> sd_cm(t, o9 + 4, v.comp_map.len() as int, Seq::empty()) == Result::<
            (Seq<(u16, Seq<u8>)>, int),
            SaveError,
        >::Ok((v.comp_map, o11)),
        o11 <= k < o12 ==> is_eof(
            sd_components(t, o11, v.components.len() as int, v.comp_map, 0, Seq::empty()),
        ),
        o12 <= k ==> sd_components(t, o11, v.components.len() as int, v.comp_map, 0, Seq::empty())
            == Result::<(Seq<CompV>, int, i32), SaveError>::Ok(
            (v.components, o12, comps_hsid(0, v.components)),
        ),
        o12 <= k < o13 ==> is_eof(
            sd_wires(t, o12, v.wires.len() as int, comps_hsid(0, v.components), Seq::empty()),
        ),
        o13 <= k ==> sd_wires(t, o12, v.wires.len() as int, comps_hsid(0, v.components), Seq::empty())
            == Result::<(Seq<Wire>, int, i32), SaveError>::Ok(
            (v.wires, o13, v.highest_state_id),
        ),
        o13 <= k < o13 + 4 ==> is_eof(sd_i32(t, o13)),
        o13 + 4 <= k ==> sd_i32(t, o13) == Result::<(i32, int), SaveError>::Ok(
            (v.states.len() as i32, o13 + 4),
        ),
        o13 + 4 <= k < o15 ==> is_eof(sd_raw(t, o13 + 4, v.states.len() as int)),
        o15 <= k ==> sd_raw(t, o13 + 4, v.states.len() as int) == Result::<
            (Seq<u8>, int),
            SaveError,
        >::Ok((v.states, o15)),
        o15 <= k ==> is_eof(sd_raw(t, o15, 16)),
    ensures
        is_eof(sd_save(t)),
{
}

/// Truncation: a well-formed save stream cut anywhere short of its end
/// decodes to `UnexpectedEof` — never to a model and never to any other
/// error; with `parse_save`'s exact contract this also means no
/// partially populated model is ever observable from a truncated
/// stream.
#[verifier::rlimit(100)]
pub proof fn lemma_truncation(v: SaveV, k: int)
    requires
        wf_save(v),
        0 <= k < se_save(v).len(),
    ensures
        is_eof(sd_save(se_save(v).take(k))),
{
    let s = se_save(v);
    lemma_save_sections(v);
    let o9: int = 46 + se_mods(v.mod_versions).len() as int;
    let o11: int = o9 + 4 + se_cm(v.comp_map).len();
    let o12: int = o11 + se_components(v.components, v.comp_map).len();
    let o13: int = o12 + se_wires(v.wires).len();
    let o15: int = o13 + 4 + v.states.len();

    lemma_rt_raw(s, 0, header_magic());
    lemma_rt_u8(s, 16, 7u8);
    lemma_rt_version(s, 17, v.game_version);
    lemma_rt_u8(s, 33, 1u8);
    lemma_rt_i32(s, 34, v.components.len() as i32);
    lemma_rt_i32(s, 38, v.wires.len() as i32);
    lemma_rt_i32(s, 42, v.mod_versions.len() as i32);
    assert(Seq::<(Seq<u8>, Version)>::empty() + v.mod_versions =~= v.mod_versions);
    lemma_rt_mods(s, 46, v.mod_versions, Seq::empty());
    lemma_rt_i32(s, o9, v.comp_map.len() as i32);
    assert(Seq::<(u16, Seq<u8>)>::empty() + v.comp_map =~= v.comp_map);
    lemma_rt_cm(s, o9 + 4, v.comp_map, Seq::empty());
    assert(Seq::<CompV>::empty() + v.components =~= v.components);
    lemma_rt_components(s, o11, v.components, v.comp_map, 0, Seq::empty());
    assert(Seq::<Wire>::empty() + v.wires =~= v.wires);
    lemma_rt_wires(s, o12, v.wires, comps_hsid(0, v.components), Seq::empty());
    lemma_rt_i32(s, o13, v.states.len() as i32);
    lemma_rt_raw(s, o13 + 4, v.states);
    lemma_rt_raw(s, o15, footer_magic());

    lemma_tr_raw(s, k, 0, 16);
    if 16 <= k {
        lemma_tr_u8(s, k, 16);
    }
    if 17 <= k {
        lemma_tr_version(s, k, 17);
    }
    if 33 <= k {
        lemma_tr_u8(s, k, 33);
    }
    if 34 <= k {
        lemma_tr_i32(s, k, 34);
    }
    if 38 <= k {
        lemma_tr_i32(s, k, 38);
    }
    if 42 <= k {
        lemma_tr_i32(s, k, 42);
    }
    if 46 <= k {
        lemma_tr_mods(s, k, 46, v.mod_versions.len() as int, Seq::empty());
    }
    if o9 <= k {
        lemma_tr_i32(s, k, o9);
    }
    if o9 + 4 <= k {
        lemma_tr_cm(s, k, o9 + 4, v.comp_map.len() as int, Seq::empty());
    }
    if o11 <= k {
        lemma_tr_components(s, k, o11, v.components.len() as int, v.comp_map, 0, Seq::empty());
    }
    if o12 <= k {
        lemma_tr_wires(s, k, o12, v.wires.len() as int, comps_hsid(0, v.components), Seq::empty());
    }
    if o13 <= k {
        lemma_tr_i32(s, k, o13);
    }
    if o13 + 4 <= k {
        lemma_tr_raw(s, k, o13 + 4, v.states.len() as int);
    }
    if o15 <= k {
        lemma_tr_raw(s, k, o15, 16);
    }

    lemma_tr_save_assemble(s.take(k), k, v, o9, o11, o12, o13, o15);
}

} // verus!

