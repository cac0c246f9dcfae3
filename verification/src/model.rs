//! The in-memory model of a saved world: value types, the component-type
//! dictionary, components, wires, the global state bit buffer, and the
//! aggregate save with its two monotonic allocators.
//!
//! Text fields (type names, mod names) are held as validated UTF-8 byte
//! vectors, and rotations as raw IEEE-754 bit patterns: both are
//! round-tripped verbatim, which keeps the byte-exact codec contract
//! expressible over plain values.

use vstd::prelude::*;

use crate::err::SaveError;
use crate::err::TypeKey;
use crate::utf8::is_utf8;

verus! {

/// A four-part version number (major/minor/patch/build), stored but never
/// interpreted by the codec.
#[derive(Clone, Copy, Debug, PartialEq, Eq, Structural)]
pub struct Version(pub i32, pub i32, pub i32, pub i32);

/// A world-grid position; no unit conversion is performed.
#[derive(Clone, Copy, Debug, PartialEq, Eq, Structural)]
pub struct Vec3 {
    pub x: i32,
    pub y: i32,
    pub z: i32,
}

/// A rotation quaternion, held as the raw little-endian bit patterns of
/// its four 32-bit float components: the codec stores and round-trips the
/// bits verbatim and never does float arithmetic on them.
#[derive(Clone, Copy, Debug, PartialEq, Eq, Structural)]
pub struct Quat {
    pub x: u32,
    pub y: u32,
    pub z: u32,
    pub w: u32,
}

/// The typed custom payload of a component, dispatched by type name; any
/// name outside the known set keeps its raw bytes unchanged, so payloads
/// of component types unknown to this codec survive a round trip.
#[derive(Debug, PartialEq, Eq)]
pub enum CustomData {
    /// Raw passthrough bytes of an unrecognised component type.
    Unknown(Vec<u8>),
    /// A switch or button: an RGB color and an on/off flag.
    Switch { color: (u8, u8, u8), on: bool },
    /// A standing display: a color-mode code.
    Display { color_mode: u32 },
}

/// Which side of a component a peg sits on.
#[derive(Clone, Copy, Debug, PartialEq, Eq, Structural)]
pub enum PegType {
    Input,
    Output,
}

/// One end of a wire: a peg kind, the address of the component carrying
/// the peg, and the raw peg index (not range-checked by the codec).
#[derive(Clone, Copy, Debug, PartialEq, Eq, Structural)]
pub struct PegAddress {
    pub type_: PegType,
    pub component: u32,
    pub index: i32,
}

/// A wire between two pegs, with the state id it drives and its rotation
/// held as a raw 32-bit float bit pattern.
#[derive(Clone, Copy, Debug, PartialEq, Eq, Structural)]
pub struct Wire {
    pub start: PegAddress,
    pub end: PegAddress,
    pub state_id: i32,
    pub rotation: u32,
}

/// A placed component. `id` is its type name, resolved to the numeric
/// dictionary id only at the wire boundary. Input and output state ids
/// are ordered: the position indexes the logical peg.
#[derive(Debug, PartialEq, Eq)]
pub struct Component {
    pub address: u32,
    pub parent: u32,
    pub id: Vec<u8>,
    pub position: Vec3,
    pub rotation: Quat,
    pub inputs: Vec<i32>,
    pub outputs: Vec<i32>,
    pub custom_data: CustomData,
}

/// The global boolean state buffer, a raw byte vector treated as a packed
/// bit vector with one bit per state id.
#[derive(Debug, PartialEq, Eq)]
pub struct States(pub Vec<u8>);

/// The bidirectional dictionary between 16-bit numeric type ids and type
/// names, kept bijective: each id and each name appears at most once.
#[derive(Debug, PartialEq, Eq)]
pub struct CompMap {
    pairs: Vec<(u16, Vec<u8>)>,
}

/// A whole decoded save: file-level metadata, the dictionary, the world
/// contents, the state buffer, and the two allocation high-water marks.
#[derive(Debug, PartialEq, Eq)]
pub struct SaveFile {
    pub game_version: Version,
    pub mod_versions: Vec<(Vec<u8>, Version)>,
    pub comp_map: CompMap,
    pub components: Vec<Component>,
    pub wires: Vec<Wire>,
    pub states: States,
    pub highest_state_id: i32,
    pub highest_address: u32,
}

/// Mathematical image of a custom payload.
#[verifier::ext_equal]
pub ghost enum CustomV {
    Unknown(Seq<u8>),
    Switch { color: (u8, u8, u8), on: bool },
    Display { color_mode: u32 },
}

/// Mathematical image of a component.
#[verifier::ext_equal]
pub ghost struct CompV {
    pub address: u32,
    pub parent: u32,
    pub id: Seq<u8>,
    pub position: Vec3,
    pub rotation: Quat,
    pub inputs: Seq<i32>,
    pub outputs: Seq<i32>,
    pub custom_data: CustomV,
}

/// Mathematical image of a whole save.
#[verifier::ext_equal]
pub ghost struct SaveV {
    pub game_version: Version,
    pub mod_versions: Seq<(Seq<u8>, Version)>,
    pub comp_map: Seq<(u16, Seq<u8>)>,
    pub components: Seq<CompV>,
    pub wires: Seq<Wire>,
    pub states: Seq<u8>,
    pub highest_state_id: i32,
    pub highest_address: u32,
}

/// The image of a dictionary's backing pairs.
pub open spec fn pairs_view(ps: Seq<(u16, Vec<u8>)>) -> Seq<(u16, Seq<u8>)> {
    ps.map_values(|p: (u16, Vec<u8>)| (p.0, p.1@))
}

/// The image of a mod table's backing pairs.
pub open spec fn mods_view(ps: Seq<(Vec<u8>, Version)>) -> Seq<(Seq<u8>, Version)> {
    ps.map_values(|p: (Vec<u8>, Version)| (p.0@, p.1))
}

/// The image of a component vector.
pub open spec fn comps_view(cs: Seq<Component>) -> Seq<CompV> {
    cs.map_values(|c: Component| c@)
}

impl View for CustomData {
    type V = CustomV;

    open spec fn view(&self) -> CustomV {
        match self {
            CustomData::Unknown(d) => CustomV::Unknown(d@),
            CustomData::Switch { color, on } => CustomV::Switch { color: *color, on: *on },
            CustomData::Display { color_mode } => CustomV::Display { color_mode: *color_mode },
        }
    }
}

impl View for Component {
    type V = CompV;

    open spec fn view(&self) -> CompV {
        CompV {
            address: self.address,
            parent: self.parent,
            id: self.id@,
            position: self.position,
            rotation: self.rotation,
            inputs: self.inputs@,
            outputs: self.outputs@,
            custom_data: self.custom_data@,
        }
    }
}

impl View for States {
    type V = Seq<u8>;

    open spec fn view(&self) -> Seq<u8> {
        self.0@
    }
}

impl View for CompMap {
    type V = Seq<(u16, Seq<u8>)>;

    closed spec fn view(&self) -> Seq<(u16, Seq<u8>)> {
        pairs_view(self.pairs@)
    }
}

impl View for SaveFile {
    type V = SaveV;

    open spec fn view(&self) -> SaveV {
        SaveV {
            game_version: self.game_version,
            mod_versions: mods_view(self.mod_versions@),
            comp_map: self.comp_map@,
            components: comps_view(self.components@),
            wires: self.wires@,
            states: self.states@,
            highest_state_id: self.highest_state_id,
            highest_address: self.highest_address,
        }
    }
}

/// The name bytes `"MHG.Switch"`.
pub open spec fn switch_name() -> Seq<u8> {
    seq![77u8, 72u8, 71u8, 46u8, 83u8, 119u8, 105u8, 116u8, 99u8, 104u8]
}

/// The name bytes `"MHG.Button"`.
pub open spec fn button_name() -> Seq<u8> {
    seq![77u8, 72u8, 71u8, 46u8, 66u8, 117u8, 116u8, 116u8, 111u8, 110u8]
}

/// The name bytes `"MHG.StandingDisplay"`.
pub open spec fn display_name() -> Seq<u8> {
    seq![
        77u8, 72u8, 71u8, 46u8, 83u8, 116u8, 97u8, 110u8, 100u8, 105u8, 110u8, 103u8, 68u8,
        105u8, 115u8, 112u8, 108u8, 97u8, 121u8,
    ]
}

/// The 16 header magic bytes `"Logic World save"`.
pub open spec fn header_magic() -> Seq<u8> {
    seq![
        76u8, 111u8, 103u8, 105u8, 99u8, 32u8, 87u8, 111u8, 114u8, 108u8, 100u8, 32u8, 115u8,
        97u8, 118u8, 101u8,
    ]
}

/// The 16 footer magic bytes `"redstone sux lol"`.
pub open spec fn footer_magic() -> Seq<u8> {
    seq![
        114u8, 101u8, 100u8, 115u8, 116u8, 111u8, 110u8, 101u8, 32u8, 115u8, 117u8, 120u8, 32u8,
        108u8, 111u8, 108u8,
    ]
}

/// The header magic as a byte vector.
pub fn header_magic_bytes() -> (v: Vec<u8>)
    ensures
        v@ == header_magic(),
{
    let mut v: Vec<u8> = Vec::new();
    v.push(76);
    v.push(111);
    v.push(103);
    v.push(105);
    v.push(99);
    v.push(32);
    v.push(87);
    v.push(111);
    v.push(114);
    v.push(108);
    v.push(100);
    v.push(32);
    v.push(115);
    v.push(97);
    v.push(118);
    v.push(101);
    proof {
        assert(v@ =~= header_magic());
    }
    v
}

/// The footer magic as a byte vector.
pub fn footer_magic_bytes() -> (v: Vec<u8>)
    ensures
        v@ == footer_magic(),
{
    let mut v: Vec<u8> = Vec::new();
    v.push(114);
    v.push(101);
    v.push(100);
    v.push(115);
    v.push(116);
    v.push(111);
    v.push(110);
    v.push(101);
    v.push(32);
    v.push(115);
    v.push(117);
    v.push(120);
    v.push(32);
    v.push(108);
    v.push(111);
    v.push(108);
    proof {
        assert(v@ =~= footer_magic());
    }
    v
}

/// The name `"MHG.Switch"` as a byte vector.
pub fn switch_name_bytes() -> (v: Vec<u8>)
    ensures
        v@ == switch_name(),
{
    let mut v: Vec<u8> = Vec::new();
    v.push(77);
    v.push(72);
    v.push(71);
    v.push(46);
    v.push(83);
    v.push(119);
    v.push(105);
    v.push(116);
    v.push(99);
    v.push(104);
    proof {
        assert(v@ =~= switch_name());
    }
    v
}

/// The name `"MHG.Button"` as a byte vector.
pub fn button_name_bytes() -> (v: Vec<u8>)
    ensures
        v@ == button_name(),
{
    let mut v: Vec<u8> = Vec::new();
    v.push(77);
    v.push(72);
    v.push(71);
    v.push(46);
    v.push(66);
    v.push(117);
    v.push(116);
    v.push(116);
    v.push(111);
    v.push(110);
    proof {
        assert(v@ =~= button_name());
    }
    v
}

/// The name `"MHG.StandingDisplay"` as a byte vector.
pub fn display_name_bytes() -> (v: Vec<u8>)
    ensures
        v@ == display_name(),
{
    let mut v: Vec<u8> = Vec::new();
    v.push(77);
    v.push(72);
    v.push(71);
    v.push(46);
    v.push(83);
    v.push(116);
    v.push(97);
    v.push(110);
    v.push(100);
    v.push(105);
    v.push(110);
    v.push(103);
    v.push(68);
    v.push(105);
    v.push(115);
    v.push(112);
    v.push(108);
    v.push(97);
    v.push(121);
    proof {
        assert(v@ =~= display_name());
    }
    v
}

/// The name paired with `id` in the dictionary, if any.
pub open spec fn cm_lookup_id(m: Seq<(u16, Seq<u8>)>, id: u16) -> Option<Seq<u8>>
    decreases m.len(),
{
    if m.len() == 0 {
        Option::None
    } else if m[0].0 == id {
        Option::Some(m[0].1)
    } else {
        cm_lookup_id(m.skip(1), id)
    }
}

/// The id paired with `name` in the dictionary, if any.
pub open spec fn cm_lookup_name(m: Seq<(u16, Seq<u8>)>, name: Seq<u8>) -> Option<u16>
    decreases m.len(),
{
    if m.len() == 0 {
        Option::None
    } else if m[0].1 == name {
        Option::Some(m[0].0)
    } else {
        cm_lookup_name(m.skip(1), name)
    }
}

/// The dictionary with every pair touching `id` or `name` removed.
pub open spec fn cm_remove(m: Seq<(u16, Seq<u8>)>, id: u16, name: Seq<u8>) -> Seq<(u16, Seq<u8>)>
    decreases m.len(),
{
    if m.len() == 0 {
        Seq::empty()
    } else if m[0].0 == id || m[0].1 == name {
        cm_remove(m.skip(1), id, name)
    } else {
        seq![m[0]] + cm_remove(m.skip(1), id, name)
    }
}

/// Insertion into the dictionary: any pair sharing the id or the name
/// gives way, so both directions stay in lockstep.
pub open spec fn cm_insert(m: Seq<(u16, Seq<u8>)>, id: u16, name: Seq<u8>) -> Seq<(u16, Seq<u8>)> {
    cm_remove(m, id, name).push((id, name))
}

/// Bijectivity of the dictionary: ids pairwise distinct, names pairwise
/// distinct.
pub open spec fn cm_wf(m: Seq<(u16, Seq<u8>)>) -> bool {
    forall|i: int, j: int|
        0 <= i < j < m.len() ==> (#[trigger] m[i]).0 != (#[trigger] m[j]).0 && m[i].1 != m[j].1
}

/// The greatest id present in the dictionary, 0 when it is empty.
pub open spec fn cm_max_id(m: Seq<(u16, Seq<u8>)>) -> u16
    decreases m.len(),
{
    if m.len() == 0 {
        0u16
    } else {
        let rest = cm_max_id(m.skip(1));
        if m[0].0 > rest {
            m[0].0
        } else {
            rest
        }
    }
}

/// Insertion into the mod table: a later entry for the same name replaces
/// the earlier one in place, any other name is appended.
pub open spec fn mods_insert(
    m: Seq<(Seq<u8>, Version)>,
    name: Seq<u8>,
    ver: Version,
) -> Seq<(Seq<u8>, Version)>
    decreases m.len(),
{
    if m.len() == 0 {
        seq![(name, ver)]
    } else if m[0].0 == name {
        seq![(name, ver)] + m.skip(1)
    } else {
        seq![m[0]] + mods_insert(m.skip(1), name, ver)
    }
}

/// The larger of two signed 32-bit values.
pub open spec fn max_i32(a: i32, b: i32) -> i32 {
    if a > b {
        a
    } else {
        b
    }
}

/// The state-id high-water mark after observing `ids` in order, starting
/// from `h`.
pub open spec fn fold_ids(h: i32, ids: Seq<i32>) -> i32
    decreases ids.len(),
{
    if ids.len() == 0 {
        h
    } else {
        fold_ids(max_i32(h, ids[0]), ids.skip(1))
    }
}

/// The state-id high-water mark after observing one component's inputs,
/// then its outputs.
pub open spec fn comp_hsid(h: i32, c: CompV) -> i32 {
    fold_ids(fold_ids(h, c.inputs), c.outputs)
}

/// The state-id high-water mark after observing a sequence of components.
pub open spec fn comps_hsid(h: i32, cs: Seq<CompV>) -> i32
    decreases cs.len(),
{
    if cs.len() == 0 {
        h
    } else {
        comps_hsid(comp_hsid(h, cs[0]), cs.skip(1))
    }
}

/// The state-id high-water mark after observing a sequence of wires.
pub open spec fn wires_hsid(h: i32, ws: Seq<Wire>) -> i32
    decreases ws.len(),
{
    if ws.len() == 0 {
        h
    } else {
        wires_hsid(max_i32(h, ws[0].state_id), ws.skip(1))
    }
}

/// The state-id high-water mark a decode of this model's contents would
/// accumulate: all component inputs and outputs, then all wire state ids,
/// starting from 0.
pub open spec fn model_hsid(v: SaveV) -> i32 {
    wires_hsid(comps_hsid(0, v.components), v.wires)
}

/// The greatest address among `cs` once `a` has been seen.
pub open spec fn fold_addr(a: u32, cs: Seq<CompV>) -> u32
    decreases cs.len(),
{
    if cs.len() == 0 {
        a
    } else {
        fold_addr(
            if cs[0].address > a {
                cs[0].address
            } else {
                a
            },
            cs.skip(1),
        )
    }
}

/// The address high-water mark a decode would seed: the greatest component
/// address, or 1 when there are no components.
pub open spec fn max_addr(cs: Seq<CompV>) -> u32 {
    if cs.len() == 0 {
        1u32
    } else {
        fold_addr(cs[0].address, cs.skip(1))
    }
}

/// A text field the format can carry: valid UTF-8 whose byte length fits
/// the signed 32-bit length prefix.
pub open spec fn wf_name(n: Seq<u8>) -> bool {
    is_utf8(n) && n.len() <= 0x7fffffff
}

/// The payload variant agrees with the name-keyed dispatch: the known
/// names carry their typed variants, every other name carries the opaque
/// passthrough variant (whose byte length fits the length prefix).
pub open spec fn wf_custom(name: Seq<u8>, cd: CustomV) -> bool {
    match cd {
        CustomV::Switch { color, on } => name == switch_name() || name == button_name(),
        CustomV::Display { color_mode } => name == display_name(),
        CustomV::Unknown(d) => name != switch_name() && name != button_name()
            && name != display_name() && d.len() <= 0x7fffffff,
    }
}

/// A component the codec can write and read back: its type name resolves
/// through the dictionary, its payload variant matches its name, and its
/// peg lists fit the signed 32-bit count prefixes.
pub open spec fn wf_component(c: CompV, m: Seq<(u16, Seq<u8>)>) -> bool {
    &&& cm_lookup_name(m, c.id) is Some
    &&& wf_custom(c.id, c.custom_data)
    &&& c.inputs.len() <= 0x7fffffff
    &&& c.outputs.len() <= 0x7fffffff
}

/// A well-formed save: the dictionary is bijective with writable names,
/// mod names are distinct and writable, every component is writable
/// through the dictionary, all counts fit their signed 32-bit prefixes,
/// and the two high-water marks agree with the contents exactly as a
/// decode would seed them.
pub open spec fn wf_save(v: SaveV) -> bool {
    &&& cm_wf(v.comp_map)
    &&& forall|i: int| 0 <= i < v.comp_map.len() ==> wf_name((#[trigger] v.comp_map[i]).1)
    &&& forall|i: int| 0 <= i < v.mod_versions.len() ==> wf_name((#[trigger] v.mod_versions[i]).0)
    &&& forall|i: int, j: int|
        0 <= i < j < v.mod_versions.len() ==> (#[trigger] v.mod_versions[i]).0 != (
        #[trigger] v.mod_versions[j]).0
    &&& forall|i: int| 0 <= i < v.components.len() ==> wf_component(
        #[trigger] v.components[i],
        v.comp_map,
    )
    &&& v.comp_map.len() <= 0x7fffffff
    &&& v.mod_versions.len() <= 0x7fffffff
    &&& v.components.len() <= 0x7fffffff
    &&& v.wires.len() <= 0x7fffffff
    &&& v.states.len() <= 0x7fffffff
    &&& v.highest_state_id == model_hsid(v)
    &&& v.highest_address == max_addr(v.components)
}

/// A byte-for-byte copy of a byte vector.
pub fn copy_bytes(v: &Vec<u8>) -> (r: Vec<u8>)
    ensures
        r@ == v@,
{
    let mut out: Vec<u8> = Vec::new();
    let mut i: usize = 0;
    while i < v.len()
        invariant
            i <= v.len(),
            out@ == v@.subrange(0, i as int),
        decreases v.len() - i,
    {
        let b = v[i];
        out.push(b);
        assert(out@ =~= v@.subrange(0, i + 1 as int));
        i = i + 1;
    }
    assert(out@ =~= v@);
    out
}

/// Byte-wise equality of two byte vectors.
pub fn bytes_eq(a: &Vec<u8>, b: &Vec<u8>) -> (r: bool)
    ensures
        r == (a@ == b@),
{
    if a.len() != b.len() {
        assert(a@ != b@);
        return false;
    }
    let mut i: usize = 0;
    while i < a.len()
        invariant
            i <= a.len(),
            a.len() == b.len(),
            forall|k: int| 0 <= k < i ==> a@[k] == b@[k],
        decreases a.len() - i,
    {
        if a[i] != b[i] {
            return false;
        }
        i = i + 1;
    }
    assert(a@ =~= b@);
    true
}

impl CompMap {
    /// An empty dictionary; the capacity hint only pre-sizes storage.
    pub fn with_capacity(capacity: usize) -> (r: Self)
        ensures
            r@ == Seq::<(u16, Seq<u8>)>::empty(),
            cm_wf(r@),
    {
        let r = CompMap { pairs: Vec::with_capacity(capacity) };
        assert(r@ =~= Seq::<(u16, Seq<u8>)>::empty());
        r
    }

    /// Puts `id <-> name` into the dictionary, dropping any pair that
    /// shares the id or the name, so the two directions stay in lockstep.
    pub fn insert(&mut self, id: u16, name: Vec<u8>)
        ensures
            final(self)@ == cm_insert(old(self)@, id, name@),
    {
        let ghost m = self@;
        let mut kept: Vec<(u16, Vec<u8>)> = Vec::new();
        let n = self.pairs.len();
        proof {
            assert(m.skip(0) =~= m);
            assert(pairs_view(kept@) + cm_remove(m.skip(0), id, name@) =~= cm_remove(
                m,
                id,
                name@,
            ));
        }
        let mut i: usize = 0;
        while i < n
            invariant
                i <= n,
                n == self.pairs.len(),
                m == pairs_view(self.pairs@),
                pairs_view(kept@) + cm_remove(m.skip(i as int), id, name@) == cm_remove(
                    m,
                    id,
                    name@,
                ),
            decreases n - i,
        {
            proof {
                assert(m.skip(i as int)[0] == m[i as int]);
                assert(m.skip(i as int).skip(1) =~= m.skip(i + 1));
                assert(m[i as int] == (self.pairs@[i as int].0, self.pairs@[i as int].1@));
            }
            let same_id: bool = self.pairs[i].0 == id;
            let same_name: bool = bytes_eq(&self.pairs[i].1, &name);
            if !same_id && !same_name {
                let ghost prev = pairs_view(kept@);
                let id0 = self.pairs[i].0;
                let copied = copy_bytes(&self.pairs[i].1);
                kept.push((id0, copied));
                proof {
                    assert(pairs_view(kept@) =~= prev.push((id0, copied@)));
                    assert(prev.push((id0, copied@)) + cm_remove(m.skip(i + 1), id, name@) =~= prev
                        + (seq![m[i as int]] + cm_remove(m.skip(i + 1), id, name@)));
                }
            }
            i = i + 1;
        }
        proof {
            assert(m.skip(n as int) =~= Seq::<(u16, Seq<u8>)>::empty());
            assert(pairs_view(kept@) + cm_remove(m.skip(n as int), id, name@) =~= pairs_view(
                kept@,
            ));
        }
        let ghost done = pairs_view(kept@);
        kept.push((id, name));
        proof {
            assert(pairs_view(kept@) =~= done.push((id, name@)));
        }
        self.pairs = kept;
    }

    /// The name mapped to a numeric id, or `MissingTypeMapping` when the
    /// id is absent.
    pub fn get_id(&self, id: u16) -> (r: Result<Vec<u8>, SaveError>)
        ensures
            match cm_lookup_id(self@, id) {
                Option::Some(name) => r is Ok && r.unwrap()@ == name,
                Option::None => r == Result::<Vec<u8>, SaveError>::Err(
                    SaveError::MissingTypeMapping(TypeKey::Id(id)),
                ),
            },
    {
        let ghost m = self@;
        proof {
            assert(m.skip(0) =~= m);
        }
        let n = self.pairs.len();
        let mut i: usize = 0;
        while i < n
            invariant
                i <= n,
                n == self.pairs.len(),
                m == pairs_view(self.pairs@),
                cm_lookup_id(m, id) == cm_lookup_id(m.skip(i as int), id),
            decreases n - i,
        {
            proof {
                assert(m.skip(i as int)[0] == m[i as int]);
                assert(m.skip(i as int).skip(1) =~= m.skip(i + 1));
                assert(m[i as int] == (self.pairs@[i as int].0, self.pairs@[i as int].1@));
            }
            if self.pairs[i].0 == id {
                return Result::Ok(copy_bytes(&self.pairs[i].1));
            }
            i = i + 1;
        }
        proof {
            assert(m.skip(n as int) =~= Seq::<(u16, Seq<u8>)>::empty());
        }
        Result::Err(SaveError::MissingTypeMapping(TypeKey::Id(id)))
    }

    /// The numeric id mapped to a name, or `MissingTypeMapping` when the
    /// name is absent.
    pub fn get_name(&self, name: &Vec<u8>) -> (r: Result<u16, SaveError>)
        ensures
            match cm_lookup_name(self@, name@) {
                Option::Some(id) => r == Result::<u16, SaveError>::Ok(id),
                Option::None => (r matches Result::Err(e) && e matches SaveError::MissingTypeMapping(
                    k,
                ) && k matches TypeKey::Name(n) && n@ == name@),
            },
    {
        let ghost m = self@;
        proof {
            assert(m.skip(0) =~= m);
        }
        let n = self.pairs.len();
        let mut i: usize = 0;
        while i < n
            invariant
                i <= n,
                n == self.pairs.len(),
                m == pairs_view(self.pairs@),
                cm_lookup_name(m, name@) == cm_lookup_name(m.skip(i as int), name@),
            decreases n - i,
        {
            proof {
                assert(m.skip(i as int)[0] == m[i as int]);
                assert(m.skip(i as int).skip(1) =~= m.skip(i + 1));
                assert(m[i as int] == (self.pairs@[i as int].0, self.pairs@[i as int].1@));
            }
            if bytes_eq(&self.pairs[i].1, name) {
                return Result::Ok(self.pairs[i].0);
            }
            i = i + 1;
        }
        proof {
            assert(m.skip(n as int) =~= Seq::<(u16, Seq<u8>)>::empty());
        }
        Result::Err(SaveError::MissingTypeMapping(TypeKey::Name(copy_bytes(name))))
    }

    /// The greatest id present, 0 when the dictionary is empty.
    pub fn max_id(&self) -> (r: u16)
        ensures
            r == cm_max_id(self@),
    {
        let ghost m = self@;
        proof {
            assert(m.skip(0) =~= m);
        }
        let n = self.pairs.len();
        let mut best: u16 = 0;
        let mut i: usize = 0;
        while i < n
            invariant
                i <= n,
                n == self.pairs.len(),
                m == pairs_view(self.pairs@),
                cm_max_id(m) == max_u16(best, cm_max_id(m.skip(i as int))),
            decreases n - i,
        {
            proof {
                assert(m.skip(i as int)[0] == m[i as int]);
                assert(m.skip(i as int).skip(1) =~= m.skip(i + 1));
                assert(m[i as int] == (self.pairs@[i as int].0, self.pairs@[i as int].1@));
            }
            if self.pairs[i].0 > best {
                best = self.pairs[i].0;
            }
            i = i + 1;
        }
        proof {
            assert(m.skip(n as int) =~= Seq::<(u16, Seq<u8>)>::empty());
        }
        best
    }

    /// How many pairs the dictionary holds.
    pub fn len(&self) -> (r: usize)
        ensures
            r == self@.len(),
    {
        self.pairs.len()
    }

    /// The pair at position `i`, as an owned id and name.
    pub fn pair_at(&self, i: usize) -> (r: (u16, Vec<u8>))
        requires
            i < self@.len(),
        ensures
            (r.0, r.1@) == self@[i as int],
    {
        let id0 = self.pairs[i].0;
        let name = copy_bytes(&self.pairs[i].1);
        (id0, name)
    }

    /// Guarantees a mapping for `name`: an existing mapping is left
    /// untouched; a missing name is assigned one more than the greatest
    /// id currently present, which is strictly greater than every id in
    /// use — ids are never reused or compacted.
    pub fn ensure(&mut self, name: &Vec<u8>)
        requires
            cm_lookup_name(old(self)@, name@) is Some || cm_max_id(old(self)@) < 0xffff,
        ensures
            cm_lookup_name(old(self)@, name@) is Some ==> final(self)@ == old(self)@,
            cm_lookup_name(old(self)@, name@) is None ==> final(self)@ == cm_insert(
                old(self)@,
                (cm_max_id(old(self)@) + 1) as u16,
                name@,
            ),
    {
        let present = match self.get_name(name) {
            Result::Ok(_) => true,
            Result::Err(_) => false,
        };
        if !present {
            let new_id = self.max_id() + 1;
            let owned = copy_bytes(name);
            self.insert(new_id, owned);
        }
    }
}

/// The larger of two 16-bit values.
pub open spec fn max_u16(a: u16, b: u16) -> u16 {
    if a > b {
        a
    } else {
        b
    }
}

impl SaveFile {
    /// Discards the world contents wholesale — components, wires, the
    /// type dictionary, and the state buffer — while keeping the game
    /// and mod version metadata; the address mark restarts at 1 and the
    /// state mark at 0, so the state buffer is empty going forward and
    /// no stale state bits from the old world survive into the next
    /// encode.
    pub fn clear_out(&mut self)
        ensures
            final(self)@ == (SaveV {
                comp_map: Seq::<(u16, Seq<u8>)>::empty(),
                components: Seq::<CompV>::empty(),
                wires: Seq::<Wire>::empty(),
                states: Seq::<u8>::empty(),
                highest_state_id: 0,
                highest_address: 1,
                ..old(self)@
            }),
    {
        self.comp_map = CompMap::with_capacity(0);
        self.components = Vec::new();
        self.wires = Vec::new();
        self.states = States(Vec::new());
        self.highest_state_id = 0;
        self.highest_address = 1;
        proof {
            assert(comps_view(self.components@) =~= Seq::<CompV>::empty());
            assert(self@ =~= (SaveV {
                comp_map: Seq::<(u16, Seq<u8>)>::empty(),
                components: Seq::<CompV>::empty(),
                wires: Seq::<Wire>::empty(),
                states: Seq::<u8>::empty(),
                highest_state_id: 0,
                highest_address: 1,
                ..old(self)@
            }));
        }
    }

    /// Allocates the next state id: one more than the current high-water
    /// mark, so repeated calls return strictly increasing, gap-free ids
    /// that never collide with any id at or below the mark. The backing
    /// byte buffer grows by one byte when the new mark's byte index
    /// reaches its end.
    pub fn get_free_state_id(&mut self) -> (r: i32)
        requires
            0 <= old(self).highest_state_id < 0x7fffffff,
            old(self).states@.len() <= 0x7fffffff,
        ensures
            r == old(self).highest_state_id + 1,
            final(self).highest_state_id == r,
            final(self).states@ == if r / 8 >= old(self).states@.len() {
                old(self).states@.push(0u8)
            } else {
                old(self).states@
            },
            final(self).game_version == old(self).game_version,
            final(self).mod_versions == old(self).mod_versions,
            final(self).comp_map == old(self).comp_map,
            final(self).components == old(self).components,
            final(self).wires == old(self).wires,
            final(self).highest_address == old(self).highest_address,
    {
        self.highest_state_id = self.highest_state_id + 1;
        if self.highest_state_id / 8 >= self.states.0.len() as i32 {
            self.states.0.push(0);
        }
        self.highest_state_id
    }

    /// Allocates the next component address: one more than the current
    /// high-water mark, so repeated calls return strictly increasing
    /// addresses that never collide with any address at or below the
    /// mark.
    pub fn get_free_address(&mut self) -> (r: u32)
        requires
            old(self).highest_address < 0xffffffffu32,
        ensures
            r == old(self).highest_address + 1,
            final(self).highest_address == r,
            final(self).game_version == old(self).game_version,
            final(self).mod_versions == old(self).mod_versions,
            final(self).comp_map == old(self).comp_map,
            final(self).components == old(self).components,
            final(self).wires == old(self).wires,
            final(self).states == old(self).states,
            final(self).highest_state_id == old(self).highest_state_id,
    {
        self.highest_address = self.highest_address + 1;
        self.highest_address
    }
}

} // verus!
