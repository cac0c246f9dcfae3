//! The encoder: a byte-level specification of the serialized form of
//! every record, and the `Writer` that builds the whole output buffer in
//! memory, verified to produce exactly that form.

use vstd::prelude::*;

use crate::err::SaveError;
use crate::err::TypeKey;
use crate::model::cm_lookup_name;
use crate::model::comps_view;
use crate::model::copy_bytes;
use crate::model::footer_magic;
use crate::model::footer_magic_bytes;
use crate::model::header_magic;
use crate::model::header_magic_bytes;
use crate::model::mods_view;
use crate::model::CompMap;
use crate::model::CompV;
use crate::model::Component;
use crate::model::CustomData;
use crate::model::CustomV;
use crate::model::PegAddress;
use crate::model::PegType;
use crate::model::SaveFile;
use crate::model::SaveV;
use crate::model::Version;
use crate::model::Wire;
use crate::prim::le16;
use crate::prim::le32i;
use crate::prim::le32u;
use crate::prim::push_le16;
use crate::prim::push_le32;

verus! {

/// The serialized form of a version quad: four little-endian int32.
pub open spec fn se_version(v: Version) -> Seq<u8> {
    le32i(v.0) + le32i(v.1) + le32i(v.2) + le32i(v.3)
}

/// The serialized form of a text field: int32 byte length, then the bytes.
pub open spec fn se_string(s: Seq<u8>) -> Seq<u8> {
    le32i(s.len() as i32) + s
}

/// The serialized form of the mod table entries, in order.
pub open spec fn se_mods(ms: Seq<(Seq<u8>, Version)>) -> Seq<u8>
    decreases ms.len(),
{
    if ms.len() == 0 {
        Seq::empty()
    } else {
        se_string(ms[0].0) + se_version(ms[0].1) + se_mods(ms.skip(1))
    }
}

/// The serialized form of the type-dictionary entries, in order.
pub open spec fn se_cm(m: Seq<(u16, Seq<u8>)>) -> Seq<u8>
    decreases m.len(),
{
    if m.len() == 0 {
        Seq::empty()
    } else {
        le16(m[0].0) + se_string(m[0].1) + se_cm(m.skip(1))
    }
}

/// The serialized form of a list of state ids, in order.
pub open spec fn se_ids(ids: Seq<i32>) -> Seq<u8>
    decreases ids.len(),
{
    if ids.len() == 0 {
        Seq::empty()
    } else {
        le32i(ids[0]) + se_ids(ids.skip(1))
    }
}

/// The raw byte form of a custom payload before its length prefix.
pub open spec fn se_custom(cd: CustomV) -> Seq<u8> {
    match cd {
        CustomV::Unknown(d) => d,
        CustomV::Switch { color, on } => seq![
            color.0,
            color.1,
            color.2,
            if on {
                1u8
            } else {
                0u8
            },
        ],
        CustomV::Display { color_mode } => le32u(color_mode),
    }
}

/// The serialized form of one component record, resolving its type name
/// through the dictionary.
pub open spec fn se_component(c: CompV, m: Seq<(u16, Seq<u8>)>) -> Seq<u8> {
    le32u(c.address) + le32u(c.parent) + le16(
        match cm_lookup_name(m, c.id) {
            Option::Some(n) => n,
            Option::None => 0u16,
        },
    ) + le32i(c.position.x) + le32i(c.position.y) + le32i(c.position.z) + le32u(c.rotation.x)
        + le32u(c.rotation.y) + le32u(c.rotation.z) + le32u(c.rotation.w) + le32i(
        c.inputs.len() as i32,
    ) + se_ids(c.inputs) + le32i(c.outputs.len() as i32) + se_ids(c.outputs) + le32i(
        se_custom(c.custom_data).len() as i32,
    ) + se_custom(c.custom_data)
}

/// The serialized form of the component records, in order.
pub open spec fn se_components(cs: Seq<CompV>, m: Seq<(u16, Seq<u8>)>) -> Seq<u8>
    decreases cs.len(),
{
    if cs.len() == 0 {
        Seq::empty()
    } else {
        se_component(cs[0], m) + se_components(cs.skip(1), m)
    }
}

/// The wire-format tag of a peg kind.
pub open spec fn peg_tag(t: PegType) -> u8 {
    match t {
        PegType::Input => 1u8,
        PegType::Output => 2u8,
    }
}

/// The serialized form of one peg address.
pub open spec fn se_peg(p: PegAddress) -> Seq<u8> {
    seq![peg_tag(p.type_)] + le32u(p.component) + le32i(p.index)
}

/// The serialized form of one wire record: start peg, then end peg, then
/// state id, then rotation bits.
pub open spec fn se_wire(w: Wire) -> Seq<u8> {
    se_peg(w.start) + se_peg(w.end) + le32i(w.state_id) + le32u(w.rotation)
}

/// The serialized form of the wire records, in order.
pub open spec fn se_wires(ws: Seq<Wire>) -> Seq<u8>
    decreases ws.len(),
{
    if ws.len() == 0 {
        Seq::empty()
    } else {
        se_wire(ws[0]) + se_wires(ws.skip(1))
    }
}

/// The serialized form of a whole save, in the fixed section order of the
/// format.
pub open spec fn se_save(v: SaveV) -> Seq<u8> {
    header_magic() + seq![7u8] + se_version(v.game_version) + seq![1u8] + le32i(
        v.components.len() as i32,
    ) + le32i(v.wires.len() as i32) + le32i(v.mod_versions.len() as i32) + se_mods(v.mod_versions)
        + le32i(v.comp_map.len() as i32) + se_cm(v.comp_map) + se_components(
        v.components,
        v.comp_map,
    ) + se_wires(v.wires) + le32i(v.states.len() as i32) + v.states + footer_magic()
}

/// The position of the first component whose type name does not resolve
/// through the dictionary (the length of the list when all resolve): the
/// component an encode fails on.
pub open spec fn first_unresolvable(cs: Seq<CompV>, m: Seq<(u16, Seq<u8>)>) -> int
    decreases cs.len(),
{
    if cs.len() == 0 {
        0
    } else if cm_lookup_name(m, cs[0].id) is None {
        0
    } else {
        1 + first_unresolvable(cs.skip(1), m)
    }
}

/// The first unresolvable component is the first one a left-to-right
/// scan rejects.
pub proof fn lemma_first_unresolvable(cs: Seq<CompV>, m: Seq<(u16, Seq<u8>)>, k: int)
    requires
        0 <= k < cs.len(),
        cm_lookup_name(m, cs[k].id) is None,
        forall|j: int| 0 <= j < k ==> cm_lookup_name(m, (#[trigger] cs[j]).id) is Some,
    ensures
        first_unresolvable(cs, m) == k,
    decreases k,
{
    if k > 0 {
        assert(forall|j: int| 0 <= j < cs.skip(1).len() ==> (#[trigger] cs.skip(1)[j]) == cs[j + 1]);
        assert(cs.skip(1)[k - 1] == cs[k]);
        lemma_first_unresolvable(cs.skip(1), m, k - 1);
    }
}

/// Whether every component's type name resolves through the dictionary:
/// exactly the condition under which an encode succeeds.
pub open spec fn encodable(v: SaveV) -> bool {
    forall|i: int|
        0 <= i < v.components.len() ==> cm_lookup_name(
            v.comp_map,
            (#[trigger] v.components[i]).id,
        ) is Some
}

/// Builds the encoded byte buffer for a save, in memory; the caller is
/// responsible for committing the finished buffer atomically.
pub struct Writer {
    result: Vec<u8>,
}

impl View for Writer {
    type V = Seq<u8>;

    closed spec fn view(&self) -> Seq<u8> {
        self.result@
    }
}

impl Writer {
    /// A writer with an empty output buffer.
    pub fn new() -> (r: Writer)
        ensures
            r@ == Seq::<u8>::empty(),
    {
        let r = Writer { result: Vec::new() };
        proof {
            assert(r@ =~= Seq::<u8>::empty());
        }
        r
    }

    /// Appends raw bytes with no length prefix (the magic markers, the
    /// state buffer, a prepared payload).
    pub fn write_raw_string(&mut self, data: &Vec<u8>)
        ensures
            final(self)@ == old(self)@ + data@,
    {
        let n = data.len();
        let mut i: usize = 0;
        while i < n
            invariant
                i <= n,
                n == data.len(),
                self.result@ == old(self).result@ + data@.subrange(0, i as int),
            decreases n - i,
        {
            let b = data[i];
            self.result.push(b);
            assert(self.result@ =~= old(self).result@ + data@.subrange(0, i + 1 as int));
            i = i + 1;
        }
        assert(self.result@ =~= old(self).result@ + data@);
    }

    /// Appends a signed 32-bit value, little-endian.
    pub fn write_int(&mut self, data: i32)
        ensures
            final(self)@ == old(self)@ + le32i(data),
    {
        push_le32(&mut self.result, data as u32);
    }

    /// Appends an unsigned 32-bit component address, little-endian.
    pub fn write_address(&mut self, data: u32)
        ensures
            final(self)@ == old(self)@ + le32u(data),
    {
        push_le32(&mut self.result, data);
    }

    /// Appends a 32-bit float as its raw bit pattern, little-endian.
    pub fn write_float_bits(&mut self, data: u32)
        ensures
            final(self)@ == old(self)@ + le32u(data),
    {
        push_le32(&mut self.result, data);
    }

    /// Appends a 16-bit numeric type id, little-endian.
    pub fn write_id(&mut self, data: u16)
        ensures
            final(self)@ == old(self)@ + le16(data),
    {
        push_le16(&mut self.result, data);
    }

    /// Appends a version quad.
    pub fn write_version(&mut self, version: &Version)
        ensures
            final(self)@ == old(self)@ + se_version(*version),
    {
        self.write_int(version.0);
        self.write_int(version.1);
        self.write_int(version.2);
        self.write_int(version.3);
        assert(self@ =~= old(self)@ + se_version(*version));
    }

    /// Appends a length-prefixed text field.
    pub fn write_string(&mut self, data: &Vec<u8>)
        ensures
            final(self)@ == old(self)@ + se_string(data@),
    {
        self.write_int(#[verifier::truncate] (data.len() as i32));
        self.write_raw_string(data);
        assert(self@ =~= old(self)@ + se_string(data@));
    }

    /// Appends one peg address: kind tag, component address, peg index.
    pub fn write_peg_address(&mut self, address: &PegAddress)
        ensures
            final(self)@ == old(self)@ + se_peg(*address),
    {
        match address.type_ {
            PegType::Input => self.result.push(1),
            PegType::Output => self.result.push(2),
        }
        self.write_address(address.component);
        self.write_int(address.index);
        assert(self@ =~= old(self)@ + se_peg(*address));
    }

    /// Appends one wire record; the start peg is written first, then the
    /// end peg, so both ends of the wire survive a round trip.
    pub fn write_wire(&mut self, wire: &Wire)
        ensures
            final(self)@ == old(self)@ + se_wire(*wire),
    {
        self.write_peg_address(&wire.start);
        self.write_peg_address(&wire.end);
        self.write_int(wire.state_id);
        self.write_float_bits(wire.rotation);
        assert(self@ =~= old(self)@ + se_wire(*wire));
    }

    /// The raw byte form of a custom payload: typed variants serialize to
    /// their fixed layout, the opaque variant hands its stored bytes back
    /// unchanged.
    pub fn do_customdata(&mut self, data: &CustomData) -> (r: Vec<u8>)
        ensures
            r@ == se_custom(data@),
            final(self)@ == old(self)@,
    {
        match data {
            CustomData::Unknown(d) => copy_bytes(d),
            CustomData::Display { color_mode } => {
                let mut v: Vec<u8> = Vec::new();
                push_le32(&mut v, *color_mode);
                assert(v@ =~= le32u(*color_mode));
                v
            },
            CustomData::Switch { color, on } => {
                let mut v: Vec<u8> = Vec::new();
                v.push(color.0);
                v.push(color.1);
                v.push(color.2);
                v.push(if *on {
                    1
                } else {
                    0
                });
                assert(v@ =~= se_custom(data@));
                v
            },
        }
    }

    /// Appends one component record, resolving its type name through the
    /// dictionary; fails with `MissingTypeMapping` when the name is
    /// absent.
    pub fn write_component(&mut self, comp: &Component, mapping: &CompMap) -> (r: Result<
        (),
        SaveError,
    >)
        ensures
            cm_lookup_name(mapping@, comp.id@) is Some ==> r is Ok && final(self)@ == old(self)@
                + se_component(comp@, mapping@),
            cm_lookup_name(mapping@, comp.id@) is None ==> (r matches Result::Err(e)
                && e matches SaveError::MissingTypeMapping(k) && k matches TypeKey::Name(n)
                && n@ == comp.id@),
    {
        self.write_address(comp.address);
        self.write_address(comp.parent);
        let num = match mapping.get_name(&comp.id) {
            Result::Ok(n) => n,
            Result::Err(e) => {
                return Result::Err(e);
            },
        };
        self.write_id(num);

        self.write_int(comp.position.x);
        self.write_int(comp.position.y);
        self.write_int(comp.position.z);

        self.write_float_bits(comp.rotation.x);
        self.write_float_bits(comp.rotation.y);
        self.write_float_bits(comp.rotation.z);
        self.write_float_bits(comp.rotation.w);

        let ghost mid0 = self@;
        self.write_int(#[verifier::truncate] (comp.inputs.len() as i32));
        let ghost mid1 = self@;
        let n_in = comp.inputs.len();
        proof {
            assert(comp.inputs@.skip(0) =~= comp.inputs@);
        }
        let mut k: usize = 0;
        while k < n_in
            invariant
                k <= n_in,
                n_in == comp.inputs.len(),
                self@ + se_ids(comp.inputs@.skip(k as int)) == mid1 + se_ids(comp.inputs@),
            decreases n_in - k,
        {
            proof {
                assert(comp.inputs@.skip(k as int)[0] == comp.inputs@[k as int]);
                assert(comp.inputs@.skip(k as int).skip(1) =~= comp.inputs@.skip(k + 1));
            }
            let ghost before = self@;
            let id = comp.inputs[k];
            self.write_int(id);
            proof {
                assert(self@ + se_ids(comp.inputs@.skip(k + 1)) =~= before + se_ids(
                    comp.inputs@.skip(k as int),
                ));
            }
            k = k + 1;
        }
        proof {
            assert(comp.inputs@.skip(n_in as int) =~= Seq::<i32>::empty());
            assert(self@ + se_ids(comp.inputs@.skip(n_in as int)) =~= self@);
        }

        let ghost mid2 = self@;
        self.write_int(#[verifier::truncate] (comp.outputs.len() as i32));
        let ghost mid3 = self@;
        let n_out = comp.outputs.len();
        proof {
            assert(comp.outputs@.skip(0) =~= comp.outputs@);
        }
        let mut k2: usize = 0;
        while k2 < n_out
            invariant
                k2 <= n_out,
                n_out == comp.outputs.len(),
                self@ + se_ids(comp.outputs@.skip(k2 as int)) == mid3 + se_ids(comp.outputs@),
            decreases n_out - k2,
        {
            proof {
                assert(comp.outputs@.skip(k2 as int)[0] == comp.outputs@[k2 as int]);
                assert(comp.outputs@.skip(k2 as int).skip(1) =~= comp.outputs@.skip(k2 + 1));
            }
            let ghost before = self@;
            let id = comp.outputs[k2];
            self.write_int(id);
            proof {
                assert(self@ + se_ids(comp.outputs@.skip(k2 + 1)) =~= before + se_ids(
                    comp.outputs@.skip(k2 as int),
                ));
            }
            k2 = k2 + 1;
        }
        proof {
            assert(comp.outputs@.skip(n_out as int) =~= Seq::<i32>::empty());
        }

        let custom_data = self.do_customdata(&comp.custom_data);
        self.write_int(#[verifier::truncate] (custom_data.len() as i32));
        self.write_raw_string(&custom_data);

        proof {
            assert(self@ =~= old(self)@ + se_component(comp@, mapping@));
        }
        Result::Ok(())
    }

    /// Encodes a whole save into one byte buffer, in the fixed section
    /// order of the format. Succeeds exactly when every component's type
    /// name resolves through the dictionary; no partial output is handed
    /// out on failure.
    pub fn write(self, save: SaveFile) -> (r: Result<Vec<u8>, SaveError>)
        requires
            self@.len() == 0,
        ensures
            encodable(save@) ==> r is Ok && r.unwrap()@ == se_save(save@),
            !encodable(save@) ==> (r matches Result::Err(e) && e matches SaveError::MissingTypeMapping(
                k,
            ) && k matches TypeKey::Name(n) && n@ == save@.components[first_unresolvable(
                save@.components,
                save@.comp_map,
            )].id),
    {
        let mut this = self;
        proof {
            assert(this@ =~= Seq::<u8>::empty());
        }
        let hdr = header_magic_bytes();
        this.write_raw_string(&hdr);
        proof {
            assert(this@ =~= header_magic());
        }

        this.result.push(7);
        proof {
            assert(this@ =~= header_magic() + seq![7u8]);
        }
        let gv = save.game_version;
        this.write_version(&gv);
        this.result.push(1);
        proof {
            assert(this@ =~= header_magic() + seq![7u8] + se_version(save.game_version) + seq![
                1u8,
            ]);
        }
        this.write_int(#[verifier::truncate] (save.components.len() as i32));
        this.write_int(#[verifier::truncate] (save.wires.len() as i32));
        this.write_int(#[verifier::truncate] (save.mod_versions.len() as i32));

        let ghost mv = mods_view(save.mod_versions@);
        let ghost base_mods = this@;
        proof {
            assert(save@.mod_versions == mv);
            assert(mv.skip(0) =~= mv);
            assert(base_mods + se_mods(mv.skip(0)) =~= base_mods + se_mods(mv));
        }
        let n_mods = save.mod_versions.len();
        let mut k: usize = 0;
        while k < n_mods
            invariant
                k <= n_mods,
                n_mods == save.mod_versions.len(),
                mv == mods_view(save.mod_versions@),
                this@ + se_mods(mv.skip(k as int)) == base_mods + se_mods(mv),
            decreases n_mods - k,
        {
            proof {
                assert(mv.skip(k as int)[0] == mv[k as int]);
                assert(mv.skip(k as int).skip(1) =~= mv.skip(k + 1));
                assert(mv[k as int] == (save.mod_versions@[k as int].0@, save.mod_versions@[
                    k as int].1));
            }
            let ghost before = this@;
            this.write_string(&save.mod_versions[k].0);
            let ver = save.mod_versions[k].1;
            this.write_version(&ver);
            proof {
                assert(this@ + se_mods(mv.skip(k + 1)) =~= before + se_mods(mv.skip(k as int)));
            }
            k = k + 1;
        }
        proof {
            assert(mv.skip(n_mods as int) =~= Seq::<(Seq<u8>, Version)>::empty());
            assert(this@ =~= base_mods + se_mods(mv));
        }

        let cm_len = save.comp_map.len();
        this.write_int(#[verifier::truncate] (cm_len as i32));
        let ghost cmv = save.comp_map@;
        let ghost base_cm = this@;
        proof {
            assert(cmv.skip(0) =~= cmv);
        }
        let mut k2: usize = 0;
        while k2 < cm_len
            invariant
                k2 <= cm_len,
                cm_len == save.comp_map@.len(),
                cmv == save.comp_map@,
                this@ + se_cm(cmv.skip(k2 as int)) == base_cm + se_cm(cmv),
            decreases cm_len - k2,
        {
            proof {
                assert(cmv.skip(k2 as int)[0] == cmv[k2 as int]);
                assert(cmv.skip(k2 as int).skip(1) =~= cmv.skip(k2 + 1));
            }
            let ghost before = this@;
            let pair = save.comp_map.pair_at(k2);
            this.write_id(pair.0);
            this.write_string(&pair.1);
            proof {
                assert(this@ + se_cm(cmv.skip(k2 + 1)) =~= before + se_cm(cmv.skip(k2 as int)));
            }
            k2 = k2 + 1;
        }
        proof {
            assert(cmv.skip(cm_len as int) =~= Seq::<(u16, Seq<u8>)>::empty());
            assert(this@ =~= base_cm + se_cm(cmv));
        }

        let ghost cv = comps_view(save.components@);
        let ghost base_comps = this@;
        proof {
            assert(save@.components == cv);
            assert(cv.skip(0) =~= cv);
        }
        let n_comps = save.components.len();
        let mut k3: usize = 0;
        while k3 < n_comps
            invariant
                k3 <= n_comps,
                n_comps == save.components.len(),
                cv == comps_view(save.components@),
                cmv == save.comp_map@,
                this@ + se_components(cv.skip(k3 as int), cmv) == base_comps + se_components(
                    cv,
                    cmv,
                ),
                forall|i: int|
                    0 <= i < k3 ==> cm_lookup_name(cmv, (#[trigger] cv[i]).id) is Some,
            decreases n_comps - k3,
        {
            proof {
                assert(cv.skip(k3 as int)[0] == cv[k3 as int]);
                assert(cv.skip(k3 as int).skip(1) =~= cv.skip(k3 + 1));
                assert(cv[k3 as int] == save.components@[k3 as int]@);
            }
            let ghost before = this@;
            match this.write_component(&save.components[k3], &save.comp_map) {
                Result::Ok(_) => {},
                Result::Err(e) => {
                    proof {
                        assert(save@.components[k3 as int] == cv[k3 as int]);
                        assert(!encodable(save@));
                        lemma_first_unresolvable(cv, cmv, k3 as int);
                    }
                    return Result::Err(e);
                },
            }
            proof {
                assert(this@ + se_components(cv.skip(k3 + 1), cmv) =~= before + se_components(
                    cv.skip(k3 as int),
                    cmv,
                ));
            }
            k3 = k3 + 1;
        }
        proof {
            assert(cv.skip(n_comps as int) =~= Seq::<CompV>::empty());
            assert(this@ =~= base_comps + se_components(cv, cmv));
            assert(encodable(save@));
        }

        let ghost wv = save.wires@;
        let ghost base_wires = this@;
        proof {
            assert(wv.skip(0) =~= wv);
        }
        let n_wires = save.wires.len();
        let mut k4: usize = 0;
        while k4 < n_wires
            invariant
                k4 <= n_wires,
                n_wires == save.wires.len(),
                wv == save.wires@,
                this@ + se_wires(wv.skip(k4 as int)) == base_wires + se_wires(wv),
            decreases n_wires - k4,
        {
            proof {
                assert(wv.skip(k4 as int)[0] == wv[k4 as int]);
                assert(wv.skip(k4 as int).skip(1) =~= wv.skip(k4 + 1));
            }
            let ghost before = this@;
            let w = save.wires[k4];
            this.write_wire(&w);
            proof {
                assert(this@ + se_wires(wv.skip(k4 + 1)) =~= before + se_wires(wv.skip(k4 as int)));
            }
            k4 = k4 + 1;
        }
        proof {
            assert(wv.skip(n_wires as int) =~= Seq::<Wire>::empty());
            assert(this@ =~= base_wires + se_wires(wv));
        }

        this.write_int(#[verifier::truncate] (save.states.0.len() as i32));
        this.write_raw_string(&save.states.0);

        let ftr = footer_magic_bytes();
        this.write_raw_string(&ftr);

        proof {
            assert(this@ =~= se_save(save@));
        }
        Result::Ok(this.result)
    }
}

} // verus!
