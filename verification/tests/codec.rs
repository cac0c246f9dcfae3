use logicworld_save::decode::Parser;
use logicworld_save::encode::Writer;
use logicworld_save::err::magic_from;
use logicworld_save::err::SaveError;
use logicworld_save::err::TypeKey;
use logicworld_save::model::CustomData;
use logicworld_save::model::PegType;

fn push_i32(out: &mut Vec<u8>, v: i32) {
    out.extend_from_slice(&v.to_le_bytes());
}

fn push_u32(out: &mut Vec<u8>, v: u32) {
    out.extend_from_slice(&v.to_le_bytes());
}

fn push_u16(out: &mut Vec<u8>, v: u16) {
    out.extend_from_slice(&v.to_le_bytes());
}

fn push_text(out: &mut Vec<u8>, s: &str) {
    push_i32(out, s.len() as i32);
    out.extend_from_slice(s.as_bytes());
}

/// Header, format version, game version quad, save type, and the two
/// record counts.
fn preamble(n_comp: i32, n_wire: i32) -> Vec<u8> {
    let mut out = Vec::new();
    out.extend_from_slice(b"Logic World save");
    out.push(7);
    for v in [1, 2, 3, 4] {
        push_i32(&mut out, v);
    }
    out.push(1);
    push_i32(&mut out, n_comp);
    push_i32(&mut out, n_wire);
    out
}

fn finish(mut out: Vec<u8>, states: &[u8]) -> Vec<u8> {
    push_i32(&mut out, states.len() as i32);
    out.extend_from_slice(states);
    out.extend_from_slice(b"redstone sux lol");
    out
}

/// Scenario: the empty world decodes to an empty model and re-encodes to
/// the identical byte sequence.
#[test]
fn empty_world_round_trip() {
    let mut bytes = Vec::new();
    bytes.extend_from_slice(b"Logic World save");
    bytes.push(7);
    for _ in 0..4 {
        push_i32(&mut bytes, 0);
    }
    bytes.push(1);
    for _ in 0..4 {
        push_i32(&mut bytes, 0);
    }
    let bytes = finish(bytes, &[]);

    let save = Parser::new(bytes.clone()).parse_save().expect("empty world decodes");
    assert_eq!(save.game_version, logicworld_save::model::Version(0, 0, 0, 0));
    assert_eq!(save.mod_versions.len(), 0);
    assert_eq!(save.comp_map.len(), 0);
    assert_eq!(save.components.len(), 0);
    assert_eq!(save.wires.len(), 0);
    assert_eq!(save.states.0.len(), 0);
    assert_eq!(save.highest_state_id, 0);
    assert_eq!(save.highest_address, 1);

    let reencoded = Writer::new().write(save).expect("empty world encodes");
    assert_eq!(reencoded, bytes);
}

/// A stream whose first 16 bytes differ from the header magic fails with
/// `HeaderMismatch`.
#[test]
fn header_mismatch_detected() {
    let mut bytes = preamble(0, 0);
    push_i32(&mut bytes, 0);
    push_i32(&mut bytes, 0);
    let mut bytes = finish(bytes, &[]);
    bytes[0] = b'l';
    let r = Parser::new(bytes.clone()).parse_save();
    assert_eq!(r.unwrap_err(), SaveError::HeaderMismatch { found: magic_from(&bytes) });
}

#[test]
fn wrong_format_version_detected() {
    let mut bytes = preamble(0, 0);
    push_i32(&mut bytes, 0);
    push_i32(&mut bytes, 0);
    let mut bytes = finish(bytes, &[]);
    bytes[16] = 6;
    let r = Parser::new(bytes).parse_save();
    assert_eq!(r.unwrap_err(), SaveError::UnsupportedFormatVersion { found: 6, at: 16 });
}

#[test]
fn wrong_save_type_detected() {
    let mut bytes = preamble(0, 0);
    push_i32(&mut bytes, 0);
    push_i32(&mut bytes, 0);
    let mut bytes = finish(bytes, &[]);
    bytes[33] = 2;
    let r = Parser::new(bytes).parse_save();
    assert_eq!(r.unwrap_err(), SaveError::UnsupportedSaveType { found: 2, at: 33 });
}

#[test]
fn footer_mismatch_detected() {
    let mut bytes = preamble(0, 0);
    push_i32(&mut bytes, 0);
    push_i32(&mut bytes, 0);
    let mut bytes = finish(bytes, &[]);
    let last = bytes.len() - 1;
    bytes[last] = b'!';
    let footer_at = bytes.len() - 16;
    let observed = bytes[footer_at..].to_vec();
    let r = Parser::new(bytes).parse_save();
    assert_eq!(
        r.unwrap_err(),
        SaveError::FooterMismatch { found: magic_from(&observed), at: footer_at }
    );
}

#[test]
fn invalid_utf8_name_detected() {
    let mut bytes = preamble(0, 0);
    push_i32(&mut bytes, 0);
    push_i32(&mut bytes, 1);
    push_u16(&mut bytes, 1);
    push_i32(&mut bytes, 1);
    bytes.push(0xff);
    let bytes = finish(bytes, &[]);
    let r = Parser::new(bytes).parse_save();
    assert_eq!(r.unwrap_err(), SaveError::InvalidUtf8Text { at: 56 });
}

#[test]
fn negative_text_length_is_truncation() {
    let mut bytes = preamble(0, 0);
    push_i32(&mut bytes, 1);
    push_i32(&mut bytes, -4);
    let r = Parser::new(bytes).parse_save();
    assert_eq!(r.unwrap_err(), SaveError::UnexpectedEof { at: 46 });
}

/// Every strict prefix of a valid stream fails with `UnexpectedEof` and
/// never yields a partial model.
#[test]
fn truncated_stream_fails() {
    let mut bytes = preamble(1, 0);
    push_i32(&mut bytes, 0);
    push_i32(&mut bytes, 1);
    push_u16(&mut bytes, 9);
    push_text(&mut bytes, "Test.Widget");
    push_u32(&mut bytes, 42);
    push_u32(&mut bytes, 0);
    push_u16(&mut bytes, 9);
    for v in [10, 20, 30] {
        push_i32(&mut bytes, v);
    }
    for _ in 0..4 {
        push_u32(&mut bytes, 0);
    }
    push_i32(&mut bytes, 1);
    push_i32(&mut bytes, 5);
    push_i32(&mut bytes, 0);
    push_i32(&mut bytes, 2);
    bytes.extend_from_slice(&[0xaa, 0xbb]);
    let bytes = finish(bytes, &[3]);

    assert!(Parser::new(bytes.clone()).parse_save().is_ok());
    for k in 0..bytes.len() {
        let r = Parser::new(bytes[..k].to_vec()).parse_save();
        assert!(
            matches!(r.unwrap_err(), SaveError::UnexpectedEof { .. }),
            "prefix of {k} bytes"
        );
    }
}

/// Scenario: a component whose type name is unknown keeps its payload
/// byte for byte and re-encodes to the identical stream.
#[test]
fn unknown_payload_passthrough() {
    let payload = [9u8, 8, 7, 6, 5, 4, 3];
    let mut bytes = preamble(1, 0);
    push_i32(&mut bytes, 0);
    push_i32(&mut bytes, 1);
    push_u16(&mut bytes, 2);
    push_text(&mut bytes, "Test.Widget");
    push_u32(&mut bytes, 5);
    push_u32(&mut bytes, 0);
    push_u16(&mut bytes, 2);
    for v in [1, 2, 3] {
        push_i32(&mut bytes, v);
    }
    for b in [1.5f32, -2.0, 0.25, 100.0] {
        bytes.extend_from_slice(&b.to_le_bytes());
    }
    push_i32(&mut bytes, 0);
    push_i32(&mut bytes, 0);
    push_i32(&mut bytes, payload.len() as i32);
    bytes.extend_from_slice(&payload);
    let bytes = finish(bytes, &[]);

    let save = Parser::new(bytes.clone()).parse_save().expect("decodes");
    assert_eq!(save.components.len(), 1);
    let comp = &save.components[0];
    assert_eq!(comp.id, b"Test.Widget".to_vec());
    assert_eq!(comp.rotation.x, 1.5f32.to_bits());
    assert_eq!(comp.rotation.y, (-2.0f32).to_bits());
    assert_eq!(comp.custom_data, CustomData::Unknown(payload.to_vec()));

    let reencoded = Writer::new().write(save).expect("encodes");
    assert_eq!(reencoded, bytes);
}

/// Scenario: a peg kind byte of `0` (or anything but `1`/`2`) fails with
/// `UnknownPegType`.
#[test]
fn bad_peg_tag() {
    for tag in [0u8, 3, 255] {
        let mut bytes = preamble(0, 1);
        push_i32(&mut bytes, 0);
        push_i32(&mut bytes, 0);
        bytes.push(tag);
        push_u32(&mut bytes, 1);
        push_i32(&mut bytes, 0);
        bytes.push(2);
        push_u32(&mut bytes, 2);
        push_i32(&mut bytes, 1);
        push_i32(&mut bytes, 4);
        push_u32(&mut bytes, 0);
        let bytes = finish(bytes, &[]);
        let r = Parser::new(bytes).parse_save();
        assert_eq!(r.unwrap_err(), SaveError::UnknownPegType { found: tag, at: 50 });
    }
}

/// A switch payload parses its color and flag; a nonzero flag byte is
/// true, and re-encoding normalizes it to 1.
#[test]
fn switch_payload_parses() {
    let mut bytes = preamble(1, 0);
    push_i32(&mut bytes, 0);
    push_i32(&mut bytes, 1);
    push_u16(&mut bytes, 1);
    push_text(&mut bytes, "MHG.Switch");
    push_u32(&mut bytes, 7);
    push_u32(&mut bytes, 0);
    push_u16(&mut bytes, 1);
    for v in [0, 0, 0] {
        push_i32(&mut bytes, v);
    }
    for _ in 0..4 {
        push_u32(&mut bytes, 0);
    }
    push_i32(&mut bytes, 0);
    push_i32(&mut bytes, 1);
    push_i32(&mut bytes, 11);
    push_i32(&mut bytes, 4);
    bytes.extend_from_slice(&[10, 20, 30, 5]);
    let bytes = finish(bytes, &[]);

    let save = Parser::new(bytes).parse_save().expect("decodes");
    assert_eq!(
        save.components[0].custom_data,
        CustomData::Switch { color: (10, 20, 30), on: true }
    );
    assert_eq!(save.highest_state_id, 11);

    let reencoded = Writer::new().write(save).expect("encodes");
    let save2 = Parser::new(reencoded.clone()).parse_save().expect("redecodes");
    assert_eq!(
        save2.components[0].custom_data,
        CustomData::Switch { color: (10, 20, 30), on: true }
    );
    let reencoded2 = Writer::new().write(save2).expect("re-encodes");
    assert_eq!(reencoded2, reencoded);
}

/// A standing display payload parses its little-endian color mode.
#[test]
fn display_payload_parses() {
    let mut bytes = preamble(1, 0);
    push_i32(&mut bytes, 0);
    push_i32(&mut bytes, 1);
    push_u16(&mut bytes, 4);
    push_text(&mut bytes, "MHG.StandingDisplay");
    push_u32(&mut bytes, 8);
    push_u32(&mut bytes, 0);
    push_u16(&mut bytes, 4);
    for v in [0, 0, 0] {
        push_i32(&mut bytes, v);
    }
    for _ in 0..4 {
        push_u32(&mut bytes, 0);
    }
    push_i32(&mut bytes, 0);
    push_i32(&mut bytes, 0);
    push_i32(&mut bytes, 4);
    bytes.extend_from_slice(&[2, 1, 0, 0]);
    let bytes = finish(bytes, &[]);

    let save = Parser::new(bytes).parse_save().expect("decodes");
    assert_eq!(save.components[0].custom_data, CustomData::Display { color_mode: 258 });
}

/// A known payload shorter than its fixed fields reads as truncation.
#[test]
fn short_switch_payload_fails() {
    let mut bytes = preamble(1, 0);
    push_i32(&mut bytes, 0);
    push_i32(&mut bytes, 1);
    push_u16(&mut bytes, 1);
    push_text(&mut bytes, "MHG.Button");
    push_u32(&mut bytes, 7);
    push_u32(&mut bytes, 0);
    push_u16(&mut bytes, 1);
    for v in [0, 0, 0] {
        push_i32(&mut bytes, v);
    }
    for _ in 0..4 {
        push_u32(&mut bytes, 0);
    }
    push_i32(&mut bytes, 0);
    push_i32(&mut bytes, 0);
    push_i32(&mut bytes, 3);
    bytes.extend_from_slice(&[10, 20, 30]);
    let bytes = finish(bytes, &[]);
    let r = Parser::new(bytes).parse_save();
    assert!(matches!(r.unwrap_err(), SaveError::UnexpectedEof { .. }));
}

/// A numeric type id absent from the dictionary fails component decode.
#[test]
fn missing_type_mapping_detected() {
    let mut bytes = preamble(1, 0);
    push_i32(&mut bytes, 0);
    push_i32(&mut bytes, 1);
    push_u16(&mut bytes, 1);
    push_text(&mut bytes, "Test.Widget");
    push_u32(&mut bytes, 7);
    push_u32(&mut bytes, 0);
    push_u16(&mut bytes, 2);
    let r = Parser::new(bytes).parse_save();
    assert_eq!(r.unwrap_err(), SaveError::MissingTypeMapping(TypeKey::Id(2)));
}

/// A full save with components, a wire and a mod table survives a decode,
/// re-encode and re-decode unchanged; the wire keeps both of its pegs.
#[test]
fn full_save_round_trip() {
    let mut bytes = preamble(2, 1);
    push_i32(&mut bytes, 2);
    push_text(&mut bytes, "CoreMod");
    for v in [1, 0, 0, 9] {
        push_i32(&mut bytes, v);
    }
    push_text(&mut bytes, "ExtraMod");
    for v in [2, 1, 0, 0] {
        push_i32(&mut bytes, v);
    }
    push_i32(&mut bytes, 2);
    push_u16(&mut bytes, 1);
    push_text(&mut bytes, "MHG.Switch");
    push_u16(&mut bytes, 7);
    push_text(&mut bytes, "Test.Widget");

    push_u32(&mut bytes, 10);
    push_u32(&mut bytes, 0);
    push_u16(&mut bytes, 1);
    for v in [1, 2, 3] {
        push_i32(&mut bytes, v);
    }
    for b in [0.0f32, 0.5, -0.5, 1.0] {
        bytes.extend_from_slice(&b.to_le_bytes());
    }
    push_i32(&mut bytes, 1);
    push_i32(&mut bytes, 4);
    push_i32(&mut bytes, 1);
    push_i32(&mut bytes, 6);
    push_i32(&mut bytes, 4);
    bytes.extend_from_slice(&[1, 2, 3, 0]);

    push_u32(&mut bytes, 11);
    push_u32(&mut bytes, 10);
    push_u16(&mut bytes, 7);
    for v in [-1, -2, -3] {
        push_i32(&mut bytes, v);
    }
    for _ in 0..4 {
        push_u32(&mut bytes, 0);
    }
    push_i32(&mut bytes, 0);
    push_i32(&mut bytes, 0);
    push_i32(&mut bytes, 0);

    bytes.push(2);
    push_u32(&mut bytes, 10);
    push_i32(&mut bytes, 0);
    bytes.push(1);
    push_u32(&mut bytes, 11);
    push_i32(&mut bytes, 0);
    push_i32(&mut bytes, 9);
    bytes.extend_from_slice(&0.75f32.to_le_bytes());

    let bytes = finish(bytes, &[0b1010_0010, 0x01]);

    let save = Parser::new(bytes.clone()).parse_save().expect("decodes");
    assert_eq!(save.mod_versions.len(), 2);
    assert_eq!(save.components.len(), 2);
    assert_eq!(save.wires.len(), 1);
    assert_eq!(save.wires[0].start.type_, PegType::Output);
    assert_eq!(save.wires[0].start.component, 10);
    assert_eq!(save.wires[0].end.type_, PegType::Input);
    assert_eq!(save.wires[0].end.component, 11);
    assert_eq!(save.highest_state_id, 9);
    assert_eq!(save.highest_address, 11);
    assert_eq!(save.comp_map.get_id(7).unwrap(), b"Test.Widget".to_vec());
    assert_eq!(save.comp_map.get_name(&b"MHG.Switch".to_vec()).unwrap(), 1);

    let reencoded = Writer::new().write(save).expect("encodes");
    assert_eq!(reencoded, bytes);

    let save2 = Parser::new(reencoded.clone()).parse_save().expect("redecodes");
    let reencoded2 = Writer::new().write(save2).expect("re-encodes");
    assert_eq!(reencoded2, reencoded);
}

/// Negative record counts read as zero items.
#[test]
fn negative_counts_read_as_empty() {
    let mut bytes = preamble(-2, -7);
    push_i32(&mut bytes, -1);
    push_i32(&mut bytes, -3);
    let bytes = finish(bytes, &[]);
    let save = Parser::new(bytes).parse_save().expect("decodes");
    assert_eq!(save.components.len(), 0);
    assert_eq!(save.wires.len(), 0);
    assert_eq!(save.mod_versions.len(), 0);
    assert_eq!(save.comp_map.len(), 0);
}

/// A duplicated mod name keeps the last version seen.
#[test]
fn duplicate_mod_name_last_wins() {
    let mut bytes = preamble(0, 0);
    push_i32(&mut bytes, 2);
    push_text(&mut bytes, "CoreMod");
    for v in [1, 0, 0, 0] {
        push_i32(&mut bytes, v);
    }
    push_text(&mut bytes, "CoreMod");
    for v in [2, 0, 0, 0] {
        push_i32(&mut bytes, v);
    }
    push_i32(&mut bytes, 0);
    let bytes = finish(bytes, &[]);
    let save = Parser::new(bytes).parse_save().expect("decodes");
    assert_eq!(save.mod_versions.len(), 1);
    assert_eq!(save.mod_versions[0].0, b"CoreMod".to_vec());
    assert_eq!(save.mod_versions[0].1, logicworld_save::model::Version(2, 0, 0, 0));
}

#[test]
fn empty_input_is_truncation() {
    let r = Parser::new(Vec::new()).parse_save();
    assert_eq!(r.unwrap_err(), SaveError::UnexpectedEof { at: 0 });
}
