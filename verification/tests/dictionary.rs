use logicworld_save::decode::Parser;
use logicworld_save::model::CompMap;
use logicworld_save::model::SaveFile;

fn empty_world() -> SaveFile {
    let mut bytes = Vec::new();
    bytes.extend_from_slice(b"Logic World save");
    bytes.push(7);
    for _ in 0..4 {
        bytes.extend_from_slice(&0i32.to_le_bytes());
    }
    bytes.push(1);
    for _ in 0..5 {
        bytes.extend_from_slice(&0i32.to_le_bytes());
    }
    bytes.extend_from_slice(b"redstone sux lol");
    Parser::new(bytes).parse_save().expect("empty world decodes")
}

/// `ensure` of a missing name assigns one more than the greatest id in
/// use, never reusing an id even after unrelated insertions.
#[test]
fn ensure_assigns_strictly_greater_id() {
    let mut map = CompMap::with_capacity(0);
    map.insert(5, b"Alpha.One".to_vec());
    map.insert(3, b"Alpha.Two".to_vec());
    map.ensure(&b"Alpha.Three".to_vec());
    assert_eq!(map.get_name(&b"Alpha.Three".to_vec()).unwrap(), 6);
    map.ensure(&b"Alpha.Four".to_vec());
    assert_eq!(map.get_name(&b"Alpha.Four".to_vec()).unwrap(), 7);
}

/// `ensure` of a present name changes nothing.
#[test]
fn ensure_existing_name_is_untouched() {
    let mut map = CompMap::with_capacity(0);
    map.insert(5, b"Alpha.One".to_vec());
    map.ensure(&b"Alpha.One".to_vec());
    assert_eq!(map.len(), 1);
    assert_eq!(map.get_name(&b"Alpha.One".to_vec()).unwrap(), 5);
    assert_eq!(map.max_id(), 5);
}

/// `ensure` on an empty dictionary starts at 1.
#[test]
fn ensure_on_empty_starts_at_one() {
    let mut map = CompMap::with_capacity(0);
    map.ensure(&b"MHG.Button".to_vec());
    assert_eq!(map.get_name(&b"MHG.Button".to_vec()).unwrap(), 1);
}

/// Both lookup directions stay in lockstep through insertions.
#[test]
fn insert_keeps_directions_in_lockstep() {
    let mut map = CompMap::with_capacity(0);
    map.insert(1, b"Alpha.One".to_vec());
    map.insert(2, b"Alpha.Two".to_vec());
    assert_eq!(map.get_id(1).unwrap(), b"Alpha.One".to_vec());
    assert_eq!(map.get_id(2).unwrap(), b"Alpha.Two".to_vec());
    assert_eq!(map.get_name(&b"Alpha.One".to_vec()).unwrap(), 1);
    assert!(map.get_id(3).is_err());
    assert!(map.get_name(&b"Alpha.Three".to_vec()).is_err());

    map.insert(1, b"Alpha.Three".to_vec());
    assert_eq!(map.get_id(1).unwrap(), b"Alpha.Three".to_vec());
    assert!(map.get_name(&b"Alpha.One".to_vec()).is_err());
    assert_eq!(map.len(), 2);
}

/// Scenario: from a reset model, 100 state ids come out as 1..=100 and
/// leave the buffer exactly 13 bytes long; 100 addresses come out as
/// 2..=101.
#[test]
fn allocator_growth() {
    let mut save = empty_world();
    save.clear_out();
    assert_eq!(save.highest_state_id, 0);
    assert_eq!(save.highest_address, 1);
    assert_eq!(save.states.0.len(), 0);
    for expected in 1..=100 {
        assert_eq!(save.get_free_state_id(), expected);
    }
    assert_eq!(save.states.0.len(), 13);

    let mut save = empty_world();
    save.clear_out();
    for expected in 2..=101 {
        assert_eq!(save.get_free_address(), expected);
    }
    assert_eq!(save.highest_address, 101);
}

/// Reset keeps metadata but clears the world contents, the state
/// buffer included.
#[test]
fn clear_out_preserves_metadata() {
    let mut bytes = Vec::new();
    bytes.extend_from_slice(b"Logic World save");
    bytes.push(7);
    for v in [9i32, 8, 7, 6] {
        bytes.extend_from_slice(&v.to_le_bytes());
    }
    bytes.push(1);
    for v in [0i32, 0, 1] {
        bytes.extend_from_slice(&v.to_le_bytes());
    }
    bytes.extend_from_slice(&7i32.to_le_bytes());
    bytes.extend_from_slice(b"ModName");
    for v in [1i32, 2, 3, 4] {
        bytes.extend_from_slice(&v.to_le_bytes());
    }
    bytes.extend_from_slice(&1i32.to_le_bytes());
    bytes.extend_from_slice(&4u16.to_le_bytes());
    bytes.extend_from_slice(&6i32.to_le_bytes());
    bytes.extend_from_slice(b"Widget");
    bytes.extend_from_slice(&2i32.to_le_bytes());
    bytes.extend_from_slice(&[0xff, 0x0f]);
    bytes.extend_from_slice(b"redstone sux lol");

    let mut save = Parser::new(bytes).parse_save().expect("decodes");
    assert_eq!(save.comp_map.len(), 1);
    assert_eq!(save.states.0, vec![0xff, 0x0f]);
    save.clear_out();
    assert_eq!(save.game_version, logicworld_save::model::Version(9, 8, 7, 6));
    assert_eq!(save.mod_versions.len(), 1);
    assert_eq!(save.comp_map.len(), 0);
    assert_eq!(save.components.len(), 0);
    assert_eq!(save.wires.len(), 0);
    assert_eq!(save.states.0, Vec::<u8>::new());
    assert_eq!(save.highest_state_id, 0);
    assert_eq!(save.highest_address, 1);
}
