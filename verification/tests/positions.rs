use chestlog::Position;

#[test]
fn position_encode() {
    let data = Position { x: -846, y: 90, z: -964 };
    assert_eq!(data.as_i64(), -232540602368964);
}

#[test]
fn position_decode() {
    let data = Position { x: -846, y: 90, z: -964 };
    assert_eq!(Position::from_i64(-232540602368964), data);
}

#[test]
fn position_roundtrip_extremes() {
    let cases = [
        Position { x: 0, y: 0, z: 0 },
        Position { x: -0x200_0000, y: 0, z: -0x200_0000 },
        Position { x: 0x1FF_FFFF, y: 4095, z: 0x1FF_FFFF },
        Position { x: -1, y: 1, z: -1 },
        Position { x: 123456, y: 255, z: -654321 },
    ];
    for p in cases {
        assert_eq!(Position::from_i64(p.as_i64()), p);
    }
}

#[test]
fn unpack_then_pack_restores_any_value() {
    for v in [0i64, -1, 1, -232540602368964, i64::MAX, i64::MIN, 42, -0x4000_0000_0000] {
        assert_eq!(Position::from_i64(v).as_i64(), v);
    }
}

#[test]
fn position_zero_packs_to_zero() {
    assert_eq!(Position { x: 0, y: 0, z: 0 }.as_i64(), 0);
    assert_eq!(Position::from_i64(0), Position { x: 0, y: 0, z: 0 });
}
