use treasury::id::{scramble, treasury_epoch, AssetId, AssetIdContext, GenerateError,
    ParseAssetIdError, ID_MUL};

#[test]
fn scramble_of_one_is_the_multiplier() {
    assert_eq!(scramble(1), ID_MUL);
}

#[test]
fn scramble_wraps() {
    assert_eq!(scramble(2), ID_MUL.wrapping_mul(2));
}

#[test]
fn asset_id_zero_is_rejected() {
    assert!(AssetId::new(0).is_none());
    assert_eq!(AssetId::new(7).unwrap().value(), 7);
}

#[test]
fn asset_id_hex_round_trip() {
    let id = AssetId::new(0xdead_beef_0123_4567).unwrap();
    let hex = id.to_hex();
    assert_eq!(hex, "deadbeef01234567");
    let back = AssetId::from_str(&hex).unwrap();
    assert_eq!(back.value(), id.value());
}

#[test]
fn asset_id_hex_is_zero_padded() {
    let id = AssetId::new(1).unwrap();
    assert_eq!(id.to_hex(), "0000000000000001");
}

#[test]
fn asset_id_from_str_rejects_zero() {
    assert_eq!(AssetId::from_str("0"), Err(ParseAssetIdError::ZeroId));
    assert_eq!(AssetId::from_str("0000"), Err(ParseAssetIdError::ZeroId));
}

#[test]
fn asset_id_from_str_rejects_garbage() {
    assert_eq!(AssetId::from_str(""), Err(ParseAssetIdError::ParseIntError));
    assert_eq!(AssetId::from_str("xyz"), Err(ParseAssetIdError::ParseIntError));
    assert_eq!(
        AssetId::from_str("10000000000000000"),
        Err(ParseAssetIdError::ParseIntError)
    );
}

#[test]
fn asset_id_from_str_accepts_uppercase() {
    assert_eq!(AssetId::from_str("FF").unwrap().value(), 255);
}

#[test]
fn generator_ids_are_pairwise_distinct() {
    // Sequential calls from one generator never repeat an id, with the
    // clock advancing whenever a millisecond's counter is exhausted.
    let mut ctx = AssetIdContext::new(1000, 42);
    let mut now: u64 = 1000;
    let mut seen = std::collections::HashSet::new();
    let mut produced = 0u32;
    while produced < 20_000 {
        match ctx.generate(now) {
            Ok(id) => {
                assert!(id.value() != 0);
                assert!(seen.insert(id.value()), "duplicate id");
                produced += 1;
            }
            Err(GenerateError::Throttle) => {
                now += 1;
            }
            Err(e) => panic!("unexpected error: {:?}", e),
        }
    }
}

#[test]
fn generator_fails_when_clock_before_epoch() {
    // A generator whose epoch is "now": rewinding the clock past the epoch
    // makes generation fail.
    let mut ctx = AssetIdContext::new(5000, 1);
    assert_eq!(ctx.generate(4999), Err(GenerateError::EpochInFuture));
    assert!(ctx.generate(5000).is_ok());
}

#[test]
fn generator_fails_when_clock_rewound() {
    let mut ctx = AssetIdContext::new(0, 1);
    assert!(ctx.generate(100).is_ok());
    assert_eq!(ctx.generate(50), Err(GenerateError::TimeRewound));
}

#[test]
fn generators_with_distinct_nodes_are_disjoint() {
    let mut a = AssetIdContext::new(0, 1);
    let mut b = AssetIdContext::new(0, 2);
    let mut ids_a = std::collections::HashSet::new();
    let mut ids_b = std::collections::HashSet::new();
    let mut now: u64 = 10;
    for _ in 0..5000 {
        match a.generate(now) {
            Ok(id) => {
                ids_a.insert(id.value());
            }
            Err(_) => now += 1,
        }
        match b.generate(now) {
            Ok(id) => {
                ids_b.insert(id.value());
            }
            Err(_) => now += 1,
        }
    }
    assert!(ids_a.is_disjoint(&ids_b));
}

#[test]
fn treasury_epoch_is_wire_constant() {
    // 2021-01-01T00:00:00Z in milliseconds since the unix epoch.
    assert_eq!(treasury_epoch(), 1_609_459_200_000);
}
