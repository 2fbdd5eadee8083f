use dairy_backend::codec::{decode_cow, encode_cow};
use dairy_backend::cow::{Cow, HerdError};
use dairy_backend::herd::Herd;

fn sample() -> Cow {
    Cow {
        id: 1,
        name: "Bo".to_string(),
        age: 0x0102,
        milk_produced: 10,
        health_status: "Ok".to_string(),
        created_at: 0x0A0B0C0D,
    }
}

#[test]
fn encoding_has_exact_layout() {
    let bytes = encode_cow(&sample());
    let mut expected: Vec<u8> = Vec::new();
    expected.extend_from_slice(&[1, 0, 0, 0, 0, 0, 0, 0]);
    expected.extend_from_slice(&[2, 1, 0, 0, 0, 0, 0, 0]);
    expected.extend_from_slice(&[10, 0, 0, 0, 0, 0, 0, 0]);
    expected.extend_from_slice(&[0x0D, 0x0C, 0x0B, 0x0A, 0, 0, 0, 0]);
    expected.extend_from_slice(&[2, 0, 0, 0, 0, 0, 0, 0]);
    expected.extend_from_slice(b"Bo");
    expected.extend_from_slice(&[2, 0, 0, 0, 0, 0, 0, 0]);
    expected.extend_from_slice(b"Ok");
    assert_eq!(bytes, expected);
}

#[test]
fn decode_inverts_encode() {
    let cows = [
        sample(),
        Cow {
            id: u64::MAX,
            name: "Blümchen 🐄".to_string(),
            age: u64::MAX,
            milk_produced: 0,
            health_status: String::new(),
            created_at: 123456789,
        },
    ];
    for c in cows {
        assert_eq!(decode_cow(&encode_cow(&c)), Some(c.clone()));
    }
}

#[test]
fn decode_reads_multibyte_text() {
    let mut bytes = encode_cow(&Cow {
        id: 7,
        name: String::new(),
        age: 1,
        milk_produced: 2,
        health_status: String::new(),
        created_at: 3,
    });
    // Rewrite the name as the two-byte character U+00E9.
    bytes.truncate(32);
    bytes.extend_from_slice(&[2, 0, 0, 0, 0, 0, 0, 0, 0xC3, 0xA9]);
    bytes.extend_from_slice(&[0, 0, 0, 0, 0, 0, 0, 0]);
    let c = decode_cow(&bytes).unwrap();
    assert_eq!(c.name, "\u{e9}");
    assert_eq!(c.id, 7);
    assert_eq!(c.created_at, 3);
}

#[test]
fn decode_rejects_malformed_bytes() {
    let good = encode_cow(&sample());
    assert_eq!(decode_cow(&good[..good.len() - 1]), None);
    assert_eq!(decode_cow(&good[..20]), None);
    assert_eq!(decode_cow(&[]), None);
    let mut longer = good.clone();
    longer.push(0);
    assert_eq!(decode_cow(&longer), None);
    let mut bad_utf8 = good.clone();
    bad_utf8[40] = 0xFF;
    assert_eq!(decode_cow(&bad_utf8), None);
    let mut bad_len = good.clone();
    bad_len[32] = 200;
    assert_eq!(decode_cow(&bad_len), None);
}

#[test]
fn stored_records_round_trip() {
    let mut h = Herd::new();
    h.add_cow("Molly".to_string(), 4, 11).unwrap();
    h.add_cow("Daisy".to_string(), 3, 12).unwrap();
    h.add_cow("Lily".to_string(), 2, 13).unwrap();
    h.record_milk_production(2, 9).unwrap();
    h.delete_cow(1).unwrap();
    let records = h.stored_records();
    assert_eq!(records.len(), 2);
    let back = Herd::from_stored(&records, h.last_id()).unwrap();
    assert_eq!(back.get_all_cows(), h.get_all_cows());
    assert_eq!(back.last_id(), 3);
}

#[test]
fn corrupt_stored_records_are_refused() {
    let mut h = Herd::new();
    h.add_cow("Molly".to_string(), 4, 0).unwrap();
    h.add_cow("Daisy".to_string(), 3, 0).unwrap();
    let mut records = h.stored_records();
    assert_eq!(Herd::from_stored(&records, 1).err(), Some(HerdError::StorageCorruption));
    records.swap(0, 1);
    assert_eq!(Herd::from_stored(&records, 2).err(), Some(HerdError::StorageCorruption));
    records[0].pop();
    records.swap(0, 1);
    assert_eq!(Herd::from_stored(&records, 2).err(), Some(HerdError::StorageCorruption));
}
