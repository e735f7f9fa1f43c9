use vxapo_driver::guid::{
    format_guid, guid_from_bytes, guid_to_bytes, guid_to_string, is_zero_guid, parse_guid_from_bytes,
    parse_guid_string, GUID,
};

fn sample() -> GUID {
    GUID {
        data1: 0xC18E2F7E,
        data2: 0x933D,
        data3: 0x4965,
        data4: [0xB7, 0xD1, 0x1E, 0xEF, 0x22, 0x8D, 0x2A, 0xF3],
    }
}

#[test]
fn text_is_read_back() {
    let text = guid_to_string(&sample());
    assert_eq!(text, "{C18E2F7E-933D-4965-B7D1-1EEF228D2AF3}");
    assert_eq!(format_guid(&sample()), text);
    assert_eq!(parse_guid_string(&text), Some(sample()));
    assert_eq!(parse_guid_string(&text.to_lowercase()), Some(sample()));
}

#[test]
fn text_of_another_shape_is_refused() {
    assert_eq!(parse_guid_string(""), None);
    assert_eq!(parse_guid_string("{C18E2F7E-933D-4965-B7D1-1EEF228D2AF}"), None);
    assert_eq!(parse_guid_string("{C18E2F7E-933D-4965-B7D1-1EEF228D2AFG}"), None);
    assert_eq!(parse_guid_string("{C18E2F7E 933D-4965-B7D1-1EEF228D2AF3}"), None);
}

#[test]
fn bytes_are_read_back() {
    let bytes = guid_to_bytes(sample());
    assert_eq!(&bytes[..4], &[0x7E, 0x2F, 0x8E, 0xC1]);
    assert_eq!(guid_from_bytes(&bytes), Some(sample()));
    assert_eq!(parse_guid_from_bytes(&bytes), sample());
    assert_eq!(guid_from_bytes(&bytes[..15]), None);
    assert!(is_zero_guid(&GUID::zeroed()));
    assert!(!is_zero_guid(&sample()));
}
