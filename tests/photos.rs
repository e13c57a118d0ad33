use xenon_tunnel::photofs::{file_to_num, folder_to_num, num_to_folder, parse_u16_bytes};

#[test]
fn folder_names() {
    assert_eq!(folder_to_num("100APPLE"), Some(0..1000));
    assert_eq!(folder_to_num(" 123APPLE\n"), Some(23000..24000));
    assert_eq!(folder_to_num("164APPLE"), Some(64000..65000));
    assert_eq!(folder_to_num("099APPLE"), None);
    assert_eq!(folder_to_num("165APPLE"), None);
    assert_eq!(folder_to_num("100APPL"), None);
    assert_eq!(folder_to_num("APPLE"), None);
    assert_eq!(folder_to_num("1x0APPLE"), None);
    assert_eq!(folder_to_num(".MISC"), None);
}

#[test]
fn file_names() {
    assert_eq!(file_to_num("IMG_0042.JPG"), Some(42));
    assert_eq!(file_to_num("  IMG_1234.HEIC "), Some(1234));
    assert_eq!(file_to_num("IMG_7"), Some(7));
    assert_eq!(file_to_num("IMG_65535.PNG"), Some(65535));
    assert_eq!(file_to_num("IMG_65536.PNG"), None);
    assert_eq!(file_to_num("IMG_.PNG"), None);
    assert_eq!(file_to_num("DSC_0042.JPG"), None);
    assert_eq!(file_to_num("IMG_12a.JPG"), None);
}

#[test]
fn folder_for_number() {
    assert_eq!(num_to_folder(0), "100APPLE");
    assert_eq!(num_to_folder(999), "100APPLE");
    assert_eq!(num_to_folder(1234), "101APPLE");
    assert_eq!(num_to_folder(65535), "165APPLE");
}

#[test]
fn parse_like_std() {
    for s in ["0", "+7", "65535", "65536", "", "+", "-1", "00012", "1 ", "99999999999"] {
        assert_eq!(parse_u16_bytes(s.as_bytes()), s.parse::<u16>().ok(), "{:?}", s);
    }
}
