use squeezed::discovery::{build_tlv_response, parse_requested_tags, reply, JSON, NAME, UUID, VERS};

#[test]
fn request_lists_tags() {
    assert_eq!(parse_requested_tags(b"NAME\0JSON\0"), vec![NAME, JSON]);
    assert_eq!(parse_requested_tags(b"NAME\x02abVERS\0"), vec![NAME, VERS]);
    // A value that runs past the end still has its tag.
    assert_eq!(parse_requested_tags(b"NAME\x09ab"), vec![NAME]);
    assert_eq!(parse_requested_tags(b"NAME"), Vec::<[u8; 4]>::new());
    assert_eq!(parse_requested_tags(b""), Vec::<[u8; 4]>::new());
}

#[test]
fn essentials_are_always_told() {
    assert_eq!(build_tlv_response(&[], "srv", "1.0", "9000"), b"ENAME\x03srvJSON\x049000");
    assert_eq!(
        build_tlv_response(&[JSON, VERS, UUID, JSON], "srv", "1.0", "9000"),
        b"EJSON\x049000VERS\x031.0UUID\x00NAME\x03srv"
    );
    assert_eq!(
        build_tlv_response(&[*b"XXXX", *b"JVID"], "", "1.0", "9"),
        b"EJVID\x00NAME\x00JSON\x019"
    );
}

#[test]
fn response_reads_back() {
    let out = build_tlv_response(&[VERS, NAME, VERS], "srv", "1.0", "9000");
    assert_eq!(parse_requested_tags(&out[1..]), vec![VERS, NAME, JSON]);
}

#[test]
fn long_name_is_cut_off() {
    let name = "n".repeat(300);
    let out = build_tlv_response(&[NAME], &name, "1.0", "9000");
    assert_eq!(out[5], 255);
    assert_eq!(&out[6..261], name[..255].as_bytes());
    assert_eq!(&out[261..265], b"JSON");
}

#[test]
fn datagrams_and_their_replies() {
    assert_eq!(
        reply(b"eNAME\0", "srv", "1.0", 9001),
        Some(b"ENAME\x03srvJSON\x049001".to_vec())
    );
    assert_eq!(reply(b"d", "srv", "1.0", 9000), Some(b"D".to_vec()));
    assert_eq!(reply(b"dxyz", "srv", "1.0", 9000), Some(b"D".to_vec()));
    assert_eq!(reply(b"x", "srv", "1.0", 9000), None);
    assert_eq!(reply(b"", "srv", "1.0", 9000), None);
}
