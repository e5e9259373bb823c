use winrm::psrp::clixml::{
    create_pipeline_xml, extract_named_i32, extract_output_text, init_runspace_pool_xml,
    session_capability_xml, xml_escape, xml_unescape,
};
use winrm::psrp::protocol::{
    decode_message, encode_fragments, encode_one_fragment, encode_psrp_message, Reassembler,
    DEST_CLIENT, DEST_SERVER, FRAGMENT_HEADER_LEN, HEADER_LEN, MAX_FRAGMENT_PAYLOAD,
    MT_PIPELINE_OUTPUT, MT_SESSION_CAPABILITY,
};
use winrm::psrp::run::build_creation_fragments;
use winrm::uuid::Uuid;

fn uuid_of(text: &str) -> Uuid {
    Uuid { bytes: uuid::Uuid::parse_str(text).unwrap().into_bytes() }
}

#[test]
fn session_capability_has_protocol_version() {
    let xml = session_capability_xml();
    assert!(xml.contains("2.3"));
    assert!(xml.contains("<Version N=\"PSVersion\">"));
}

#[test]
fn session_capability_is_exact() {
    assert_eq!(
        session_capability_xml(),
        r#"<Obj RefId="0"><MS><Version N="PSVersion">2.0</Version><Version N="protocolversion">2.3</Version><Version N="SerializationVersion">1.1.0.1</Version></MS></Obj>"#
    );
}

#[test]
fn init_runspace_pool_asks_for_one_runspace() {
    let xml = init_runspace_pool_xml();
    assert_eq!(extract_named_i32(&xml, "MinRunspaces"), Some(1));
    assert_eq!(extract_named_i32(&xml, "MaxRunspaces"), Some(1));
    assert!(xml.starts_with("<Obj RefId=\"0\"><MS>"));
    assert!(xml.ends_with("</MS></Obj>"));
}

#[test]
fn create_pipeline_escapes_script() {
    let xml = create_pipeline_xml("Write-Output 'a<b&c'");
    assert!(xml.contains("&lt;"));
    assert!(xml.contains("&amp;"));
}

#[test]
fn create_pipeline_holds_script_once_between_head_and_tail() {
    let xml = create_pipeline_xml("whoami");
    let blank = create_pipeline_xml("");
    let at = xml.find("whoami").unwrap();
    assert_eq!(format!("{}{}", &xml[..at], &xml[at + 6..]), blank);
    assert!(xml[at..].starts_with("whoami</S>"));
}

#[test]
fn encode_decode_message_roundtrip() {
    let rpid = uuid_of("11112222-3333-4444-5555-666677778888");
    let bytes = encode_psrp_message(
        DEST_SERVER,
        MT_SESSION_CAPABILITY,
        rpid,
        Uuid::nil(),
        "<Obj/>",
    );
    let msg = decode_message(&bytes).unwrap();
    assert_eq!(msg.message_type, MT_SESSION_CAPABILITY);
    assert_eq!(msg.data, "<Obj/>");
}

#[test]
fn encoded_message_is_exact() {
    let rpid = uuid_of("11112222-3333-4444-5555-666677778888");
    let pid = uuid_of("00010203-0405-0607-0809-0a0b0c0d0e0f");
    let bytes = encode_psrp_message(DEST_CLIENT, 0x0004_1004, rpid, pid, "é");
    let mut expected = vec![1, 0, 0, 0, 0x04, 0x10, 0x04, 0x00];
    expected.extend_from_slice(&[
        0x22, 0x22, 0x11, 0x11, 0x33, 0x33, 0x44, 0x44, 0x55, 0x55, 0x66, 0x66, 0x77, 0x77, 0x88,
        0x88,
    ]);
    expected.extend_from_slice(&[3, 2, 1, 0, 5, 4, 7, 6, 8, 9, 10, 11, 12, 13, 14, 15]);
    expected.extend_from_slice(&[0xc3, 0xa9]);
    assert_eq!(bytes, expected);
    assert_eq!(bytes.len(), HEADER_LEN + 2);
}

#[test]
fn decode_strips_one_byte_order_mark() {
    let bytes = encode_psrp_message(
        DEST_CLIENT,
        MT_PIPELINE_OUTPUT,
        Uuid::nil(),
        Uuid::nil(),
        "\u{feff}\u{feff}x",
    );
    assert_eq!(decode_message(&bytes).unwrap().data, "\u{feff}x");
}

#[test]
fn decode_rejects_short_message() {
    let err = decode_message(&[0; 39]).unwrap_err();
    assert_eq!(err.message(), "PSRP protocol error: message too short: 39 bytes");
    assert_eq!(decode_message(&[0; 40]).unwrap().data, "");
}

#[test]
fn decode_rejects_invalid_utf8() {
    let mut bytes = vec![0; HEADER_LEN];
    bytes.extend_from_slice(&[0x61, 0xff]);
    let expected = String::from_utf8(vec![0x61, 0xff]).unwrap_err().to_string();
    assert_eq!(
        decode_message(&bytes).unwrap_err().message(),
        format!("PSRP protocol error: invalid UTF-8 in PSRP body: {expected}")
    );
}

#[test]
fn one_fragment_is_exact() {
    let bytes = encode_one_fragment(0x0102, 7, true, false, &[0xaa, 0xbb]);
    assert_eq!(
        bytes,
        vec![0, 0, 0, 0, 0, 0, 1, 2, 0, 0, 0, 0, 0, 0, 0, 7, 1, 0, 0, 0, 2, 0xaa, 0xbb]
    );
    assert_eq!(encode_one_fragment(1, 0, false, true, &[])[16], 2);
    assert_eq!(encode_one_fragment(1, 0, true, true, &[])[16], 3);
    assert_eq!(encode_one_fragment(1, 0, false, false, &[])[16], 0);
}

#[test]
fn fragment_reassemble_single() {
    let payload = encode_psrp_message(
        DEST_SERVER,
        MT_PIPELINE_OUTPUT,
        Uuid::nil(),
        Uuid::nil(),
        r#"<S>hello</S>"#,
    );
    let frag = encode_fragments(1, &payload);
    let mut r = Reassembler::new();
    let msgs = r.feed(&frag).unwrap();
    assert_eq!(msgs.len(), 1);
    assert_eq!(msgs[0].message_type, MT_PIPELINE_OUTPUT);
    assert_eq!(extract_output_text(&msgs[0].data), "hello");
}

#[test]
fn empty_payload_is_one_fragment() {
    let frag = encode_fragments(5, &[]);
    assert_eq!(frag.len(), FRAGMENT_HEADER_LEN);
    assert_eq!(frag[16], 3);
}

#[test]
fn long_payload_is_split_and_reassembled_byte_by_byte() {
    let body = "x".repeat(2 * MAX_FRAGMENT_PAYLOAD);
    let payload =
        encode_psrp_message(DEST_CLIENT, MT_PIPELINE_OUTPUT, Uuid::nil(), Uuid::nil(), &body);
    let frag = encode_fragments(9, &payload);
    assert_eq!(frag.len(), payload.len() + 3 * FRAGMENT_HEADER_LEN);
    let mut r = Reassembler::new();
    let mut seen = Vec::new();
    for chunk in frag.chunks(1) {
        seen.extend(r.feed(chunk).unwrap());
    }
    assert_eq!(seen.len(), 1);
    assert_eq!(seen[0].data, body);
}

#[test]
fn interleaved_objects_are_independent() {
    let message = |text: &str| {
        encode_psrp_message(DEST_CLIENT, MT_PIPELINE_OUTPUT, Uuid::nil(), Uuid::nil(), text)
    };
    let (a, b) = (message("a"), message("b"));
    let mut stream = encode_one_fragment(1, 0, true, false, &a[..20]);
    stream.extend(encode_one_fragment(2, 0, true, false, &b[..30]));
    stream.extend(encode_one_fragment(1, 1, false, true, &a[20..]));
    stream.extend(encode_one_fragment(2, 1, false, true, &b[30..]));
    let msgs = Reassembler::new().feed(&stream).unwrap();
    assert_eq!(msgs.len(), 2);
    assert_eq!(msgs[0].data, "a");
    assert_eq!(msgs[1].data, "b");
}

#[test]
fn fragment_out_of_order_is_an_error() {
    let mut stream = encode_one_fragment(1, 0, true, false, &[1]);
    stream.extend(encode_one_fragment(1, 2, false, false, &[2]));
    let err = Reassembler::new().feed(&stream).unwrap_err();
    assert_eq!(
        err.message(),
        "PSRP protocol error: fragment id mismatch: got 2, expected 1"
    );
}

#[test]
fn feed_fails_on_disorder_before_undecodable_payloads() {
    let mut stream = encode_fragments(7, &[0; 39]);
    assert_eq!(
        Reassembler::new().feed(&stream).unwrap_err().message(),
        "PSRP protocol error: message too short: 39 bytes"
    );
    stream.extend(encode_one_fragment(1, 3, true, false, &[1]));
    assert_eq!(
        Reassembler::new().feed(&stream).unwrap_err().message(),
        "PSRP protocol error: fragment id mismatch: got 3, expected 0"
    );
}

#[test]
fn fragment_without_start_is_ignored() {
    let mut r = Reassembler::new();
    assert!(r.feed(&encode_one_fragment(1, 4, false, true, &[1])).unwrap().is_empty());
    let message =
        encode_psrp_message(DEST_CLIENT, MT_PIPELINE_OUTPUT, Uuid::nil(), Uuid::nil(), "x");
    assert_eq!(r.feed(&encode_fragments(2, &message)).unwrap().len(), 1);
}

#[test]
fn creation_fragments_nonempty() {
    let bytes = build_creation_fragments(Uuid::new_v4()).unwrap();
    assert!(bytes.len() > FRAGMENT_HEADER_LEN * 2);
    assert_eq!(&bytes[0..8], &1u64.to_be_bytes());
}

#[test]
fn creation_fragments_are_read_back() {
    let bytes = build_creation_fragments(uuid_of("11112222-3333-4444-5555-666677778888")).unwrap();
    let msgs = Reassembler::new().feed(&bytes).unwrap();
    assert_eq!(msgs.len(), 2);
    assert_eq!(msgs[0].message_type, 0x0001_0002);
    assert_eq!(msgs[0].data, session_capability_xml());
    assert_eq!(msgs[1].message_type, 0x0001_0004);
    assert_eq!(msgs[1].data, init_runspace_pool_xml());
}

#[test]
fn extract_named_i32_pipeline_state() {
    let xml = r#"<Obj><MS><I32 N="PipelineState">4</I32></MS></Obj>"#;
    assert_eq!(extract_named_i32(xml, "PipelineState"), Some(4));
}

#[test]
fn extract_named_i32_edge_cases() {
    assert_eq!(extract_named_i32(r#"<I32 N="A">-12</I32>"#, "A"), Some(-12));
    assert_eq!(extract_named_i32(r#"<I32 N="A"> 7 </I32>"#, "A"), Some(7));
    assert_eq!(extract_named_i32(r#"<I32 N="A">+7</I32>"#, "A"), Some(7));
    assert_eq!(extract_named_i32(r#"<I32 N="A">2147483647</I32>"#, "A"), Some(i32::MAX));
    assert_eq!(extract_named_i32(r#"<I32 N="A">2147483648</I32>"#, "A"), None);
    assert_eq!(extract_named_i32(r#"<I32 N="A">-2147483648</I32>"#, "A"), Some(i32::MIN));
    assert_eq!(extract_named_i32(r#"<I32 N="A">x</I32>"#, "A"), None);
    assert_eq!(extract_named_i32(r#"<I32 N="A"></I32>"#, "A"), None);
    assert_eq!(extract_named_i32(r#"<I32 N="B">1</I32>"#, "A"), None);
    assert_eq!(extract_named_i32(r#"<I32 N="a>b">1</I32>"#, "a>b"), Some(1));
    assert_eq!(extract_named_i32(r#"<I32 RefId="0" N="A">1</I32>"#, "A"), Some(1));
}

#[test]
fn quoted_values_end_no_tag() {
    assert_eq!(extract_named_i32(r#"<I32 X="a>b" N="A">5</I32>"#, "A"), Some(5));
    assert_eq!(extract_named_i32(r#"<I32 X='a>"b' N="A">5</I32>"#, "A"), Some(5));
    assert_eq!(extract_named_i32(r#"<I32 N="A" X="a>b">5</I32>"#, "A"), Some(5));
    assert_eq!(extract_named_i32(r#"<I32 X="a>b"/><I32 N="A">5</I32>"#, "A"), Some(5));
    assert_eq!(extract_named_i32(r#"<I32 X="a>b">1</I32><S N="A">4</S>"#, "A"), None);
    assert_eq!(extract_named_i32(r#"<I32 it's N="A">5</I32>"#, "A"), Some(5));
    assert_eq!(extract_named_i32(r#"<I32 N="a"b">5</I32>"#, "a\"b"), Some(5));
    assert_eq!(extract_named_i32(r#"x<I32 '<I32 N="A">5</I32>'>6<"#, "A"), Some(5));
    assert_eq!(extract_output_text(r#"<S N="a>b">x</S><S N='/>'>y</S>"#), "x\ny");
    assert_eq!(extract_output_text(r#"<S N="a>x</S>"#), "x");
}

#[test]
fn only_i32_elements_are_read() {
    assert_eq!(extract_named_i32(r#"<S N="PipelineState">4</S>"#, "PipelineState"), None);
    assert_eq!(extract_named_i32(r#"<I64 N="A">4</I64>"#, "A"), None);
    assert_eq!(extract_named_i32(r#"<I32X N="A">4</I32X>"#, "A"), None);
    assert_eq!(extract_named_i32(r#"<I32 N="A"/><S>4</S>"#, "A"), None);
    assert_eq!(extract_named_i32(r#"<I32>1</I32><S N="A">4</S>"#, "A"), None);
    assert_eq!(extract_named_i32(r#"<S N="A">4</S><I32 N="B">1</I32><I32 N="A">5</I32>"#, "A"), Some(5));
}

#[test]
fn output_text_prefers_strings() {
    assert_eq!(extract_output_text("<S>a</S><S N=\"x\">b&amp;c</S>"), "a\nb&c");
    assert_eq!(extract_output_text("<S/><S></S><S>x</S>"), "x");
    assert_eq!(extract_output_text("<Obj><ToString>shown</ToString></Obj>"), "shown");
    assert_eq!(extract_output_text("<Obj><ToString>None</ToString></Obj>"), "None");
    assert_eq!(extract_output_text("<S>a</S><ToString>b</ToString>"), "a");
    assert_eq!(extract_output_text("<I32>4</I32>"), "4");
    assert_eq!(extract_output_text("<SB>5</SB><S>x</S>"), "x");
    assert_eq!(extract_output_text("<SB>5</SB>"), "5");
    assert_eq!(extract_output_text("<S\tN=\"a\">x</S><S />"), "x");
    assert_eq!(extract_output_text(""), "");
}

#[test]
fn escaping_is_exact() {
    assert_eq!(xml_escape("a<b>&\"'c"), "a&lt;b&gt;&amp;&quot;&apos;c");
    assert_eq!(xml_escape("\t\n\r"), "\t\n\r");
    assert_eq!(xml_escape("\u{1}\u{1f}"), "_x0001__x001F_");
}

#[test]
fn unescape_undoes_escape() {
    for text in ["", "plain", "a<b>&c", "\"quoted\" 'text'", "é漢\u{1f600}", "&amp;lt;"] {
        assert_eq!(xml_unescape(&xml_escape(text)), text);
    }
    assert_eq!(xml_unescape("&amp;quot;"), "\"");
}

#[test]
fn protocol_module_is_in_tree_not_separate_crate() {
    let framed = winrm::psrp::protocol::encode_fragments(1, &[0; 40]);
    let msgs = winrm::psrp::protocol::Reassembler::new().feed(&framed).unwrap();
    assert_eq!(msgs.len(), 1);
    assert_eq!(msgs[0].data, "");
}
