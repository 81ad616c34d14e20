use klyx_extension::Version;
use klyx_extension::extension_builder::{
    ParseExtensionVersionError, StripError, StripErrorKind, VersionErrorKind, parse_wasm_extension_version,
    parse_wasm_extension_version_custom_section, strip_custom_sections,
};

const COMPONENT_HEADER: [u8; 8] = [0x00, 0x61, 0x73, 0x6d, 0x0d, 0x00, 0x01, 0x00];
const MODULE_HEADER: [u8; 8] = [0x00, 0x61, 0x73, 0x6d, 0x01, 0x00, 0x00, 0x00];

fn leb(mut v: usize, out: &mut Vec<u8>) {
    loop {
        let b = (v & 0x7f) as u8;
        v >>= 7;
        if v == 0 {
            out.push(b);
            break;
        }
        out.push(b | 0x80);
    }
}

fn section(id: u8, contents: &[u8]) -> Vec<u8> {
    let mut s = vec![id];
    leb(contents.len(), &mut s);
    s.extend_from_slice(contents);
    s
}

fn custom(name: &str, data: &[u8]) -> Vec<u8> {
    let mut c = Vec::new();
    leb(name.len(), &mut c);
    c.extend_from_slice(name.as_bytes());
    c.extend_from_slice(data);
    section(0, &c)
}

fn component(sections: &[Vec<u8>]) -> Vec<u8> {
    let mut b = COMPONENT_HEADER.to_vec();
    for s in sections {
        b.extend_from_slice(s);
    }
    b
}

const VERSION_1_3_6: [u8; 6] = [0, 1, 0, 3, 0, 6];

#[test]
fn version_section_of_six_bytes() {
    let b = component(&[custom("klyx:api-version", &VERSION_1_3_6)]);
    assert_eq!(
        parse_wasm_extension_version("ext", &b),
        Ok(Version { major: 1, minor: 3, patch: 6 })
    );
}

#[test]
fn version_section_of_five_bytes_is_invalid() {
    let b = component(&[custom("klyx:api-version", &[0, 1, 0, 3, 0])]);
    assert_eq!(
        parse_wasm_extension_version("ext", &b),
        Err(ParseExtensionVersionError { kind: VersionErrorKind::InvalidVersion })
    );
}

#[test]
fn missing_version_section() {
    let b = component(&[custom("other", &[1, 2, 3])]);
    assert_eq!(
        parse_wasm_extension_version("ext", &b),
        Err(ParseExtensionVersionError { kind: VersionErrorKind::MissingVersion })
    );
}

#[test]
fn malformed_binary() {
    let mut b = component(&[custom("klyx:api-version", &VERSION_1_3_6)]);
    b.extend_from_slice(&[0x00, 0x7f]);
    assert_eq!(
        parse_wasm_extension_version("ext", &b),
        Err(ParseExtensionVersionError { kind: VersionErrorKind::Malformed })
    );
    assert_eq!(strip_custom_sections(&b), Err(StripError { kind: StripErrorKind::Malformed }));
    assert_eq!(
        parse_wasm_extension_version("ext", &[1, 2, 3]),
        Err(ParseExtensionVersionError { kind: VersionErrorKind::Malformed })
    );
}

#[test]
fn big_endian_fields() {
    assert_eq!(
        parse_wasm_extension_version_custom_section(&[0x01, 0x02, 0xff, 0xff, 0x00, 0x10]),
        Some(Version { major: 258, minor: 65535, patch: 16 })
    );
    assert_eq!(parse_wasm_extension_version_custom_section(&[0, 1, 0, 3, 0]), None);
    assert_eq!(Version { major: 1, minor: 3, patch: 6 }.to_string(), "1.3.6");
}

#[test]
fn strip_drops_other_custom_sections() {
    let b = component(&[
        custom("producers", &[9, 9]),
        custom("name", &[1]),
        custom("component-type:x", &[2]),
        custom("dylink.0", &[3]),
        custom("klyx:api-version", &VERSION_1_3_6),
    ]);
    let expected = component(&[
        custom("name", &[1]),
        custom("component-type:x", &[2]),
        custom("dylink.0", &[3]),
        custom("klyx:api-version", &VERSION_1_3_6),
    ]);
    assert_eq!(strip_custom_sections(&b).unwrap(), expected);
}

#[test]
fn strip_keeps_nesting() {
    let mut inner = MODULE_HEADER.to_vec();
    inner.extend_from_slice(&custom("bar", &[7, 7, 7]));
    let b = component(&[section(1, &inner), custom("klyx:api-version", &VERSION_1_3_6)]);
    let expected = component(&[
        section(1, &MODULE_HEADER),
        custom("klyx:api-version", &VERSION_1_3_6),
    ]);
    assert_eq!(strip_custom_sections(&b).unwrap(), expected);
}

#[test]
fn strip_keeps_the_version_and_is_idempotent() {
    let b = component(&[custom("junk", &[0; 40]), custom("klyx:api-version", &VERSION_1_3_6)]);
    let once = strip_custom_sections(&b).unwrap();
    assert!(once.len() < b.len());
    assert_eq!(
        parse_wasm_extension_version("ext", &once),
        parse_wasm_extension_version("ext", &b)
    );
    assert_eq!(strip_custom_sections(&once).unwrap(), once);
}

#[test]
fn truncated_code_section_is_malformed() {
    let mut b = MODULE_HEADER.to_vec();
    b.extend_from_slice(&[0x0a, 0x10, 0x00]);
    assert_eq!(strip_custom_sections(&b), Err(StripError { kind: StripErrorKind::Malformed }));
    assert_eq!(
        parse_wasm_extension_version("ext", &b),
        Err(ParseExtensionVersionError { kind: VersionErrorKind::Malformed })
    );
}
