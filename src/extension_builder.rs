//! Reading the API version out of a component binary, and stripping the
//! custom sections that compiled artifacts do not need.
use vstd::prelude::*;
use wasmparser::Encoding as E;
use wasmparser::Parser;
use wasmparser::Payload as W;
use crate::Version;
use crate::text::{chars_of, has_prefix, same_chars};

verus! {

/// One payload of a component binary, as the parser reports it.
#[derive(Debug, Clone, Copy, PartialEq, Eq, Structural)]
pub enum PayloadItem {
    /// The header of a module or component (true for a component).
    Header(bool),
    /// The start of a nested module or component section.
    Nested,
    /// The end of the current module or component.
    End,
    /// A section: its id and the range of its contents in the input.
    Section(u8, u64, u64),
    /// A payload that is no section of its own.
    Other,
}

/// The payloads that the parser reads from `bytes` before it stops, and
/// whether it read them all without an error.
pub uninterp spec fn wasm_payloads(bytes: Seq<u8>) -> (Seq<PayloadItem>, bool);

/// The name and data of a custom section, read from its contents.
pub uninterp spec fn custom_section_parts(raw: Seq<u8>) -> Option<(Seq<char>, Seq<u8>)>;

/// Relies on `wasmparser::Parser::parse_all`: its payloads in order, each
/// section with the range of its contents as the parser reports it (for a
/// code section, before its contents are read).
#[verifier::external_body]
fn read_payloads(bytes: &[u8]) -> (r: (Vec<PayloadItem>, bool))
    ensures
        r.0@ == wasm_payloads(bytes@).0,
        r.1 == wasm_payloads(bytes@).1,
{
    let mut items = Vec::new();
    for p in Parser::new(0).parse_all(bytes) {
        let Ok(p) = p else { return (items, false) };
        items.push(match (&p, p.as_section()) {
            (W::Version { encoding, .. }, _) => PayloadItem::Header(*encoding == E::Component),
            (W::ModuleSection { .. } | W::ComponentSection { .. }, _) => PayloadItem::Nested,
            (W::End(_), _) => PayloadItem::End,
            (_, Some((id, r))) => PayloadItem::Section(id, r.start, r.end),
            _ => PayloadItem::Other,
        });
    }
    (items, true)
}

/// Relies on `wasmparser::CustomSectionReader::new`: the name and the data
/// of a custom section's contents.
#[verifier::external_body]
fn read_custom_section(raw: &[u8]) -> (r: Option<(String, Vec<u8>)>)
    ensures
        match r {
            Some(p) => custom_section_parts(raw@) == Some((p.0@, p.1@)),
            None => custom_section_parts(raw@) is None,
        },
{
    let c = wasmparser::CustomSectionReader::new(wasmparser::BinaryReader::new(raw, 0)).ok()?;
    Some((c.name().to_string(), c.data().to_vec()))
}

/// Unsigned LEB128, as the binary format writes lengths.
pub open spec fn leb128(v: nat) -> Seq<u8>
    decreases v,
{
    if v < 128 {
        seq![v as u8]
    } else {
        seq![(v % 128 + 128) as u8] + leb128(v / 128)
    }
}

/// Relies on `wasm_encoder::Encode` for `[u8]`: the length in LEB128, then
/// the bytes. It panics above `u32::MAX` bytes.
#[verifier::external_body]
fn encode_bytes(sink: &mut Vec<u8>, data: &[u8])
    requires
        data@.len() <= u32::MAX,
    ensures
        final(sink)@ == old(sink)@ + leb128(data@.len()) + data@,
{
    wasm_encoder::Encode::encode(data, sink)
}

pub open spec fn component_header_bytes() -> Seq<u8> {
    seq![0x00u8, 0x61, 0x73, 0x6d, 0x0d, 0x00, 0x01, 0x00]
}

pub open spec fn module_header_bytes() -> Seq<u8> {
    seq![0x00u8, 0x61, 0x73, 0x6d, 0x01, 0x00, 0x00, 0x00]
}

/// Relies on `wasm_encoder::Component::HEADER`.
#[verifier::external_body]
fn component_header() -> (r: Vec<u8>)
    ensures
        r@ == component_header_bytes(),
{
    wasm_encoder::Component::HEADER.to_vec()
}

/// Relies on `wasm_encoder::Module::HEADER`.
#[verifier::external_body]
fn module_header() -> (r: Vec<u8>)
    ensures
        r@ == module_header_bytes(),
{
    wasm_encoder::Module::HEADER.to_vec()
}

/// Relies on `wasm_encoder::ComponentSectionId::Component`.
#[verifier::external_body]
fn component_section_id() -> (r: u8)
    ensures
        r == 4,
{
    wasm_encoder::ComponentSectionId::Component as u8
}

/// Relies on `wasm_encoder::ComponentSectionId::CoreModule`.
#[verifier::external_body]
fn core_module_section_id() -> (r: u8)
    ensures
        r == 1,
{
    wasm_encoder::ComponentSectionId::CoreModule as u8
}

/// The id of custom sections.
pub const CUSTOM_SECTION_ID: u8 = 0;

/// The custom section that holds the API version.
pub open spec fn version_section_name() -> Seq<char> {
    "klyx:api-version"@
}

/// Whether stripping keeps a custom section of this name: `name`, any
/// `component-type:` section, `dylink.0` and the API version.
pub open spec fn keeps_custom_section(name: Seq<char>) -> bool {
    name == "name"@ || has_prefix(name, "component-type:"@) || name == "dylink.0"@ || name
        == version_section_name()
}

fn text_is(cs: &Vec<char>, lit: &str) -> (r: bool)
    ensures
        r == (cs@ == lit@),
{
    let l = chars_of(lit);
    same_chars(cs, &l)
}

fn keeps_custom_section_exec(name: &String) -> (r: bool)
    ensures
        r == keeps_custom_section(name@),
{
    let cs = chars_of(name.as_str());
    let prefix = chars_of("component-type:");
    let mut has = false;
    if prefix.len() <= cs.len() {
        let mut head: Vec<char> = Vec::new();
        let mut i: usize = 0;
        while i < prefix.len()
            invariant
                i <= prefix.len() <= cs.len(),
                head@ == cs@.take(i as int),
            decreases prefix.len() - i,
        {
            head.push(cs[i]);
            i += 1;
            assert(head@ =~= cs@.take(i as int));
        }
        has = same_chars(&head, &prefix);
    }
    text_is(&cs, "name") || has || text_is(&cs, "dylink.0") || text_is(&cs, "klyx:api-version")
}

/// Whether `name` is that of the API version section.
fn is_version_section(name: &String) -> (r: bool)
    ensures
        r == (name@ == version_section_name()),
{
    let cs = chars_of(name.as_str());
    text_is(&cs, "klyx:api-version")
}

/// Why the API version could not be read.
#[derive(Debug, Clone, Copy, PartialEq, Eq, Structural)]
pub struct ParseExtensionVersionError {
    pub kind: VersionErrorKind,
}

/// The kinds of failure to read the API version.
#[derive(Debug, Clone, Copy, PartialEq, Eq, Structural)]
pub enum VersionErrorKind {
    /// The binary could not be parsed.
    Malformed,
    /// The version section does not hold exactly six bytes.
    InvalidVersion,
    /// There is no version section.
    MissingVersion,
}

/// The version that six bytes hold: three big-endian 16-bit fields.
pub open spec fn decode_version(d: Seq<u8>) -> Version {
    Version {
        major: (d[0] * 256 + d[1]) as u64,
        minor: (d[2] * 256 + d[3]) as u64,
        patch: (d[4] * 256 + d[5]) as u64,
    }
}

/// What a version section with contents `data` gives.
pub open spec fn version_of_section(data: Seq<u8>) -> Option<Version> {
    if data.len() == 6 {
        Some(decode_version(data))
    } else {
        None
    }
}

/// Whether a reported range lies in the input.
pub open spec fn in_bounds(a: u64, b: u64, bytes: Seq<u8>) -> bool {
    a <= b <= bytes.len()
}

/// One payload applied to the version read so far. A custom section whose
/// range leaves the input counts as malformed.
pub open spec fn version_step(
    bytes: Seq<u8>,
    acc: Result<Option<Version>, ParseExtensionVersionError>,
    item: PayloadItem,
) -> Result<Option<Version>, ParseExtensionVersionError> {
    match acc {
        Err(e) => Err(e),
        Ok(v) => match item {
            PayloadItem::Section(id, a, b) => if id == CUSTOM_SECTION_ID && !in_bounds(a, b, bytes) {
                Err(ParseExtensionVersionError { kind: VersionErrorKind::Malformed })
            } else if id == CUSTOM_SECTION_ID {
                match custom_section_parts(bytes.subrange(a as int, b as int)) {
                    Some((name, data)) => if name == version_section_name() {
                        match version_of_section(data) {
                            Some(found) => Ok(Some(found)),
                            None => Err(ParseExtensionVersionError { kind: VersionErrorKind::InvalidVersion }),
                        }
                    } else {
                        Ok(v)
                    },
                    None => Ok(v),
                }
            } else {
                Ok(v)
            },
            _ => Ok(v),
        },
    }
}

pub open spec fn version_scan(bytes: Seq<u8>, items: Seq<PayloadItem>) -> Result<
    Option<Version>,
    ParseExtensionVersionError,
>
    decreases items.len(),
{
    if items.len() == 0 {
        Ok(None)
    } else {
        version_step(bytes, version_scan(bytes, items.drop_last()), items.last())
    }
}

/// The API version that a component binary declares: the last version
/// section wins; every payload is read before a version is returned.
pub open spec fn extension_version(bytes: Seq<u8>) -> Result<Version, ParseExtensionVersionError> {
    let (items, complete) = wasm_payloads(bytes);
    match version_scan(bytes, items) {
        Err(e) => Err(e),
        Ok(v) => if !complete {
            Err(ParseExtensionVersionError { kind: VersionErrorKind::Malformed })
        } else {
            match v {
                Some(found) => Ok(found),
                None => Err(ParseExtensionVersionError { kind: VersionErrorKind::MissingVersion }),
            }
        },
    }
}

/// Reads a version section's contents: six bytes, three big-endian fields.
pub fn parse_wasm_extension_version_custom_section(data: &[u8]) -> (r: Option<Version>)
    ensures
        r == version_of_section(data@),
{
    if data.len() == 6 {
        Some(
            Version {
                major: (data[0] as u64) * 256 + data[1] as u64,
                minor: (data[2] as u64) * 256 + data[3] as u64,
                patch: (data[4] as u64) * 256 + data[5] as u64,
            },
        )
    } else {
        None
    }
}

fn slice_of(bytes: &[u8], a: u64, b: u64) -> (r: Vec<u8>)
    requires
        a <= b <= bytes@.len(),
    ensures
        r@ == bytes@.subrange(a as int, b as int),
{
    let n = bytes.len();
    assert(a <= n);
    let mut r: Vec<u8> = Vec::new();
    let mut i: usize = a as usize;
    let end: usize = b as usize;
    assert(r@ =~= bytes@.subrange(a as int, i as int));
    while i < end
        invariant
            a <= i <= end == b <= bytes@.len(),
            r@ == bytes@.subrange(a as int, i as int),
        decreases end - i,
    {
        r.push(bytes[i]);
        i += 1;
        assert(r@ =~= bytes@.subrange(a as int, i as int));
    }
    r
}

/// Reads the API version of a component binary. `extension_id` names the
/// extension in the errors that callers report.
pub fn parse_wasm_extension_version(extension_id: &str, wasm_bytes: &[u8]) -> (r: Result<
    Version,
    ParseExtensionVersionError,
>)
    ensures
        r == extension_version(wasm_bytes@),
{
    let (items, complete) = read_payloads(wasm_bytes);
    let mut version: Option<Version> = None;
    let mut i: usize = 0;
    assert(items@.take(0) =~= Seq::<PayloadItem>::empty());
    while i < items.len()
        invariant
            i <= items.len(),
            items@ == wasm_payloads(wasm_bytes@).0,
            version_scan(wasm_bytes@, items@.take(i as int)) == Ok::<
                Option<Version>,
                ParseExtensionVersionError,
            >(version),
        decreases items.len() - i,
    {
        let item = items[i];
        assert(items@.take(i + 1).drop_last() =~= items@.take(i as int));
        assert(items@.take(i + 1).last() == items@[i as int]);
        if let PayloadItem::Section(id, a, b) = item {
            if id == CUSTOM_SECTION_ID && !(a <= b && b <= wasm_bytes.len() as u64) {
                proof {
                    lemma_version_scan_err(wasm_bytes@, items@, (i + 1) as int);
                }
                return Err(ParseExtensionVersionError { kind: VersionErrorKind::Malformed });
            }
            if id == CUSTOM_SECTION_ID {
                let raw = slice_of(wasm_bytes, a, b);
                if let Some((name, data)) = read_custom_section(raw.as_slice()) {
                    if is_version_section(&name) {
                        match parse_wasm_extension_version_custom_section(data.as_slice()) {
                            Some(found) => {
                                version = Some(found);
                            },
                            None => {
                                proof {
                                    lemma_version_scan_err(wasm_bytes@, items@, (i + 1) as int);
                                }
                                return Err(ParseExtensionVersionError { kind: VersionErrorKind::InvalidVersion });
                            },
                        }
                    }
                }
            }
        }
        i += 1;
    }
    assert(items@.take(items.len() as int) =~= items@);
    if !complete {
        return Err(ParseExtensionVersionError { kind: VersionErrorKind::Malformed });
    }
    match version {
        Some(v) => Ok(v),
        None => Err(ParseExtensionVersionError { kind: VersionErrorKind::MissingVersion }),
    }
}

/// Once the scan has failed it stays failed.
proof fn lemma_version_scan_err(bytes: Seq<u8>, items: Seq<PayloadItem>, k: int)
    requires
        0 <= k <= items.len(),
        version_scan(bytes, items.take(k)) is Err,
    ensures
        version_scan(bytes, items) == version_scan(bytes, items.take(k)),
    decreases items.len() - k,
{
    if k < items.len() {
        assert(items.take(k + 1).drop_last() =~= items.take(k));
        lemma_version_scan_err(bytes, items, k + 1);
    } else {
        assert(items.take(k) =~= items);
    }
}


/// Why a binary could not be stripped.
#[derive(Debug, Clone, Copy, PartialEq, Eq, Structural)]
pub struct StripError {
    pub kind: StripErrorKind,
}

/// The kinds of failure to strip a binary.
#[derive(Debug, Clone, Copy, PartialEq, Eq, Structural)]
pub enum StripErrorKind {
    /// The binary could not be parsed.
    Malformed,
    /// A section would exceed the 32-bit length of the format.
    SectionTooLarge,
}

pub open spec fn byte_views(v: Seq<Vec<u8>>) -> Seq<Seq<u8>> {
    v.map_values(|x: Vec<u8>| x@)
}

/// The section id that wraps a nested module or component whose bytes are
/// `out`: a component where they begin with the component header.
pub open spec fn nested_tag(out: Seq<u8>) -> u8 {
    if out.len() >= 8 && out.take(8) == component_header_bytes() {
        4
    } else {
        1
    }
}

/// The state of a strip: the bytes of the current level, those of the
/// enclosing levels, and whether the outermost level has ended.
pub type StripState = Option<(Seq<u8>, Seq<Seq<u8>>, bool)>;

/// Whether stripping drops the section with contents `raw` and id `id`.
pub open spec fn drops_section(id: u8, raw: Seq<u8>) -> bool {
    id == CUSTOM_SECTION_ID && match custom_section_parts(raw) {
        Some((name, _)) => !keeps_custom_section(name),
        None => false,
    }
}

/// One payload applied to a strip. A section whose range leaves the input
/// fails the strip.
pub open spec fn strip_step(bytes: Seq<u8>, st: StripState, item: PayloadItem) -> StripState {
    match st {
        None => None,
        Some((out, stack, done)) => if done {
            st
        } else {
            match item {
                PayloadItem::Header(c) => Some(
                    (
                        out + if c {
                            component_header_bytes()
                        } else {
                            module_header_bytes()
                        },
                        stack,
                        false,
                    ),
                ),
                PayloadItem::Nested => Some((Seq::empty(), stack.push(out), false)),
                PayloadItem::End => if stack.len() == 0 {
                    Some((out, stack, true))
                } else if out.len() > u32::MAX {
                    None
                } else {
                    Some(
                        (
                            stack.last().push(nested_tag(out)) + leb128(out.len()) + out,
                            stack.drop_last(),
                            false,
                        ),
                    )
                },
                PayloadItem::Section(id, a, b) => {
                    let raw = bytes.subrange(a as int, b as int);
                    if !in_bounds(a, b, bytes) {
                        None
                    } else if drops_section(id, raw) {
                        st
                    } else if raw.len() > u32::MAX {
                        None
                    } else {
                        Some((out.push(id) + leb128(raw.len()) + raw, stack, false))
                    }
                },
                PayloadItem::Other => st,
            }
        },
    }
}

pub open spec fn strip_fold(bytes: Seq<u8>, items: Seq<PayloadItem>) -> StripState
    decreases items.len(),
{
    if items.len() == 0 {
        Some((Seq::empty(), Seq::empty(), false))
    } else {
        strip_step(bytes, strip_fold(bytes, items.drop_last()), items.last())
    }
}

/// The binary with the custom sections dropped that compiled artifacts do
/// not need, or `None` where it cannot be parsed.
pub open spec fn stripped(bytes: Seq<u8>) -> Option<Seq<u8>> {
    let (items, complete) = wasm_payloads(bytes);
    match strip_fold(bytes, items) {
        None => None,
        Some((out, _, done)) => if done || complete {
            Some(out)
        } else {
            None
        },
    }
}

/// A failed or finished strip ignores the payloads that follow.
proof fn lemma_strip_settled(bytes: Seq<u8>, items: Seq<PayloadItem>, k: int)
    requires
        0 <= k <= items.len(),
        strip_fold(bytes, items.take(k)) matches Some((_, _, d)) ==> d,
    ensures
        strip_fold(bytes, items) == strip_fold(bytes, items.take(k)),
    decreases items.len() - k,
{
    if k < items.len() {
        assert(items.take(k + 1).drop_last() =~= items.take(k));
        lemma_strip_settled(bytes, items, k + 1);
    } else {
        assert(items.take(k) =~= items);
    }
}

fn append_bytes(out: &mut Vec<u8>, src: &Vec<u8>)
    ensures
        final(out)@ == old(out)@ + src@,
{
    let ghost start = out@;
    let mut i: usize = 0;
    while i < src.len()
        invariant
            i <= src.len(),
            out@ == start + src@.take(i as int),
        decreases src.len() - i,
    {
        out.push(src[i]);
        i += 1;
        assert(out@ =~= start + src@.take(i as int));
    }
    assert(src@.take(src.len() as int) =~= src@);
}

fn starts_with_component_header(out: &Vec<u8>) -> (r: bool)
    ensures
        r == (out@.len() >= 8 && out@.take(8) == component_header_bytes()),
{
    if out.len() < 8 {
        return false;
    }
    let h = component_header();
    let mut i: usize = 0;
    while i < 8
        invariant
            i <= 8 <= out.len(),
            h@ == component_header_bytes(),
            out@.take(i as int) == h@.take(i as int),
        decreases 8 - i,
    {
        if out[i] != h[i] {
            assert(out@.take(8)[i as int] != h@[i as int]);
            return false;
        }
        i += 1;
        assert(out@.take(i as int) =~= h@.take(i as int)) by {
            assert(out@.take(i as int) =~= out@.take(i - 1).push(out@[i - 1]));
            assert(h@.take(i as int) =~= h@.take(i - 1).push(h@[i - 1]));
        }
    }
    assert(h@.take(8) =~= h@);
    true
}

fn drops_section_exec(id: u8, raw: &Vec<u8>) -> (r: bool)
    ensures
        r == drops_section(id, raw@),
{
    if id != CUSTOM_SECTION_ID {
        return false;
    }
    match read_custom_section(raw.as_slice()) {
        Some((name, _)) => !keeps_custom_section_exec(&name),
        None => false,
    }
}

/// Rewrites a component binary without the custom sections that compiled
/// artifacts do not need, keeping its nesting of modules and components.
pub fn strip_custom_sections(input: &Vec<u8>) -> (r: Result<Vec<u8>, StripError>)
    ensures
        match r {
            Ok(o) => stripped(input@) == Some(o@),
            Err(_) => stripped(input@) is None,
        },
{
    let (items, complete) = read_payloads(input.as_slice());
    let mut output: Vec<u8> = Vec::new();
    let mut stack: Vec<Vec<u8>> = Vec::new();
    let mut done = false;
    let mut i: usize = 0;
    assert(items@.take(0) =~= Seq::<PayloadItem>::empty());
    assert(byte_views(stack@) =~= Seq::<Seq<u8>>::empty());
    assert(output@ =~= Seq::<u8>::empty());
    while i < items.len() && !done
        invariant
            i <= items.len(),
            items@ == wasm_payloads(input@).0,
            strip_fold(input@, items@.take(i as int)) == Some((output@, byte_views(stack@), done)),
        decreases items.len() - i,
    {
        let item = items[i];
        assert(items@.take(i + 1).drop_last() =~= items@.take(i as int));
        assert(items@.take(i + 1).last() == items@[i as int]);
        match item {
            PayloadItem::Header(c) => {
                let h = if c {
                    component_header()
                } else {
                    module_header()
                };
                append_bytes(&mut output, &h);
            },
            PayloadItem::Nested => {
                let ghost before = stack@;
                let prev = output;
                stack.push(prev);
                output = Vec::new();
                assert(byte_views(stack@) =~= byte_views(before).push(prev@));
                assert(output@ =~= Seq::<u8>::empty());
            },
            PayloadItem::End => {
                let ghost before = stack@;
                match stack.pop() {
                    None => {
                        done = true;
                    },
                    Some(mut parent) => {
                        assert(byte_views(stack@) =~= byte_views(before).drop_last());
                        if output.len() > 4294967295 {
                            proof {
                                lemma_strip_settled(input@, items@, (i + 1) as int);
                            }
                            return Err(StripError { kind: StripErrorKind::SectionTooLarge });
                        }
                        let tag = if starts_with_component_header(&output) {
                            component_section_id()
                        } else {
                            core_module_section_id()
                        };
                        parent.push(tag);
                        encode_bytes(&mut parent, output.as_slice());
                        output = parent;
                    },
                }
            },
            PayloadItem::Section(id, a, b) => {
                if !(a <= b && b <= input.len() as u64) {
                    proof {
                        lemma_strip_settled(input@, items@, (i + 1) as int);
                    }
                    return Err(StripError { kind: StripErrorKind::Malformed });
                }
                let raw = slice_of(input.as_slice(), a, b);
                if !drops_section_exec(id, &raw) {
                    if raw.len() > 4294967295 {
                        proof {
                            lemma_strip_settled(input@, items@, (i + 1) as int);
                        }
                        return Err(StripError { kind: StripErrorKind::SectionTooLarge });
                    }
                    output.push(id);
                    encode_bytes(&mut output, raw.as_slice());
                }
            },
            PayloadItem::Other => {},
        }
        i += 1;
    }
    proof {
        if done {
            lemma_strip_settled(input@, items@, i as int);
        } else {
            assert(items@.take(i as int) =~= items@);
        }
    }
    if done || complete {
        Ok(output)
    } else {
        Err(StripError { kind: StripErrorKind::Malformed })
    }
}

/// Stripping keeps the API version section, whatever else it drops.
pub proof fn lemma_strip_keeps_version_section(raw: Seq<u8>, data: Seq<u8>)
    requires
        custom_section_parts(raw) == Some((version_section_name(), data)),
    ensures
        !drops_section(CUSTOM_SECTION_ID, raw),
{
}

} // verus!
