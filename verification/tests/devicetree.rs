use bootcore::devicetree::node::parse_decimal;
use bootcore::devicetree::tokenizer::Item;
use bootcore::devicetree::{
    named, CellSizes, DeviceTree, DeviceTreeError, DeviceTreeParser, DeviceTreeTokenizer,
    DeviceTreeValue, FdtHeader, FlattenedDeviceTree, NodeRef, ReserveEntry,
};
use bootcore::memory::map::MemoryMap;
use bootcore::memory::MemoryRange;

const BEGIN_NODE: u32 = 1;
const END_NODE: u32 = 2;
const PROP: u32 = 3;
const NOP: u32 = 4;
const END: u32 = 9;

/// A devicetree blob under construction.
struct Builder {
    structure: Vec<u8>,
    strings: Vec<u8>,
    reserved: Vec<(u64, u64)>,
}

fn builder() -> Builder {
    Builder { structure: Vec::new(), strings: Vec::new(), reserved: Vec::new() }
}

fn token(b: &mut Builder, value: u32) {
    b.structure.extend_from_slice(&value.to_be_bytes());
}

fn pad(b: &mut Builder) {
    while b.structure.len() % 4 != 0 {
        b.structure.push(0);
    }
}

fn begin(b: &mut Builder, name: &str) {
    token(b, BEGIN_NODE);
    b.structure.extend_from_slice(name.as_bytes());
    b.structure.push(0);
    pad(b);
}

fn end(b: &mut Builder) {
    token(b, END_NODE);
}

fn string_offset(b: &mut Builder, name: &str) -> u32 {
    let mut wanted = name.as_bytes().to_vec();
    wanted.push(0);
    let mut at = 0;
    while at + wanted.len() <= b.strings.len() {
        if b.strings[at..at + wanted.len()] == wanted[..] && (at == 0 || b.strings[at - 1] == 0) {
            return at as u32;
        }
        at += 1;
    }
    let offset = b.strings.len() as u32;
    b.strings.extend_from_slice(&wanted);
    offset
}

fn prop(b: &mut Builder, name: &str, value: &[u8]) {
    let offset = string_offset(b, name);
    token(b, PROP);
    token(b, value.len() as u32);
    token(b, offset);
    b.structure.extend_from_slice(value);
    pad(b);
}

fn cells(values: &[u32]) -> Vec<u8> {
    let mut bytes = Vec::new();
    for value in values {
        bytes.extend_from_slice(&value.to_be_bytes());
    }
    bytes
}

fn header(magic: u32, version: u32, rsvmap: u32, structure: (u32, u32), strings: (u32, u32)) -> Vec<u8> {
    let total = strings.0 + strings.1;
    cells(&[magic, total, structure.0, strings.0, rsvmap, version, 16, 0, strings.1, structure.1])
}

fn finish_with(mut b: Builder, magic: u32, version: u32) -> Vec<u8> {
    token(&mut b, END);
    let rsvmap = 40u32;
    let structure_offset = rsvmap + 16 * (b.reserved.len() as u32 + 1);
    let strings_offset = structure_offset + b.structure.len() as u32;
    let mut blob = header(
        magic,
        version,
        rsvmap,
        (structure_offset, b.structure.len() as u32),
        (strings_offset, b.strings.len() as u32),
    );
    for (address, size) in &b.reserved {
        blob.extend_from_slice(&address.to_be_bytes());
        blob.extend_from_slice(&size.to_be_bytes());
    }
    blob.extend_from_slice(&[0u8; 16]);
    blob.extend_from_slice(&b.structure);
    blob.extend_from_slice(&b.strings);
    blob
}

fn finish(b: Builder) -> Vec<u8> {
    finish_with(b, 0xd00dfeed, 17)
}

/// A tree of eleven nodes and sixteen properties.
fn sample() -> Vec<u8> {
    let mut b = builder();
    b.reserved.push((0x8000_0000, 0x1000));
    begin(&mut b, "");
    prop(&mut b, "#address-cells", &cells(&[2]));
    prop(&mut b, "#size-cells", &cells(&[2]));
    token(&mut b, NOP);
    prop(&mut b, "model", b"test\0");
    {
        begin(&mut b, "memory@80000000");
        prop(&mut b, "device_type", b"memory\0");
        prop(&mut b, "reg", &cells(&[0, 0x8000_0000, 0, 0x0800_0000]));
        end(&mut b);
    }
    {
        begin(&mut b, "cpus");
        prop(&mut b, "#address-cells", &cells(&[1]));
        prop(&mut b, "#size-cells", &cells(&[0]));
        {
            begin(&mut b, "cpu@0");
            prop(&mut b, "reg", &cells(&[0]));
            end(&mut b);
        }
        token(&mut b, NOP);
        {
            begin(&mut b, "cpu@1");
            prop(&mut b, "reg", &cells(&[1]));
            end(&mut b);
        }
        end(&mut b);
    }
    {
        begin(&mut b, "reserved-memory");
        prop(&mut b, "ranges", &[]);
        {
            begin(&mut b, "firmware@80010000");
            prop(&mut b, "reg", &cells(&[0, 0x8001_0000, 0, 0x1_0000]));
            end(&mut b);
        }
        end(&mut b);
    }
    {
        begin(&mut b, "soc");
        prop(&mut b, "#size-cells", &cells(&[1]));
        {
            begin(&mut b, "serial@10000000");
            prop(&mut b, "reg", &cells(&[0, 0x1000_0000, 0x100]));
            prop(&mut b, "status", b"okay");
            end(&mut b);
        }
        {
            begin(&mut b, "bus@beef");
            prop(&mut b, "#address-cells", &cells(&[1]));
            {
                begin(&mut b, "leaf");
                prop(&mut b, "reg", &cells(&[7, 8]));
                end(&mut b);
            }
            end(&mut b);
        }
        end(&mut b);
    }
    end(&mut b);
    finish(b)
}

fn count(node: &NodeRef) -> (usize, usize) {
    let mut nodes = 1;
    let mut properties = node.properties().unwrap().len();
    for child in node.children().unwrap() {
        let (n, p) = count(&child);
        nodes += n;
        properties += p;
    }
    (nodes, properties)
}

fn child<'a>(node: &NodeRef<'a>, name: &str) -> NodeRef<'a> {
    node.child(name).unwrap().unwrap()
}

#[test]
fn traversal_visits_every_node_and_property() {
    let blob = sample();
    let tree = FlattenedDeviceTree::from_bytes(&blob).unwrap();
    let root = tree.root().unwrap();
    assert_eq!(count(&root), (11, 16));
}

#[test]
fn root_has_its_children_in_order() {
    let blob = sample();
    let tree = FlattenedDeviceTree::from_bytes(&blob).unwrap();
    let root = tree.root().unwrap();
    assert_eq!(root.name(), "");
    assert_eq!(root.location(), None);
    let children = root.children().unwrap();
    let names: Vec<&str> = children.iter().map(|c| c.name()).collect();
    assert_eq!(names, vec!["memory", "cpus", "reserved-memory", "soc"]);
    let cpus = child(&root, "cpus").children().unwrap();
    assert_eq!(cpus.len(), 2);
    assert_eq!(cpus[0].name(), "cpu");
    assert_eq!(cpus[1].location(), Some(1));
}

#[test]
fn grandchildren_are_no_children() {
    let blob = sample();
    let tree = FlattenedDeviceTree::from_bytes(&blob).unwrap();
    let root = tree.root().unwrap();
    assert!(root.child("cpu").unwrap().is_none());
    assert!(root.child("leaf").unwrap().is_none());
    assert!(root.child("memory@80000000").unwrap().is_none());
}

#[test]
fn properties_come_with_names_and_values() {
    let blob = sample();
    let tree = FlattenedDeviceTree::from_bytes(&blob).unwrap();
    let root = tree.root().unwrap();
    let properties = root.properties().unwrap();
    let names: Vec<&str> = properties.iter().map(|p| p.0).collect();
    assert_eq!(names, vec!["#address-cells", "#size-cells", "model"]);
    assert_eq!(properties[0].1.u32(), Ok(2));
    // five bytes of text and three that fill the second cell
    assert_eq!(properties[2].1.string(), Ok("test\0\0\0\0"));
    assert!(root.property("missing").unwrap().is_none());
    let serial = child(&child(&root, "soc"), "serial");
    assert_eq!(serial.property("status").unwrap().unwrap().string(), Ok("okay"));
}

#[test]
fn unit_address_is_read_as_decimal() {
    let blob = sample();
    let tree = FlattenedDeviceTree::from_bytes(&blob).unwrap();
    let root = tree.root().unwrap();
    assert_eq!(child(&root, "memory").location(), Some(80000000));
    let soc = child(&root, "soc");
    assert_eq!(child(&soc, "serial").location(), Some(10000000));
    assert_eq!(child(&soc, "bus").location(), None);
    assert_eq!(child(&root, "cpus").location(), None);
}

#[test]
fn decimal_numbers_follow_the_rules_of_parsing() {
    assert_eq!(parse_decimal(b"0"), Some(0));
    assert_eq!(parse_decimal(b"007"), Some(7));
    assert_eq!(parse_decimal(b"+42"), Some(42));
    assert_eq!(parse_decimal(b""), None);
    assert_eq!(parse_decimal(b"+"), None);
    assert_eq!(parse_decimal(b"-1"), None);
    assert_eq!(parse_decimal(b"12a"), None);
    assert_eq!(parse_decimal(usize::MAX.to_string().as_bytes()), Some(usize::MAX));
    assert_eq!(parse_decimal(b"99999999999999999999999999"), None);
}

#[test]
fn cell_sizes_are_inherited_unless_set() {
    let blob = sample();
    let tree = FlattenedDeviceTree::from_bytes(&blob).unwrap();
    let root = tree.root().unwrap();
    assert_eq!(root.cell_sizes(), CellSizes::new(2, 2));
    // no override: the same as the parent
    assert_eq!(child(&root, "memory").cell_sizes(), CellSizes::new(2, 2));
    assert_eq!(child(&root, "reserved-memory").cell_sizes(), CellSizes::new(2, 2));
    // both set
    let cpus = child(&root, "cpus");
    assert_eq!(cpus.cell_sizes(), CellSizes::new(1, 0));
    assert_eq!(child(&cpus, "cpu").cell_sizes(), CellSizes::new(1, 0));
    // #size-cells = 1 whatever the ancestors have
    let soc = child(&root, "soc");
    assert_eq!(soc.cell_sizes(), CellSizes::new(2, 1));
    assert_eq!(child(&soc, "serial").cell_sizes().size(), 1);
    let bus = child(&soc, "bus");
    assert_eq!(bus.cell_sizes(), CellSizes::new(1, 1));
    assert_eq!(child(&bus, "leaf").cell_sizes(), CellSizes::new(1, 1));
}

#[test]
fn root_without_cell_sizes_has_the_defaults() {
    let mut b = builder();
    begin(&mut b, "");
    begin(&mut b, "only");
    end(&mut b);
    end(&mut b);
    let blob = finish(b);
    let tree = FlattenedDeviceTree::from_bytes(&blob).unwrap();
    let root = tree.root().unwrap();
    assert_eq!(CellSizes::default(), CellSizes::new(2, 1));
    assert_eq!(root.cell_sizes(), CellSizes::default());
    assert_eq!(child(&root, "only").cell_sizes().address(), 2);
    assert_eq!(child(&root, "only").cell_sizes().size(), 1);
}

#[test]
fn reg_is_read_with_the_cell_sizes_of_the_node() {
    let blob = sample();
    let tree = FlattenedDeviceTree::from_bytes(&blob).unwrap();
    let root = tree.root().unwrap();
    let memory = child(&root, "memory");
    assert_eq!(memory.property("reg").unwrap().unwrap().reg(), Ok((0x8000_0000, 0x0800_0000)));
    let serial = child(&child(&root, "soc"), "serial");
    assert_eq!(serial.property("reg").unwrap().unwrap().reg(), Ok((0x1000_0000, 0x100)));
    let leaf = child(&child(&child(&root, "soc"), "bus"), "leaf");
    assert_eq!(leaf.property("reg").unwrap().unwrap().reg(), Ok((7, 8)));
    let cpu = child(&child(&root, "cpus"), "cpu");
    assert_eq!(cpu.property("reg").unwrap().unwrap().reg(), Ok((0, 0)));
}

fn reg_value(address: u64, size: u64, sizes: CellSizes) -> Result<(u64, u64), DeviceTreeError> {
    let mut bytes = Vec::new();
    if sizes.address() == 2 {
        bytes.extend_from_slice(&((address >> 32) as u32).to_be_bytes());
    }
    bytes.extend_from_slice(&(address as u32).to_be_bytes());
    bytes.extend_from_slice(&(size as u32).to_be_bytes());
    DeviceTreeValue::wrap_cells(&bytes, &sizes).reg()
}

#[test]
fn reg_round_trip() {
    let wide = CellSizes::new(2, 1);
    let narrow = CellSizes::new(1, 1);
    for size in [0u64, 1, 0x1000, u32::MAX as u64] {
        for address in [0u64, 1, u32::MAX as u64, 0x1_0000_0000, 0x8000_0000_0000, u64::MAX] {
            assert_eq!(reg_value(address, size, wide), Ok((address, size)));
        }
        for address in [0u64, 1, 0x8000_0000, u32::MAX as u64] {
            assert_eq!(reg_value(address, size, narrow), Ok((address, size)));
        }
    }
}

#[test]
fn reg_of_many_cells_keeps_the_lowest_64_bits() {
    let sizes = CellSizes::new(3, 1);
    let bytes = cells(&[0xaaaa_aaaa, 0x1234_5678, 0x9abc_def0, 5]);
    assert_eq!(DeviceTreeValue::wrap_cells(&bytes, &sizes).reg(), Ok((0x1234_5678_9abc_def0, 5)));
    let none = CellSizes::new(0, 0);
    assert_eq!(DeviceTreeValue::wrap_cells(&[], &none).reg(), Ok((0, 0)));
}

#[test]
fn property_of_wrong_size_is_refused() {
    let sizes = CellSizes::new(2, 1);
    let two = cells(&[1, 2]);
    let value = DeviceTreeValue::wrap_cells(&two, &sizes);
    assert_eq!(value.u32(), Err(DeviceTreeError::InvaildPropertySize { expected: 1, actual: 2 }));
    assert_eq!(value.reg(), Err(DeviceTreeError::InvaildPropertySize { expected: 3, actual: 2 }));
    assert_eq!(value.expect_size(2), Ok(()));
    assert_eq!(
        value.expect_size(5),
        Err(DeviceTreeError::InvaildPropertySize { expected: 5, actual: 2 })
    );
    let empty = DeviceTreeValue::wrap_cells(&[], &sizes);
    assert_eq!(empty.u32(), Err(DeviceTreeError::InvaildPropertySize { expected: 1, actual: 0 }));
    let one = cells(&[0xdead_beef]);
    assert_eq!(DeviceTreeValue::wrap_cells(&one, &sizes).u32(), Ok(0xdead_beef));
    assert_eq!(DeviceTreeValue::wrap_cells(&one, &sizes).read_from_cells(0, 1), 0xdead_beef);
}

#[test]
fn value_covers_every_byte_of_the_payload() {
    let mut b = builder();
    begin(&mut b, "");
    prop(&mut b, "three", b"ok\0");
    prop(&mut b, "five", &[1, 2, 3, 4, 5]);
    prop(&mut b, "seven", b"memory\0");
    prop(&mut b, "eight", b"12345678");
    prop(&mut b, "none", &[]);
    end(&mut b);
    let blob = finish(b);
    let tree = FlattenedDeviceTree::from_bytes(&blob).unwrap();
    let root = tree.root().unwrap();
    let value = |name: &str| root.property(name).unwrap().unwrap();
    assert_eq!(value("three").string(), Ok("ok\0\0"));
    assert_eq!(value("three").expect_size(1), Ok(()));
    assert_eq!(value("three").u32(), Ok(0x6f6b_0000));
    // a value of five bytes is no single cell
    assert_eq!(
        value("five").u32(),
        Err(DeviceTreeError::InvaildPropertySize { expected: 1, actual: 2 })
    );
    assert_eq!(value("five").string(), Ok("\u{1}\u{2}\u{3}\u{4}\u{5}\0\0\0"));
    assert_eq!(value("seven").string(), Ok("memory\0\0"));
    assert_eq!(value("seven").expect_size(2), Ok(()));
    assert_eq!(value("eight").string(), Ok("12345678"));
    assert_eq!(value("none").string(), Ok(""));
    assert_eq!(value("none").expect_size(0), Ok(()));
    let listed = root.properties().unwrap();
    let sizes: Vec<bool> = (0..5).map(|i| listed[i].1.expect_size([1, 2, 2, 2, 0][i]).is_ok()).collect();
    assert_eq!(sizes, vec![true; 5]);
}

#[test]
fn text_that_is_no_utf8_is_refused() {
    let sizes = CellSizes::default();
    let bad = [0x66, 0x6f, 0xff, 0xfe];
    assert_eq!(DeviceTreeValue::wrap_cells(&bad, &sizes).string(), Err(DeviceTreeError::InvaildUTF8));
    let good = "grüß".as_bytes();
    assert_eq!(good.len(), 6);
    let mut padded = good.to_vec();
    padded.extend_from_slice(&[0, 0]);
    assert_eq!(DeviceTreeValue::wrap_cells(&padded, &sizes).string(), Ok("grüß\0\0"));
}

#[test]
fn strings_are_read_up_to_their_terminator() {
    let mut b = builder();
    begin(&mut b, "");
    prop(&mut b, "first", &[]);
    prop(&mut b, "second", &[]);
    end(&mut b);
    let mut blob = finish(b);
    let tree = FlattenedDeviceTree::from_bytes(&blob).unwrap();
    assert_eq!(tree.string(0), Ok("first"));
    assert_eq!(tree.string(2), Ok("rst"));
    assert_eq!(tree.string(6), Ok("second"));
    assert_eq!(tree.string(12), Ok(""));
    assert_eq!(tree.string(13), Err(DeviceTreeError::CStringConversionFail));
    assert_eq!(tree.string(1000), Err(DeviceTreeError::CStringConversionFail));
    // a name that is no text
    let at = blob.len() - 13;
    blob[at] = 0xff;
    let tree = FlattenedDeviceTree::from_bytes(&blob).unwrap();
    assert_eq!(tree.string(0), Err(DeviceTreeError::InvaildUTF8));
    // the search for the cell sizes of the root comes upon the name
    assert_eq!(tree.root().err(), Some(DeviceTreeError::InvaildUTF8));
    let strings = tree.strings();
    let structure = cells(&[BEGIN_NODE, 0, NOP, PROP, 0, 0]);
    assert_eq!(
        NodeRef::from_slice(strings, &structure, CellSizes::default()).err(),
        Some(DeviceTreeError::InvaildUTF8)
    );
    // the strings block without its last terminator
    let last = blob.len() - 1;
    blob[last] = b'x';
    let tree = FlattenedDeviceTree::from_bytes(&blob).unwrap();
    assert_eq!(tree.string(6), Err(DeviceTreeError::CStringConversionFail));
}

#[test]
fn bad_magic_is_refused() {
    let mut b = builder();
    begin(&mut b, "");
    end(&mut b);
    let blob = finish_with(b, 0xfeedd00d, 17);
    assert_eq!(
        FlattenedDeviceTree::from_bytes(&blob).err(),
        Some(DeviceTreeError::InvaildMagicNumber { provided: 0xfeedd00d, expected: 0xd00dfeed })
    );
    assert_eq!(
        DeviceTree::from_bytes(&blob).err(),
        Some(DeviceTreeError::InvaildMagicNumber { provided: 0xfeedd00d, expected: 0xd00dfeed })
    );
    let header = FdtHeader::parse(&blob).unwrap();
    assert!(!header.is_correct());
    assert_eq!(header.magic(), 0xfeedd00d);
}

#[test]
fn unsupported_version_is_refused() {
    let mut b = builder();
    begin(&mut b, "");
    end(&mut b);
    let blob = finish_with(b, 0xd00dfeed, 16);
    assert_eq!(
        DeviceTree::from_bytes(&blob).err(),
        Some(DeviceTreeError::UnsupportedVersion { provided: 16, expected: 17 })
    );
    let header = FdtHeader::parse(&blob).unwrap();
    assert_eq!(
        header.check(),
        Err(DeviceTreeError::UnsupportedVersion { provided: 16, expected: 17 })
    );
    // the view of the tree looks at the magic number only
    assert!(FlattenedDeviceTree::from_bytes(&blob).is_ok());
}

#[test]
fn truncated_blob_is_refused() {
    let blob = sample();
    assert_eq!(FdtHeader::parse(&blob[..39]), None);
    assert_eq!(
        FlattenedDeviceTree::from_bytes(&blob[..39]).err(),
        Some(DeviceTreeError::OutOfStructureBounds)
    );
    assert_eq!(
        FlattenedDeviceTree::from_bytes(&blob[..blob.len() - 1]).err(),
        Some(DeviceTreeError::OutOfStructureBounds)
    );
    assert_eq!(
        FlattenedDeviceTree::from_bytes(&blob[..100]).err(),
        Some(DeviceTreeError::OutOfStructureBounds)
    );
    assert_eq!(DeviceTree::from_bytes(&[]).err(), Some(DeviceTreeError::OutOfStructureBounds));
    assert_eq!(
        DeviceTree::from_bytes(&blob[..100]).err(),
        Some(DeviceTreeError::OutOfStructureBounds)
    );
}

#[test]
fn structure_that_is_no_tree_is_refused() {
    // no end token
    let mut b = builder();
    begin(&mut b, "");
    end(&mut b);
    b.structure.extend_from_slice(&[0, 0, 0, 0]);
    let mut blob = finish(b);
    assert!(FlattenedDeviceTree::from_bytes(&blob).is_ok());
    let size_at = 36;
    let size = u32::from_be_bytes([blob[36], blob[37], blob[38], blob[39]]) - 4;
    blob[size_at..size_at + 4].copy_from_slice(&size.to_be_bytes());
    assert_eq!(
        FlattenedDeviceTree::from_bytes(&blob).err(),
        Some(DeviceTreeError::BytesParseError)
    );
    // no node at the start
    let mut b = builder();
    token(&mut b, NOP);
    begin(&mut b, "");
    end(&mut b);
    assert_eq!(
        FlattenedDeviceTree::from_bytes(&finish(b)).err(),
        Some(DeviceTreeError::BytesParseError)
    );
}

#[test]
fn header_fields_are_in_host_order() {
    let blob = sample();
    let tree = FlattenedDeviceTree::from_bytes(&blob).unwrap();
    let header = tree.header();
    assert!(header.is_correct());
    assert_eq!(header.magic(), 0xd00dfeed);
    assert_eq!(header.version(), 17);
    assert_eq!(header.off_mem_rsvmap(), 40);
    assert_eq!(header.off_dt_struct(), 72);
    assert_eq!(header.size_dt_struct() as usize, tree.structure().len());
    assert_eq!(header.size_dt_strings() as usize, tree.strings().len());
    assert_eq!(
        header.off_dt_strings(),
        header.off_dt_struct() + header.size_dt_struct()
    );
    assert_eq!(header.check(), Ok(()));
    assert_eq!(blob.len() as u32, header.totalsize);
}

#[test]
fn node_name_without_terminator_is_refused() {
    let mut b = builder();
    begin(&mut b, "");
    token(&mut b, BEGIN_NODE);
    b.structure.extend_from_slice(b"abcd");
    let blob = finish(b);
    // the end token stands where the terminator should, and is no zero cell
    let tree = FlattenedDeviceTree::from_bytes(&blob).unwrap();
    let root = tree.root().unwrap();
    assert!(root.children().unwrap().is_empty());
    let structure = cells(&[BEGIN_NODE, 0x6162_6364]);
    assert_eq!(
        NodeRef::from_slice(&[], &structure, CellSizes::default()).err(),
        Some(DeviceTreeError::CStringConversionFail)
    );
    let structure = cells(&[BEGIN_NODE, 0xff61_0000]);
    assert_eq!(
        NodeRef::from_slice(&[], &structure, CellSizes::default()).err(),
        Some(DeviceTreeError::InvaildUTF8)
    );
}

#[test]
fn child_with_a_name_that_is_no_text_fails_the_listing() {
    let mut b = builder();
    begin(&mut b, "");
    begin(&mut b, "good");
    end(&mut b);
    token(&mut b, BEGIN_NODE);
    b.structure.extend_from_slice(&[0xff, 0x61, 0, 0]);
    end(&mut b);
    end(&mut b);
    let blob = finish(b);
    let tree = FlattenedDeviceTree::from_bytes(&blob).unwrap();
    let root = tree.root().unwrap();
    assert_eq!(root.children().err(), Some(DeviceTreeError::InvaildUTF8));
    // a child in front of the bad one is still found
    assert_eq!(root.child("good").unwrap().unwrap().name(), "good");
    assert_eq!(root.child("other").err(), Some(DeviceTreeError::InvaildUTF8));
}

#[test]
fn cell_size_of_wrong_size_fails_the_node() {
    let mut b = builder();
    begin(&mut b, "");
    prop(&mut b, "#address-cells", &cells(&[1, 2]));
    end(&mut b);
    let blob = finish(b);
    let tree = FlattenedDeviceTree::from_bytes(&blob).unwrap();
    assert_eq!(
        tree.root().err(),
        Some(DeviceTreeError::InvaildPropertySize { expected: 1, actual: 2 })
    );
}

#[test]
fn truncated_property_is_refused() {
    let mut b = builder();
    begin(&mut b, "");
    prop(&mut b, "reg", &cells(&[1, 2, 3]));
    let blob = finish(b);
    let tree = FlattenedDeviceTree::from_bytes(&blob).unwrap();
    // claim a longer value than the node holds
    let mut structure = tree.structure().to_vec();
    structure[12..16].copy_from_slice(&64u32.to_be_bytes());
    let strings = tree.strings().to_vec();
    let slice = &structure[..structure.len() - 4];
    let node = NodeRef::from_slice(&strings, slice, CellSizes::default());
    assert_eq!(node.err(), Some(DeviceTreeError::OutOfStructureBounds));
    // a property token with nothing behind it
    let structure = cells(&[BEGIN_NODE, 0, PROP]);
    let node = NodeRef::from_slice(&strings, &structure, CellSizes::default()).unwrap();
    assert!(node.properties().unwrap().is_empty());
    assert_eq!(node.children().err(), Some(DeviceTreeError::OutOfStructureBounds));
}

#[test]
fn bytes_of_a_value_are_no_tokens() {
    let mut b = builder();
    begin(&mut b, "");
    prop(&mut b, "tokens", &cells(&[BEGIN_NODE, 0, END_NODE, PROP, 0, 0, END]));
    prop(&mut b, "odd", &[0, 0, 0, 1, 0, 0]);
    begin(&mut b, "child");
    prop(&mut b, "inner", &cells(&[END_NODE, END_NODE, BEGIN_NODE]));
    end(&mut b);
    begin(&mut b, "other");
    end(&mut b);
    end(&mut b);
    let blob = finish(b);
    let tree = FlattenedDeviceTree::from_bytes(&blob).unwrap();
    let root = tree.root().unwrap();
    let properties = root.properties().unwrap();
    assert_eq!(properties.len(), 2);
    assert_eq!(properties[0].1.expect_size(7), Ok(()));
    // six bytes take two cells
    assert_eq!(properties[1].1.expect_size(2), Ok(()));
    assert_eq!(properties[1].1.read_from_cells(0, 2), 0x0000_0001_0000_0000);
    let children = root.children().unwrap();
    let names: Vec<&str> = children.iter().map(|c| c.name()).collect();
    assert_eq!(names, vec!["child", "other"]);
    assert_eq!(children[0].properties().unwrap().len(), 1);
    assert!(children[0].children().unwrap().is_empty());
    assert_eq!(count(&root), (3, 3));
}

#[test]
fn first_property_of_a_name_wins() {
    let mut b = builder();
    begin(&mut b, "");
    prop(&mut b, "value", &cells(&[1]));
    prop(&mut b, "value", &cells(&[2]));
    end(&mut b);
    let blob = finish(b);
    let tree = FlattenedDeviceTree::from_bytes(&blob).unwrap();
    let root = tree.root().unwrap();
    assert_eq!(root.property("value").unwrap().unwrap().u32(), Ok(1));
    assert_eq!(root.properties().unwrap().len(), 2);
}

#[test]
fn named_keeps_the_nodes_of_one_name() {
    let mut b = builder();
    begin(&mut b, "");
    for name in ["memory@1", "cpus", "memory@2", "memory", "memoryx"] {
        begin(&mut b, name);
        end(&mut b);
    }
    end(&mut b);
    let blob = finish(b);
    let tree = FlattenedDeviceTree::from_bytes(&blob).unwrap();
    let children = tree.root().unwrap().children().unwrap();
    let found = named(&children, "memory");
    let locations: Vec<Option<usize>> = found.iter().map(|n| n.location()).collect();
    assert_eq!(locations, vec![Some(1), Some(2), None]);
    assert!(named(&children, "none").is_empty());
}

fn range(first: usize, behind: usize) -> MemoryRange {
    MemoryRange::from_address_and_size(first, behind - first)
}

#[test]
fn memory_map_is_built_from_the_tree() {
    let blob = sample();
    let tree = FlattenedDeviceTree::from_bytes(&blob).unwrap();
    let kernel = range(0x8020_0000, 0x8040_0000);
    let map = MemoryMap::build_from_devicetree(&tree, kernel).unwrap();
    assert_eq!(
        map.available_areas(),
        &[
            range(0x8000_0000, 0x8001_0000),
            range(0x8002_0000, 0x8020_0000),
            range(0x8040_0000, 0x8800_0000),
        ]
    );
    assert!(map.is_page_aligned());
}

#[test]
fn memory_node_without_reg_is_passed_over() {
    let mut b = builder();
    begin(&mut b, "");
    begin(&mut b, "memory@0");
    end(&mut b);
    begin(&mut b, "memory@1000");
    prop(&mut b, "reg", &cells(&[0, 0x1000, 0x2000]));
    end(&mut b);
    begin(&mut b, "memory@9000");
    prop(&mut b, "reg", &cells(&[0, 0x9000, 0]));
    end(&mut b);
    end(&mut b);
    let blob = finish(b);
    let tree = FlattenedDeviceTree::from_bytes(&blob).unwrap();
    let kernel = range(0x1800, 0x2000);
    let map = MemoryMap::build_from_devicetree(&tree, kernel).unwrap();
    assert_eq!(map.available_areas(), &[range(0x1000, 0x1800), range(0x2000, 0x3000)]);
}

#[test]
fn memory_node_with_a_bad_reg_fails_the_map() {
    let mut b = builder();
    begin(&mut b, "");
    begin(&mut b, "memory@1000");
    prop(&mut b, "reg", &cells(&[0x1000, 0x2000]));
    end(&mut b);
    end(&mut b);
    let blob = finish(b);
    let tree = FlattenedDeviceTree::from_bytes(&blob).unwrap();
    let kernel = range(0x1800, 0x2000);
    assert_eq!(
        MemoryMap::build_from_devicetree(&tree, kernel).err(),
        Some(DeviceTreeError::InvaildPropertySize { expected: 3, actual: 2 })
    );
}

#[test]
fn reserved_entries_end_with_the_entry_of_zeros() {
    let mut b = builder();
    b.reserved.push((0x8000_0000, 0x1000));
    b.reserved.push((0x9000_0000, 0x20_0000_0000));
    begin(&mut b, "");
    end(&mut b);
    let blob = finish(b);
    let tree = DeviceTree::from_bytes(&blob).unwrap();
    assert_eq!(
        tree.reserved_entries(),
        Ok(vec![
            ReserveEntry { address: 0x8000_0000, size: 0x1000 },
            ReserveEntry { address: 0x9000_0000, size: 0x20_0000_0000 },
        ])
    );
    assert_eq!(tree.header().off_mem_rsvmap(), 40);
    // a table that never ends
    let mut endless = blob.clone();
    for byte in endless[40..].iter_mut() {
        *byte = 1;
    }
    let tree = DeviceTree::from_bytes(&endless).unwrap();
    assert_eq!(tree.reserved_entries(), Err(DeviceTreeError::OutOfStructureBounds));
}

fn walk(blob: &[u8]) -> Result<Vec<String>, DeviceTreeError> {
    let tree = DeviceTree::from_bytes(blob)?;
    let mut lines = Vec::new();
    for line in tree.print()? {
        let tabs = " ".repeat(line.depth * 4);
        lines.push(match line.item {
            Item::Node(name) => format!("{}{} {{", tabs, name),
            Item::Param(name, value) => format!("{}{}: {:?};", tabs, name, value),
            Item::NodeEnd => format!("{}}}", tabs),
            Item::End => unreachable!(),
        });
    }
    Ok(lines)
}

#[test]
fn tokenizer_walks_the_tree() {
    let mut b = builder();
    begin(&mut b, "");
    prop(&mut b, "model", b"abc");
    token(&mut b, NOP);
    token(&mut b, NOP);
    begin(&mut b, "chosen");
    prop(&mut b, "size", &cells(&[0x10]));
    end(&mut b);
    end(&mut b);
    let blob = finish(b);
    assert_eq!(
        walk(&blob),
        Ok(vec![
            " {".to_string(),
            "    model: [97, 98, 99];".to_string(),
            "    chosen {".to_string(),
            "        size: [0, 0, 0, 16];".to_string(),
            "    }".to_string(),
            "}".to_string(),
        ])
    );
}

#[test]
fn listing_closes_what_is_open_at_the_end() {
    // two nodes are open when the block ends
    let mut b = builder();
    begin(&mut b, "a");
    begin(&mut b, "b");
    prop(&mut b, "p", &[]);
    let blob = finish(b);
    assert_eq!(
        walk(&blob),
        Ok(vec![
            "a {".to_string(),
            "    b {".to_string(),
            "        p: [];".to_string(),
            "    }".to_string(),
            "}".to_string(),
        ])
    );
    // the end of a node with none open ends the listing
    let mut b = builder();
    begin(&mut b, "a");
    end(&mut b);
    end(&mut b);
    begin(&mut b, "never");
    end(&mut b);
    let blob = finish(b);
    assert_eq!(walk(&blob), Ok(vec!["a {".to_string(), "}".to_string()]));
    // a block without its end
    let structure = cells(&[BEGIN_NODE, 0, END_NODE, NOP]);
    let mut tokenizer = DeviceTreeTokenizer::new(&structure, &[]);
    assert_eq!(tokenizer.walk().err(), Some(DeviceTreeError::OutOfStructureBounds));
    let structure = cells(&[BEGIN_NODE, 0, 8, END]);
    let mut tokenizer = DeviceTreeTokenizer::new(&structure, &[]);
    assert_eq!(tokenizer.walk().err(), Some(DeviceTreeError::BytesParseError));
}

#[test]
fn header_has_a_longer_name_too() {
    let blob = sample();
    let header: Option<bootcore::devicetree::flattened::DeviceTreeHeader> = FdtHeader::parse(&blob);
    assert_eq!(header.map(|h| h.is_correct()), Some(true));
}

#[test]
fn tokenizer_steps() {
    let mut structure = cells(&[NOP, BEGIN_NODE]);
    structure.extend_from_slice(b"node\0\0\0\0");
    structure.extend_from_slice(&cells(&[PROP, 5, 2]));
    structure.extend_from_slice(b"hello\0\0\0");
    structure.extend_from_slice(&cells(&[NOP, END_NODE, END]));
    let strings = b"a\0name\0".to_vec();
    let mut tokenizer = DeviceTreeTokenizer::new(&structure, &strings);
    assert_eq!(tokenizer.next_param(), Ok(None));
    assert_eq!(tokenizer.next_node_end(), Ok(None));
    assert_eq!(tokenizer.is_eof(), Ok(false));
    assert_eq!(tokenizer.seek_u32(), Ok(BEGIN_NODE));
    assert_eq!(tokenizer.next_node(), Ok(Some("node")));
    assert_eq!(tokenizer.next_node(), Ok(None));
    assert_eq!(tokenizer.next_param(), Ok(Some(("name", &b"hello"[..]))));
    assert_eq!(tokenizer.next_param(), Ok(None));
    assert_eq!(tokenizer.is_eof(), Ok(false));
    assert_eq!(tokenizer.next_node_end(), Ok(Some(())));
    assert_eq!(tokenizer.next_node_end(), Ok(None));
    assert_eq!(tokenizer.is_eof(), Ok(true));
    assert_eq!(tokenizer.is_eof(), Ok(true));
    assert_eq!(tokenizer.next_u32(), Ok(END));
    assert_eq!(tokenizer.seek_u32(), Err(DeviceTreeError::OutOfStructureBounds));
    assert_eq!(tokenizer.next_u32(), Err(DeviceTreeError::OutOfStructureBounds));
    assert_eq!(tokenizer.skip_nop(), Err(DeviceTreeError::OutOfStructureBounds));
    assert_eq!(tokenizer.is_eof(), Err(DeviceTreeError::OutOfStructureBounds));
}

#[test]
fn tokenizer_errors() {
    let strings = b"name\0bad".to_vec();
    // a name in the structure block without terminator
    let mut structure = cells(&[BEGIN_NODE]);
    structure.extend_from_slice(b"node");
    let mut tokenizer = DeviceTreeTokenizer::new(&structure, &strings);
    assert_eq!(tokenizer.next_node(), Err(DeviceTreeError::UnterminatedString));
    // a name of a property without terminator
    let structure = cells(&[PROP, 0, 5, END]);
    let mut tokenizer = DeviceTreeTokenizer::new(&structure, &strings);
    assert_eq!(tokenizer.next_param(), Err(DeviceTreeError::UnterminatedString));
    // a name that is no text
    let mut structure = cells(&[BEGIN_NODE]);
    structure.extend_from_slice(&[0xc0, 0x20, 0, 0]);
    let mut tokenizer = DeviceTreeTokenizer::new(&structure, &strings);
    assert_eq!(tokenizer.next_node(), Err(DeviceTreeError::InvaildUTF8));
    // a value that runs beyond the block
    let structure = cells(&[PROP, 8, 0, 1]);
    let mut tokenizer = DeviceTreeTokenizer::new(&structure, &strings);
    assert_eq!(tokenizer.next_param(), Err(DeviceTreeError::OutOfStructureBounds));
    // a token that is none
    let structure = cells(&[7, END]);
    let mut tokenizer = DeviceTreeTokenizer::new(&structure, &strings);
    assert!(matches!(tokenizer.next_item(), Err(DeviceTreeError::BytesParseError)));
    assert_eq!(
        DeviceTreeTokenizer::next_str(b"abc\0def", 4).err(),
        Some(DeviceTreeError::UnterminatedString)
    );
    assert_eq!(DeviceTreeTokenizer::next_str(b"abc\0def", 1), Ok("bc"));
}

#[test]
fn tokenizer_moves_to_whole_cells() {
    let structure = cells(&[NOP, NOP, NOP, END]);
    let strings = Vec::new();
    let mut tokenizer = DeviceTreeTokenizer::new(&structure, &strings);
    assert_eq!(tokenizer.proceed(0), Ok(0));
    assert_eq!(tokenizer.proceed(1), Ok(4));
    assert_eq!(tokenizer.proceed(4), Ok(8));
    assert_eq!(tokenizer.proceed(3), Ok(12));
    assert_eq!(tokenizer.seek_u32(), Ok(END));
    assert_eq!(tokenizer.proceed(2), Err(DeviceTreeError::OutOfStructureBounds));
    assert_eq!(tokenizer.seek_u32(), Err(DeviceTreeError::OutOfStructureBounds));
}

#[test]
fn parser_steps() {
    let mut structure = cells(&[NOP, BEGIN_NODE]);
    structure.extend_from_slice(b"node\0\0\0\0");
    structure.extend_from_slice(&cells(&[PROP, 5, 2]));
    structure.extend_from_slice(b"hello\0\0\0");
    structure.extend_from_slice(&cells(&[NOP, END_NODE, END]));
    let strings = b"a\0name\0".to_vec();
    let mut parser = DeviceTreeParser::new(&structure, &strings);
    assert_eq!(parser.next_param(), None);
    assert_eq!(parser.next_node_end(), None);
    assert!(!parser.is_eof());
    assert_eq!(parser.seek_u32(), Some(BEGIN_NODE));
    assert_eq!(parser.next_node(), Some("node"));
    assert_eq!(parser.next_node(), None);
    assert_eq!(parser.next_param(), Some(("name", &b"hello"[..])));
    assert_eq!(parser.next_param(), None);
    assert!(!parser.is_eof());
    assert_eq!(parser.next_node_end(), Some(()));
    assert_eq!(parser.next_node_end(), None);
    assert!(parser.is_eof());
    assert_eq!(parser.next_u32(), Some(END));
    // at the end nothing is left, and nothing goes wrong
    assert_eq!(parser.seek_u32(), None);
    assert_eq!(parser.next_u32(), None);
    parser.skip_nop();
    assert!(!parser.is_eof());
    assert_eq!(parser.next_node(), None);
    assert_eq!(parser.next_param(), None);
    assert_eq!(parser.next_node_end(), None);
}

#[test]
fn parser_gives_a_word_for_what_is_no_text() {
    assert_eq!(DeviceTreeParser::next_str(b"abc\0def"), "abc");
    assert_eq!(DeviceTreeParser::next_str(b"\0"), "");
    assert_eq!(DeviceTreeParser::next_str(&[0xff, 0xfe, 0]), "ERROR");
    // the parser moves on by the length of the word that it gives
    let mut structure = cells(&[BEGIN_NODE]);
    structure.extend_from_slice(&[0xff, 0, 0, 0]);
    structure.extend_from_slice(&cells(&[END_NODE, END_NODE, END]));
    let mut parser = DeviceTreeParser::new(&structure, &[]);
    assert_eq!(parser.next_node(), Some("ERROR"));
    assert_eq!(parser.seek_u32(), Some(END_NODE));
    assert_eq!(parser.next_node_end(), Some(()));
    assert!(parser.is_eof());
    // a name of a property that is no text
    let structure = cells(&[PROP, 4, 1, 7, END]);
    let strings = [0u8, 0xc3, 0x28, 0];
    let mut parser = DeviceTreeParser::new(&structure, &strings);
    assert_eq!(parser.next_param(), Some(("ERROR", &[0u8, 0, 0, 7][..])));
    assert!(parser.is_eof());
}

#[test]
fn parser_moves_to_whole_cells() {
    let structure = cells(&[NOP, NOP, NOP, END]);
    let mut parser = DeviceTreeParser::new(&structure, &[]);
    parser.proceed(1);
    assert_eq!(parser.seek_u32(), Some(NOP));
    parser.proceed(5);
    assert_eq!(parser.seek_u32(), Some(END));
    parser.proceed(usize::MAX);
    assert_eq!(parser.seek_u32(), None);
    let mut parser = DeviceTreeParser::new(&structure, &[]);
    parser.skip_nop();
    assert_eq!(parser.next_u32(), Some(END));
}
