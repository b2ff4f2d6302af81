use lunar::fdt::{FdtError, FdtNode, FdtStream, FdtStreamable, FdtView};
use lunar::inttypes::BEu32;

const BEGIN_NODE: u32 = 1;
const END_NODE: u32 = 2;
const PROP: u32 = 3;
const NOP: u32 = 4;
const END: u32 = 9;

/// Writes a structure block and its string table.
struct Builder {
    structure: Vec<u8>,
    strings: Vec<u8>,
    reservations: Vec<(u64, u64)>,
}

impl Builder {
    fn new() -> Self {
        Builder {
            structure: Vec::new(),
            strings: Vec::new(),
            reservations: Vec::new(),
        }
    }

    fn word(&mut self, w: u32) -> &mut Self {
        self.structure.extend_from_slice(&w.to_be_bytes());
        self
    }

    fn pad(&mut self) {
        while self.structure.len() % 4 != 0 {
            self.structure.push(0);
        }
    }

    fn begin(&mut self, name: &str) -> &mut Self {
        self.word(BEGIN_NODE);
        self.structure.extend_from_slice(name.as_bytes());
        self.structure.push(0);
        self.pad();
        self
    }

    fn end_node(&mut self) -> &mut Self {
        self.word(END_NODE)
    }

    fn name_offset(&mut self, name: &str) -> u32 {
        let mut off = 0;
        while off < self.strings.len() {
            let end = off + self.strings[off..].iter().position(|&b| b == 0).unwrap();
            if &self.strings[off..end] == name.as_bytes() {
                return off as u32;
            }
            off = end + 1;
        }
        let at = self.strings.len();
        self.strings.extend_from_slice(name.as_bytes());
        self.strings.push(0);
        at as u32
    }

    fn prop(&mut self, name: &str, value: &[u8]) -> &mut Self {
        let off = self.name_offset(name);
        self.word(PROP).word(value.len() as u32).word(off);
        self.structure.extend_from_slice(value);
        self.pad();
        self
    }

    fn prop_cells(&mut self, name: &str, cells: &[u32]) -> &mut Self {
        let mut value = Vec::new();
        for c in cells {
            value.extend_from_slice(&c.to_be_bytes());
        }
        self.prop(name, &value)
    }

    fn reserve(&mut self, address: u64, size: u64) -> &mut Self {
        self.reservations.push((address, size));
        self
    }

    /// The whole blob: header, reservation list, structure block with its
    /// END token, string table.
    fn blob(&mut self) -> Vec<u8> {
        self.word(END);
        let rsv_off = 40;
        let rsv_len = 16 * (self.reservations.len() + 1);
        let struct_off = rsv_off + rsv_len;
        let strings_off = struct_off + self.structure.len();
        let total = strings_off + self.strings.len();
        let header = [
            0xD00D_FEED,
            total as u32,
            struct_off as u32,
            strings_off as u32,
            rsv_off as u32,
            17,
            16,
            0,
            self.strings.len() as u32,
            self.structure.len() as u32,
        ];
        let mut out = Vec::new();
        for w in header {
            out.extend_from_slice(&u32::to_be_bytes(w));
        }
        for (a, s) in &self.reservations {
            out.extend_from_slice(&a.to_be_bytes());
            out.extend_from_slice(&s.to_be_bytes());
        }
        out.extend_from_slice(&[0; 16]);
        out.extend_from_slice(&self.structure);
        out.extend_from_slice(&self.strings);
        out
    }
}

/// A board: a console path under /chosen, a bus with two serial ports, and
/// nodes that carry phandles.
fn board() -> Vec<u8> {
    let mut b = Builder::new();
    b.reserve(0x8000_0000, 0x1000);
    b.prop_cells("#address-cells", &[1]).prop_cells("#size-cells", &[1]);
    b.begin("chosen").prop("stdout-path", b"/soc/uart@1000\0").end_node();
    b.begin("soc");
    b.prop_cells("#address-cells", &[1]).prop_cells("#size-cells", &[1]);
    b.begin("uart@1000")
        .prop_cells("reg", &[0x1000, 0x100])
        .prop("compatible", b"ns16550a\0")
        .prop_cells("phandle", &[7])
        .end_node();
    b.begin("uart@2000")
        .prop_cells("reg", &[0x2000, 0x100])
        .prop_cells("phandle", &[5])
        .end_node();
    b.end_node();
    b.begin("cpus").prop_cells("phandle", &[5]).end_node();
    b.blob()
}

fn names(nodes: &[Option<FdtNode>]) -> Vec<Option<String>> {
    nodes
        .iter()
        .map(|n| n.as_ref().map(|n| n.name().to_string()))
        .collect()
}

#[test]
fn chosen_stdout_path_is_read_as_text() {
    let mut b = Builder::new();
    b.begin("chosen").prop("stdout-path", b"/soc/uart@1000\0").end_node();
    let blob = b.blob();
    let view = FdtView::from_blob(&blob).unwrap();
    let chosen = view.node_by_name("chosen").unwrap();
    assert_eq!(chosen.name(), "chosen");
    assert_eq!(chosen.prop_str("stdout-path"), Some("/soc/uart@1000"));
    assert_eq!(chosen.prop_raw("stdout-path"), Some(&b"/soc/uart@1000\0"[..]));
}

#[test]
fn wrong_magic_is_refused() {
    let mut blob = board();
    blob[0..4].copy_from_slice(&0xDEAD_BEEFu32.to_be_bytes());
    assert!(matches!(FdtView::from_blob(&blob), Err(FdtError::BadMagic)));
}

#[test]
fn short_blob_is_refused() {
    let blob = board();
    assert!(matches!(
        FdtView::from_blob(&blob[..39]),
        Err(FdtError::Truncated)
    ));
    assert!(matches!(
        FdtView::from_blob(&blob[..blob.len() - 1]),
        Err(FdtError::Truncated)
    ));
}

#[test]
fn block_outside_the_blob_is_refused() {
    let mut blob = board();
    let total = blob.len() as u32;
    blob[8..12].copy_from_slice(&total.to_be_bytes());
    assert!(matches!(
        FdtView::from_blob(&blob),
        Err(FdtError::OutOfBounds)
    ));
}

#[test]
fn reservation_list_without_end_is_refused() {
    let mut blob = board();
    let total = blob.len() as u32;
    blob[16..20].copy_from_slice(&(total - 8).to_be_bytes());
    assert!(matches!(
        FdtView::from_blob(&blob),
        Err(FdtError::OutOfBounds)
    ));
}

#[test]
fn reservations_are_decoded() {
    let blob = board();
    let view = FdtView::from_blob(&blob).unwrap();
    assert_eq!(view.mem_rsv_count(), 1);
    let e = view.mem_rsv_entry(0).unwrap();
    assert_eq!(e.address.get(), 0x8000_0000);
    assert_eq!(e.size.get(), 0x1000);
    assert!(view.mem_rsv_entry(1).is_none());
    assert_eq!(view.blob().len(), blob.len());
}

#[test]
fn node_by_name_exact_and_unit_address() {
    let blob = board();
    let view = FdtView::from_blob(&blob).unwrap();
    let soc = view.node_by_name("soc").unwrap();
    assert_eq!(soc.node_by_name("uart@2000").unwrap().name(), "uart@2000");
    assert_eq!(soc.node_by_name("uart").unwrap().name(), "uart@1000");
    assert!(soc.node_by_name("uart@1000\0").is_none());
    assert!(soc.node_by_name("uart\0").is_none());
}

#[test]
fn node_by_name_absent_or_deeper_is_none() {
    let blob = board();
    let view = FdtView::from_blob(&blob).unwrap();
    assert!(view.node_by_name("gpio").is_none());
    assert!(view.node_by_name("uart").is_none());
    assert!(view.node_by_name("uart@1000").is_none());
    assert!(view.node_by_name("so").is_none());
}

#[test]
fn node_by_path_follows_segments() {
    let blob = board();
    let view = FdtView::from_blob(&blob).unwrap();
    let direct = view.node_by_path("/soc/uart@2000").unwrap();
    let stepwise = view
        .node_by_name("soc")
        .unwrap()
        .node_by_path("uart@2000")
        .unwrap();
    assert_eq!(direct.name(), stepwise.name());
    assert_eq!(direct.data(), stepwise.data());
    assert_eq!(view.node_by_path("//soc/uart").unwrap().name(), "uart@1000");
    assert_eq!(view.node_by_path("soc").unwrap().name(), "soc");
}

#[test]
fn node_by_path_missing_segment_is_none() {
    let blob = board();
    let view = FdtView::from_blob(&blob).unwrap();
    assert!(view.node_by_path("/bus/uart@1000").is_none());
    assert!(view.node_by_path("/soc/spi").is_none());
    assert!(view.node_by_path("/soc/").is_none());
    assert!(view.node_by_path("///").is_none());
    assert!(view.node_by_path("").is_none());
}

#[test]
fn console_is_found_through_stdout_path() {
    let blob = board();
    let view = FdtView::from_blob(&blob).unwrap();
    let path = view
        .node_by_name("chosen")
        .unwrap()
        .prop_str("stdout-path")
        .unwrap();
    let console = view.node_by_path(path).unwrap();
    assert_eq!(console.name(), "uart@1000");
    assert_eq!(console.reg_u64(), Some(0x1000..0x1100));
    assert_eq!(console.prop_str("compatible"), Some("ns16550a"));
}

#[test]
fn phandle_prefers_shallower_node() {
    let blob = board();
    let view = FdtView::from_blob(&blob).unwrap();
    let five = view.node_by_phandle(BEu32::new([0, 0, 0, 5])).unwrap();
    assert_eq!(five.name(), "cpus");
    let seven = view.node_by_phandle(BEu32::new([0, 0, 0, 7])).unwrap();
    assert_eq!(seven.name(), "uart@1000");
    assert!(view.node_by_phandle(BEu32::new([0, 0, 0, 9])).is_none());
}

#[test]
fn phandle_search_goes_left_to_right() {
    let mut b = Builder::new();
    b.begin("a").begin("x").prop_cells("phandle", &[3]).end_node().end_node();
    b.begin("b").prop_cells("phandle", &[4]);
    b.begin("y").prop_cells("phandle", &[3]).end_node().end_node();
    let blob = b.blob();
    let view = FdtView::from_blob(&blob).unwrap();
    let found = [
        view.node_by_phandle(BEu32::new([0, 0, 0, 3])),
        view.node_by_phandle(BEu32::new([0, 0, 0, 4])),
    ];
    assert_eq!(
        names(&found),
        vec![Some("x".to_string()), Some("b".to_string())]
    );
}

#[test]
fn reg_u64_uses_parent_cells() {
    let mut b = Builder::new();
    b.begin("bus")
        .prop_cells("#address-cells", &[1])
        .prop_cells("#size-cells", &[1]);
    b.begin("dev").prop_cells("reg", &[0x1000, 0x100]).end_node();
    b.end_node();
    let blob = b.blob();
    let view = FdtView::from_blob(&blob).unwrap();
    let dev = view.node_by_path("/bus/dev").unwrap();
    assert_eq!(dev.parent_address_cells(), 1);
    assert_eq!(dev.parent_size_cells(), 1);
    assert_eq!(dev.reg_u64(), Some(0x1000..0x1100));
}

#[test]
fn reg_u64_with_default_cells() {
    let mut b = Builder::new();
    b.begin("memory@80000000")
        .prop_cells("reg", &[0x1, 0x8000_0000, 0x4000_0000])
        .end_node();
    let blob = b.blob();
    let view = FdtView::from_blob(&blob).unwrap();
    assert_eq!(view.address_cells(), 2);
    assert_eq!(view.size_cells(), 1);
    let mem = view.node_by_name("memory").unwrap();
    assert_eq!(mem.reg_u64(), Some(0x1_8000_0000..0x1_C000_0000));
}

#[test]
fn reg_u64_keeps_low_bits_of_wide_cells() {
    let mut b = Builder::new();
    b.prop_cells("#address-cells", &[3]).prop_cells("#size-cells", &[1]);
    b.begin("dev")
        .prop_cells("reg", &[0xAA, 0x1, 0x2, 0x10])
        .end_node();
    let blob = b.blob();
    let view = FdtView::from_blob(&blob).unwrap();
    let dev = view.node_by_name("dev").unwrap();
    assert_eq!(dev.reg_u64(), Some(0x1_0000_0002..0x1_0000_0012));
}

#[test]
fn reg_u64_short_or_missing_is_none() {
    let mut b = Builder::new();
    b.prop_cells("#address-cells", &[1]).prop_cells("#size-cells", &[1]);
    b.begin("short").prop_cells("reg", &[0x1000]).end_node();
    b.begin("none").end_node();
    b.begin("wrap").prop_cells("#x", &[0]).end_node();
    let blob = b.blob();
    let view = FdtView::from_blob(&blob).unwrap();
    assert!(view.node_by_name("short").unwrap().reg_u64().is_none());
    assert!(view.node_by_name("none").unwrap().reg_u64().is_none());
}

#[test]
fn reg_u64_overflowing_range_is_none() {
    let mut b = Builder::new();
    b.prop_cells("#address-cells", &[2]).prop_cells("#size-cells", &[2]);
    b.begin("dev")
        .prop_cells("reg", &[0xffff_ffff, 0xffff_f000, 0, 0x2000])
        .end_node();
    let blob = b.blob();
    let view = FdtView::from_blob(&blob).unwrap();
    assert!(view.node_by_name("dev").unwrap().reg_u64().is_none());
}

#[test]
fn typed_properties() {
    let mut b = Builder::new();
    b.begin("n")
        .prop_cells("one", &[0x11223344])
        .prop("two", &[1, 2, 3, 4, 5, 6])
        .prop("short", &[1, 2])
        .prop("bad-text", &[0xff, 0xfe, 0])
        .prop_cells("cells", &[7, 8, 9])
        .prop("ragged", &[0, 0, 0, 1, 0, 0])
        .end_node();
    let blob = b.blob();
    let view = FdtView::from_blob(&blob).unwrap();
    let n = view.node_by_name("n").unwrap();
    assert_eq!(n.prop_u32("one"), Some(0x11223344));
    assert_eq!(n.prop_u32("two"), Some(0x01020304));
    assert_eq!(n.prop_u32("short"), None);
    assert_eq!(n.prop_phandle("one"), Some(BEu32::new([0x11, 0x22, 0x33, 0x44])));
    assert_eq!(n.prop_phandle("two"), None);
    assert_eq!(n.prop_str("bad-text"), None);
    assert_eq!(n.prop_raw("missing"), None);
    assert_eq!(n.prop_u32("missing"), None);
    let mut cells = n.prop_cells("cells").unwrap();
    assert_eq!(cells.next(), Some(7));
    assert_eq!(cells.next(), Some(8));
    assert_eq!(cells.next(), Some(9));
    assert_eq!(cells.next(), None);
    let mut again = n.prop_cells("cells").unwrap();
    assert_eq!(again.next(), Some(7));
    let mut ragged = n.prop_cells("ragged").unwrap();
    assert_eq!(ragged.next(), Some(1));
    assert_eq!(ragged.next(), None);
    assert!(n.prop_cells("missing").is_none());
}

#[test]
fn properties_after_a_child_are_not_the_nodes_own() {
    let mut b = Builder::new();
    b.begin("p").begin("c").end_node().prop_cells("late", &[1]).end_node();
    let blob = b.blob();
    let view = FdtView::from_blob(&blob).unwrap();
    let p = view.node_by_name("p").unwrap();
    assert_eq!(p.prop_u32("late"), None);
    assert_eq!(p.shallow_prop_u32("late"), None);
}

#[test]
fn shallow_and_streamed_property_reads_agree() {
    let blob = board();
    let view = FdtView::from_blob(&blob).unwrap();
    let uart = view.node_by_path("/soc/uart@1000").unwrap();
    for name in ["reg", "compatible", "phandle", "missing"] {
        assert_eq!(uart.prop_raw(name), uart.shallow_prop_raw(name));
    }
}

#[test]
fn cells_are_inherited_from_the_parent() {
    let blob = board();
    let view = FdtView::from_blob(&blob).unwrap();
    let soc = view.node_by_name("soc").unwrap();
    assert_eq!(soc.parent_address_cells(), 1);
    assert_eq!(soc.address_cells(), 1);
    let uart = soc.node_by_name("uart").unwrap();
    assert_eq!(uart.address_cells(), 1);
    assert_eq!(uart.size_cells(), 1);
}

#[test]
fn nop_tokens_are_skipped() {
    let mut b = Builder::new();
    b.word(NOP).begin("a").word(NOP).prop_cells("v", &[3]).end_node().word(NOP);
    b.begin("b").end_node();
    let blob = b.blob();
    let view = FdtView::from_blob(&blob).unwrap();
    assert_eq!(view.node_by_name("a").unwrap().prop_u32("v"), Some(3));
    assert_eq!(view.node_by_name("b").unwrap().name(), "b");
}

#[test]
fn stream_yields_immediate_children_in_order() {
    let blob = board();
    let view = FdtView::from_blob(&blob).unwrap();
    let mut stream = view.stream();
    let mut seen = Vec::new();
    while let Some(node) = stream.next_node() {
        seen.push(node.name().to_string());
    }
    assert_eq!(seen, vec!["chosen", "soc", "cpus"]);
    assert!(stream.next_node().is_none());
}

#[test]
fn stream_primitives() {
    let tape = [0, 0, 0, 3, b'a', b'b', 0, 0, 0, 0, 0, 1];
    let strings = b"x\0yz\0";
    let mut s = FdtStream::new(&tape, strings, 2, 1);
    assert_eq!(s.next_u32(), Some(3));
    assert_eq!(s.next_str(), Some("ab"));
    assert_eq!(s.next_u32(), Some(1));
    assert_eq!(s.next_u32(), None);
    assert_eq!(s.string_at_off(2), Some("yz"));
    assert_eq!(s.string_at_off(0), Some("x"));
    assert_eq!(s.string_at_off(5), None);
}

#[test]
fn truncated_node_is_not_yielded() {
    let mut b = Builder::new();
    b.begin("open").prop_cells("v", &[1]);
    let blob = b.blob();
    let view = FdtView::from_blob(&blob).unwrap();
    assert!(view.node_by_name("open").is_none());
}

#[test]
fn invalid_utf8_name_ends_the_walk() {
    let mut b = Builder::new();
    b.word(BEGIN_NODE);
    b.structure.extend_from_slice(&[0xff, 0xfe, 0, 0]);
    b.end_node();
    b.begin("later").end_node();
    let blob = b.blob();
    let view = FdtView::from_blob(&blob).unwrap();
    assert!(view.node_by_name("later").is_none());
}

#[test]
fn next_str_pads_past_the_end_of_the_tape() {
    let tape = *b"cpus\0";
    let mut s = FdtStream::new(&tape, b"", 2, 1);
    assert_eq!(s.next_str(), Some("cpus"));
    assert_eq!(s.next_u32(), None);
}

#[test]
fn next_str_without_terminator_fails() {
    let tape = *b"cpus";
    let mut s = FdtStream::new(&tape, b"", 2, 1);
    assert_eq!(s.next_str(), None);
    assert_eq!(s.next_u32(), Some(u32::from_be_bytes(*b"cpus")));
}

#[test]
fn skip_prop_pads_past_the_end_of_the_tape() {
    let tape = [0, 0, 0, 1, 0, 0, 0, 0, 0x41];
    let mut s = FdtStream::new(&tape, b"", 2, 1);
    assert_eq!(s.skip_prop(), Some(()));
    assert_eq!(s.next_u32(), None);
}

#[test]
fn skip_prop_with_payload_past_the_end_fails() {
    let tape = [0, 0, 0, 2, 0, 0, 0, 0, 0x41];
    let mut s = FdtStream::new(&tape, b"", 2, 1);
    assert_eq!(s.skip_prop(), None);
    assert_eq!(s.next_u32(), Some(2));
}
