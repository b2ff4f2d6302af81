//! The meaning of a flattened devicetree's structure block, as spec functions
//! over byte sequences. Offsets are relative to the start of the tape they
//! index; every reader and query in this crate is proved against these.

use crate::align::align_up_spec;
use crate::inttypes::{be_u32_at, be_u64_at};
use vstd::prelude::*;
use vstd::string::StringSliceAdditionalSpecFns;
use vstd::utf8::valid_utf8;

verus! {

/// Token that opens a node; followed by its NUL-terminated name.
pub const FDT_BEGIN_NODE: u32 = 0x1;

/// Token that closes a node.
pub const FDT_END_NODE: u32 = 0x2;

/// Token that introduces a property: payload length, name offset, payload.
pub const FDT_PROP: u32 = 0x3;

/// Token with no meaning; skipped.
pub const FDT_NOP: u32 = 0x4;

/// Token that ends the structure block.
pub const FDT_END: u32 = 0x9;

/// The byte `/`, which separates path segments.
pub const SLASH: u8 = 0x2f;

/// The byte `@`, which separates a node name from its unit address.
pub const AT: u8 = 0x40;

/// `x` rounded up to a multiple of four.
pub open spec fn align4(x: int) -> int {
    align_up_spec(x, 4)
}

/// The first index at or after `from` at which `s` holds `b`.
pub open spec fn find_byte(s: Seq<u8>, b: u8, from: int) -> Option<int>
    decreases s.len() - from,
{
    if 0 <= from < s.len() {
        if s[from] == b {
            Some(from)
        } else {
            find_byte(s, b, from + 1)
        }
    } else {
        None
    }
}

/// `find_byte` gives the first index at or after `from` that holds `b`.
pub proof fn lemma_find_byte(s: Seq<u8>, b: u8, from: int)
    requires
        0 <= from,
    ensures
        match find_byte(s, b, from) {
            Some(i) => from <= i < s.len() && s[i] == b && forall|k: int|
                from <= k < i ==> s[k] != b,
            None => forall|k: int| from <= k < s.len() ==> s[k] != b,
        },
    decreases s.len() - from,
{
    if from < s.len() && s[from] != b {
        lemma_find_byte(s, b, from + 1);
    }
}

/// The NUL-terminated UTF-8 string that starts at `off`, without its NUL.
pub open spec fn cstr_at(s: Seq<u8>, off: int) -> Option<Seq<u8>> {
    match find_byte(s, 0, off) {
        Some(e) => if valid_utf8(s.subrange(off, e)) {
            Some(s.subrange(off, e))
        } else {
            None
        },
        None => None,
    }
}

/// The word at `off`, if four bytes are there.
pub open spec fn word_at(t: Seq<u8>, off: int) -> Option<u32> {
    if 0 <= off && off + 4 <= t.len() {
        Some(be_u32_at(t, off))
    } else {
        None
    }
}

/// A node name that starts at `off`, and the offset after its NUL rounded up
/// to four bytes. The padding may pass the end of the tape; nothing can be
/// read from there.
pub open spec fn read_name(t: Seq<u8>, off: int) -> Option<(Seq<u8>, int)> {
    match cstr_at(t, off) {
        Some(name) => Some((name, align4(off + name.len() + 1))),
        None => None,
    }
}

/// The offset after a property whose token ends at `off`: its length and
/// name offset, then its payload padded to four bytes. The length, name
/// offset and payload must lie inside the tape; the padding may pass its end.
pub open spec fn skip_prop_at(t: Seq<u8>, off: int) -> Option<int> {
    if 0 <= off && off + 8 <= t.len() && off + 8 + be_u32_at(t, off) <= t.len() {
        Some(align4(off + 8 + be_u32_at(t, off)))
    } else {
        None
    }
}

/// Scanning from `off`, inside `depth` open nodes: the offset of the
/// END_NODE token that closes the outermost of them, and the offset after it.
pub open spec fn node_end(t: Seq<u8>, off: int, depth: nat) -> Option<(int, int)>
    decreases t.len() + 4 - off,
{
    if 0 <= off && off + 4 <= t.len() && depth > 0 {
        let tok = be_u32_at(t, off);
        let p = off + 4;
        if tok == FDT_BEGIN_NODE {
            match read_name(t, p) {
                Some((_, q)) => {
                    proof {
                        lemma_find_byte(t, 0, p);
                    }
                    node_end(t, q, depth + 1)
                },
                None => None,
            }
        } else if tok == FDT_END_NODE {
            if depth == 1 {
                Some((off, p))
            } else {
                node_end(t, p, (depth - 1) as nat)
            }
        } else if tok == FDT_PROP {
            match skip_prop_at(t, p) {
                Some(q) => node_end(t, q, depth),
                None => None,
            }
        } else if tok == FDT_END {
            None
        } else {
            node_end(t, p, depth)
        }
    } else {
        None
    }
}

/// The closing token that `node_end` finds lies inside the tape, at or
/// after where the scan began.
pub proof fn lemma_node_end(t: Seq<u8>, off: int, depth: nat)
    ensures
        node_end(t, off, depth) matches Some((close, after)) ==> 0 <= off <= close && after
            == close + 4 && after <= t.len(),
    decreases t.len() + 4 - off,
{
    if 0 <= off && off + 4 <= t.len() && depth > 0 {
        let tok = be_u32_at(t, off);
        let p = off + 4;
        if tok == FDT_BEGIN_NODE {
            if let Some((_, q)) = read_name(t, p) {
                lemma_find_byte(t, 0, p);
                lemma_node_end(t, q, depth + 1);
            }
        } else if tok == FDT_END_NODE {
            if depth != 1 {
                lemma_node_end(t, p, (depth - 1) as nat);
            }
        } else if tok == FDT_PROP {
            if let Some(q) = skip_prop_at(t, p) {
                lemma_node_end(t, q, depth);
            }
        } else if tok != FDT_END {
            lemma_node_end(t, p, depth);
        }
    }
}

/// Where the iterator found a child: its name and the bounds of its body.
pub struct ChildSpan {
    pub name: Seq<u8>,
    pub start: int,
    pub end: int,
}

/// The first child that begins at `off` or after it on the same level, and the
/// offset after the token that closes it. Properties before it are skipped;
/// an END token, or anything malformed on the way, ends the walk.
pub open spec fn next_child(t: Seq<u8>, off: int) -> Option<(ChildSpan, int)>
    decreases t.len() + 4 - off,
{
    if 0 <= off && off + 4 <= t.len() {
        let tok = be_u32_at(t, off);
        let p = off + 4;
        if tok == FDT_BEGIN_NODE {
            match read_name(t, p) {
                Some((name, q)) => match node_end(t, q, 1) {
                    Some((close, after)) => Some((ChildSpan { name, start: q, end: close }, after)),
                    None => None,
                },
                None => None,
            }
        } else if tok == FDT_PROP {
            match skip_prop_at(t, p) {
                Some(q) => next_child(t, q),
                None => None,
            }
        } else if tok == FDT_END {
            None
        } else {
            next_child(t, p)
        }
    } else {
        None
    }
}

/// A child's body lies after the token and name that open it, and the
/// cursor after it lies past its closing token, inside the tape.
pub proof fn lemma_next_child(t: Seq<u8>, off: int)
    ensures
        next_child(t, off) matches Some((c, after)) ==> 0 <= off && off + 4 < c.start <= c.end
            && after == c.end + 4 && after <= t.len(),
    decreases t.len() + 4 - off,
{
    if 0 <= off && off + 4 <= t.len() {
        let tok = be_u32_at(t, off);
        let p = off + 4;
        if tok == FDT_BEGIN_NODE {
            if let Some((name, q)) = read_name(t, p) {
                lemma_node_end(t, q, 1);
            }
        } else if tok == FDT_PROP {
            if let Some(q) = skip_prop_at(t, p) {
                lemma_next_child(t, q);
            }
        } else if tok != FDT_END {
            lemma_next_child(t, p);
        }
    }
}

/// Nothing is found from an offset where no token fits: past the end of the
/// tape, where the padding of a name or payload may leave the cursor.
pub proof fn lemma_past_end(t: Seq<u8>, strs: Seq<u8>, target: Seq<u8>)
    ensures
        forall|off: int, d: nat| off + 4 > t.len() ==> #[trigger] node_end(t, off, d) is None,
        forall|off: int| off + 4 > t.len() ==> #[trigger] next_child(t, off) is None,
        forall|off: int| off + 4 > t.len() ==> #[trigger] prop_from(t, strs, off, target) is None,
{
}

/// A devicetree entity as the query engine sees it: its tokens, the string
/// table, and the cell counts it inherits from its parent.
pub struct Entity {
    pub data: Seq<u8>,
    pub strings: Seq<u8>,
    pub paddr: u32,
    pub psize: u32,
}

/// A node handle: its name and the entity it stands for.
pub struct NodeModel {
    pub name: Seq<u8>,
    pub entity: Entity,
}

/// What a stream over an entity walks: its tokens, the string table, and the
/// cell counts that the children it yields inherit.
pub struct Tape {
    pub tape: Seq<u8>,
    pub strings: Seq<u8>,
    pub acells: u32,
    pub scells: u32,
}

/// The payload of the first property named `target` among those that open
/// the tape at `off`, before any node begins or ends.
pub open spec fn prop_from(t: Seq<u8>, strs: Seq<u8>, off: int, target: Seq<u8>) -> Option<
    Seq<u8>,
>
    decreases t.len() + 4 - off,
{
    if 0 <= off && off + 4 <= t.len() {
        let tok = be_u32_at(t, off);
        let p = off + 4;
        if tok == FDT_PROP {
            if p + 8 <= t.len() {
                let len = be_u32_at(t, p);
                match cstr_at(strs, be_u32_at(t, p + 4) as int) {
                    Some(name) => if name == target {
                        if p + 8 + len <= t.len() {
                            Some(t.subrange(p + 8, p + 8 + len))
                        } else {
                            None
                        }
                    } else {
                        match skip_prop_at(t, p) {
                            Some(q) => prop_from(t, strs, q, target),
                            None => None,
                        }
                    },
                    None => None,
                }
            } else {
                None
            }
        } else if tok == FDT_BEGIN_NODE || tok == FDT_END_NODE {
            None
        } else {
            prop_from(t, strs, p, target)
        }
    } else {
        None
    }
}

/// The first four bytes of a payload as a big-endian word.
pub open spec fn payload_u32(v: Option<Seq<u8>>) -> Option<u32> {
    match v {
        Some(b) => if b.len() >= 4 {
            Some(be_u32_at(b, 0))
        } else {
            None
        },
        None => None,
    }
}

/// The name of the property that declares a node's address cell count.
pub open spec fn address_cells_key() -> Seq<u8> {
    "#address-cells".spec_bytes()
}

/// The name of the property that declares a node's size cell count.
pub open spec fn size_cells_key() -> Seq<u8> {
    "#size-cells".spec_bytes()
}

/// The name of the property that holds a node's phandle.
pub open spec fn phandle_key() -> Seq<u8> {
    "phandle".spec_bytes()
}

/// The name of the property that holds a node's address ranges.
pub open spec fn reg_key() -> Seq<u8> {
    "reg".spec_bytes()
}

impl Entity {
    /// The payload of the property `name` among the entity's own properties.
    pub open spec fn prop(self, name: Seq<u8>) -> Option<Seq<u8>> {
        prop_from(self.data, self.strings, 0, name)
    }

    /// The property `name` read as a 32-bit integer.
    pub open spec fn prop_u32(self, name: Seq<u8>) -> Option<u32> {
        payload_u32(self.prop(name))
    }

    /// `#address-cells` of the entity, or the inherited count.
    pub open spec fn address_cells(self) -> u32 {
        match self.prop_u32(address_cells_key()) {
            Some(c) => c,
            None => self.paddr,
        }
    }

    /// `#size-cells` of the entity, or the inherited count.
    pub open spec fn size_cells(self) -> u32 {
        match self.prop_u32(size_cells_key()) {
            Some(c) => c,
            None => self.psize,
        }
    }

    /// What a stream over the entity walks.
    pub open spec fn tape(self) -> Tape {
        Tape {
            tape: self.data,
            strings: self.strings,
            acells: self.address_cells(),
            scells: self.size_cells(),
        }
    }
}

impl Tape {
    /// The node handle that the iterator makes of a child span.
    pub open spec fn child(self, c: ChildSpan) -> NodeModel {
        NodeModel {
            name: c.name,
            entity: Entity {
                data: self.tape.subrange(c.start, c.end),
                strings: self.strings,
                paddr: self.acells,
                psize: self.scells,
            },
        }
    }

    /// The children that the iterator yields from `off` on, in order.
    pub open spec fn children_from(self, off: int) -> Seq<NodeModel>
        decreases self.tape.len() + 4 - off,
    {
        match next_child(self.tape, off) {
            Some((c, after)) => {
                proof {
                    lemma_next_child(self.tape, off);
                }
                seq![self.child(c)] + self.children_from(after)
            },
            None => Seq::empty(),
        }
    }

    /// The immediate children, in order.
    pub open spec fn children(self) -> Seq<NodeModel> {
        self.children_from(0)
    }
}

/// Each child found from `off` on has a body shorter than what is left of
/// the tape from `off`.
pub proof fn lemma_children_shorter(t: Tape, off: int)
    requires
        0 <= off,
    ensures
        forall|i: int|
            0 <= i < t.children_from(off).len() ==> #[trigger] t.children_from(off)[i].entity.data.len()
                < t.tape.len() - off,
    decreases t.tape.len() + 4 - off,
{
    lemma_next_child(t.tape, off);
    if let Some((c, after)) = next_child(t.tape, off) {
        lemma_children_shorter(t, after);
        let cs = t.children_from(off);
        assert forall|i: int| 0 <= i < cs.len() implies #[trigger] cs[i].entity.data.len()
            < t.tape.len() - off by {
            if i > 0 {
                assert(cs[i] == t.children_from(after)[i - 1]);
            }
        }
    }
}

/// A payload without the one trailing NUL it may end with.
pub open spec fn strip_nul(q: Seq<u8>) -> Seq<u8> {
    if q.len() > 0 && q.last() == 0 {
        q.drop_last()
    } else {
        q
    }
}

/// A node name without its unit address: what comes before the first `@`.
pub open spec fn unit_base(name: Seq<u8>) -> Seq<u8> {
    match find_byte(name, AT, 0) {
        Some(i) => name.subrange(0, i),
        None => name,
    }
}

/// A node named `name` answers the query `q`: the names are equal, or they
/// are once the node's unit address is left out.
pub open spec fn name_matches(name: Seq<u8>, q: Seq<u8>) -> bool {
    name == q || unit_base(name) == q
}

/// The first node in `cs` that answers the query `q`.
pub open spec fn first_named(cs: Seq<NodeModel>, q: Seq<u8>) -> Option<NodeModel>
    decreases cs.len(),
{
    if cs.len() == 0 {
        None
    } else if name_matches(cs[0].name, q) {
        Some(cs[0])
    } else {
        first_named(cs.drop_first(), q)
    }
}

/// A node carries the phandle `id`.
pub open spec fn has_phandle(n: NodeModel, id: u32) -> bool {
    n.entity.prop_u32(phandle_key()) == Some(id)
}

/// The first node in `cs` that carries the phandle `id`.
pub open spec fn first_with_phandle(cs: Seq<NodeModel>, id: u32) -> Option<NodeModel>
    decreases cs.len(),
{
    if cs.len() == 0 {
        None
    } else if has_phandle(cs[0], id) {
        Some(cs[0])
    } else {
        first_with_phandle(cs.drop_first(), id)
    }
}

/// A path without its leading slashes.
pub open spec fn strip_slashes(p: Seq<u8>) -> Seq<u8>
    decreases p.len(),
{
    if p.len() > 0 && p[0] == SLASH {
        strip_slashes(p.drop_first())
    } else {
        p
    }
}

/// What `strip_slashes` leaves is a suffix of the path, after slashes only,
/// and does not itself start with a slash.
pub proof fn lemma_strip_slashes(p: Seq<u8>)
    ensures
        strip_slashes(p).len() <= p.len(),
        strip_slashes(p) == p.subrange(p.len() - strip_slashes(p).len(), p.len() as int),
        strip_slashes(p).len() > 0 ==> strip_slashes(p)[0] != SLASH,
        forall|k: int| 0 <= k < p.len() - strip_slashes(p).len() ==> p[k] == SLASH,
    decreases p.len(),
{
    if p.len() > 0 && p[0] == SLASH {
        lemma_strip_slashes(p.drop_first());
        assert(p.drop_first().subrange(
            p.drop_first().len() - strip_slashes(p).len(),
            p.drop_first().len() as int,
        ) =~= p.subrange(p.len() - strip_slashes(p).len(), p.len() as int));
        assert forall|k: int| 0 <= k < p.len() - strip_slashes(p).len() implies p[k] == SLASH by {
            if k > 0 {
                assert(p[k] == p.drop_first()[k - 1]);
            }
        }
    } else {
        assert(p.subrange(0, p.len() as int) =~= p);
    }
}

impl Tape {
    /// The first immediate child that answers the query `q`.
    pub open spec fn node_named(self, q: Seq<u8>) -> Option<NodeModel> {
        first_named(self.children(), q)
    }

    /// The node that a slash-separated path leads to, leading slashes aside:
    /// the child named by the first segment, then the rest of the path from
    /// there. An empty path, or an empty last segment, leads nowhere.
    pub open spec fn node_at_path(self, path: Seq<u8>) -> Option<NodeModel>
        decreases path.len(),
    {
        let p = strip_slashes(path);
        if p.len() == 0 {
            None
        } else {
            match find_byte(p, SLASH, 0) {
                None => self.node_named(p),
                Some(j) => match self.node_named(p.subrange(0, j)) {
                    Some(n) => {
                        proof {
                            lemma_strip_slashes(path);
                            lemma_find_byte(p, SLASH, 0);
                        }
                        n.entity.tape().node_at_path(p.subrange(j + 1, p.len() as int))
                    },
                    None => None,
                },
            }
        }
    }
}

impl Tape {
    /// The node with phandle `id` found depth first: the first immediate child
    /// that carries it, else the first hit in the children's subtrees, taken
    /// in order.
    pub open spec fn node_with_phandle(self, id: u32) -> Option<NodeModel>
        decreases self.tape.len(), self.children().len() + 1,
    {
        match first_with_phandle(self.children(), id) {
            Some(n) => Some(n),
            None => self.phandle_below(id, 0),
        }
    }

    /// The first hit of the phandle search in the subtrees of the children
    /// from the `i`-th on.
    pub open spec fn phandle_below(self, id: u32, i: int) -> Option<NodeModel>
        decreases self.tape.len(), self.children().len() - i,
    {
        if 0 <= i < self.children().len() {
            proof {
                lemma_children_shorter(self, 0);
            }
            match self.children()[i].entity.tape().node_with_phandle(id) {
                Some(n) => Some(n),
                None => self.phandle_below(id, i + 1),
            }
        } else {
            None
        }
    }
}

/// `n` big-endian words of `b`, the first at `off`.
pub open spec fn words_from(b: Seq<u8>, off: int, n: int) -> Seq<u32> {
    Seq::new(n as nat, |i: int| be_u32_at(b, off + 4 * i))
}

/// Cells combined big-endian into 64 bits: each cell shifts the value so far
/// up by 32 bits, so only the low 64 bits of the whole survive.
pub open spec fn fold_cells(cs: Seq<u32>) -> u64
    decreases cs.len(),
{
    if cs.len() == 0 {
        0
    } else {
        ((fold_cells(cs.drop_last()) as int % 0x1_0000_0000) * 0x1_0000_0000 + cs.last() as int) as u64
    }
}

/// A property payload read as text: its bytes without one trailing NUL.
pub open spec fn prop_text(v: Seq<u8>) -> Seq<u8> {
    strip_nul(v)
}

/// The base and size that a node's `reg` property gives, read with the cell
/// counts the node inherits: none unless both counts are positive, the
/// payload holds that many cells, and base plus size fits in 64 bits.
pub open spec fn reg_range(e: Entity) -> Option<(u64, u64)> {
    match e.prop(reg_key()) {
        Some(v) => {
            let na = e.paddr as int;
            let ns = e.psize as int;
            if 0 < na && 0 < ns && 4 * (na + ns) <= v.len() {
                let base = fold_cells(words_from(v, 0, na));
                let size = fold_cells(words_from(v, 4 * na, ns));
                if base + size <= u64::MAX {
                    Some((base, size))
                } else {
                    None
                }
            } else {
                None
            }
        },
        None => None,
    }
}

/// The magic number that opens every devicetree blob.
pub const FDT_MAGIC: u32 = 0xD00D_FEED;

/// The size of the blob header: ten big-endian words.
pub const FDT_HEADER_SIZE: usize = 40;

/// Why a blob was refused.
#[derive(PartialEq, Eq, Structural, Debug, Clone, Copy)]
pub enum FdtError {
    /// The blob is shorter than its header, or than the size it declares.
    Truncated,
    /// The header does not open with the devicetree magic number.
    BadMagic,
    /// A block lies outside the blob, or the reservation list has no end.
    OutOfBounds,
}

/// The `i`-th word of the blob header.
pub open spec fn header_word(b: Seq<u8>, i: int) -> u32 {
    be_u32_at(b, 4 * i)
}

/// Scanning the memory reservation list from `off`: the offset of the
/// (0, 0) pair that ends it.
pub open spec fn rsv_end(data: Seq<u8>, off: int) -> Option<int>
    decreases data.len() - off,
{
    if 0 <= off && off + 16 <= data.len() {
        if be_u64_at(data, off) == 0 && be_u64_at(data, off + 8) == 0 {
            Some(off)
        } else {
            rsv_end(data, off + 16)
        }
    } else {
        None
    }
}

/// The four parts of a blob that a view keeps.
pub struct ViewModel {
    pub data: Seq<u8>,
    pub dt_struct: Seq<u8>,
    pub dt_strings: Seq<u8>,
    pub rsvmap: Seq<u8>,
}

/// What reading a blob gives: its header must be whole and open with the
/// magic number; the blob is cut to the size it declares; the structure and
/// string blocks must lie inside that, and the reservation list must end
/// there.
pub open spec fn parse_blob(b: Seq<u8>) -> Result<ViewModel, FdtError> {
    if b.len() < FDT_HEADER_SIZE {
        Err(FdtError::Truncated)
    } else if header_word(b, 0) != FDT_MAGIC {
        Err(FdtError::BadMagic)
    } else if header_word(b, 1) > b.len() {
        Err(FdtError::Truncated)
    } else {
        let data = b.subrange(0, header_word(b, 1) as int);
        let st = header_word(b, 2) as int;
        let st_len = header_word(b, 9) as int;
        let sg = header_word(b, 3) as int;
        let sg_len = header_word(b, 8) as int;
        let rsv = header_word(b, 4) as int;
        if st + st_len > data.len() || sg + sg_len > data.len() {
            Err(FdtError::OutOfBounds)
        } else {
            match rsv_end(data, rsv) {
                Some(e) => Ok(
                    ViewModel {
                        data,
                        dt_struct: data.subrange(st, st + st_len),
                        dt_strings: data.subrange(sg, sg + sg_len),
                        rsvmap: data.subrange(rsv, e),
                    },
                ),
                None => Err(FdtError::OutOfBounds),
            }
        }
    }
}

} // verus!
