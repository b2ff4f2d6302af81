//! Reading and querying a flattened devicetree blob.

pub mod laws;
pub mod model;

pub use model::FdtError;

use crate::align::{align_up, lemma_align_four_past_max, lemma_small_pow2};
use crate::inttypes::{be_u32_at, be_u64_at, BEu32, BEu64};
use core::ops::Range;
use model::{
    align4, cstr_at, find_byte, first_named, first_with_phandle, fold_cells, has_phandle,
    header_word, lemma_children_shorter, lemma_find_byte, lemma_next_child, lemma_node_end,
    lemma_past_end, lemma_strip_slashes, name_matches, next_child, node_end, parse_blob,
    payload_u32, prop_from, prop_text, read_name, reg_range, rsv_end, skip_prop_at, strip_slashes,
    unit_base, word_at, words_from, AT, Entity, FDT_BEGIN_NODE, FDT_END, FDT_END_NODE,
    FDT_HEADER_SIZE, FDT_MAGIC, FDT_PROP, NodeModel, SLASH, Tape, ViewModel,
};
use vstd::prelude::*;
use vstd::slice::slice_subrange;
use vstd::string::StringSliceAdditionalSpecFns;
use vstd::utf8::valid_utf8;

verus! {

/// Relies on `core::str::from_utf8`: it accepts exactly the valid UTF-8 byte
/// sequences, and the string it returns is made of those bytes.
#[verifier::external_body]
fn str_from_utf8<'a>(b: &'a [u8]) -> (r: Option<&'a str>)
    ensures
        r is Some <==> valid_utf8(b@),
        r matches Some(s) ==> s.spec_bytes() == b@,
{
    core::str::from_utf8(b).ok()
}

/// The two byte strings are equal.
fn bytes_eq(a: &[u8], b: &[u8]) -> (r: bool)
    ensures
        r == (a@ == b@),
{
    if a.len() != b.len() {
        return false;
    }
    let mut i: usize = 0;
    while i < a.len()
        invariant
            a@.len() == b@.len(),
            0 <= i <= a@.len(),
            forall|k: int| 0 <= k < i ==> a@[k] == b@[k],
        decreases a@.len() - i,
    {
        if a[i] != b[i] {
            return false;
        }
        i = i + 1;
    }
    assert(a@ =~= b@);
    true
}

/// The big-endian word at `off`, if the tape holds four bytes there.
fn read_from_tape_u32(tape: &[u8], off: usize) -> (r: Option<u32>)
    ensures
        r == word_at(tape@, off as int),
{
    if tape.len() < 4 || off > tape.len() - 4 {
        return None;
    }
    Some(BEu32::new([tape[off], tape[off + 1], tape[off + 2], tape[off + 3]]).get())
}

/// `x` rounded up to a multiple of four, if that fits in a `usize`.
fn align4_fit(x: usize) -> (r: Option<usize>)
    ensures
        r == (if align4(x as int) <= usize::MAX {
            Some(align4(x as int) as usize)
        } else {
            None::<usize>
        }),
{
    if x > usize::MAX - 3 {
        proof {
            lemma_align_four_past_max(x as int);
        }
        return None;
    }
    proof {
        lemma_small_pow2();
    }
    Some(align_up(x, 4))
}

/// The NUL-terminated UTF-8 string that starts at `off` in `s`.
fn cstr_in<'a>(s: &'a [u8], off: usize) -> (r: Option<&'a str>)
    ensures
        match cstr_at(s@, off as int) {
            Some(n) => r matches Some(x) && x.spec_bytes() == n,
            None => r is None,
        },
{
    proof {
        lemma_find_byte(s@, 0, off as int);
    }
    let mut end = off;
    while end < s.len() && s[end] != 0
        invariant
            off <= end,
            forall|k: int| off <= k < end ==> s@[k] != 0,
        decreases s@.len() - end,
    {
        end = end + 1;
    }
    if end >= s.len() {
        return None;
    }
    str_from_utf8(slice_subrange(s, off, end))
}

/// Where a stream stands: what it walks, and its cursor.
pub struct StreamState {
    pub tape: Tape,
    pub off: int,
}

impl StreamState {
    /// The cursor and the length of the tape are machine offsets.
    pub open spec fn fits(self) -> bool {
        0 <= self.off <= usize::MAX && self.tape.tape.len() <= usize::MAX
    }
}

/// A cursor over the tokens of one devicetree entity.
pub struct FdtStream<'a> {
    tape: &'a [u8],
    strings: &'a [u8],
    off: usize,
    paddr_cells: u32,
    psize_cells: u32,
}

impl<'a> View for FdtStream<'a> {
    type V = StreamState;

    closed spec fn view(&self) -> StreamState {
        StreamState {
            tape: Tape {
                tape: self.tape@,
                strings: self.strings@,
                acells: self.paddr_cells,
                scells: self.psize_cells,
            },
            off: self.off as int,
        }
    }
}

impl<'a> FdtStream<'a> {
    /// A stream at the start of `tape`, whose nodes inherit `addr` address
    /// cells and `size` size cells.
    pub fn new(tape: &'a [u8], strings: &'a [u8], addr: u32, size: u32) -> (r: Self)
        ensures
            r@ == (StreamState {
                tape: Tape { tape: tape@, strings: strings@, acells: addr, scells: size },
                off: 0,
            }),
            r@.fits(),
    {
        assert(tape@.len() == tape.len());
        FdtStream { tape, strings, off: 0, paddr_cells: addr, psize_cells: size }
    }

    /// Read the word under the cursor and move past it.
    pub fn next_u32(&mut self) -> (r: Option<u32>)
        ensures
            r == word_at(old(self)@.tape.tape, old(self)@.off),
            final(self)@.tape == old(self)@.tape,
            final(self)@.fits(),
            final(self)@.off == (if r is Some {
                old(self)@.off + 4
            } else {
                old(self)@.off
            }),
    {
        assert(self.tape@.len() == self.tape.len());
        let r = read_from_tape_u32(self.tape, self.off);
        if let Some(_) = r {
            assert(self.off + 4 <= self.tape.len());
            self.off = self.off + 4;
        }
        r
    }

    /// Read the NUL-terminated name under the cursor and move to the aligned
    /// offset after it.
    pub fn next_str(&mut self) -> (r: Option<&'a str>)
        ensures
            final(self)@.tape == old(self)@.tape,
            final(self)@.fits(),
            match read_name(old(self)@.tape.tape, old(self)@.off) {
                Some((name, q)) => if q <= usize::MAX {
                    r matches Some(s) && s.spec_bytes() == name && final(self)@.off == q
                } else {
                    r is None && final(self)@.off == old(self)@.off
                },
                None => r is None && final(self)@.off == old(self)@.off,
            },
            r is Some ==> final(self)@.off <= final(self)@.tape.tape.len() + 3,
    {
        assert(self.tape@.len() == self.tape.len());
        proof {
            lemma_find_byte(self.tape@, 0, self.off as int);
        }
        let s = match cstr_in(self.tape, self.off) {
            Some(s) => s,
            None => return None,
        };
        proof {
            let e = find_byte(self.tape@, 0, self.off as int)->Some_0;
            assert(s.spec_bytes().len() == e - self.off);
            assert(e < self.tape.len());
        }
        let end = self.off + s.as_bytes().len();
        match align4_fit(end + 1) {
            Some(q) => {
                self.off = q;
                Some(s)
            },
            None => None,
        }
    }

    /// Move past the property whose token was just read: its length, its
    /// name offset and its padded payload.
    pub fn skip_prop(&mut self) -> (r: Option<()>)
        ensures
            final(self)@.tape == old(self)@.tape,
            final(self)@.fits(),
            match skip_prop_at(old(self)@.tape.tape, old(self)@.off) {
                Some(q) => if q <= usize::MAX {
                    r is Some && final(self)@.off == q
                } else {
                    r is None && final(self)@.off == old(self)@.off
                },
                None => r is None && final(self)@.off == old(self)@.off,
            },
            r is Some ==> final(self)@.off <= final(self)@.tape.tape.len() + 3,
    {
        assert(self.tape@.len() == self.tape.len());
        let start = self.off;
        let len = match self.next_u32() {
            Some(len) => len,
            None => return None,
        };
        if self.next_u32().is_none() {
            self.off = start;
            return None;
        }
        if len as usize > self.tape.len() - self.off {
            self.off = start;
            return None;
        }
        match align4_fit(self.off + len as usize) {
            Some(q) => {
                self.off = q;
                Some(())
            },
            None => {
                self.off = start;
                None
            },
        }
    }

    /// The string that starts at `off` in the string table.
    pub fn string_at_off(&self, off: usize) -> (r: Option<&'a str>)
        ensures
            match cstr_at(self@.tape.strings, off as int) {
                Some(n) => r matches Some(s) && s.spec_bytes() == n,
                None => r is None,
            },
    {
        cstr_in(self.strings, off)
    }

    /// From just after a node's name, find the END_NODE token that closes the
    /// node: return its offset and move past it.
    pub fn node_end_off(&mut self) -> (r: Option<usize>)
        ensures
            final(self)@.tape == old(self)@.tape,
            final(self)@.fits(),
            match node_end(old(self)@.tape.tape, old(self)@.off, 1) {
                Some((close, after)) => r == Some(close as usize) && final(self)@.off == after,
                None => r is None && final(self)@.off == old(self)@.off,
            },
    {
        if self.off > self.tape.len() {
            return None;
        }
        let start = self.off;
        let mut depth: usize = 1;
        loop
            invariant
                self@.tape == old(self)@.tape,
                start == old(self)@.off,
                self.tape@.len() == self.tape.len(),
                self.off <= self.tape@.len() + 3,
                1 <= depth <= self.off + 1,
                node_end(self.tape@, start as int, 1) == node_end(
                    self.tape@,
                    self.off as int,
                    depth as nat,
                ),
            decreases self.tape@.len() + 4 - self.off,
        {
            let tok = match self.next_u32() {
                Some(tok) => tok,
                None => {
                    self.off = start;
                    return None;
                },
            };
            if tok == FDT_BEGIN_NODE {
                let ghost p = self.off as int;
                if self.next_str().is_none() {
                    proof {
                        lemma_past_end(self.tape@, self.strings@, Seq::empty());
                        if let Some((_, q)) = read_name(self.tape@, p) {
                            assert(node_end(self.tape@, q, depth as nat + 1) is None);
                        }
                    }
                    self.off = start;
                    return None;
                }
                depth = depth + 1;
            } else if tok == FDT_END_NODE {
                depth = depth - 1;
                if depth == 0 {
                    return Some(self.off - 4);
                }
            } else if tok == FDT_PROP {
                let ghost p = self.off as int;
                if self.skip_prop().is_none() {
                    proof {
                        lemma_past_end(self.tape@, self.strings@, Seq::empty());
                        if let Some(q) = skip_prop_at(self.tape@, p) {
                            assert(node_end(self.tape@, q, depth as nat) is None);
                        }
                    }
                    self.off = start;
                    return None;
                }
            } else if tok == FDT_END {
                self.off = start;
                return None;
            }
        }
    }
}

/// The node models of an optional handle.
pub open spec fn node_opt<'a>(r: Option<FdtNode<'a>>) -> Option<NodeModel> {
    match r {
        Some(n) => Some(n@),
        None => None,
    }
}

/// The byte sequence of an optional slice.
pub open spec fn bytes_opt<'a>(r: Option<&'a [u8]>) -> Option<Seq<u8>> {
    match r {
        Some(b) => Some(b@),
        None => None,
    }
}

/// A node named `name` answers the query `q`.
fn node_name_matches(name: &[u8], q: &[u8]) -> (r: bool)
    ensures
        r == name_matches(name@, q@),
{
    if bytes_eq(name, q) {
        return true;
    }
    proof {
        lemma_find_byte(name@, AT, 0);
    }
    let mut i: usize = 0;
    while i < name.len() && name[i] != AT
        invariant
            i <= name@.len(),
            forall|k: int| 0 <= k < i ==> name@[k] != AT,
        decreases name@.len() - i,
    {
        i = i + 1;
    }
    if i < name.len() {
        bytes_eq(slice_subrange(name, 0, i), q)
    } else {
        assert(unit_base(name@) == name@);
        false
    }
}

/// A zero-copy handle to one devicetree node: its name, the tokens between
/// its name and its END_NODE token, the string table, and the cell counts of
/// its parent.
pub struct FdtNode<'a> {
    paddr_cells: u32,
    psize_cells: u32,
    name: &'a str,
    body: &'a [u8],
    strings: &'a [u8],
}

impl<'a> View for FdtNode<'a> {
    type V = NodeModel;

    closed spec fn view(&self) -> NodeModel {
        NodeModel {
            name: self.name.spec_bytes(),
            entity: Entity {
                data: self.body@,
                strings: self.strings@,
                paddr: self.paddr_cells,
                psize: self.psize_cells,
            },
        }
    }
}

impl<'a> FdtNode<'a> {
    /// A stream over the node's body, from the start.
    pub fn node_stream(&self) -> (r: FdtStream<'a>)
        ensures
            r@ == (StreamState { tape: self@.entity.tape(), off: 0 }),
            r@.fits(),
    {
        stream_of(self.body, self.strings, self.paddr_cells, self.psize_cells)
    }

    /// The node's name, unit address included.
    pub fn name(&self) -> (r: &'a str)
        ensures
            r.spec_bytes() == self@.name,
    {
        self.name
    }
}

impl<'a> FdtStream<'a> {
    /// Yield the next node on the stream's own level and move past its
    /// END_NODE token; properties before it are skipped.
    pub fn next_node(&mut self) -> (r: Option<FdtNode<'a>>)
        ensures
            final(self)@.tape == old(self)@.tape,
            final(self)@.fits(),
            match next_child(old(self)@.tape.tape, old(self)@.off) {
                Some((c, after)) => r matches Some(n) && n@ == old(self)@.tape.child(c)
                    && final(self)@.off == after,
                None => r is None && final(self)@.off == old(self)@.off,
            },
    {
        if self.off > self.tape.len() {
            return None;
        }
        let start = self.off;
        loop
            invariant
                self@.tape == old(self)@.tape,
                start == old(self)@.off,
                self.tape@.len() == self.tape.len(),
                self.off <= self.tape@.len() + 3,
                next_child(self.tape@, start as int) == next_child(self.tape@, self.off as int),
            decreases self.tape@.len() + 4 - self.off,
        {
            let tok = match self.next_u32() {
                Some(tok) => tok,
                None => {
                    self.off = start;
                    return None;
                },
            };
            if tok == FDT_BEGIN_NODE {
                let ghost p = self.off as int;
                let name = match self.next_str() {
                    Some(name) => name,
                    None => {
                        proof {
                            lemma_past_end(self.tape@, self.strings@, Seq::empty());
                            if let Some((_, q)) = read_name(self.tape@, p) {
                                assert(node_end(self.tape@, q, 1) is None);
                            }
                        }
                        self.off = start;
                        return None;
                    },
                };
                let mut end_lookup = FdtStream {
                    tape: self.tape,
                    strings: self.strings,
                    off: self.off,
                    paddr_cells: self.paddr_cells,
                    psize_cells: self.psize_cells,
                };
                let body_start = self.off;
                let end = match end_lookup.node_end_off() {
                    Some(end) => end,
                    None => {
                        self.off = start;
                        return None;
                    },
                };
                proof {
                    lemma_node_end(self.tape@, body_start as int, 1);
                }
                self.off = end_lookup.off;
                return Some(
                    FdtNode {
                        name,
                        paddr_cells: self.paddr_cells,
                        psize_cells: self.psize_cells,
                        body: slice_subrange(self.tape, body_start, end),
                        strings: self.strings,
                    },
                );
            } else if tok == FDT_PROP {
                let ghost p = self.off as int;
                if self.skip_prop().is_none() {
                    proof {
                        lemma_past_end(self.tape@, self.strings@, Seq::empty());
                        if let Some(q) = skip_prop_at(self.tape@, p) {
                            assert(next_child(self.tape@, q) is None);
                        }
                    }
                    self.off = start;
                    return None;
                }
            } else if tok == FDT_END {
                self.off = start;
                return None;
            }
        }
    }

    /// The first node from the cursor on, on the stream's own level, that
    /// answers the query `q`.
    pub fn find_named(&mut self, q: &[u8]) -> (r: Option<FdtNode<'a>>)
        ensures
            final(self)@.tape == old(self)@.tape,
            final(self)@.fits(),
            node_opt(r) == first_named(old(self)@.tape.children_from(old(self)@.off), q@),
    {
        loop
            invariant
                self@.tape == old(self)@.tape,
                0 <= self@.off,
                first_named(self@.tape.children_from(old(self)@.off), q@) == first_named(
                    self@.tape.children_from(self@.off),
                    q@,
                ),
            decreases self@.tape.tape.len() + 4 - self@.off,
        {
            let ghost before = self@.off;
            proof {
                lemma_next_child(self@.tape.tape, before);
            }
            match self.next_node() {
                Some(node) => {
                    let ghost rest = self@.tape.children_from(self@.off);
                    assert((seq![node@] + rest).drop_first() =~= rest);
                    if node_name_matches(node.name.as_bytes(), q) {
                        return Some(node);
                    }
                },
                None => return None,
            }
        }
    }
}

/// The payload of the property `want` among those that open `tape`, found by
/// walking the raw tokens.
fn shallow_prop_in<'a>(tape: &'a [u8], strings: &'a [u8], want: &[u8]) -> (r: Option<&'a [u8]>)
    ensures
        bytes_opt(r) == prop_from(tape@, strings@, 0, want@),
{
    // Only names are compared here, so no cell counts are needed.
    let stream = FdtStream::new(tape, strings, 0, 0);
    let mut off: usize = 0;
    loop
        invariant
            stream@.tape.strings == strings@,
            prop_from(tape@, strings@, 0, want@) == prop_from(tape@, strings@, off as int, want@),
        decreases tape@.len() + 4 - off,
    {
        let token = match read_from_tape_u32(tape, off) {
            Some(token) => token,
            None => return None,
        };
        assert(off + 4 <= tape.len());
        off = off + 4;
        if token == FDT_PROP {
            let len = match read_from_tape_u32(tape, off) {
                Some(len) => len,
                None => return None,
            };
            assert(off + 4 <= tape.len());
            let soff = match read_from_tape_u32(tape, off + 4) {
                Some(soff) => soff,
                None => return None,
            };
            off = off + 8;
            let name = match stream.string_at_off(soff as usize) {
                Some(name) => name,
                None => return None,
            };
            if len as usize > tape.len() - off {
                return None;
            }
            if bytes_eq(name.as_bytes(), want) {
                return Some(slice_subrange(tape, off, off + len as usize));
            }
            off = match align4_fit(off + len as usize) {
                Some(q) => q,
                None => {
                    proof {
                        lemma_past_end(tape@, strings@, want@);
                        assert(prop_from(tape@, strings@, align4(off + len), want@) is None);
                    }
                    return None;
                },
            };
        } else if token == FDT_BEGIN_NODE || token == FDT_END_NODE {
            return None;
        }
    }
}

/// The property `want` among those that open `tape`, read as a 32-bit
/// integer.
fn shallow_u32_in<'a>(tape: &'a [u8], strings: &'a [u8], want: &[u8]) -> (r: Option<u32>)
    ensures
        r == payload_u32(prop_from(tape@, strings@, 0, want@)),
{
    match shallow_prop_in(tape, strings, want) {
        Some(b) => if b.len() >= 4 {
            Some(BEu32::new([b[0], b[1], b[2], b[3]]).get())
        } else {
            None
        },
        None => None,
    }
}

/// A stream over an entity, from the start, whose nodes inherit the
/// entity's own cell counts.
fn stream_of<'a>(data: &'a [u8], strings: &'a [u8], paddr: u32, psize: u32) -> (r: FdtStream<'a>)
    ensures
        r@ == (StreamState {
            tape: (Entity { data: data@, strings: strings@, paddr, psize }).tape(),
            off: 0,
        }),
        r@.fits(),
{
    let addr = match shallow_u32_in(data, strings, "#address-cells".as_bytes()) {
        Some(c) => c,
        None => paddr,
    };
    let size = match shallow_u32_in(data, strings, "#size-cells".as_bytes()) {
        Some(c) => c,
        None => psize,
    };
    FdtStream::new(data, strings, addr, size)
}

/// Something the query engine can search: it supplies its tokens, the string
/// table, and the cell counts of its parent, and gains lookups of nodes by
/// name, path and phandle, and typed reads of its own properties.
pub trait FdtStreamable<'a> {
    /// The entity this value stands for.
    spec fn entity(&self) -> Entity;

    /// The entity's tokens.
    fn data(&self) -> (r: &'a [u8])
        ensures
            r@ == self.entity().data,
    ;

    /// The string table.
    fn strings(&self) -> (r: &'a [u8])
        ensures
            r@ == self.entity().strings,
    ;

    /// `#address-cells` of the parent node.
    fn parent_address_cells(&self) -> (r: u32)
        ensures
            r == self.entity().paddr,
    ;

    /// `#size-cells` of the parent node.
    fn parent_size_cells(&self) -> (r: u32)
        ensures
            r == self.entity().psize,
    ;

    /// A stream over the entity's tokens, from the start.
    fn stream(&self) -> (r: FdtStream<'a>)
        ensures
            r@ == (StreamState { tape: self.entity().tape(), off: 0 }),
            r@.fits(),
    {
        FdtStream::new(self.data(), self.strings(), self.address_cells(), self.size_cells())
    }

    /// `#address-cells` of the entity itself, else of its parent.
    fn address_cells(&self) -> (r: u32)
        ensures
            r == self.entity().address_cells(),
    {
        match self.shallow_prop_u32("#address-cells") {
            Some(c) => c,
            None => self.parent_address_cells(),
        }
    }

    /// `#size-cells` of the entity itself, else of its parent.
    fn size_cells(&self) -> (r: u32)
        ensures
            r == self.entity().size_cells(),
    {
        match self.shallow_prop_u32("#size-cells") {
            Some(c) => c,
            None => self.parent_size_cells(),
        }
    }

    /// The first immediate child named `target`, with or without its unit
    /// address.
    fn node_by_name(&self, target: &str) -> (r: Option<FdtNode<'a>>)
        ensures
            node_opt(r) == self.entity().tape().node_named(target.spec_bytes()),
    {
        let mut stream = self.stream();
        stream.find_named(target.as_bytes())
    }

    /// The node that a slash-separated path leads to from the entity; leading
    /// slashes are ignored.
    fn node_by_path(&self, target: &str) -> (r: Option<FdtNode<'a>>)
        ensures
            node_opt(r) == self.entity().tape().node_at_path(target.spec_bytes()),
    {
        search_path(self.stream(), target.as_bytes())
    }

    /// The node with phandle `id`: immediate children first, in order, then
    /// each child's subtree in turn.
    fn node_by_phandle(&self, id: Phandle) -> (r: Option<FdtNode<'a>>)
        ensures
            node_opt(r) == self.entity().tape().node_with_phandle(id@),
    {
        search_phandle(&self.stream(), id.get())
    }

    /// The property `target` among the entity's own, found by walking the raw
    /// tokens without working out any cell counts.
    fn shallow_prop_raw(&self, target: &str) -> (r: Option<&'a [u8]>)
        ensures
            bytes_opt(r) == self.entity().prop(target.spec_bytes()),
    {
        shallow_prop_in(self.data(), self.strings(), target.as_bytes())
    }

    /// The property `target` among the entity's own: the properties that
    /// come before its first child.
    fn prop_raw(&self, target: &str) -> (r: Option<&'a [u8]>)
        ensures
            bytes_opt(r) == self.entity().prop(target.spec_bytes()),
    {
        shallow_prop_in(self.data(), self.strings(), target.as_bytes())
    }

    /// The property `target` read as a 32-bit integer: its first four bytes,
    /// big-endian.
    fn prop_u32(&self, target: &str) -> (r: Option<u32>)
        ensures
            r == self.entity().prop_u32(target.spec_bytes()),
    {
        match self.prop_raw(target) {
            Some(b) => if b.len() >= 4 {
                Some(BEu32::new([b[0], b[1], b[2], b[3]]).get())
            } else {
                None
            },
            None => None,
        }
    }

    /// `prop_u32` on the raw tokens, without working out any cell counts.
    fn shallow_prop_u32(&self, target: &str) -> (r: Option<u32>)
        ensures
            r == self.entity().prop_u32(target.spec_bytes()),
    {
        shallow_u32_in(self.data(), self.strings(), target.as_bytes())
    }

    /// The property `target` read as text: its bytes, less one trailing NUL,
    /// if they are valid UTF-8.
    fn prop_str(&self, target: &str) -> (r: Option<&'a str>)
        ensures
            match self.entity().prop(target.spec_bytes()) {
                Some(v) => if valid_utf8(prop_text(v)) {
                    r matches Some(s) && s.spec_bytes() == prop_text(v)
                } else {
                    r is None
                },
                None => r is None,
            },
    {
        match self.prop_raw(target) {
            Some(b) => {
                let text = if b.len() > 0 && b[b.len() - 1] == 0 {
                    slice_subrange(b, 0, b.len() - 1)
                } else {
                    b
                };
                assert(text@ == prop_text(b@)) by {
                    if b@.len() > 0 && b@.last() == 0 {
                        assert(text@ =~= b@.drop_last());
                    }
                }
                str_from_utf8(text)
            },
            None => None,
        }
    }

    /// The property `target` read as a phandle: exactly four bytes.
    fn prop_phandle(&self, target: &str) -> (r: Option<Phandle>)
        ensures
            match self.entity().prop(target.spec_bytes()) {
                Some(v) => if v.len() == 4 {
                    r matches Some(p) && p@ == be_u32_at(v, 0)
                } else {
                    r is None
                },
                None => r is None,
            },
    {
        match self.prop_raw(target) {
            Some(b) => if b.len() == 4 {
                Some(BEu32::new([b[0], b[1], b[2], b[3]]))
            } else {
                None
            },
            None => None,
        }
    }

    /// The property `target` read as a sequence of big-endian cells, from
    /// its first byte; a trailing part shorter than a cell is left out.
    fn prop_cells(&self, target: &str) -> (r: Option<FdtCells<'a>>)
        ensures
            match self.entity().prop(target.spec_bytes()) {
                Some(v) => r matches Some(c) && c@ == (v, 0int),
                None => r is None,
            },
    {
        match self.prop_raw(target) {
            Some(data) => Some(FdtCells { data, off: 0 }),
            None => None,
        }
    }
}

/// A devicetree phandle.
pub type Phandle = BEu32;

/// The cells of one property, read one at a time from its first byte.
pub struct FdtCells<'a> {
    data: &'a [u8],
    off: usize,
}

impl<'a> View for FdtCells<'a> {
    type V = (Seq<u8>, int);

    closed spec fn view(&self) -> (Seq<u8>, int) {
        (self.data@, self.off as int)
    }
}

impl<'a> FdtCells<'a> {
    /// The next cell, if four more bytes are left.
    pub fn next(&mut self) -> (r: Option<u32>)
        ensures
            r == word_at(old(self)@.0, old(self)@.1),
            final(self)@.0 == old(self)@.0,
            final(self)@.1 == (if r is Some {
                old(self)@.1 + 4
            } else {
                old(self)@.1
            }),
    {
        let r = read_from_tape_u32(self.data, self.off);
        if let Some(_) = r {
            assert(self.off + 4 <= self.data.len());
            self.off = self.off + 4;
        }
        r
    }
}

/// Follow a slash-separated path from the start of `stream`.
fn search_path<'a>(stream: FdtStream<'a>, path: &[u8]) -> (r: Option<FdtNode<'a>>)
    requires
        stream@.off == 0,
    ensures
        node_opt(r) == stream@.tape.node_at_path(path@),
    decreases path@.len(),
{
    proof {
        lemma_strip_slashes(path@);
    }
    let mut i: usize = 0;
    while i < path.len() && path[i] == SLASH
        invariant
            i <= path@.len(),
            forall|k: int| 0 <= k < i ==> path@[k] == SLASH,
        decreases path@.len() - i,
    {
        i = i + 1;
    }
    let p = slice_subrange(path, i, path.len());
    assert(p@ == strip_slashes(path@)) by {
        let n = strip_slashes(path@).len();
        if i < path@.len() - n {
            assert(path@[i as int] == SLASH);
        }
        if i > path@.len() - n {
            assert(strip_slashes(path@)[0] == path@[path@.len() - n]);
        }
        assert(p@ =~= path@.subrange(path@.len() - n, path@.len() as int));
    }
    if p.len() == 0 {
        return None;
    }
    proof {
        lemma_find_byte(p@, SLASH, 0);
    }
    let mut j: usize = 0;
    while j < p.len() && p[j] != SLASH
        invariant
            j <= p@.len(),
            forall|k: int| 0 <= k < j ==> p@[k] != SLASH,
        decreases p@.len() - j,
    {
        j = j + 1;
    }
    let mut stream = stream;
    if j == p.len() {
        return stream.find_named(p);
    }
    let head = slice_subrange(p, 0, j);
    let tail = slice_subrange(p, j + 1, p.len());
    match stream.find_named(head) {
        Some(node) => search_path(node.node_stream(), tail),
        None => None,
    }
}

/// Search depth first for the node with phandle `id`, from the start of
/// `stream`: the stream's own children first, then each child's subtree.
fn search_phandle<'a>(stream: &FdtStream<'a>, id: u32) -> (r: Option<FdtNode<'a>>)
    requires
        stream@.off == 0,
    ensures
        node_opt(r) == stream@.tape.node_with_phandle(id),
    decreases stream@.tape.tape.len(),
{
    let ghost t = stream@.tape;
    let ghost cs = t.children();
    let mut s = FdtStream::new(stream.tape, stream.strings, stream.paddr_cells, stream.psize_cells);
    loop
        invariant
            t == stream@.tape,
            cs == t.children(),
            s@.tape == t,
            0 <= s@.off,
            first_with_phandle(cs, id) == first_with_phandle(t.children_from(s@.off), id),
        ensures
            first_with_phandle(cs, id) is None,
        decreases t.tape.len() + 4 - s@.off,
    {
        let ghost before = s@.off;
        proof {
            lemma_next_child(t.tape, before);
        }
        match s.next_node() {
            Some(node) => {
                let ghost rest = t.children_from(s@.off);
                assert((seq![node@] + rest).drop_first() =~= rest);
                if let Some(ph) = shallow_u32_in(node.body, node.strings, "phandle".as_bytes()) {
                    if ph == id {
                        assert(has_phandle(node@, id));
                        assert(first_with_phandle(t.children_from(before), id) == Some(node@));
                        return Some(node);
                    }
                }
            },
            None => break,
        }
    }
    let mut s = FdtStream::new(stream.tape, stream.strings, stream.paddr_cells, stream.psize_cells);
    let ghost mut i: int = 0;
    proof {
        lemma_children_shorter(t, 0);
        assert(cs.subrange(0, cs.len() as int) =~= cs);
    }
    loop
        invariant
            t == stream@.tape,
            cs == t.children(),
            s@.tape == t,
            0 <= s@.off,
            0 <= i <= cs.len(),
            t.children_from(s@.off) == cs.subrange(i, cs.len() as int),
            t.node_with_phandle(id) == t.phandle_below(id, i),
            forall|k: int| 0 <= k < cs.len() ==> #[trigger] cs[k].entity.data.len() < t.tape.len(),
        decreases t.tape.len() + 4 - s@.off,
    {
        let ghost before = s@.off;
        proof {
            lemma_next_child(t.tape, before);
        }
        match s.next_node() {
            Some(node) => {
                let ghost rest = t.children_from(s@.off);
                assert(t.children_from(before) == seq![node@] + rest);
                assert(cs[i] == node@) by {
                    assert((seq![node@] + rest)[0] == cs.subrange(i, cs.len() as int)[0]);
                }
                assert(rest =~= cs.subrange(i + 1, cs.len() as int)) by {
                    assert(rest =~= (seq![node@] + rest).drop_first());
                }
                let found = search_phandle(&node.node_stream(), id);
                proof {
                    lemma_phandle_below_step(t, id, i);
                }
                if found.is_some() {
                    return found;
                }
                proof {
                    i = i + 1;
                }
            },
            None => {
                assert(cs.subrange(i, cs.len() as int).len() == 0);
                return None;
            },
        }
    }
}

proof fn lemma_phandle_below_step(t: Tape, id: u32, i: int)
    requires
        0 <= i < t.children().len(),
    ensures
        t.phandle_below(id, i) == (match t.children()[i].entity.tape().node_with_phandle(id) {
            Some(n) => Some(n),
            None => t.phandle_below(id, i + 1),
        }),
{
}

/// Combine the next `count` cells big-endian into 64 bits; cells beyond the
/// last two only shift bits out. None if `count` is zero or too few cells
/// are left.
fn ccmb64<'a>(cells: &mut FdtCells<'a>, count: u32) -> (r: Option<u64>)
    ensures
        final(cells)@.0 == old(cells)@.0,
        if 0 < count && old(cells)@.1 + 4 * count <= old(cells)@.0.len() {
            r == Some(fold_cells(words_from(old(cells)@.0, old(cells)@.1, count as int)))
                && final(cells)@.1 == old(cells)@.1 + 4 * count
        } else {
            r is None
        },
{
    if count == 0 {
        return None;
    }
    let ghost b = cells@.0;
    let ghost off0 = cells@.1;
    let mut ret: u64 = 0;
    let mut i: u32 = 0;
    while i < count
        invariant
            b == old(cells)@.0,
            off0 == old(cells)@.1,
            cells@.0 == b,
            i <= count,
            cells@.1 == off0 + 4 * i,
            i > 0 ==> off0 + 4 * i <= b.len(),
            ret == fold_cells(words_from(b, off0, i as int)),
        decreases count - i,
    {
        let c = match cells.next() {
            Some(c) => c,
            None => return None,
        };
        proof {
            let w = words_from(b, off0, i + 1);
            assert(w.drop_last() =~= words_from(b, off0, i as int));
            assert(w.last() == c);
        }
        let next = (ret << 32u64) | c as u64;
        assert(next == ((ret as int % 0x1_0000_0000) * 0x1_0000_0000 + c as int) as u64) by (bit_vector)
            requires
                next == (ret << 32u64) | c as u64,
        ;
        ret = next;
        i = i + 1;
    }
    Some(ret)
}

impl<'a> FdtStreamable<'a> for FdtNode<'a> {
    open spec fn entity(&self) -> Entity {
        self@.entity
    }

    fn data(&self) -> (r: &'a [u8]) {
        self.body
    }

    fn strings(&self) -> (r: &'a [u8]) {
        self.strings
    }

    fn parent_address_cells(&self) -> (r: u32) {
        self.paddr_cells
    }

    fn parent_size_cells(&self) -> (r: u32) {
        self.psize_cells
    }
}

impl<'a> FdtNode<'a> {
    /// The address range `[base, base + size)` that the node's `reg` property
    /// gives, read with the cell counts of its parent.
    pub fn reg_u64(&self) -> (r: Option<Range<u64>>)
        ensures
            match reg_range(self@.entity) {
                Some((base, size)) => r matches Some(range) && range.start == base && range.end
                    == base + size,
                None => r is None,
            },
    {
        let mut cells = match self.prop_cells("reg") {
            Some(cells) => cells,
            None => return None,
        };
        let base = match ccmb64(&mut cells, self.parent_address_cells()) {
            Some(base) => base,
            None => return None,
        };
        let size = match ccmb64(&mut cells, self.parent_size_cells()) {
            Some(size) => size,
            None => return None,
        };
        let end = match base.checked_add(size) {
            Some(end) => end,
            None => return None,
        };
        Some(base..end)
    }
}

/// The big-endian 64-bit word at `off`.
fn read_from_tape_u64(b: &[u8], off: usize) -> (r: BEu64)
    requires
        off + 8 <= b@.len(),
    ensures
        r@ == be_u64_at(b@, off as int),
{
    BEu64::new(
        [b[off], b[off + 1], b[off + 2], b[off + 3], b[off + 4], b[off + 5], b[off + 6], b[off + 7]],
    )
}

/// The `i`-th word of a blob header.
fn read_header_word(blob: &[u8], i: usize) -> (r: BEu32)
    requires
        i < 10,
        FDT_HEADER_SIZE <= blob@.len(),
    ensures
        r@ == header_word(blob@, i as int),
{
    let off = 4 * i;
    BEu32::new([blob[off], blob[off + 1], blob[off + 2], blob[off + 3]])
}

/// One entry of the memory reservation list.
#[derive(Clone, Copy, PartialEq, Eq, Structural, Debug)]
pub struct FdtReserveEntry {
    pub address: BEu64,
    pub size: BEu64,
}

/// The blob header, as the devicetree specification lays it out.
struct FdtHeader {
    magic: BEu32,
    totalsize: BEu32,
    off_dt_struct: BEu32,
    off_dt_strings: BEu32,
    off_mem_rsvmap: BEu32,
    version: BEu32,
    last_comp_version: BEu32,
    boot_cpuid_phys: BEu32,
    size_dt_strings: BEu32,
    size_dt_struct: BEu32,
}

impl FdtHeader {
    /// Read the ten header words at the start of `blob`.
    fn read(blob: &[u8]) -> (r: FdtHeader)
        requires
            FDT_HEADER_SIZE <= blob@.len(),
        ensures
            r.magic@ == header_word(blob@, 0),
            r.totalsize@ == header_word(blob@, 1),
            r.off_dt_struct@ == header_word(blob@, 2),
            r.off_dt_strings@ == header_word(blob@, 3),
            r.off_mem_rsvmap@ == header_word(blob@, 4),
            r.version@ == header_word(blob@, 5),
            r.last_comp_version@ == header_word(blob@, 6),
            r.boot_cpuid_phys@ == header_word(blob@, 7),
            r.size_dt_strings@ == header_word(blob@, 8),
            r.size_dt_struct@ == header_word(blob@, 9),
    {
        FdtHeader {
            magic: read_header_word(blob, 0),
            totalsize: read_header_word(blob, 1),
            off_dt_struct: read_header_word(blob, 2),
            off_dt_strings: read_header_word(blob, 3),
            off_mem_rsvmap: read_header_word(blob, 4),
            version: read_header_word(blob, 5),
            last_comp_version: read_header_word(blob, 6),
            boot_cpuid_phys: read_header_word(blob, 7),
            size_dt_strings: read_header_word(blob, 8),
            size_dt_struct: read_header_word(blob, 9),
        }
    }

    /// The structure block within `data`, if it lies inside.
    fn dt_struct<'a>(&self, data: &'a [u8]) -> (r: Option<&'a [u8]>)
        ensures
            if self.off_dt_struct@ + self.size_dt_struct@ <= data@.len() {
                r matches Some(s) && s@ == data@.subrange(
                    self.off_dt_struct@ as int,
                    self.off_dt_struct@ + self.size_dt_struct@,
                )
            } else {
                r is None
            },
    {
        let off = self.off_dt_struct.get() as usize;
        let size = self.size_dt_struct.get() as usize;
        if off > data.len() || size > data.len() - off {
            return None;
        }
        Some(slice_subrange(data, off, off + size))
    }

    /// The string block within `data`, if it lies inside.
    fn dt_strings<'a>(&self, data: &'a [u8]) -> (r: Option<&'a [u8]>)
        ensures
            if self.off_dt_strings@ + self.size_dt_strings@ <= data@.len() {
                r matches Some(s) && s@ == data@.subrange(
                    self.off_dt_strings@ as int,
                    self.off_dt_strings@ + self.size_dt_strings@,
                )
            } else {
                r is None
            },
    {
        let off = self.off_dt_strings.get() as usize;
        let size = self.size_dt_strings.get() as usize;
        if off > data.len() || size > data.len() - off {
            return None;
        }
        Some(slice_subrange(data, off, off + size))
    }

    /// The memory reservation entries within `data`, without the (0, 0)
    /// pair that ends them, if that pair is inside.
    fn mem_rsvmap<'a>(&self, data: &'a [u8]) -> (r: Option<&'a [u8]>)
        ensures
            match rsv_end(data@, self.off_mem_rsvmap@ as int) {
                Some(e) => r matches Some(s) && s@ == data@.subrange(
                    self.off_mem_rsvmap@ as int,
                    e,
                ),
                None => r is None,
            },
    {
        let off = self.off_mem_rsvmap.get() as usize;
        let mut end = off;
        loop
            invariant
                off == self.off_mem_rsvmap@,
                off <= end,
                rsv_end(data@, off as int) == rsv_end(data@, end as int),
            decreases data@.len() - end,
        {
            if end > data.len() || data.len() - end < 16 {
                return None;
            }
            let address = read_from_tape_u64(data, end).get();
            let size = read_from_tape_u64(data, end + 8).get();
            if address == 0 && size == 0 {
                return Some(slice_subrange(data, off, end));
            }
            end = end + 16;
        }
    }
}

/// A view of a whole devicetree blob: the blob, its structure and string
/// blocks, and its memory reservation entries.
pub struct FdtView<'a> {
    data: &'a [u8],
    dt_struct: &'a [u8],
    dt_strings: &'a [u8],
    mem_rsvmap: &'a [u8],
}

impl<'a> View for FdtView<'a> {
    type V = ViewModel;

    closed spec fn view(&self) -> ViewModel {
        ViewModel {
            data: self.data@,
            dt_struct: self.dt_struct@,
            dt_strings: self.dt_strings@,
            rsvmap: self.mem_rsvmap@,
        }
    }
}

impl<'a> FdtView<'a> {
    /// Read the header of `blob`, check its magic number, and cut out the
    /// blocks that it points to.
    pub fn from_blob(blob: &'a [u8]) -> (r: Result<FdtView<'a>, FdtError>)
        ensures
            match parse_blob(blob@) {
                Ok(m) => r matches Ok(v) && v@ == m,
                Err(e) => r == Err::<FdtView<'a>, FdtError>(e),
            },
    {
        if blob.len() < FDT_HEADER_SIZE {
            return Err(FdtError::Truncated);
        }
        let header = FdtHeader::read(blob);
        if header.magic.get() != FDT_MAGIC {
            return Err(FdtError::BadMagic);
        }
        let size = header.totalsize.get() as usize;
        if size > blob.len() {
            return Err(FdtError::Truncated);
        }
        let data = slice_subrange(blob, 0, size);
        let dt_struct = header.dt_struct(data);
        let dt_strings = header.dt_strings(data);
        match (dt_struct, dt_strings) {
            (Some(dt_struct), Some(dt_strings)) => match header.mem_rsvmap(data) {
                Some(mem_rsvmap) => Ok(FdtView { data, dt_struct, dt_strings, mem_rsvmap }),
                None => Err(FdtError::OutOfBounds),
            },
            _ => Err(FdtError::OutOfBounds),
        }
    }

    /// The blob, cut to the size its header declares.
    pub fn blob(&self) -> (r: &'a [u8])
        ensures
            r@ == self@.data,
    {
        self.data
    }

    /// The number of memory reservation entries.
    pub fn mem_rsv_count(&self) -> (r: usize)
        ensures
            r == self@.rsvmap.len() / 16,
    {
        self.mem_rsvmap.len() / 16
    }

    /// The `i`-th memory reservation entry.
    pub fn mem_rsv_entry(&self, i: usize) -> (r: Option<FdtReserveEntry>)
        ensures
            if i < self@.rsvmap.len() / 16 {
                r matches Some(e) && e.address@ == be_u64_at(self@.rsvmap, 16 * i)
                    && e.size@ == be_u64_at(self@.rsvmap, 16 * i + 8)
            } else {
                r is None
            },
    {
        if i >= self.mem_rsvmap.len() / 16 {
            return None;
        }
        let off = 16 * i;
        Some(
            FdtReserveEntry {
                address: read_from_tape_u64(self.mem_rsvmap, off),
                size: read_from_tape_u64(self.mem_rsvmap, off + 8),
            },
        )
    }
}

impl<'a> FdtStreamable<'a> for FdtView<'a> {
    open spec fn entity(&self) -> Entity {
        Entity { data: self@.dt_struct, strings: self@.dt_strings, paddr: 2, psize: 1 }
    }

    fn data(&self) -> (r: &'a [u8]) {
        self.dt_struct
    }

    fn strings(&self) -> (r: &'a [u8]) {
        self.dt_strings
    }

    fn parent_address_cells(&self) -> (r: u32) {
        2
    }

    fn parent_size_cells(&self) -> (r: u32) {
        1
    }
}

} // verus!
