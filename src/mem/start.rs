//! The start arena: a bump allocator over a fixed region reserved by the
//! linker, set up once and reclaimed as a whole when its token is released.
//!
//! The arena hands out address ranges. Turning a range into memory that can
//! be written is left to the caller, which owns the region.

use crate::align::{align_up_spec, is_pow2};
use core::ops::Range;
use vstd::prelude::*;

verus! {

/// Why the arena refused a request.
#[derive(PartialEq, Eq, Structural, Debug, Clone, Copy)]
pub enum ArenaError {
    /// The arena was set up before.
    DoubleInit,
    /// The arena is not active: its token was released, or it was never set up.
    NoLongerAccessible,
    /// The token was handed out for another region than the arena's.
    ForeignToken,
    /// The aligned block does not fit before the end of the region.
    OutOfMemory,
}

/// The bump state: the region and the next free address in it.
struct Arena {
    start: usize,
    cursor: usize,
    end: usize,
}

/// The arena as the contracts see it: whether it was ever set up, and while
/// it is active the start of its region, its cursor and the end of its region.
pub struct ArenaModel {
    pub initialized: bool,
    pub active: Option<(int, int, int)>,
}

impl ArenaModel {
    /// The cursor lies inside the region.
    pub open spec fn wf(self) -> bool {
        self.active matches Some((start, cursor, end)) ==> 0 <= start <= cursor <= end
    }

    /// The arena is active over `region`, the one a token was handed out for.
    pub open spec fn owned_by(self, region: (int, int)) -> bool {
        self.active matches Some((start, _, end)) && (start, end) == region
    }

    /// The arena after its token is released: set up once, no longer active.
    pub open spec fn released(self) -> ArenaModel {
        ArenaModel { initialized: self.initialized, active: None }
    }
}

/// What asking for `size` bytes aligned to `align`, with a token handed out
/// for `region`, gives, and the arena after it: the block starts at the
/// cursor rounded up to `align`. It is refused if the arena is not active,
/// if the token belongs to another region, or if the block would pass the
/// end of the region; then the arena is left as it was.
pub open spec fn alloc_outcome(m: ArenaModel, region: (int, int), size: int, align: int) -> (
    Result<(int, int), ArenaError>,
    ArenaModel,
) {
    match m.active {
        None => (Err(ArenaError::NoLongerAccessible), m),
        Some((first, cursor, end)) => {
            if (first, end) != region {
                (Err(ArenaError::ForeignToken), m)
            } else {
                let start = align_up_spec(cursor, align);
                if start + size <= end {
                    let next = ArenaModel {
                        initialized: m.initialized,
                        active: Some((first, start + size, end)),
                    };
                    (Ok((start, start + size)), next)
                } else {
                    (Err(ArenaError::OutOfMemory), m)
                }
            }
        },
    }
}

/// The address range of a result, as a pair of integers.
pub open spec fn range_opt(r: Result<Range<usize>, ArenaError>) -> Result<(int, int), ArenaError> {
    match r {
        Ok(range) => Ok((range.start as int, range.end as int)),
        Err(e) => Err(e),
    }
}

/// The start arena: a one-shot guard against a second setup, and the bump
/// state while a token is held.
pub struct StartArena {
    initialized: bool,
    arena: Option<Arena>,
}

impl View for StartArena {
    type V = ArenaModel;

    closed spec fn view(&self) -> ArenaModel {
        ArenaModel {
            initialized: self.initialized,
            active: match self.arena {
                Some(a) => Some((a.start as int, a.cursor as int, a.end as int)),
                None => None,
            },
        }
    }
}

/// The permission to allocate from the start arena. There is one per setup,
/// bound to the region it was handed out for; it cannot be copied, and
/// releasing it reclaims the whole region.
pub struct Token {
    start: usize,
    end: usize,
}

impl View for Token {
    type V = (int, int);

    closed spec fn view(&self) -> (int, int) {
        (self.start as int, self.end as int)
    }
}

impl StartArena {
    /// An arena that was never set up.
    pub fn new() -> (r: Self)
        ensures
            r@ == (ArenaModel { initialized: false, active: None }),
    {
        StartArena { initialized: false, arena: None }
    }

    /// Set the arena up over the region `[start, end)` and hand out its
    /// token. Refused if the arena was set up before, even if that token was
    /// released since.
    pub fn init(&mut self, start: usize, end: usize) -> (r: Result<Token, ArenaError>)
        requires
            start <= end,
        ensures
            old(self)@.initialized ==> r is Err && r->Err_0 == ArenaError::DoubleInit && final(self)@
                == old(self)@,
            !old(self)@.initialized ==> (r matches Ok(token) && token@ == (start as int, end as int)
                && final(self)@ == (ArenaModel {
                initialized: true,
                active: Some((start as int, start as int, end as int)),
            })),
    {
        if self.initialized {
            return Err(ArenaError::DoubleInit);
        }
        self.initialized = true;
        self.arena = Some(Arena { start, cursor: start, end });
        Ok(Token { start, end })
    }

    /// The arena is active: set up, and its token not yet released.
    pub fn is_active(&self) -> (r: bool)
        ensures
            r == self@.active is Some,
    {
        self.arena.is_some()
    }
}

impl Token {
    /// Claim room for `count` elements of `size` bytes aligned to `align`,
    /// and return the address range of the block. The memory is not
    /// cleared.
    pub fn alloc_slice(
        &self,
        arena: &mut StartArena,
        count: usize,
        size: usize,
        align: usize,
    ) -> (r: Result<Range<usize>, ArenaError>)
        requires
            is_pow2(align),
            old(arena)@.wf(),
        ensures
            (range_opt(r), final(arena)@) == alloc_outcome(
                old(arena)@,
                self@,
                count * size,
                align as int,
            ),
            final(arena)@.wf(),
    {
        let (first, cursor, end) = match &arena.arena {
            Some(a) => (a.start, a.cursor, a.end),
            None => return Err(ArenaError::NoLongerAccessible),
        };
        if first != self.start || end != self.end {
            return Err(ArenaError::ForeignToken);
        }
        let bytes = match count.checked_mul(size) {
            Some(bytes) => bytes,
            None => return Err(ArenaError::OutOfMemory),
        };
        let rem = cursor % align;
        assert(rem < align && rem <= cursor) by (nonlinear_arith)
            requires
                rem == cursor % align,
                align > 0,
        ;
        let pad = if rem == 0 {
            0
        } else {
            align - rem
        };
        if pad > end - cursor || bytes > end - cursor - pad {
            return Err(ArenaError::OutOfMemory);
        }
        let start = cursor + pad;
        arena.arena = Some(Arena { start: first, cursor: start + bytes, end });
        Ok(start..start + bytes)
    }

    /// Give the token back: the arena it belongs to is no longer active and
    /// its region is free for other use. An arena that the token does not
    /// belong to is left as it was.
    pub fn release(self, arena: &mut StartArena)
        ensures
            final(arena)@ == (if old(arena)@.owned_by(self@) {
                old(arena)@.released()
            } else {
                old(arena)@
            }),
    {
        let owned = match &arena.arena {
            Some(a) => a.start == self.start && a.end == self.end,
            None => false,
        };
        if owned {
            arena.arena = None;
        }
    }
}

/// Allocations in a row with one token do not overlap: the second block
/// begins at or after the end of the first.
pub proof fn lemma_allocations_disjoint(
    m0: ArenaModel,
    region: (int, int),
    size1: int,
    align1: int,
    size2: int,
    align2: int,
)
    requires
        m0.wf(),
        0 <= size1,
        0 <= size2,
        0 < align1,
        0 < align2,
    ensures
        ({
            let (r1, m1) = alloc_outcome(m0, region, size1, align1);
            let (r2, m2) = alloc_outcome(m1, region, size2, align2);
            r1 is Ok && r2 is Ok ==> r1->Ok_0.1 <= r2->Ok_0.0
        }),
{
    let (r1, m1) = alloc_outcome(m0, region, size1, align1);
    if let Some((first, cursor, end)) = m1.active {
        crate::align::lemma_align_up(cursor, align2);
    }
}

/// A block that would pass the end of the region is refused, and the arena
/// is left as it was; a block that is handed out has exactly the size asked
/// for and lies inside the region.
pub proof fn lemma_alloc_bounds(m: ArenaModel, region: (int, int), size: int, align: int)
    requires
        m.wf(),
        0 <= size,
        0 < align,
        m.owned_by(region),
    ensures
        ({
            let (r, m1) = alloc_outcome(m, region, size, align);
            let (first, cursor, end) = m.active->Some_0;
            &&& align_up_spec(cursor, align) + size > end ==> r == Err::<(int, int), ArenaError>(
                ArenaError::OutOfMemory,
            ) && m1 == m
            &&& r matches Ok((lo, hi)) ==> cursor <= lo && hi == lo + size && hi <= end && lo
                % align == 0
        }),
{
    let (first, cursor, end) = m.active->Some_0;
    crate::align::lemma_align_up(cursor, align);
}

/// Once the token is released, every further request is refused.
pub proof fn lemma_no_alloc_after_release(
    m: ArenaModel,
    region: (int, int),
    size: int,
    align: int,
)
    ensures
        alloc_outcome(m.released(), region, size, align) == (
            Err::<(int, int), ArenaError>(ArenaError::NoLongerAccessible),
            m.released(),
        ),
{
}

/// A token serves only the arena that handed it out: with a token for another
/// region every request is refused and the arena is left as it was.
pub proof fn lemma_foreign_token_refused(
    m: ArenaModel,
    region: (int, int),
    size: int,
    align: int,
)
    requires
        m.active is Some,
        !m.owned_by(region),
    ensures
        alloc_outcome(m, region, size, align) == (
            Err::<(int, int), ArenaError>(ArenaError::ForeignToken),
            m,
        ),
{
}

} // verus!
