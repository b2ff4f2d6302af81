use lunar::mem::start::{ArenaError, StartArena};

#[test]
fn arena_allocations_do_not_overlap() {
    let mut arena = StartArena::new();
    let token = arena.init(0x1000, 0x2000).unwrap();
    let a = token.alloc_slice(&mut arena, 3, 1, 1).unwrap();
    let b = token.alloc_slice(&mut arena, 2, 8, 8).unwrap();
    let c = token.alloc_slice(&mut arena, 1, 4, 4).unwrap();
    assert_eq!(a, 0x1000..0x1003);
    assert_eq!(b, 0x1008..0x1018);
    assert_eq!(c, 0x1018..0x101c);
    assert!(a.end <= b.start && b.end <= c.start);
}

#[test]
fn arena_refuses_block_past_the_end() {
    let mut arena = StartArena::new();
    let token = arena.init(0x1000, 0x1010).unwrap();
    assert_eq!(token.alloc_slice(&mut arena, 4, 4, 4), Ok(0x1000..0x1010));
    assert_eq!(
        token.alloc_slice(&mut arena, 1, 1, 1),
        Err(ArenaError::OutOfMemory)
    );
    assert_eq!(token.alloc_slice(&mut arena, 0, 1, 1), Ok(0x1010..0x1010));
}

#[test]
fn arena_refuses_when_alignment_pushes_past_the_end() {
    let mut arena = StartArena::new();
    let token = arena.init(0x1001, 0x1010).unwrap();
    assert_eq!(
        token.alloc_slice(&mut arena, 1, 16, 16),
        Err(ArenaError::OutOfMemory)
    );
    assert_eq!(token.alloc_slice(&mut arena, 1, 8, 8), Ok(0x1008..0x1010));
}

#[test]
fn arena_refuses_size_that_overflows() {
    let mut arena = StartArena::new();
    let token = arena.init(0, usize::MAX).unwrap();
    assert_eq!(
        token.alloc_slice(&mut arena, usize::MAX, 2, 1),
        Err(ArenaError::OutOfMemory)
    );
}

#[test]
fn arena_double_init_is_refused() {
    let mut arena = StartArena::new();
    let _token = arena.init(0x1000, 0x2000).unwrap();
    assert!(matches!(
        arena.init(0x1000, 0x2000),
        Err(ArenaError::DoubleInit)
    ));
    assert!(arena.is_active());
}

#[test]
fn arena_is_reclaimed_on_release() {
    let mut arena = StartArena::new();
    let token = arena.init(0x1000, 0x2000).unwrap();
    assert!(arena.is_active());
    token.release(&mut arena);
    assert!(!arena.is_active());
    assert!(matches!(
        arena.init(0x1000, 0x2000),
        Err(ArenaError::DoubleInit)
    ));
}

#[test]
fn arena_refuses_allocation_once_not_active() {
    let mut reclaimed = StartArena::new();
    let first = reclaimed.init(0x1000, 0x2000).unwrap();
    first.release(&mut reclaimed);
    let mut other = StartArena::new();
    let token = other.init(0x3000, 0x4000).unwrap();
    assert_eq!(
        token.alloc_slice(&mut reclaimed, 1, 1, 1),
        Err(ArenaError::NoLongerAccessible)
    );
    let mut never = StartArena::new();
    assert_eq!(
        token.alloc_slice(&mut never, 1, 1, 1),
        Err(ArenaError::NoLongerAccessible)
    );
}

#[test]
fn arena_refuses_foreign_token() {
    let mut arena = StartArena::new();
    let own = arena.init(0x1000, 0x2000).unwrap();
    let mut other = StartArena::new();
    let foreign = other.init(0x3000, 0x4000).unwrap();
    assert_eq!(
        foreign.alloc_slice(&mut arena, 1, 1, 1),
        Err(ArenaError::ForeignToken)
    );
    foreign.release(&mut arena);
    assert!(arena.is_active());
    assert_eq!(own.alloc_slice(&mut arena, 1, 1, 1), Ok(0x1000..0x1001));
    own.release(&mut arena);
    assert!(!arena.is_active());
    assert!(other.is_active());
}
