use quickpython::blocks::{pop_block, setup_block, unwind, Block, BlockKind};

#[test]
fn test_unwind_to_innermost_block() {
    let mut stack = vec![1, 2, 3];
    let mut blocks: Vec<Block> = Vec::new();
    setup_block(&mut blocks, BlockKind::Try, 10, 1);
    setup_block(&mut blocks, BlockKind::Finally, 20, 2);
    assert_eq!(unwind(&mut stack, &mut blocks, 99), Ok(20));
    assert_eq!(stack, vec![1, 2, 99]);
    assert_eq!(blocks.len(), 1);
    assert_eq!(unwind(&mut stack, &mut blocks, 7), Ok(10));
    assert_eq!(stack, vec![1, 7]);
    assert_eq!(unwind(&mut stack, &mut blocks, 5), Err(5));
    assert_eq!(stack, vec![1, 7]);
}

#[test]
fn test_unwind_keeps_a_shorter_stack() {
    let mut stack = vec![1];
    let mut blocks: Vec<Block> = Vec::new();
    setup_block(&mut blocks, BlockKind::Try, 4, 3);
    assert_eq!(unwind(&mut stack, &mut blocks, 8), Ok(4));
    assert_eq!(stack, vec![1, 8]);
}

#[test]
fn test_pop_block() {
    let mut blocks: Vec<Block> = Vec::new();
    pop_block(&mut blocks);
    assert!(blocks.is_empty());
    setup_block(&mut blocks, BlockKind::Try, 1, 0);
    setup_block(&mut blocks, BlockKind::Try, 2, 0);
    pop_block(&mut blocks);
    assert_eq!(blocks.len(), 1);
    assert_eq!(blocks[0].handler, 1);
}
