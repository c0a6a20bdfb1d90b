use mc_schems::Blocks;

#[test]
fn new_blocks_are_filled_with_the_initial_block() {
    let blocks = Blocks::new(2, 3, 4, "minecraft:air");
    assert_eq!(blocks.size(), (2, 3, 4));
    for x in 0..2 {
        for y in 0..3 {
            for z in 0..4 {
                assert_eq!(blocks.get_block_id_at(x, y, z), 0);
                assert_eq!(blocks.get_block_at(x, y, z), "minecraft:air");
            }
        }
    }
    assert_eq!(blocks.blocks_in_palette(), vec!["minecraft:air"]);
}

#[test]
fn empty_blocks_have_a_palette_and_no_cell() {
    let blocks = Blocks::new(0, 5, 5, "minecraft:stone");
    assert_eq!(blocks.size(), (0, 5, 5));
    assert!(!blocks.bounds_check(0, 0, 0));
    assert_eq!(blocks.blocks_in_palette(), vec!["minecraft:stone"]);
}

#[test]
fn bounds_check_tells_positions_inside_from_positions_outside() {
    let blocks = Blocks::new(2, 3, 4, "minecraft:air");
    assert!(blocks.bounds_check(0, 0, 0));
    assert!(blocks.bounds_check(1, 2, 3));
    assert!(!blocks.bounds_check(2, 0, 0));
    assert!(!blocks.bounds_check(0, 3, 0));
    assert!(!blocks.bounds_check(0, 0, 4));
    assert!(!blocks.bounds_check(u32::MAX, u32::MAX, u32::MAX));
}

#[test]
fn block_index_follows_the_linearization_formula() {
    let blocks = Blocks::new(2, 3, 4, "minecraft:air");
    assert_eq!(blocks.block_index_at(0, 0, 0), 0);
    assert_eq!(blocks.block_index_at(0, 0, 1), 1);
    assert_eq!(blocks.block_index_at(0, 1, 0), 4);
    assert_eq!(blocks.block_index_at(1, 0, 0), 12);
    assert_eq!(blocks.block_index_at(1, 2, 3), 1 * 3 * 4 + 2 * 4 + 3);
    assert_eq!(blocks.block_index_at(1, 2, 3), 23);
}

#[test]
fn block_indices_are_all_different() {
    let blocks = Blocks::new(3, 4, 5, "minecraft:air");
    let mut seen = vec![false; 60];
    for x in 0..3 {
        for y in 0..4 {
            for z in 0..5 {
                let index = blocks.block_index_at(x, y, z);
                assert!(index < 60);
                assert!(!seen[index]);
                seen[index] = true;
            }
        }
    }
}

#[test]
fn the_same_name_gets_the_same_id_and_one_palette_entry() {
    let mut blocks = Blocks::new(1, 1, 1, "minecraft:air");
    let stone = blocks.get_block_id_for("minecraft:stone");
    assert_eq!(stone, 1);
    assert_eq!(blocks.blocks_in_palette().len(), 2);
    let again = blocks.get_block_id_for("minecraft:stone");
    assert_eq!(again, stone);
    assert_eq!(blocks.blocks_in_palette().len(), 2);
    assert_eq!(blocks.get_block_id_for("minecraft:air"), 0);
    assert_eq!(blocks.blocks_in_palette().len(), 2);
    let dirt = blocks.get_block_id_for("minecraft:dirt");
    assert_eq!(dirt, 2);
    assert_eq!(
        blocks.blocks_in_palette(),
        vec!["minecraft:air", "minecraft:stone", "minecraft:dirt"]
    );
}

#[test]
fn a_written_id_is_read_back_and_no_other_cell_changes() {
    let mut blocks = Blocks::new(3, 2, 2, "minecraft:air");
    let stone = blocks.get_block_id_for("minecraft:stone");
    blocks.set_block_id_at(2, 1, 0, stone);
    for x in 0..3 {
        for y in 0..2 {
            for z in 0..2 {
                let expected = if (x, y, z) == (2, 1, 0) { stone } else { 0 };
                assert_eq!(blocks.get_block_id_at(x, y, z), expected);
            }
        }
    }
    assert_eq!(blocks.get_block_at(2, 1, 0), "minecraft:stone");
    blocks.set_block_id_at(2, 1, 0, 0);
    assert_eq!(blocks.get_block_at(2, 1, 0), "minecraft:air");
}

#[test]
fn set_block_at_grows_the_palette_once() {
    let mut blocks = Blocks::new(2, 1, 1, "minecraft:air");
    blocks.set_block_at(0, 0, 0, "minecraft:oak_planks");
    blocks.set_block_at(1, 0, 0, "minecraft:oak_planks");
    assert_eq!(blocks.get_block_id_at(0, 0, 0), 1);
    assert_eq!(blocks.get_block_id_at(1, 0, 0), 1);
    assert_eq!(blocks.get_block_at(1, 0, 0), "minecraft:oak_planks");
    assert_eq!(
        blocks.blocks_in_palette(),
        vec!["minecraft:air", "minecraft:oak_planks"]
    );
}
