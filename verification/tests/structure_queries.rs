use cosmos_core::block::block_direction::BlockDirection;
use cosmos_core::block::block_face::BlockFace;
use cosmos_core::block::{Block, AIR_BLOCK_ID};
use cosmos_core::registry::{Identifiable, Registry};
use cosmos_core::structure::base_structure::BlockChangedEvent;
use cosmos_core::structure::chunk::Chunk;
use cosmos_core::structure::coordinates::{
    BlockCoordinate, BoundsError, ChunkBlockCoordinate, ChunkCoordinate, UnboundBlockCoordinate,
    UnboundChunkCoordinate, CHUNK_DIMENSIONS,
};
use cosmos_core::structure::dynamic_structure::DynamicStructure;
use cosmos_core::structure::full_structure::FullStructure;
use cosmos_core::structure::structure_block::StructureBlock;
use cosmos_core::structure::{rotate, ChunkState, RotationError, Structure};

fn blocks() -> Registry<Block> {
    let mut blocks: Registry<Block> = Registry::new();
    for name in ["cosmos:air", "cosmos:stone", "cosmos:grass"] {
        blocks.register(Block::new(name.to_owned()));
    }
    blocks
}

#[test]
fn step_moves_one_block_or_fails() {
    let c = BlockCoordinate::new(3, 0, 7);
    assert_eq!(c.step(BlockDirection::PosX), Ok(BlockCoordinate::new(4, 0, 7)));
    assert_eq!(c.step(BlockDirection::NegX), Ok(BlockCoordinate::new(2, 0, 7)));
    assert_eq!(c.step(BlockDirection::PosY), Ok(BlockCoordinate::new(3, 1, 7)));
    assert_eq!(c.step(BlockDirection::NegY), Err(BoundsError::Negative));
    assert_eq!(c.step(BlockDirection::PosZ), Ok(BlockCoordinate::new(3, 0, 8)));
    assert_eq!(c.step(BlockDirection::NegZ), Ok(BlockCoordinate::new(3, 0, 6)));
    let far = BlockCoordinate::new(u64::MAX, 0, 0);
    assert_eq!(far.step(BlockDirection::PosX), Err(BoundsError::Positive));
}

#[test]
fn neighbor_stays_inside_the_structure() {
    let dimensions = BlockCoordinate::new(4, 4, 4);
    let c = BlockCoordinate::new(3, 0, 2);
    assert_eq!(c.neighbor(BlockDirection::PosX, dimensions), Err(BoundsError::Positive));
    assert_eq!(c.neighbor(BlockDirection::NegY, dimensions), Err(BoundsError::Negative));
    assert_eq!(c.neighbor(BlockDirection::NegX, dimensions), Ok(BlockCoordinate::new(2, 0, 2)));
    assert_eq!(c.neighbor(BlockDirection::PosZ, dimensions), Ok(BlockCoordinate::new(3, 0, 3)));
    assert!(c.within(dimensions));
    assert!(!BlockCoordinate::new(4, 0, 0).within(dimensions));
}

#[test]
fn chunk_coordinates_divide_block_coordinates() {
    let c = BlockCoordinate::new(70, 31, 32);
    assert_eq!(ChunkCoordinate::for_block_coordinate(c), ChunkCoordinate::new(2, 0, 1));
    let inner = ChunkBlockCoordinate::for_block_coordinate(c);
    assert_eq!((inner.x, inner.y, inner.z), (6, 31, 0));
    assert_eq!(inner.flatten(), 31 * 32 + 6);
    assert_eq!(CHUNK_DIMENSIONS, 32);
    let block = StructureBlock::new(70, 31, 32);
    assert_eq!((block.x(), block.y(), block.z()), (70, 31, 32));
    assert_eq!(
        (block.chunk_coord_x(), block.chunk_coord_y(), block.chunk_coord_z()),
        (2, 0, 1)
    );
    assert_eq!(block.coords(), c);
    assert_eq!(StructureBlock::at(c), block);
}

#[test]
fn rotate_applies_offsets_as_the_side_demands() {
    let dimensions = BlockCoordinate::new(100, 100, 100);
    let c = BlockCoordinate::new(10, 20, 30);
    let delta = UnboundBlockCoordinate::new(1, 2, 3);
    assert_eq!(rotate(c, delta, dimensions, BlockFace::Top), Ok(BlockCoordinate::new(11, 22, 33)));
    assert_eq!(rotate(c, delta, dimensions, BlockFace::Bottom), Ok(BlockCoordinate::new(11, 18, 33)));
    assert_eq!(rotate(c, delta, dimensions, BlockFace::Front), Ok(BlockCoordinate::new(11, 23, 32)));
    assert_eq!(rotate(c, delta, dimensions, BlockFace::Back), Ok(BlockCoordinate::new(11, 23, 28)));
    assert_eq!(rotate(c, delta, dimensions, BlockFace::Right), Ok(BlockCoordinate::new(12, 21, 33)));
    assert_eq!(rotate(c, delta, dimensions, BlockFace::Left), Ok(BlockCoordinate::new(8, 21, 33)));
}

#[test]
fn rotate_refuses_results_outside_the_structure() {
    let dimensions = BlockCoordinate::new(12, 100, 100);
    let c = BlockCoordinate::new(10, 1, 30);
    assert_eq!(
        rotate(c, UnboundBlockCoordinate::new(0, 2, 0), dimensions, BlockFace::Bottom),
        Err(RotationError::NegativeResult(UnboundBlockCoordinate::new(10, -1, 30)))
    );
    assert_eq!(
        rotate(c, UnboundBlockCoordinate::new(2, 0, 0), dimensions, BlockFace::Top),
        Err(RotationError::PositiveResult(BlockCoordinate::new(12, 1, 30)))
    );
    // A result below zero comes before one past the size.
    assert_eq!(
        rotate(c, UnboundBlockCoordinate::new(5, -3, 0), dimensions, BlockFace::Top),
        Err(RotationError::NegativeResult(UnboundBlockCoordinate::new(15, -2, 30)))
    );
}

#[test]
fn chunk_stores_blocks_and_counts_them() {
    let mut chunk = Chunk::new(ChunkCoordinate::new(1, 2, 3));
    assert_eq!(chunk.chunk_coordinates(), ChunkCoordinate::new(1, 2, 3));
    assert!(chunk.is_empty());
    let at = ChunkBlockCoordinate::for_block_coordinate(BlockCoordinate::new(5, 6, 7));
    let other = ChunkBlockCoordinate::for_block_coordinate(BlockCoordinate::new(5, 6, 8));
    chunk.set_block_at(at, 2, BlockFace::Left);
    assert!(!chunk.is_empty());
    assert_eq!(chunk.block_at(at), 2);
    assert_eq!(chunk.block_rotation(at), BlockFace::Left);
    assert_eq!(chunk.block_at(other), AIR_BLOCK_ID);
    assert_eq!(chunk.block_rotation(other), BlockFace::Top);
    chunk.set_block_at(at, 1, BlockFace::Top);
    assert!(!chunk.is_empty());
    chunk.set_block_at(at, AIR_BLOCK_ID, BlockFace::Left);
    assert!(chunk.is_empty());
    // Air cannot be turned.
    assert_eq!(chunk.block_rotation(at), BlockFace::Top);
}

#[test]
fn full_structure_answers_block_queries() {
    let blocks = blocks();
    let stone = blocks.from_id("cosmos:stone").unwrap();
    let mut structure = FullStructure::new(ChunkCoordinate::new(2, 1, 3));
    assert_eq!(structure.chunk_dimensions(), ChunkCoordinate::new(2, 1, 3));
    assert_eq!(structure.block_dimensions(), BlockCoordinate::new(64, 32, 96));
    assert_eq!(
        (structure.chunks_width(), structure.chunks_height(), structure.chunks_length()),
        (2, 1, 3)
    );
    assert_eq!(
        (structure.blocks_width(), structure.blocks_height(), structure.blocks_length()),
        (64, 32, 96)
    );
    let at = BlockCoordinate::new(40, 3, 70);
    assert!(structure.is_within_blocks(at));
    assert!(!structure.is_within_blocks(BlockCoordinate::new(64, 0, 0)));
    assert!(!structure.has_block_at(at));
    assert_eq!(structure.block_id_at(at), AIR_BLOCK_ID);
    assert_eq!(structure.block_rotation(at), BlockFace::Top);
    assert!(structure.chunk_at_block_coordinates(at).is_none());

    let event = structure.set_block_at(at, stone, BlockFace::Back);
    assert_eq!(
        event,
        Some(BlockChangedEvent {
            block: StructureBlock::at(at),
            old_block: AIR_BLOCK_ID,
            new_block: stone.id(),
            old_block_rotation: BlockFace::Top,
            new_block_rotation: BlockFace::Back,
        })
    );
    assert!(structure.has_block_at(at));
    assert_eq!(structure.block_id_at(at), 1);
    assert_eq!(structure.block_rotation(at), BlockFace::Back);
    assert_eq!(structure.block_at(at, &blocks).unlocalized_name(), "cosmos:stone");
    assert!(structure.chunk_from_chunk_coordinates(ChunkCoordinate::new(1, 0, 2)).is_some());
    assert!(structure.chunk_from_chunk_coordinates(ChunkCoordinate::new(0, 0, 0)).is_none());
    assert!(structure.chunk_from_chunk_coordinates(ChunkCoordinate::new(5, 0, 0)).is_none());
    assert!(structure
        .chunk_from_chunk_coordinates_unbound(UnboundChunkCoordinate::new(1, 0, 2))
        .is_some());
    assert!(structure
        .chunk_from_chunk_coordinates_unbound(UnboundChunkCoordinate::new(-1, 0, 2))
        .is_none());
    // The same kind of block again changes nothing.
    assert_eq!(structure.set_block_at(at, stone, BlockFace::Top), None);
    assert_eq!(structure.block_rotation(at), BlockFace::Back);

    let event = structure.remove_block_at(at).unwrap();
    assert_eq!(event.old_block, 1);
    assert_eq!(event.new_block, AIR_BLOCK_ID);
    assert_eq!(event.old_block_rotation, BlockFace::Back);
    assert!(!structure.has_block_at(at));
    assert!(structure.chunk_at_block_coordinates(at).is_none());
    assert_eq!(structure.remove_block_at(at), None);
}

#[test]
fn full_structure_tells_the_state_of_its_chunks() {
    let mut structure = FullStructure::new(ChunkCoordinate::new(2, 2, 2));
    let inside = ChunkCoordinate::new(1, 1, 1);
    let outside = ChunkCoordinate::new(64, 0, 0);
    assert!(structure.chunk_coords_within(inside));
    assert!(!structure.chunk_coords_within(ChunkCoordinate::new(2, 0, 0)));
    assert!(structure.is_within_chunks(inside));
    assert!(!structure.is_within_chunks(outside));
    assert_eq!(structure.get_chunk_state(inside), ChunkState::Loading);
    assert_eq!(structure.get_chunk_state(outside), ChunkState::Invalid);
    assert!(!structure.has_empty_chunk_at(inside));
    structure.set_loaded();
    assert_eq!(structure.get_chunk_state(inside), ChunkState::Loaded);
    assert_eq!(structure.get_chunk_state(outside), ChunkState::Invalid);
    assert!(structure.has_empty_chunk_at(inside));
    let mut chunk = Chunk::new(inside);
    chunk.set_block_at(
        ChunkBlockCoordinate::for_block_coordinate(BlockCoordinate::new(1, 2, 3)),
        2,
        BlockFace::Top,
    );
    structure.set_chunk(chunk);
    assert!(!structure.has_empty_chunk_at(inside));
    assert_eq!(structure.block_id_at(BlockCoordinate::new(33, 34, 35)), 2);
    let taken = structure.take_chunk(inside).unwrap();
    assert_eq!(taken.chunk_coordinates(), inside);
    assert_eq!(structure.block_id_at(BlockCoordinate::new(33, 34, 35)), AIR_BLOCK_ID);
    assert!(structure.take_chunk(inside).is_none());
    structure.set_chunk(taken);
    assert_eq!(structure.block_id_at(BlockCoordinate::new(33, 34, 35)), 2);
    structure.set_to_empty_chunk(inside);
    assert!(structure.has_empty_chunk_at(inside));
    assert_eq!(structure.block_id_at(BlockCoordinate::new(33, 34, 35)), AIR_BLOCK_ID);
}

#[test]
fn dynamic_structure_loads_chunk_by_chunk() {
    let mut structure = Structure::Dynamic(DynamicStructure::new(3));
    assert_eq!(structure.chunk_dimensions(), ChunkCoordinate::new(3, 3, 3));
    assert_eq!(structure.block_dimensions(), BlockCoordinate::new(96, 96, 96));
    let at = ChunkCoordinate::new(2, 0, 1);
    assert_eq!(structure.get_chunk_state(at), ChunkState::Unloaded);
    assert_eq!(structure.get_chunk_state(ChunkCoordinate::new(3, 0, 0)), ChunkState::Invalid);
    assert!(!structure.has_empty_chunk_at(at));
    structure.set_chunk(Chunk::new(at));
    assert_eq!(structure.get_chunk_state(at), ChunkState::Loaded);
    assert!(structure.has_empty_chunk_at(at));
    assert!(structure.chunk_from_chunk_coordinates(at).is_none());
    let blocks = blocks();
    let grass = blocks.from_id("cosmos:grass").unwrap();
    let coords = BlockCoordinate::new(64, 0, 32);
    assert!(structure.set_block_at(coords, grass, BlockFace::Top).is_some());
    assert_eq!(structure.get_chunk_state(at), ChunkState::Loaded);
    assert!(!structure.has_empty_chunk_at(at));
    assert_eq!(StructureBlock::at(coords).block_id(&structure), 2);
    assert_eq!(StructureBlock::at(coords).block(&structure, &blocks).unlocalized_name(), "cosmos:grass");
    assert!(structure.has_block_at(coords));
    assert!(structure.is_within_blocks(coords));
    assert!(structure.chunk_coords_within(at));
}

#[test]
fn registry_finds_items_by_name_and_id() {
    let mut blocks = blocks();
    assert_eq!(blocks.len(), 3);
    assert_eq!(blocks.from_id("cosmos:stone").unwrap().id(), 1);
    assert_eq!(blocks.from_id("cosmos:grass").unwrap().id(), 2);
    assert!(blocks.from_id("cosmos:ston").is_none());
    assert!(blocks.from_id("cosmos:stone ").is_none());
    assert_eq!(blocks.from_numeric_id(0).unlocalized_name(), "cosmos:air");
    assert_eq!(blocks.get(2).unwrap().unlocalized_name(), "cosmos:grass");
    assert!(blocks.get(3).is_none());
    // Of two items with one name, the one registered last is found.
    blocks.register(Block::new("cosmos:stone".to_owned()));
    assert_eq!(blocks.from_id("cosmos:stone").unwrap().id(), 3);
}

#[test]
fn channels_and_tanks_keep_their_numbers() {
    assert_eq!(cosmos_core::netty::NettyChannel::Reliable.id(), 0);
    assert_eq!(cosmos_core::netty::NettyChannel::Unreliable.id(), 1);
    assert_eq!(cosmos_core::netty::NettyChannel::LaserCannonSystem.id(), 2);
    assert_eq!(cosmos_core::netty::PROTOCOL_ID, 7);
    let blocks = blocks();
    let mut tanks: Registry<cosmos_core::fluid::FluidTankBlock> = Registry::new();
    tanks.register(cosmos_core::fluid::FluidTankBlock::new(blocks.from_id("cosmos:grass").unwrap(), 3));
    tanks.register(cosmos_core::fluid::FluidTankBlock::new(blocks.from_id("cosmos:stone").unwrap(), 10_000));
    let tank = tanks.from_id("cosmos:stone").unwrap();
    assert_eq!(tank.max_capacity(), 10_000);
    assert_eq!(tank.id(), 1);
    assert_eq!(tank.unlocalized_name(), "cosmos:stone");
    assert!(tanks.from_id("cosmos:air").is_none());
}
