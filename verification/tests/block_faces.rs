use cosmos_core::block::block_direction::{all_block_directions, BlockDirection};
use cosmos_core::block::block_face::BlockFace;

const FACES: [BlockFace; 6] = [
    BlockFace::Right,
    BlockFace::Left,
    BlockFace::Top,
    BlockFace::Bottom,
    BlockFace::Front,
    BlockFace::Back,
];

#[test]
fn upright_block_keeps_its_faces() {
    assert_eq!(BlockFace::Top.direction_of(BlockFace::Right), BlockDirection::PosX);
    assert_eq!(BlockFace::Top.direction_of(BlockFace::Left), BlockDirection::NegX);
    assert_eq!(BlockFace::Top.direction_of(BlockFace::Top), BlockDirection::PosY);
    assert_eq!(BlockFace::Top.direction_of(BlockFace::Bottom), BlockDirection::NegY);
    assert_eq!(BlockFace::Top.direction_of(BlockFace::Front), BlockDirection::PosZ);
    assert_eq!(BlockFace::Top.direction_of(BlockFace::Back), BlockDirection::NegZ);
}

#[test]
fn top_of_a_turned_block_points_where_it_is_turned_to() {
    assert_eq!(BlockFace::Right.direction_of(BlockFace::Top), BlockDirection::PosX);
    assert_eq!(BlockFace::Left.direction_of(BlockFace::Top), BlockDirection::NegX);
    assert_eq!(BlockFace::Top.direction_of(BlockFace::Top), BlockDirection::PosY);
    assert_eq!(BlockFace::Bottom.direction_of(BlockFace::Top), BlockDirection::NegY);
    assert_eq!(BlockFace::Front.direction_of(BlockFace::Top), BlockDirection::PosZ);
    assert_eq!(BlockFace::Back.direction_of(BlockFace::Top), BlockDirection::NegZ);
}

#[test]
fn turned_blocks_exchange_the_vertical_axis() {
    assert_eq!(BlockFace::Right.direction_of(BlockFace::Right), BlockDirection::PosY);
    assert_eq!(BlockFace::Right.direction_of(BlockFace::Left), BlockDirection::NegY);
    assert_eq!(BlockFace::Left.direction_of(BlockFace::Right), BlockDirection::PosY);
    assert_eq!(BlockFace::Left.direction_of(BlockFace::Bottom), BlockDirection::PosX);
    assert_eq!(BlockFace::Front.direction_of(BlockFace::Front), BlockDirection::PosY);
    assert_eq!(BlockFace::Front.direction_of(BlockFace::Bottom), BlockDirection::NegZ);
    assert_eq!(BlockFace::Back.direction_of(BlockFace::Front), BlockDirection::PosY);
    assert_eq!(BlockFace::Back.direction_of(BlockFace::Bottom), BlockDirection::PosZ);
    assert_eq!(BlockFace::Bottom.direction_of(BlockFace::Front), BlockDirection::PosZ);
    assert_eq!(BlockFace::Bottom.direction_of(BlockFace::Bottom), BlockDirection::PosY);
}

#[test]
fn face_pointing_inverts_direction_of() {
    for up in FACES {
        for face in FACES {
            assert_eq!(up.face_pointing(up.direction_of(face)), face);
        }
        for direction in all_block_directions() {
            assert_eq!(up.direction_of(up.face_pointing(direction)), direction);
        }
    }
}

#[test]
fn rotation_keeps_opposite_faces_opposite() {
    for up in FACES {
        for face in FACES {
            assert_eq!(up.direction_of(face.inverse()), up.direction_of(face).inverse());
        }
    }
}

#[test]
fn faces_and_directions_are_numbered_in_order() {
    for (i, face) in FACES.iter().enumerate() {
        assert_eq!(face.index(), i);
        assert_eq!(BlockFace::from_index(i), *face);
    }
    for (i, direction) in all_block_directions().iter().enumerate() {
        assert_eq!(direction.index(), i);
        assert_eq!(BlockDirection::from_index(i), *direction);
        assert_ne!(direction.inverse(), *direction);
        assert_eq!(direction.inverse().inverse(), *direction);
    }
    assert_eq!(BlockFace::Right.inverse(), BlockFace::Left);
    assert_eq!(BlockFace::Top.inverse(), BlockFace::Bottom);
    assert_eq!(BlockFace::Front.inverse(), BlockFace::Back);
    assert_eq!(BlockFace::Front.local_front(), BlockDirection::PosY);
    assert_eq!(BlockFace::Top.local_front(), BlockDirection::PosZ);
}
