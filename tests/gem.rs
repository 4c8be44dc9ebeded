use match3_rpg::gem::{GemShape, GemType};

#[test]
fn kinds_follow_the_board_numbering() {
    assert_eq!(GemType::from_index(0), GemType::Ruby);
    assert_eq!(GemType::from_index(1), GemType::Emerald);
    assert_eq!(GemType::from_index(5), GemType::Amethyst);
    assert_eq!(GemType::from_index(6), GemType::Skull);
    assert_eq!(GemType::from_index(7), GemType::Equipment);
    for i in 0..8u32 {
        assert_eq!(GemType::from_index(i).index(), i as usize);
    }
}

#[test]
fn only_the_skull_pays_nothing() {
    for i in 0..8u32 {
        let t = GemType::from_index(i);
        assert_eq!(t.is_resource(), t != GemType::Skull);
    }
    assert_eq!(GemType::Topaz.name(), "Topaz");
}

#[test]
fn each_kind_has_its_shape() {
    assert_eq!(GemShape::from(GemType::Ruby), GemShape::Asscher);
    assert_eq!(GemShape::from(GemType::Emerald), GemShape::Baguette);
    assert_eq!(GemShape::from(GemType::Sapphire), GemShape::Marquise);
    assert_eq!(GemShape::from(GemType::Topaz), GemShape::Pear);
    assert_eq!(GemShape::from(GemType::Diamond), GemShape::Round);
    assert_eq!(GemShape::from(GemType::Amethyst), GemShape::Trillion);
    assert_eq!(GemShape::from(GemType::Skull), GemShape::Skull);
    assert_eq!(GemShape::from(GemType::Equipment), GemShape::Equipment);
}

#[test]
fn mesh_files_are_named_after_the_shape() {
    assert_eq!(GemShape::Asscher.mesh_path(), "Asscher.glb");
    assert_eq!(GemShape::Trillion.mesh_path(), "Trillion.glb");
    assert_eq!(GemShape::Pear.shattered_mesh_path(), "Pear_shattered.glb");
    assert_eq!(GemShape::Equipment.shattered_mesh_path(), "Equipment_shattered.glb");
    assert_eq!(GemShape::all().len(), 8);
    assert_eq!(GemShape::all()[4], GemShape::Round);
}
