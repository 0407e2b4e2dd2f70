use twenty48::tile::Tile;

#[test]
fn a_tile_shows_its_value() {
    assert_eq!(Tile::new(0).value(), 0);
    assert_eq!(Tile::new(2).value(), 2);
    assert_eq!(Tile::new(65535).value(), 65535);
}

#[test]
fn only_zero_is_empty() {
    assert!(Tile::new(0).is_empty());
    assert!(!Tile::new(2).is_empty());
}

#[test]
fn conversion_from_and_to_a_number_loses_nothing() {
    for value in [0u16, 1, 2, 4, 2048, 32768, 65535] {
        let tile = Tile::from(value);
        assert_eq!(tile, Tile::new(value));
        assert_eq!(u16::from(tile), value);
        let back: u16 = tile.into();
        assert_eq!(back, value);
    }
}

#[test]
fn equal_tiles_merge_into_their_sum() {
    assert_eq!(Tile::new(2).merge_with(Tile::new(2)), Tile::new(4));
    assert_eq!(Tile::new(1024).merge_with(Tile::new(1024)), Tile::new(2048));
    assert_eq!(Tile::new(0).merge_with(Tile::new(0)), Tile::new(0));
    assert_eq!(Tile::new(32767).merge_with(Tile::new(32767)), Tile::new(65534));
}

#[test]
fn tiles_are_equal_when_their_values_are() {
    assert_eq!(Tile::new(8), Tile::new(8));
    assert_ne!(Tile::new(8), Tile::new(16));
}

#[test]
fn each_value_up_to_the_winning_one_has_its_colour() {
    assert_eq!(Tile::new(2).color(), 0xeee4da);
    assert_eq!(Tile::new(4).color(), 0xede0c8);
    assert_eq!(Tile::new(8).color(), 0xf2b179);
    assert_eq!(Tile::new(16).color(), 0xf59563);
    assert_eq!(Tile::new(32).color(), 0xf67c5f);
    assert_eq!(Tile::new(64).color(), 0xf65e3b);
    assert_eq!(Tile::new(128).color(), 0xedcf72);
    assert_eq!(Tile::new(256).color(), 0xedcc61);
    assert_eq!(Tile::new(512).color(), 0xedc850);
    assert_eq!(Tile::new(1024).color(), 0xedc53f);
    assert_eq!(Tile::new(2048).color(), 0xedc22e);
}

#[test]
fn other_values_are_grey() {
    assert_eq!(Tile::new(0).color(), 0x969696);
    assert_eq!(Tile::new(3).color(), 0x969696);
    assert_eq!(Tile::new(4096).color(), 0x969696);
}

#[test]
fn a_label_is_five_characters_with_the_value_in_the_middle() {
    assert_eq!(Tile::new(0).value_str(), "     ");
    assert_eq!(Tile::new(2).value_str(), "  2  ");
    assert_eq!(Tile::new(16).value_str(), "  16 ");
    assert_eq!(Tile::new(128).value_str(), " 128 ");
    assert_eq!(Tile::new(1024).value_str(), " 1024");
    assert_eq!(Tile::new(2048).value_str(), " 2048");
    assert_eq!(Tile::new(65535).value_str(), "65535");
    assert_eq!(Tile::new(10).value_str(), "  10 ");
    assert_eq!(Tile::new(100).value_str(), " 100 ");
    assert_eq!(Tile::new(10000).value_str(), "10000");
}

#[test]
fn every_label_is_as_std_would_format_it() {
    for value in 1..=u16::MAX {
        let digits = format!("{}", value);
        let gap = 5 - digits.len();
        let right = gap / 2;
        let expected = format!("{}{}{}", " ".repeat(gap - right), digits, " ".repeat(right));
        assert_eq!(Tile::new(value).value_str(), expected);
    }
}
