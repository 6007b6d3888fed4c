use sketchbook::sketches::render_texture_template::{palette_index, sketch_shape, SketchShape};
use sketchbook::sketches::slime_mold_loop::{LoopClock, LOOP_FRAMES};
use sketchbook::sketches::sprite_assets::{
    has_sprite_file_name, is_sprite_file_name, sprite_asset_path, sprite_asset_paths,
};
use sketchbook::sketches::sprite_grid::{
    arrow_direction, clamp_index, grid_cells, is_steered, trail_sprite_index, GridCell,
    TRAIL_COLUMNS, TRAIL_ROWS,
};
use sketchbook::text::{extension_of, str_eq_ignore_ascii_case, str_lt};

#[test]
fn slime_clock_wraps_after_loop() {
    let mut clock = LoopClock::new();
    assert_eq!(clock.frame(), 0);
    clock.advance();
    assert_eq!(clock.frame(), 1);
    for _ in 1..LOOP_FRAMES {
        clock.advance();
    }
    assert_eq!(clock.frame(), 0);
}

#[test]
fn slime_loop_is_seamless_from_any_frame() {
    let mut clock = LoopClock::new();
    for _ in 0..137 {
        clock.advance();
    }
    let start = clock.frame();
    assert_eq!(start, 137);
    for _ in 0..LOOP_FRAMES {
        clock.advance();
        assert!(clock.frame() < LOOP_FRAMES);
    }
    assert_eq!(clock.frame(), start);
}

#[test]
fn grid_cells_row_major() {
    let cells = grid_cells(TRAIL_COLUMNS, TRAIL_ROWS);
    assert_eq!(cells.len(), 45);
    assert_eq!(cells[0], GridCell { column: 0, row: 0, index: 0 });
    assert_eq!(cells[8], GridCell { column: 8, row: 0, index: 8 });
    assert_eq!(cells[9], GridCell { column: 0, row: 1, index: 9 });
    assert_eq!(cells[44], GridCell { column: 8, row: 4, index: 44 });
    assert!(grid_cells(0, 3).is_empty());
}

#[test]
fn trail_sprites_step_by_five() {
    assert_eq!(trail_sprite_index(0, 8), 0);
    assert_eq!(trail_sprite_index(1, 8), 5);
    assert_eq!(trail_sprite_index(2, 8), 2);
    assert_eq!(trail_sprite_index(3, 8), 7);
    for i in 0..45 {
        assert!(trail_sprite_index(i, 8) < 8);
    }
}

#[test]
fn clamp_index_keeps_picks_in_range() {
    assert_eq!(clamp_index(3, 10), 3);
    assert_eq!(clamp_index(9, 10), 9);
    assert_eq!(clamp_index(10, 10), 9);
    assert_eq!(clamp_index(usize::MAX, 1), 0);
}

#[test]
fn arrow_keys_direction() {
    assert_eq!(arrow_direction(false, false, false, false), (0, 0));
    assert_eq!(arrow_direction(true, false, false, true), (-1, 1));
    assert_eq!(arrow_direction(true, true, true, false), (0, -1));
    assert!(!is_steered(arrow_direction(true, true, true, true)));
    assert!(is_steered(arrow_direction(false, true, false, false)));
}

#[test]
fn render_template_shapes() {
    assert_eq!(sketch_shape(0), SketchShape::Circle { radius: 54 });
    assert_eq!(sketch_shape(1), SketchShape::Polygon { sides: 4 });
    assert_eq!(sketch_shape(2), SketchShape::Square);
    assert_eq!(sketch_shape(3), SketchShape::Circle { radius: 90 });
    assert_eq!(sketch_shape(6), SketchShape::Circle { radius: 78 });
    assert_eq!(sketch_shape(5), SketchShape::Square);
    assert_eq!(sketch_shape(7), SketchShape::Polygon { sides: 4 });
    assert_eq!(sketch_shape(10), SketchShape::Polygon { sides: 7 });
    assert_eq!(palette_index(7), 1);
    assert_eq!(palette_index(17), 2);
}

#[test]
fn sprite_file_filter() {
    assert!(is_sprite_file_name("rare-candy.png"));
    assert!(is_sprite_file_name("cat.JPEG"));
    assert!(is_sprite_file_name("x.WebP"));
    assert!(!is_sprite_file_name("._rare-candy.png"));
    assert!(!is_sprite_file_name("notes.txt"));
    assert!(!is_sprite_file_name(".png"));
    assert!(!is_sprite_file_name("png"));
    assert!(!is_sprite_file_name("archive.png.zip"));
    assert!(is_sprite_file_name(".hidden.gif"));
    assert!(!is_sprite_file_name("trailing."));
}

#[test]
fn sprite_paths_are_filtered_prefixed_and_sorted() {
    let names: Vec<String> = ["moomoo-milk.png", "._awakening.png", "Calcium.PNG", "readme.md", "awakening.png", "leftovers.gif"]
        .iter()
        .map(|s| s.to_string())
        .collect();
    let paths = sprite_asset_paths(&names);
    assert_eq!(
        paths,
        vec![
            "pokemon/Calcium.PNG".to_string(),
            "pokemon/awakening.png".to_string(),
            "pokemon/leftovers.gif".to_string(),
            "pokemon/moomoo-milk.png".to_string(),
        ]
    );
    assert_eq!(sprite_asset_path("a.png"), "pokemon/a.png");
    assert_eq!(
        sprite_asset_paths(&vec!["x.txt".to_string(), "only.gif".to_string()]),
        vec!["pokemon/only.gif".to_string()]
    );
}

#[test]
fn sprite_paths_sorted_like_std() {
    let names: Vec<String> = ["é.png", "z.png", "a.png", "ab.png", "a.jpg", "Zz.gif", "ä.webp"]
        .iter()
        .map(|s| s.to_string())
        .collect();
    let mut expected: Vec<String> = names.iter().map(|n| format!("pokemon/{n}")).collect();
    expected.sort();
    assert_eq!(sprite_asset_paths(&names), expected);
}

#[test]
fn text_helpers() {
    assert_eq!(extension_of("a.png"), Some("png"));
    assert_eq!(extension_of("a.tar.gz"), Some("gz"));
    assert_eq!(extension_of(".bashrc"), None);
    assert_eq!(extension_of(".."), None);
    assert_eq!(extension_of("noext"), None);
    assert_eq!(extension_of("a."), Some(""));
    assert!(str_eq_ignore_ascii_case("PnG", "png"));
    assert!(!str_eq_ignore_ascii_case("pngg", "png"));
    assert!(str_lt("a", "b"));
    assert!(str_lt("a", "ab"));
    assert!(!str_lt("b", "ab"));
    assert!(!str_lt("same", "same"));
    assert!(str_lt("Z", "a"));
}

#[test]
fn folder_without_sprites_is_detected() {
    let none: Vec<String> = vec!["x.txt".to_string(), "._a.png".to_string()];
    assert!(!has_sprite_file_name(&none));
    assert!(!has_sprite_file_name(&Vec::new()));
    let some: Vec<String> = vec!["x.txt".to_string(), "a.PNG".to_string()];
    assert!(has_sprite_file_name(&some));
    assert!(!sprite_asset_paths(&some).is_empty());
}
