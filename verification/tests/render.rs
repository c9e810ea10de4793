use landmass::image::Image;
use landmass::render::{render, BAR, GAP, LAND, NEWLINE, RULE, RULE_SIDE, SEA};

fn text_of(image: &Image) -> String {
    String::from_utf8(render(image)).unwrap()
}

#[test]
fn glyphs_are_ascii() {
    assert_eq!(LAND, b'#');
    assert_eq!(SEA, b'.');
    assert_eq!(BAR, b'|');
    assert_eq!(RULE, b'=');
    assert_eq!(GAP, b' ');
    assert_eq!(NEWLINE, b'\n');
    assert_eq!(RULE_SIDE, 8);
}

#[test]
fn picture_starts_with_the_last_row() {
    let mut image = Image::new(false, 4, 3).unwrap();
    image.set(0, 0, true).unwrap();
    image.set(3, 2, true).unwrap();
    assert_eq!(text_of(&image), "..|.#\n..|..\n======== ========\n#.|..\n");
}

#[test]
fn picture_of_one_cell() {
    let image = Image::new(true, 1, 1).unwrap();
    assert_eq!(text_of(&image), "|#\n======== ========\n");
}

#[test]
fn picture_of_an_odd_image() {
    let mut image = Image::new(true, 3, 5).unwrap();
    image.set(1, 2, false).unwrap();
    assert_eq!(text_of(&image), "#|##\n#|##\n#|.#\n======== ========\n#|##\n#|##\n");
}

#[test]
fn picture_of_an_image_without_cells() {
    assert_eq!(text_of(&Image::new(false, 0, 0).unwrap()), "");
    assert_eq!(text_of(&Image::new(false, 3, 0).unwrap()), "");
    assert_eq!(text_of(&Image::new(false, 0, 2).unwrap()), "\n======== ========\n\n");
}

#[test]
fn picture_of_a_wide_image() {
    let image = Image::new(false, 16, 2).unwrap();
    assert_eq!(
        text_of(&image),
        "........|........\n======== ========\n........|........\n"
    );
}
