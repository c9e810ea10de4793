use landmass::continents::Continents;
use landmass::error::Error;
use landmass::image::Image;
use landmass::rng::NotchRng;
use landmass::window::Position;

fn rows_of(image: &Image) -> Vec<String> {
    (0..image.z_size())
        .map(|z| (0..image.x_size()).map(|x| if image.cell(x, z) { '#' } else { '.' }).collect())
        .collect()
}

#[test]
fn chance_must_be_a_percentage() {
    let rng = NotchRng::new(1, 100);
    assert!(Continents::new(0, rng).is_ok());
    assert!(Continents::new(100, rng).is_ok());
    assert!(matches!(Continents::new(-1, rng), Err(Error::InvalidArgument)));
    assert!(matches!(Continents::new(101, rng), Err(Error::InvalidArgument)));
    assert!(matches!(Continents::new(i32::MIN, rng), Err(Error::InvalidArgument)));
}

#[test]
fn source_keeps_what_it_was_made_of() {
    let source = Continents::new(10, NotchRng::new(1, 100)).unwrap();
    assert_eq!(source.chance(), 10);
    assert_eq!(source.rng().initial, NotchRng::new(1, 100).initial);
}

#[test]
fn fill_scatters_land_by_chance() {
    let source = Continents::new(10, NotchRng::new(1, 100)).unwrap();
    let mut image = Image::new(false, 8, 5).unwrap();
    assert_eq!(source.fill(Position { x: -3, z: -2 }, &mut image), Ok(()));
    assert_eq!(
        rows_of(&image),
        vec!["........", "##......", "........", "........", "...#..#."]
    );
}

#[test]
fn fill_with_even_chance() {
    let source = Continents::new(50, NotchRng::new(1, 100)).unwrap();
    let mut image = Image::new(true, 9, 6).unwrap();
    assert_eq!(source.fill(Position { x: -4, z: -3 }, &mut image), Ok(()));
    assert_eq!(
        rows_of(&image),
        vec!["########.", "..#..#...", ".######.#", "...#.#...", ".####.#..", "....##.#."]
    );
}

#[test]
fn fill_draws_below_the_chance_at_each_cell() {
    let source = Continents::new(37, NotchRng::new(5, 6)).unwrap();
    let mut image = Image::new(false, 6, 7).unwrap();
    source.fill(Position { x: 100, z: -200 }, &mut image).unwrap();
    let mut rng = NotchRng::new(5, 6);
    for z in 0..7 {
        for x in 0..6 {
            rng.init_at(100 + x as i64, -200 + z as i64);
            let land = rng.next_i32(100).unwrap() < 37;
            assert_eq!(image.get(x, z), Some(land));
        }
    }
}

#[test]
fn chance_of_none_and_of_all() {
    let mut image = Image::new(true, 5, 5).unwrap();
    Continents::new(0, NotchRng::new(1, 100)).unwrap().fill(Position { x: 0, z: 0 }, &mut image).unwrap();
    assert!(rows_of(&image).iter().all(|row| row == "....."));
    Continents::new(100, NotchRng::new(1, 100)).unwrap().fill(Position { x: 0, z: 0 }, &mut image).unwrap();
    assert!(rows_of(&image).iter().all(|row| row == "#####"));
}

#[test]
fn cell_does_not_depend_on_the_window() {
    let source = Continents::new(50, NotchRng::new(1, 100)).unwrap();
    let mut wide = Image::new(false, 9, 6).unwrap();
    source.fill(Position { x: -4, z: -3 }, &mut wide).unwrap();
    let mut narrow = Image::new(false, 3, 2).unwrap();
    source.fill(Position { x: -1, z: 0 }, &mut narrow).unwrap();
    for z in 0..2 {
        for x in 0..3 {
            assert_eq!(narrow.get(x, z), wide.get(x + 3, z + 3));
        }
    }
}

#[test]
fn fill_beyond_the_plane_is_refused() {
    let source = Continents::new(100, NotchRng::new(1, 100)).unwrap();
    let mut image = Image::new(false, 3, 3).unwrap();
    assert_eq!(source.fill(Position { x: i64::MAX - 1, z: 0 }, &mut image), Err(Error::InvalidArgument));
    assert_eq!(source.fill(Position { x: 0, z: i64::MAX }, &mut image), Err(Error::InvalidArgument));
    assert!(rows_of(&image).iter().all(|row| row == "..."));
    assert_eq!(source.fill(Position { x: i64::MAX - 2, z: i64::MAX - 2 }, &mut image), Ok(()));
    assert!(rows_of(&image).iter().all(|row| row == "###"));
}

#[test]
fn fill_of_an_empty_image() {
    let source = Continents::new(100, NotchRng::new(1, 100)).unwrap();
    let mut image = Image::new(false, 0, 3).unwrap();
    assert_eq!(source.fill(Position { x: 0, z: 0 }, &mut image), Ok(()));
}
