use mandelbrot::colours::{
    vga_map, ColourLayout, ColourScheme, ColourSchemeT, InvalidColourScheme, Rgb,
};
use mandelbrot::complex::Complex;
use mandelbrot::fix::fix2x61::Fix2x61;
use mandelbrot::grid::Grid;

#[test]
fn scheme_names() {
    assert_eq!(ColourScheme::from_str("fractint"), Ok(ColourScheme::Fractint));
    assert_eq!(ColourScheme::from_str("grey"), Ok(ColourScheme::Greyscale));
    assert_eq!(ColourScheme::from_str("loggrey"), Ok(ColourScheme::LogGreyscale));
    assert_eq!(ColourScheme::from_str("gray"), Err(InvalidColourScheme));
    assert_eq!(ColourScheme::from_str(""), Err(InvalidColourScheme));
    assert_eq!(ColourScheme::from_str("Fractint"), Err(InvalidColourScheme));
}

#[test]
fn layouts() {
    assert_eq!(ColourScheme::Greyscale.colour_type(), ColourLayout::Gray8);
    assert_eq!(ColourScheme::Fractint.colour_type(), ColourLayout::Rgb8);
    assert_eq!(ColourScheme::LogGreyscale.colour_type(), ColourLayout::Gray8);
}

#[test]
fn greyscale_wraps_after_255_shades() {
    let g = ColourScheme::Greyscale;
    assert_eq!(g.bytes(0, 0), vec![1]);
    assert_eq!(g.bytes(1, 0), vec![2]);
    assert_eq!(g.bytes(254, 0), vec![255]);
    assert_eq!(g.bytes(255, 0), vec![1]);
    assert_eq!(g.bytes(u64::MAX, 0), vec![1]);
    assert_eq!(g.escaped_bytes(), vec![0]);
}

#[test]
fn log_greyscale_shades_by_the_scaled_logarithm() {
    let g = ColourScheme::LogGreyscale;
    assert_eq!(g.bytes(1, 0), vec![1]);
    assert_eq!(g.bytes(2, 64), vec![65]);
    assert_eq!(g.bytes(1000, 637), vec![128]);
    assert_eq!(g.bytes(1000, 254), vec![255]);
    assert_eq!(g.bytes(1000, 255), vec![1]);
    assert_eq!(g.escaped_bytes(), vec![0]);
}

#[test]
fn fractint_cycles_through_the_palette() {
    let f = ColourScheme::Fractint;
    assert_eq!(f.bytes(0, 0), vec![0, 0, 0]);
    assert_eq!(f.bytes(1, 0), vec![0, 0, 168]);
    assert_eq!(f.bytes(6, 0), vec![168, 84, 0]);
    assert_eq!(f.bytes(15, 0), vec![252, 252, 252]);
    assert_eq!(f.bytes(17, 0), vec![0, 0, 168]);
    assert_eq!(f.bytes(u64::MAX, 0), vec![252, 252, 252]);
    assert_eq!(f.escaped_bytes(), vec![0, 0, 0]);
}

#[test]
fn the_palette_has_sixteen_colours() {
    let map = vga_map();
    assert_eq!(map.len(), 16);
    assert_eq!(map[0], Rgb(0, 0, 0));
    assert_eq!(map[9], Rgb(84, 84, 252));
    assert_eq!(map[15], Rgb(252, 252, 252));
    assert_eq!(Rgb(1, 2, 3).bytes(), vec![1, 2, 3]);
}

#[test]
fn a_picture_holds_the_bytes_of_each_cell_in_order() {
    let mut grid = Grid::create(2, Complex::zero(), Fix2x61::two()).unwrap();
    grid.iterate_as_required(10);
    let cells = 16usize;
    let logs: Vec<usize> = (0..cells).map(|i| 10 * i).collect();

    let grey = grid.render(&ColourScheme::Greyscale, &logs);
    let log_grey = grid.render(&ColourScheme::LogGreyscale, &logs);
    let palette = grid.render(&ColourScheme::Fractint, &logs);
    assert_eq!(grey.len(), cells);
    assert_eq!(log_grey.len(), cells);
    assert_eq!(palette.len(), 3 * cells);
    let map = vga_map();
    let mut some_escaped = false;
    let mut some_inside = false;
    for i in 0..cells {
        let p = grid.point(i);
        if p.escaped {
            some_escaped = true;
            assert_eq!(grey[i], ((p.iterations % 255) + 1) as u8);
            assert_eq!(log_grey[i], ((10 * i) % 255 + 1) as u8);
            let c = map[(p.iterations % 16) as usize];
            assert_eq!(&palette[3 * i..3 * i + 3], &[c.0, c.1, c.2]);
        } else {
            some_inside = true;
            assert_eq!(grey[i], 0);
            assert_eq!(log_grey[i], 0);
            assert_eq!(&palette[3 * i..3 * i + 3], &[0, 0, 0]);
        }
    }
    assert!(some_escaped && some_inside);
}
