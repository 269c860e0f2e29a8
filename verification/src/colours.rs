use crate::grid::Grid;
use crate::point::PointState;
use vstd::prelude::*;

verus! {

/// A colour: red, green and blue.
#[derive(Debug, Copy, Clone, PartialEq, Eq, Structural)]
pub struct Rgb(pub u8, pub u8, pub u8);

/// How the bytes of a picture are to be read.
#[derive(Debug, Copy, Clone, PartialEq, Eq, Structural)]
pub enum ColourLayout {
    /// One byte for each pixel: a shade of grey.
    Gray8,
    /// Three bytes for each pixel: red, green and blue.
    Rgb8,
}

impl ColourLayout {
    /// The number of bytes for each pixel.
    pub open spec fn channels_spec(self) -> nat {
        match self {
            ColourLayout::Gray8 => 1,
            ColourLayout::Rgb8 => 3,
        }
    }

    /// The number of bytes for each pixel.
    pub fn channels(&self) -> (n: usize)
        ensures
            n == self.channels_spec(),
    {
        match self {
            ColourLayout::Gray8 => 1,
            ColourLayout::Rgb8 => 3,
        }
    }
}

/// The ways to colour the cells of a grid.
#[derive(Debug, Copy, Clone, PartialEq, Eq, Structural)]
pub enum ColourScheme {
    /// A shade of grey that follows the counter.
    Greyscale,
    /// A colour of the sixteen-colour palette that follows the counter.
    Fractint,
    /// A shade of grey that follows the logarithm of the counter.
    LogGreyscale,
}

/// A text names no colour scheme.
#[derive(Debug, Copy, Clone, PartialEq, Eq, Structural)]
pub struct InvalidColourScheme;

/// The palette of the scheme `Fractint`: the sixteen colours of the
/// default map of the program of that name.
pub open spec fn vga_map_spec() -> Seq<Rgb> {
    seq![
        Rgb(0, 0, 0),
        Rgb(0, 0, 168),
        Rgb(0, 168, 0),
        Rgb(0, 168, 168),
        Rgb(168, 0, 0),
        Rgb(168, 0, 168),
        Rgb(168, 84, 0),
        Rgb(168, 168, 168),
        Rgb(84, 84, 84),
        Rgb(84, 84, 252),
        Rgb(84, 252, 84),
        Rgb(84, 252, 252),
        Rgb(252, 84, 84),
        Rgb(252, 84, 252),
        Rgb(252, 252, 84),
        Rgb(252, 252, 252),
    ]
}

// Ref https://svn.fractint.net/trunk/fractint/maps/default.map
/// The palette of the scheme `Fractint`.
pub fn vga_map() -> (map: Vec<Rgb>)
    ensures
        map@ == vga_map_spec(),
{
    let map = vec![
        Rgb(0, 0, 0),
        Rgb(0, 0, 168),
        Rgb(0, 168, 0),
        Rgb(0, 168, 168),
        Rgb(168, 0, 0),
        Rgb(168, 0, 168),
        Rgb(168, 84, 0),
        Rgb(168, 168, 168),
        Rgb(84, 84, 84),
        Rgb(84, 84, 252),
        Rgb(84, 252, 84),
        Rgb(84, 252, 252),
        Rgb(252, 84, 84),
        Rgb(252, 84, 252),
        Rgb(252, 252, 84),
        Rgb(252, 252, 252),
    ];
    map
}

impl Rgb {
    /// The three bytes of the colour.
    pub open spec fn bytes_spec(self) -> Seq<u8> {
        seq![self.0, self.1, self.2]
    }

    /// The three bytes of the colour: red, green, blue.
    pub fn bytes(&self) -> (b: Vec<u8>)
        ensures
            b@ == self.bytes_spec(),
    {
        let b = vec![self.0, self.1, self.2];
        b
    }
}

/// What a colour scheme has to say: how its bytes are laid out, which bytes
/// stand for an escaped cell, and which for a cell that has not escaped.
pub trait ColourSchemeT {
    /// The layout of the bytes.
    spec fn colour_type_spec(&self) -> ColourLayout;

    /// The bytes of a cell that escaped after `iterations` counted steps.
    /// `scaled_log` is sixty-four times the binary logarithm of
    /// `iterations`, cut to a whole number, which the caller supplies.
    spec fn bytes_spec(&self, iterations: u64, scaled_log: usize) -> Seq<u8>;

    /// The bytes of a cell that has not escaped.
    spec fn escaped_bytes_spec(&self) -> Seq<u8>;

    fn colour_type(&self) -> (layout: ColourLayout)
        ensures
            layout == self.colour_type_spec(),
    ;

    fn bytes(&self, iterations: u64, scaled_log: usize) -> (b: Vec<u8>)
        ensures
            b@ == self.bytes_spec(iterations, scaled_log),
    ;

    fn escaped_bytes(&self) -> (b: Vec<u8>)
        ensures
            b@ == self.escaped_bytes_spec(),
    ;
}

impl ColourSchemeT for ColourScheme {
    open spec fn colour_type_spec(&self) -> ColourLayout {
        match self {
            ColourScheme::Greyscale => ColourLayout::Gray8,
            ColourScheme::Fractint => ColourLayout::Rgb8,
            ColourScheme::LogGreyscale => ColourLayout::Gray8,
        }
    }

    open spec fn bytes_spec(&self, iterations: u64, scaled_log: usize) -> Seq<u8> {
        match self {
            ColourScheme::Greyscale => seq![((iterations % 255) + 1) as u8],
            ColourScheme::Fractint => vga_map_spec()[iterations as int % 16].bytes_spec(),
            ColourScheme::LogGreyscale => seq![((scaled_log % 255) + 1) as u8],
        }
    }

    open spec fn escaped_bytes_spec(&self) -> Seq<u8> {
        match self {
            ColourScheme::Greyscale => seq![0u8],
            ColourScheme::Fractint => seq![0u8, 0u8, 0u8],
            ColourScheme::LogGreyscale => seq![0u8],
        }
    }

    fn colour_type(&self) -> (layout: ColourLayout) {
        match self {
            ColourScheme::Greyscale => ColourLayout::Gray8,
            ColourScheme::Fractint => ColourLayout::Rgb8,
            ColourScheme::LogGreyscale => ColourLayout::Gray8,
        }
    }

    fn bytes(&self, iterations: u64, scaled_log: usize) -> (b: Vec<u8>) {
        match self {
            ColourScheme::Greyscale => {
                let b = vec![((iterations % 255) + 1) as u8];
                b
            },
            ColourScheme::Fractint => {
                let map = vga_map();
                let modulus = map.len() as u64;
                let c = &map[(iterations % modulus) as usize];
                c.bytes()
            },
            ColourScheme::LogGreyscale => {
                let b = vec![((scaled_log % 255) + 1) as u8];
                b
            },
        }
    }

    fn escaped_bytes(&self) -> (b: Vec<u8>) {
        match self {
            ColourScheme::Greyscale => {
                let b = vec![0u8];
                b
            },
            ColourScheme::Fractint => {
                let b = vec![0u8, 0u8, 0u8];
                b
            },
            ColourScheme::LogGreyscale => {
                let b = vec![0u8];
                b
            },
        }
    }
}

impl ColourScheme {
    /// The scheme that a name stands for.
    pub open spec fn from_str_spec(s: Seq<char>) -> Result<ColourScheme, InvalidColourScheme> {
        if s == "fractint"@ {
            Ok(ColourScheme::Fractint)
        } else if s == "grey"@ {
            Ok(ColourScheme::Greyscale)
        } else if s == "loggrey"@ {
            Ok(ColourScheme::LogGreyscale)
        } else {
            Err(InvalidColourScheme)
        }
    }

    /// Reads the name of a scheme: `fractint`, `grey` or `loggrey`.
    pub fn from_str(s: &str) -> (res: Result<ColourScheme, InvalidColourScheme>)
        ensures
            res == Self::from_str_spec(s@),
    {
        let name = s.to_owned();
        if name == "fractint".to_owned() {
            Ok(ColourScheme::Fractint)
        } else if name == "grey".to_owned() {
            Ok(ColourScheme::Greyscale)
        } else if name == "loggrey".to_owned() {
            Ok(ColourScheme::LogGreyscale)
        } else {
            Err(InvalidColourScheme)
        }
    }
}

/// The bytes of one cell under a scheme.
pub open spec fn pixel(scheme: ColourScheme, p: PointState, scaled_log: usize) -> Seq<u8> {
    if p.escaped {
        scheme.bytes_spec(p.iterations as u64, scaled_log)
    } else {
        scheme.escaped_bytes_spec()
    }
}

/// The bytes of the first `n` cells under a scheme, cell after cell.
pub open spec fn rendered(
    scheme: ColourScheme,
    points: Seq<PointState>,
    scaled_logs: Seq<usize>,
    n: nat,
) -> Seq<u8>
    decreases n,
{
    if n == 0 {
        Seq::<u8>::empty()
    } else {
        rendered(scheme, points, scaled_logs, (n - 1) as nat) + pixel(
            scheme,
            points[n - 1],
            scaled_logs[n - 1],
        )
    }
}

/// Every cell takes as many bytes as the layout of the scheme says.
pub proof fn lemma_rendered_len(
    scheme: ColourScheme,
    points: Seq<PointState>,
    scaled_logs: Seq<usize>,
    n: nat,
)
    ensures
        rendered(scheme, points, scaled_logs, n).len() == n
            * scheme.colour_type_spec().channels_spec(),
    decreases n,
{
    if n > 0 {
        lemma_rendered_len(scheme, points, scaled_logs, (n - 1) as nat);
        assert(n * scheme.colour_type_spec().channels_spec() == (n - 1)
            * scheme.colour_type_spec().channels_spec()
            + scheme.colour_type_spec().channels_spec()) by (nonlinear_arith);
    }
}

impl Grid {
    /// The picture of the grid as bytes, cell after cell in row-major order.
    /// `scaled_logs` holds for each cell sixty-four times the binary
    /// logarithm of its counter, cut to a whole number; only the scheme
    /// `LogGreyscale` reads it.
    pub fn render(&self, scheme: &ColourScheme, scaled_logs: &Vec<usize>) -> (buffer: Vec<u8>)
        requires
            self@.wf(),
            scaled_logs.len() == self@.points.len(),
        ensures
            buffer@ == rendered(*scheme, self@.points, scaled_logs@, self@.points.len()),
            buffer.len() == self@.points.len() * scheme.colour_type_spec().channels_spec(),
    {
        proof {
            lemma_rendered_len(*scheme, self@.points, scaled_logs@, self@.points.len());
        }
        let mut buffer: Vec<u8> = Vec::new();
        let cells = scaled_logs.len();
        let mut i: usize = 0;
        while i < cells
            invariant
                i <= cells,
                cells == scaled_logs.len(),
                cells == self@.points.len(),
                buffer@ == rendered(*scheme, self@.points, scaled_logs@, i as nat),
            decreases cells - i,
        {
            let p = self.point(i);
            let mut bytes = if p.has_escaped() {
                scheme.bytes(p.iteration_count(), scaled_logs[i])
            } else {
                scheme.escaped_bytes()
            };
            buffer.append(&mut bytes);
            i += 1;
        }
        buffer
    }
}

} // verus!
