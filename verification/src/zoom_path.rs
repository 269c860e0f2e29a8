use vstd::prelude::*;
use vstd::string::StringSliceAdditionalSpecFns;

verus! {

/// A quarter of a square region. Left is towards the lesser real parts,
/// top towards the lesser imaginary parts.
#[derive(Debug, Copy, Clone, PartialEq, Eq, Structural)]
pub enum Quad {
    TopLeft,
    TopRight,
    BottomLeft,
    BottomRight,
}

/// A sequence of quadrants to zoom into, one after the other.
#[derive(Debug)]
pub struct ZoomPath(pub Vec<Quad>);

impl Clone for ZoomPath {
    fn clone(&self) -> (path: ZoomPath)
        ensures
            path.0@ == self.0@,
    {
        ZoomPath(self.0.clone())
    }
}

/// Why a text is no zoom path.
#[derive(Debug, Copy, Clone, PartialEq, Eq, Structural)]
pub enum ZoomPathError {
    /// The element with the given index is no decimal number that fits a byte.
    NotANumber { index: usize },
    /// The element with the given index is a number, but none from 1 to 4.
    OutOfRange { index: usize, value: u8 },
}

/// The byte that separates the elements of a path.
pub const SEPARATOR: u8 = 0x2c;

/// The byte of the plus sign.
pub const PLUS: u8 = 0x2b;

/// The byte of the digit zero.
pub const DIGIT_ZERO: u8 = 0x30;

/// The byte of the digit nine.
pub const DIGIT_NINE: u8 = 0x39;

/// The elements of a text: the runs of bytes between the separators. A text
/// without a separator is one element, and so is the empty text.
pub open spec fn split(bytes: Seq<u8>) -> Seq<Seq<u8>>
    decreases bytes.len(),
{
    if bytes.len() == 0 {
        seq![Seq::<u8>::empty()]
    } else {
        let before = split(bytes.drop_last());
        if bytes.last() == SEPARATOR {
            before.push(Seq::<u8>::empty())
        } else {
            before.update(before.len() - 1, before.last().push(bytes.last()))
        }
    }
}

/// Whether a byte is a decimal digit.
pub open spec fn is_digit(byte: u8) -> bool {
    DIGIT_ZERO <= byte <= DIGIT_NINE
}

/// Whether all bytes are decimal digits.
pub open spec fn all_digits(digits: Seq<u8>) -> bool {
    forall|i: int| 0 <= i < digits.len() ==> is_digit(#[trigger] digits[i])
}

/// The number that a run of decimal digits denotes.
pub open spec fn decimal_value(digits: Seq<u8>) -> nat
    decreases digits.len(),
{
    if digits.len() == 0 {
        0
    } else {
        10 * decimal_value(digits.drop_last()) + (digits.last() - DIGIT_ZERO) as nat
    }
}

/// The digits of an element: the element without one leading plus sign.
pub open spec fn unsigned_part(element: Seq<u8>) -> Seq<u8> {
    if element.len() > 0 && element[0] == PLUS {
        element.subrange(1, element.len() as int)
    } else {
        element
    }
}

/// The number that an element denotes: an optional plus sign followed by
/// at least one decimal digit and nothing else, with a value that fits a byte.
pub open spec fn parse_number(element: Seq<u8>) -> Option<u8> {
    let digits = unsigned_part(element);
    if digits.len() > 0 && all_digits(digits) && decimal_value(digits) <= u8::MAX {
        Some(decimal_value(digits) as u8)
    } else {
        None
    }
}

/// The quadrant that a number selects.
pub open spec fn quad_of(value: u8) -> Option<Quad> {
    if value == 1 {
        Some(Quad::TopLeft)
    } else if value == 2 {
        Some(Quad::TopRight)
    } else if value == 3 {
        Some(Quad::BottomLeft)
    } else if value == 4 {
        Some(Quad::BottomRight)
    } else {
        None
    }
}

/// The quadrant that the element with the given index denotes, or why it
/// denotes none.
pub open spec fn parse_element(element: Seq<u8>, index: int) -> Result<Quad, ZoomPathError> {
    match parse_number(element) {
        None => Err(ZoomPathError::NotANumber { index: index as usize }),
        Some(value) => match quad_of(value) {
            Some(quad) => Ok(quad),
            None => Err(ZoomPathError::OutOfRange { index: index as usize, value }),
        },
    }
}

/// The quadrants that the elements denote, or the error of the first
/// element that denotes none.
pub open spec fn parse_elements(elements: Seq<Seq<u8>>) -> Result<Seq<Quad>, ZoomPathError>
    decreases elements.len(),
{
    if elements.len() == 0 {
        Ok(Seq::<Quad>::empty())
    } else {
        match parse_elements(elements.drop_last()) {
            Err(e) => Err(e),
            Ok(quads) => match parse_element(elements.last(), elements.len() - 1) {
                Ok(quad) => Ok(quads.push(quad)),
                Err(e) => Err(e),
            },
        }
    }
}

/// The path that a text denotes: its elements, separated by commas, each
/// a number from 1 to 4.
pub open spec fn parse_path(bytes: Seq<u8>) -> Result<Seq<Quad>, ZoomPathError> {
    parse_elements(split(bytes))
}

/// The contents of the elements.
pub open spec fn contents(elements: Seq<Vec<u8>>) -> Seq<Seq<u8>> {
    Seq::new(elements.len(), |i: int| elements[i]@)
}

/// Cuts a text into its elements.
pub fn split_elements(bytes: &[u8]) -> (elements: Vec<Vec<u8>>)
    ensures
        contents(elements@) == split(bytes@),
{
    let mut elements: Vec<Vec<u8>> = Vec::new();
    let mut current: Vec<u8> = Vec::new();
    let mut i: usize = 0;
    while i < bytes.len()
        invariant
            i <= bytes.len(),
            contents(elements@).push(current@) == split(bytes@.take(i as int)),
        decreases bytes.len() - i,
    {
        let byte = bytes[i];
        proof {
            assert(bytes@.take(i + 1).drop_last() =~= bytes@.take(i as int));
        }
        if byte == SEPARATOR {
            elements.push(current);
            current = Vec::new();
        } else {
            current.push(byte);
        }
        i += 1;
    }
    proof {
        assert(bytes@.take(bytes.len() as int) =~= bytes@);
    }
    elements.push(current);
    elements
}

/// Reads an element as a decimal number that fits a byte.
pub fn number_of(element: &Vec<u8>) -> (value: Option<u8>)
    ensures
        value == parse_number(element@),
{
    let start: usize = if element.len() > 0 && element[0] == PLUS {
        1
    } else {
        0
    };
    let ghost digits = unsigned_part(element@);
    if start == element.len() {
        return None;
    }
    let mut value: u16 = 0;
    let mut i: usize = start;
    while i < element.len()
        invariant
            start <= i <= element.len(),
            start <= 1,
            digits == unsigned_part(element@),
            digits == element@.subrange(start as int, element.len() as int),
            all_digits(digits.take(i - start)),
            value == decimal_value(digits.take(i - start)),
            value <= u8::MAX,
        decreases element.len() - i,
    {
        let byte = element[i];
        proof {
            assert(digits.take(i - start + 1).drop_last() =~= digits.take(i - start));
        }
        if byte < DIGIT_ZERO || byte > DIGIT_NINE {
            assert(!is_digit(digits[i - start]));
            return None;
        }
        let next: u16 = value * 10 + (byte - DIGIT_ZERO) as u16;
        if next > 255 {
            proof {
                if all_digits(digits) {
                    lemma_decimal_value_grows(digits, i - start + 1);
                }
            }
            return None;
        }
        value = next;
        i += 1;
    }
    proof {
        assert(digits.take(digits.len() as int) =~= digits);
    }
    Some(value as u8)
}

/// A number does not shrink when digits are appended: the value of a run of
/// digits is at least the value of each of its beginnings.
pub proof fn lemma_decimal_value_grows(digits: Seq<u8>, n: int)
    requires
        0 <= n <= digits.len(),
        all_digits(digits),
    ensures
        decimal_value(digits.take(n)) <= decimal_value(digits),
    decreases digits.len() - n,
{
    if n < digits.len() {
        lemma_decimal_value_grows(digits, n + 1);
        assert(digits.take(n + 1).drop_last() =~= digits.take(n));
    } else {
        assert(digits.take(n) =~= digits);
    }
}

impl ZoomPath {
    /// Reads a path from a text such as `1,4,2`.
    pub fn from_str(s: &str) -> (res: Result<ZoomPath, ZoomPathError>)
        ensures
            match res {
                Ok(path) => parse_path(s.spec_bytes()) == Ok::<Seq<Quad>, ZoomPathError>(path.0@),
                Err(e) => parse_path(s.spec_bytes()) == Err::<Seq<Quad>, ZoomPathError>(e),
            },
    {
        ZoomPath::from_bytes(s.as_bytes())
    }

    /// Reads a path from the bytes of a text.
    pub fn from_bytes(bytes: &[u8]) -> (res: Result<ZoomPath, ZoomPathError>)
        ensures
            match res {
                Ok(path) => parse_path(bytes@) == Ok::<Seq<Quad>, ZoomPathError>(path.0@),
                Err(e) => parse_path(bytes@) == Err::<Seq<Quad>, ZoomPathError>(e),
            },
    {
        let elements = split_elements(bytes);
        let ghost all = contents(elements@);
        let mut path: Vec<Quad> = Vec::new();
        let mut i: usize = 0;
        while i < elements.len()
            invariant
                i <= elements.len(),
                all == contents(elements@),
                all == split(bytes@),
                parse_elements(all.take(i as int)) == Ok::<Seq<Quad>, ZoomPathError>(path@),
            decreases elements.len() - i,
        {
            proof {
                assert(all.take(i + 1).drop_last() =~= all.take(i as int));
            }
            let v = match number_of(&elements[i]) {
                Some(v) => v,
                None => {
                    proof {
                        lemma_first_error_stays(all, i + 1);
                    }
                    return Err(ZoomPathError::NotANumber { index: i });
                },
            };
            let quad = match v {
                1 => Quad::TopLeft,
                2 => Quad::TopRight,
                3 => Quad::BottomLeft,
                4 => Quad::BottomRight,
                _ => {
                    proof {
                        lemma_first_error_stays(all, i + 1);
                    }
                    return Err(ZoomPathError::OutOfRange { index: i, value: v });
                },
            };
            path.push(quad);
            i += 1;
        }
        proof {
            assert(all.take(elements.len() as int) =~= all);
        }
        Ok(ZoomPath(path))
    }
}

/// An error among the first `n` elements is the error of the whole path.
pub proof fn lemma_first_error_stays(elements: Seq<Seq<u8>>, n: int)
    requires
        0 <= n <= elements.len(),
        parse_elements(elements.take(n)) is Err,
    ensures
        parse_elements(elements) == parse_elements(elements.take(n)),
    decreases elements.len() - n,
{
    if n < elements.len() {
        assert(elements.take(n + 1).drop_last() =~= elements.take(n));
        lemma_first_error_stays(elements, n + 1);
    } else {
        assert(elements.take(n) =~= elements);
    }
}

} // verus!
