//! Drawings: ordered lists of figures whose coordinates are lengths in
//! physical units.
use vstd::prelude::*;
use crate::num::Num;

verus! {

/// A length: a number of pixels, inches, centimetres or millimetres.
#[derive(Clone, Copy, Debug, PartialEq, Eq, Structural)]
pub enum Unit {
    Px(Num),
    In(Num),
    Cm(Num),
    Mm(Num),
}

/// `px`, `in`, `cm` or `mm` as ASCII bytes.
pub open spec fn suffix_px() -> Seq<u8> {
    seq![112u8, 120u8]
}

pub open spec fn suffix_in() -> Seq<u8> {
    seq![105u8, 110u8]
}

pub open spec fn suffix_cm() -> Seq<u8> {
    seq![99u8, 109u8]
}

pub open spec fn suffix_mm() -> Seq<u8> {
    seq![109u8, 109u8]
}

impl Unit {
    /// The number of units.
    pub open spec fn amount(self) -> Num {
        match self {
            Unit::Px(n) => n,
            Unit::In(n) => n,
            Unit::Cm(n) => n,
            Unit::Mm(n) => n,
        }
    }

    /// The name of the unit, as written after the number.
    pub open spec fn suffix(self) -> Seq<u8> {
        match self {
            Unit::Px(_) => suffix_px(),
            Unit::In(_) => suffix_in(),
            Unit::Cm(_) => suffix_cm(),
            Unit::Mm(_) => suffix_mm(),
        }
    }

    /// The length as written in SVG: the number followed by the unit's name,
    /// such as `5px` or `0.1mm`.
    pub open spec fn text(self) -> Seq<u8> {
        self.amount().text() + self.suffix()
    }

    /// Appends the text of the length.
    pub fn write_text(&self, out: &mut Vec<u8>)
        ensures
            final(out)@ == old(out)@ + self.text(),
    {
        let ghost start = old(out)@;
        match *self {
            Unit::Px(n) => {
                n.write_text(out);
                out.push(112u8);
                out.push(120u8);
            },
            Unit::In(n) => {
                n.write_text(out);
                out.push(105u8);
                out.push(110u8);
            },
            Unit::Cm(n) => {
                n.write_text(out);
                out.push(99u8);
                out.push(109u8);
            },
            Unit::Mm(n) => {
                n.write_text(out);
                out.push(109u8);
                out.push(109u8);
            },
        }
        assert(out@ =~= start + self.text());
    }

    /// The text of the length as bytes.
    pub fn to_text(&self) -> (r: Vec<u8>)
        ensures
            r@ == self.text(),
    {
        let mut out: Vec<u8> = Vec::new();
        self.write_text(&mut out);
        assert(out@ =~= self.text());
        out
    }
}

/// A figure of a drawing.
#[derive(Debug, PartialEq)]
pub enum Figure {
    /// A straight stroke from `p1` to `p2`, `width` wide.
    Line { p1: (Unit, Unit), p2: (Unit, Unit), width: Unit },
    /// A circle around `center`, drawn with a stroke `width` wide and filled
    /// with the paint named by `fill`, if any.
    Circle { center: (Unit, Unit), radius: Unit, width: Unit, fill: Option<String> },
}

/// The figures to draw, in the order they were added.
pub struct Drawing {
    figures: Vec<Figure>,
}

impl View for Drawing {
    type V = Seq<Figure>;

    closed spec fn view(&self) -> Seq<Figure> {
        self.figures@
    }
}

impl Drawing {
    /// An empty drawing.
    pub fn new() -> (d: Drawing)
        ensures
            d@ == Seq::<Figure>::empty(),
    {
        Drawing { figures: Vec::new() }
    }

    /// Adds a figure after all the others.
    pub fn push(&mut self, figure: Figure)
        ensures
            final(self)@ == old(self)@.push(figure),
    {
        self.figures.push(figure);
    }

    /// Moves the figures of `other` after all of this drawing's, in their
    /// order, leaving `other` empty.
    pub fn append(&mut self, other: &mut Drawing)
        ensures
            final(self)@ == old(self)@ + old(other)@,
            final(other)@ == Seq::<Figure>::empty(),
    {
        self.figures.append(&mut other.figures);
    }

    /// The figures, in the order they were added.
    pub fn figures(&self) -> (r: &[Figure])
        ensures
            r@ == self@,
    {
        self.figures.as_slice()
    }
}


/// The figures after pushing each of `pushed`, in order, onto `figures`.
pub open spec fn after_pushes(figures: Seq<Figure>, pushed: Seq<Figure>) -> Seq<Figure>
    decreases pushed.len(),
{
    if pushed.len() == 0 {
        figures
    } else {
        after_pushes(figures, pushed.drop_last()).push(pushed.last())
    }
}

/// However many figures are pushed, the drawing lists them after the earlier
/// ones, in the order they were pushed, repeats included.
pub proof fn lemma_pushes_keep_order(figures: Seq<Figure>, pushed: Seq<Figure>)
    ensures
        after_pushes(figures, pushed) == figures + pushed,
    decreases pushed.len(),
{
    if pushed.len() > 0 {
        lemma_pushes_keep_order(figures, pushed.drop_last());
        assert(figures + pushed =~= (figures + pushed.drop_last()).push(pushed.last()));
    } else {
        assert(figures + pushed =~= figures);
    }
}


/// A length is written as its number followed by its unit's name: `px`,
/// `in`, `cm` or `mm`.
pub proof fn lemma_unit_text(n: Num)
    ensures
        Unit::Px(n).text() == n.text() + seq![112u8, 120u8],
        Unit::In(n).text() == n.text() + seq![105u8, 110u8],
        Unit::Cm(n).text() == n.text() + seq![99u8, 109u8],
        Unit::Mm(n).text() == n.text() + seq![109u8, 109u8],
{
}

} // verus!
