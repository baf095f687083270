//! SVG rendering of drawings.
use vstd::prelude::*;
use crate::drawing::{Drawing, Figure, Unit};
use crate::num::push_range;
use vstd::string::StringSliceAdditionalSpecFns;

verus! {

/// The opening of every document, up to and including the `<svg>` tag.
pub const SVG_HEADER: &'static str = "<?xml version=\"1.0\" encoding=\"ISO-8859-1\" standalone=\"no\"?>
<!DOCTYPE svg PUBLIC \"-//W3C//DTD SVG 1.1//EN\"
    \"http://www.w3.org/Graphics/SVG/1.1/DTD/svg11.dtd\">
<svg xmlns=\"http://www.w3.org/2000/svg\"
     xmlns:xlink=\"http://www.w3.org/1999/xlink\"
     xml:space=\"preserve\"
     width=\"100%\"
     height=\"100%\"
     viewBox=\"0 0 200 50\"
     zoomAndPan=\"disable\" preserveAspectRatio=\"none\">
";

/// Appends the UTF-8 bytes of `s`.
pub fn push_str(out: &mut Vec<u8>, s: &str)
    ensures
        final(out)@ == old(out)@ + s.spec_bytes(),
{
    let b = s.as_bytes();
    push_range(out, b, 0, b.len());
    assert(b@.subrange(0, b@.len() as int) =~= b@);
}

/// The markup of a line.
pub open spec fn line_markup(x1: Unit, y1: Unit, x2: Unit, y2: Unit, width: Unit) -> Seq<u8> {
    "<line stroke=\"black\" x1=\"".spec_bytes() + x1.text() + "\" y1=\"".spec_bytes() + y1.text()
        + "\" x2=\"".spec_bytes() + x2.text() + "\" y2=\"".spec_bytes() + y2.text()
        + "\" stroke-width=\"".spec_bytes() + width.text() + "\"/>".spec_bytes()
}

/// The paint of a circle: the given one, or `none`.
pub open spec fn fill_text(fill: Option<String>) -> Seq<u8> {
    match fill {
        Some(s) => vstd::utf8::encode_utf8(s@),
        None => "none".spec_bytes(),
    }
}

/// The markup of a circle.
pub open spec fn circle_markup(x: Unit, y: Unit, radius: Unit, width: Unit, fill: Option<String>) -> Seq<u8> {
    "<circle cx=\"".spec_bytes() + x.text() + "\" cy=\"".spec_bytes() + y.text() + "\" r=\"".spec_bytes()
        + radius.text() + "\" stroke-width=\"".spec_bytes() + width.text()
        + "\" stroke=\"black\" fill=\"".spec_bytes() + fill_text(fill) + "\" />".spec_bytes()
}

/// The markup of one figure.
pub open spec fn figure_markup(f: Figure) -> Seq<u8> {
    match f {
        Figure::Line { p1, p2, width } => line_markup(p1.0, p1.1, p2.0, p2.1, width),
        Figure::Circle { center, radius, width, fill } => circle_markup(
            center.0,
            center.1,
            radius,
            width,
            fill,
        ),
    }
}

/// The markup of the figures, one after the other, in order.
pub open spec fn figures_markup(figures: Seq<Figure>) -> Seq<u8>
    decreases figures.len(),
{
    if figures.len() == 0 {
        Seq::empty()
    } else {
        figures_markup(figures.drop_last()) + figure_markup(figures.last())
    }
}

/// The whole document for a drawing: the header, empty definitions, the
/// figures in order, and the closing tag.
pub open spec fn svg_document(figures: Seq<Figure>) -> Seq<u8> {
    SVG_HEADER.spec_bytes() + "<defs>".spec_bytes() + "</defs>".spec_bytes() + figures_markup(figures)
        + "</svg>".spec_bytes()
}

/// The document being built: definitions and body kept apart, and a counter
/// for the identifiers that definitions take.
pub struct SvgWriter {
    pub defs: Vec<u8>,
    pub body: Vec<u8>,
    pub id_gen: u32,
}

impl SvgWriter {
    /// A writer with no definitions and an empty body.
    pub fn new() -> (w: SvgWriter)
        ensures
            w.defs@ == Seq::<u8>::empty(),
            w.body@ == Seq::<u8>::empty(),
            w.id_gen == 0,
    {
        SvgWriter { defs: Vec::new(), body: Vec::new(), id_gen: 0 }
    }
}

/// Appends the markup of a line.
fn write_line(out: &mut Vec<u8>, x1: &Unit, y1: &Unit, x2: &Unit, y2: &Unit, width: &Unit)
    ensures
        final(out)@ == old(out)@ + line_markup(*x1, *y1, *x2, *y2, *width),
{
    let ghost start = old(out)@;
    push_str(out, "<line stroke=\"black\" x1=\"");
    x1.write_text(out);
    push_str(out, "\" y1=\"");
    y1.write_text(out);
    push_str(out, "\" x2=\"");
    x2.write_text(out);
    let ghost mid = out@;
    push_str(out, "\" y2=\"");
    y2.write_text(out);
    push_str(out, "\" stroke-width=\"");
    width.write_text(out);
    push_str(out, "\"/>");
    assert(out@ =~= mid + "\" y2=\"".spec_bytes() + y2.text() + "\" stroke-width=\"".spec_bytes()
        + width.text() + "\"/>".spec_bytes());
    assert(out@ =~= start + line_markup(*x1, *y1, *x2, *y2, *width));
}

/// Appends the markup of a circle.
fn write_circle(
    out: &mut Vec<u8>,
    x: &Unit,
    y: &Unit,
    radius: &Unit,
    width: &Unit,
    fill: &Option<String>,
)
    ensures
        final(out)@ == old(out)@ + circle_markup(*x, *y, *radius, *width, *fill),
{
    let ghost start = old(out)@;
    push_str(out, "<circle cx=\"");
    x.write_text(out);
    push_str(out, "\" cy=\"");
    y.write_text(out);
    push_str(out, "\" r=\"");
    radius.write_text(out);
    let ghost mid = out@;
    push_str(out, "\" stroke-width=\"");
    width.write_text(out);
    push_str(out, "\" stroke=\"black\" fill=\"");
    match fill {
        Some(s) => push_str(out, s.as_str()),
        None => push_str(out, "none"),
    }
    push_str(out, "\" />");
    assert(out@ =~= mid + "\" stroke-width=\"".spec_bytes() + width.text()
        + "\" stroke=\"black\" fill=\"".spec_bytes() + fill_text(*fill) + "\" />".spec_bytes());
    assert(out@ =~= start + circle_markup(*x, *y, *radius, *width, *fill));
}

/// Appends the markup of `figure` to the body.
pub fn write_figure(figure: &Figure, writer: &mut SvgWriter)
    ensures
        final(writer).body@ == old(writer).body@ + figure_markup(*figure),
        final(writer).defs@ == old(writer).defs@,
        final(writer).id_gen == old(writer).id_gen,
{
    match figure {
        Figure::Line { p1, p2, width } => {
            write_line(&mut writer.body, &p1.0, &p1.1, &p2.0, &p2.1, width);
        },
        Figure::Circle { center, radius, width, fill } => {
            write_circle(&mut writer.body, &center.0, &center.1, radius, width, fill);
        },
    }
}

/// Appends the SVG document of the drawing.
pub fn write_svg(drawing: &Drawing, out: &mut Vec<u8>)
    ensures
        final(out)@ == old(out)@ + svg_document(drawing@),
{
    let mut svg_writer = SvgWriter::new();
    let figures = drawing.figures();
    let mut i: usize = 0;
    while i < figures.len()
        invariant
            i <= figures@.len(),
            figures@ == drawing@,
            svg_writer.defs@ == Seq::<u8>::empty(),
            svg_writer.body@ == figures_markup(figures@.take(i as int)),
        decreases figures@.len() - i,
    {
        write_figure(&figures[i], &mut svg_writer);
        assert(figures@.take(i + 1).drop_last() =~= figures@.take(i as int));
        i = i + 1;
    }
    assert(figures@.take(i as int) =~= figures@);
    let ghost start = old(out)@;
    push_str(out, SVG_HEADER);
    push_str(out, "<defs>");
    let defs = svg_writer.defs.as_slice();
    push_range(out, defs, 0, defs.len());
    push_str(out, "</defs>");
    let body = svg_writer.body.as_slice();
    push_range(out, body, 0, body.len());
    push_str(out, "</svg>");
    assert(defs@.subrange(0, defs@.len() as int) =~= Seq::<u8>::empty());
    assert(body@.subrange(0, body@.len() as int) =~= body@);
    assert(out@ =~= start + svg_document(drawing@));
}

/// Pushing a figure onto a drawing appends exactly that figure's markup to
/// the body of its document, leaving the markup of the earlier figures as it
/// was.
pub proof fn lemma_push_appends_markup(figures: Seq<Figure>, f: Figure)
    ensures
        figures_markup(figures.push(f)) == figures_markup(figures) + figure_markup(f),
{
    assert(figures.push(f).drop_last() =~= figures);
}


/// The markup of a line names each coordinate by its own attribute, holding
/// the text of that same coordinate, whatever the lengths' units: `x1` and
/// `y1` the start, `x2` and `y2` the end, and `stroke-width` the width.
pub proof fn lemma_line_attributes(p1: (Unit, Unit), p2: (Unit, Unit), width: Unit)
    ensures
        figure_markup(Figure::Line { p1, p2, width }) == "<line stroke=\"black\" x1=\"".spec_bytes() + p1.0.text()
            + "\" y1=\"".spec_bytes() + p1.1.text() + "\" x2=\"".spec_bytes() + p2.0.text()
            + "\" y2=\"".spec_bytes() + p2.1.text() + "\" stroke-width=\"".spec_bytes() + width.text()
            + "\"/>".spec_bytes(),
{
}

/// The markup of a circle holds the centre's coordinates in `cx` and `cy`,
/// the radius in `r`, the width in `stroke-width`, and the paint (or `none`)
/// in `fill`, whatever the lengths' units.
pub proof fn lemma_circle_attributes(
    center: (Unit, Unit),
    radius: Unit,
    width: Unit,
    fill: Option<String>,
)
    ensures
        figure_markup(Figure::Circle { center, radius, width, fill }) == "<circle cx=\"".spec_bytes()
            + center.0.text() + "\" cy=\"".spec_bytes() + center.1.text() + "\" r=\"".spec_bytes()
            + radius.text() + "\" stroke-width=\"".spec_bytes() + width.text()
            + "\" stroke=\"black\" fill=\"".spec_bytes() + match fill {
            Some(s) => vstd::utf8::encode_utf8(s@),
            None => "none".spec_bytes(),
        } + "\" />".spec_bytes(),
{
}

/// The document of a drawing is the header, empty definitions, the markup of
/// each figure in the drawing's order, and the closing tag; one figure's
/// markup stands alone between the definitions and the closing tag.
pub proof fn lemma_document_layout(figures: Seq<Figure>, f: Figure)
    ensures
        svg_document(figures.push(f)) == SVG_HEADER.spec_bytes() + "<defs>".spec_bytes()
            + "</defs>".spec_bytes() + figures_markup(figures) + figure_markup(f) + "</svg>".spec_bytes(),
        svg_document(Seq::empty()) == SVG_HEADER.spec_bytes() + "<defs>".spec_bytes() + "</defs>".spec_bytes()
            + "</svg>".spec_bytes(),
{
    lemma_push_appends_markup(figures, f);
    assert(SVG_HEADER.spec_bytes() + "<defs>".spec_bytes() + "</defs>".spec_bytes() + Seq::<u8>::empty()
        + "</svg>".spec_bytes() =~= SVG_HEADER.spec_bytes() + "<defs>".spec_bytes() + "</defs>".spec_bytes()
        + "</svg>".spec_bytes());
    assert(SVG_HEADER.spec_bytes() + "<defs>".spec_bytes() + "</defs>".spec_bytes() + (figures_markup(figures)
        + figure_markup(f)) + "</svg>".spec_bytes() =~= SVG_HEADER.spec_bytes() + "<defs>".spec_bytes()
        + "</defs>".spec_bytes() + figures_markup(figures) + figure_markup(f) + "</svg>".spec_bytes());
}

} // verus!
