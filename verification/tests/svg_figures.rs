use cutsvg::svg::{write_figure, write_svg, SvgWriter};
use cutsvg::{Drawing, Figure, Num, Unit};

fn num(x: f64) -> Num {
    Num::parse(format!("{}", x).as_bytes()).unwrap()
}

fn test_figure(fig: &Figure) -> String {
    let mut writer = SvgWriter::new();
    write_figure(fig, &mut writer);
    let mut buf = vec![];
    buf.extend_from_slice(&writer.body[..]);
    String::from_utf8(buf).unwrap()
}

#[test]
fn test_line() {
    let line = Figure::Line {
        p1: (Unit::Px(num(5.0)), Unit::Cm(num(10.0))),
        p2: (Unit::Mm(num(20.0)), Unit::In(num(40.0))),
        width: Unit::Px(num(50.0)),
    };
    assert_eq!(
        &test_figure(&line),
        r#"<line stroke="black" x1="5px" y1="10cm" x2="20mm" y2="40in" stroke-width="50px"/>"#
    );
}

#[test]
fn test_circle() {
    let circle = Figure::Circle {
        center: (Unit::Px(num(5.0)), Unit::Cm(num(10.0))),
        radius: Unit::In(num(15.0)),
        width: Unit::Px(num(50.0)),
        fill: None,
    };

    assert_eq!(
        &test_figure(&circle),
        r#"<circle cx="5px" cy="10cm" r="15in" stroke-width="50px" stroke="black" fill="none" />"#
    )
}

#[test]
fn circle_with_fill_writes_the_paint() {
    let circle = Figure::Circle {
        center: (Unit::Mm(num(1.5)), Unit::Mm(num(-2.25))),
        radius: Unit::Cm(num(0.001)),
        width: Unit::Px(num(0.1)),
        fill: Some("red".to_string()),
    };
    assert_eq!(
        &test_figure(&circle),
        r#"<circle cx="1.5mm" cy="-2.25mm" r="0.001cm" stroke-width="0.1px" stroke="black" fill="red" />"#
    )
}

#[test]
fn document_of_empty_drawing() {
    let drawing = Drawing::new();
    let mut out = Vec::new();
    write_svg(&drawing, &mut out);
    let text = String::from_utf8(out).unwrap();
    assert!(text.starts_with("<?xml version=\"1.0\" encoding=\"ISO-8859-1\" standalone=\"no\"?>\n"));
    assert!(text.ends_with("zoomAndPan=\"disable\" preserveAspectRatio=\"none\">\n<defs></defs></svg>"));
}

#[test]
fn document_lists_figures_in_order() {
    let mut drawing = Drawing::new();
    drawing.push(Figure::Line {
        p1: (Unit::Px(num(0.0)), Unit::Px(num(0.0))),
        p2: (Unit::Px(num(1.0)), Unit::Px(num(1.0))),
        width: Unit::Px(num(0.1)),
    });
    drawing.push(Figure::Circle {
        center: (Unit::In(num(2.0)), Unit::In(num(3.0))),
        radius: Unit::In(num(1.0)),
        width: Unit::Px(num(0.1)),
        fill: None,
    });
    let mut out = b"prefix".to_vec();
    write_svg(&drawing, &mut out);
    let text = String::from_utf8(out).unwrap();
    assert!(text.starts_with("prefix<?xml"));
    let expected = String::from("<defs></defs>")
        + r#"<line stroke="black" x1="0px" y1="0px" x2="1px" y2="1px" stroke-width="0.1px"/>"#
        + r#"<circle cx="2in" cy="3in" r="1in" stroke-width="0.1px" stroke="black" fill="none" />"#
        + "</svg>";
    assert!(text.ends_with(&expected));
}
