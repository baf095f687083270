use cutsvg::{Drawing, Figure, Num, Unit};

fn num(x: f64) -> Num {
    Num::parse(format!("{}", x).as_bytes()).unwrap()
}

fn shown(u: Unit) -> String {
    String::from_utf8(u.to_text()).unwrap()
}

#[test]
fn lengths_print_with_their_unit() {
    assert_eq!(shown(Unit::Px(num(5.0))), "5px");
    assert_eq!(shown(Unit::In(num(0.25))), "0.25in");
    assert_eq!(shown(Unit::Cm(num(-10.0))), "-10cm");
    assert_eq!(shown(Unit::Mm(num(0.1))), "0.1mm");
    assert_eq!(shown(Unit::Mm(num(1e21))), "1000000000000000000000mm");
}

#[test]
fn lengths_print_as_the_double_they_stand_for() {
    for x in [0.1, 2.5, 1e-5, 123456789.125, -7.0] {
        assert_eq!(shown(Unit::Px(num(x))), format!("{}px", x));
        assert_eq!(shown(Unit::In(num(x))), format!("{}in", x));
    }
}

#[test]
fn drawing_keeps_figures_in_order() {
    let mut d = Drawing::new();
    assert!(d.figures().is_empty());
    let a = Figure::Line {
        p1: (Unit::Px(num(1.0)), Unit::Px(num(2.0))),
        p2: (Unit::Px(num(3.0)), Unit::Px(num(4.0))),
        width: Unit::Px(num(0.5)),
    };
    let b = Figure::Circle {
        center: (Unit::Cm(num(1.0)), Unit::Cm(num(1.0))),
        radius: Unit::Cm(num(2.0)),
        width: Unit::Px(num(0.1)),
        fill: Some("blue".to_string()),
    };
    d.push(a);
    d.push(b);
    let figs = d.figures();
    assert_eq!(figs.len(), 2);
    assert_eq!(
        figs[0],
        Figure::Line {
            p1: (Unit::Px(num(1.0)), Unit::Px(num(2.0))),
            p2: (Unit::Px(num(3.0)), Unit::Px(num(4.0))),
            width: Unit::Px(num(0.5)),
        }
    );
    assert!(matches!(&figs[1], Figure::Circle { fill: Some(f), .. } if f == "blue"));
}

#[test]
fn append_moves_figures_after() {
    let line = |x: f64| Figure::Line {
        p1: (Unit::Px(num(x)), Unit::Px(num(0.0))),
        p2: (Unit::Px(num(0.0)), Unit::Px(num(x))),
        width: Unit::Px(num(1.0)),
    };
    let mut a = Drawing::new();
    a.push(line(1.0));
    let mut b = Drawing::new();
    b.push(line(2.0));
    b.push(line(3.0));
    a.append(&mut b);
    assert!(b.figures().is_empty());
    assert_eq!(a.figures(), &[line(1.0), line(2.0), line(3.0)]);
}
