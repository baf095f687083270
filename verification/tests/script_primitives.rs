use cutsvg::script::{
    call_primitive, cut_circle, cut_line, draw_line, into_number, prep_context, unit_cnv, BindingValue,
    Primitive, Run, ScriptError, ScriptValue, UnitKind, CONVERTER_EXPECTED, NUMBER_EXPECTED,
};
use cutsvg::{Drawing, Figure, Num, Unit};
use std::cell::RefCell;

fn num(x: f64) -> Num {
    Num::parse(format!("{}", x).as_bytes()).unwrap()
}

fn number(x: f64) -> ScriptValue {
    ScriptValue::Float(num(x))
}

fn integer(i: i64) -> ScriptValue {
    ScriptValue::Int(i, num(i as f64))
}

fn length(u: Unit) -> ScriptValue {
    ScriptValue::Unit(u)
}

/// The default unit that scripts start with: the `in` constructor.
fn inches(v: ScriptValue) -> Result<ScriptValue, ScriptError> {
    unit_cnv(UnitKind::In, &[v])
}

fn done() -> ScriptValue {
    ScriptValue::Int(0, Num::Finite { negative: false, digits: 0, exp: 0 })
}

#[test]
fn unit_constructors_make_lengths() {
    assert_eq!(unit_cnv(UnitKind::Mm, &[number(4.0)]), Ok(length(Unit::Mm(num(4.0)))));
    assert_eq!(unit_cnv(UnitKind::Px, &[number(0.5)]), Ok(length(Unit::Px(num(0.5)))));
    assert_eq!(unit_cnv(UnitKind::Cm, &[number(-3.0)]), Ok(length(Unit::Cm(num(-3.0)))));
    assert_eq!(unit_cnv(UnitKind::In, &[number(2.0)]), Ok(length(Unit::In(num(2.0)))));
}

#[test]
fn unit_constructor_refusals() {
    assert_eq!(
        unit_cnv(UnitKind::Mm, &[]),
        Err(ScriptError::UnexpectedArity { found: 0, expected: "exactly 1" })
    );
    assert_eq!(
        unit_cnv(UnitKind::Mm, &[number(1.0), number(2.0)]),
        Err(ScriptError::UnexpectedArity { found: 2, expected: "exactly 1" })
    );
    assert_eq!(
        unit_cnv(UnitKind::Mm, &[length(Unit::Px(num(1.0)))]),
        Err(ScriptError::UnexpectedType { value: length(Unit::Px(num(1.0))), expected: CONVERTER_EXPECTED })
    );
    assert_eq!(
        unit_cnv(UnitKind::Mm, &[ScriptValue::Other("\"text\"".to_string())]),
        Err(ScriptError::UnexpectedType {
            value: ScriptValue::Other("\"text\"".to_string()),
            expected: "Int or Float"
        })
    );
}

#[test]
fn numbers_take_the_default_unit() {
    assert_eq!(into_number(&number(3.0), &inches), Ok(Unit::In(num(3.0))));
    let mm = |v: ScriptValue| unit_cnv(UnitKind::Mm, &[v]);
    assert_eq!(into_number(&number(3.0), &mm), Ok(Unit::Mm(num(3.0))));
}

#[test]
fn lengths_are_kept() {
    let never = |_v: ScriptValue| -> Result<ScriptValue, ScriptError> { panic!("default unit called") };
    assert_eq!(into_number(&length(Unit::Cm(num(7.0))), &never), Ok(Unit::Cm(num(7.0))));
}

#[test]
fn other_values_are_refused() {
    let v = ScriptValue::Other("#t".to_string());
    assert_eq!(
        into_number(&v, &inches),
        Err(ScriptError::UnexpectedType { value: ScriptValue::Other("#t".to_string()), expected: NUMBER_EXPECTED })
    );
}

#[test]
fn default_unit_must_give_a_length() {
    let identity = |v: ScriptValue| -> Result<ScriptValue, ScriptError> { Ok(v) };
    assert_eq!(
        into_number(&number(1.0), &identity),
        Err(ScriptError::UnexpectedType { value: number(1.0), expected: "Int or Float or UserData-Unit" })
    );
    let failing = |_v: ScriptValue| -> Result<ScriptValue, ScriptError> {
        Err(ScriptError::UnexpectedArity { found: 7, expected: "none" })
    };
    assert_eq!(
        into_number(&number(1.0), &failing),
        Err(ScriptError::UnexpectedArity { found: 7, expected: "none" })
    );
}

#[test]
fn cut_line_draws_with_the_cut_width() {
    let mut drawing = Drawing::new();
    let cw = length(Unit::Px(num(0.1)));
    let args = [number(1.0), number(2.0), number(3.0), length(Unit::Mm(num(4.0)))];
    assert_eq!(cut_line(&args, &cw, &inches, &mut drawing), Ok(done()));
    assert_eq!(
        drawing.figures(),
        &[Figure::Line {
            p1: (Unit::In(num(1.0)), Unit::In(num(2.0))),
            p2: (Unit::In(num(3.0)), Unit::Mm(num(4.0))),
            width: Unit::Px(num(0.1)),
        }]
    );
}

#[test]
fn cut_line_arity() {
    let mut drawing = Drawing::new();
    let cw = length(Unit::Px(num(0.1)));
    let args = [number(1.0), number(2.0), number(3.0)];
    assert_eq!(
        cut_line(&args, &cw, &inches, &mut drawing),
        Err(ScriptError::UnexpectedArity { found: 3, expected: "exactly 4" })
    );
    assert!(drawing.figures().is_empty());
}

#[test]
fn conversion_order_and_first_refusal() {
    let calls = RefCell::new(Vec::new());
    let logging = |v: ScriptValue| {
        if let ScriptValue::Float(n) = &v {
            calls.borrow_mut().push(String::from_utf8(n.to_text()).unwrap());
        }
        inches(v)
    };
    let mut drawing = Drawing::new();
    let cw = number(0.5);
    let args = [number(1.0), ScriptValue::Other("x".to_string()), number(3.0), number(4.0)];
    assert_eq!(
        cut_line(&args, &cw, &logging, &mut drawing),
        Err(ScriptError::UnexpectedType { value: ScriptValue::Other("x".to_string()), expected: NUMBER_EXPECTED })
    );
    assert_eq!(*calls.borrow(), vec!["0.5".to_string(), "1".to_string()]);
    assert!(drawing.figures().is_empty());

    calls.borrow_mut().clear();
    let args = [number(1.0), number(2.0), number(3.0)];
    assert!(cut_circle(&args, &cw, &logging, &mut drawing).is_ok());
    assert_eq!(*calls.borrow(), vec!["1".to_string(), "2".to_string(), "3".to_string(), "0.5".to_string()]);
}

#[test]
fn cut_width_refusal_comes_first() {
    let mut drawing = Drawing::new();
    let cw = ScriptValue::Other("w".to_string());
    let args = [ScriptValue::Other("a".to_string()), number(2.0), number(3.0), number(4.0)];
    assert_eq!(
        cut_line(&args, &cw, &inches, &mut drawing),
        Err(ScriptError::UnexpectedType { value: ScriptValue::Other("w".to_string()), expected: NUMBER_EXPECTED })
    );
}

#[test]
fn draw_line_uses_its_own_width() {
    let mut drawing = Drawing::new();
    let args = [number(0.0), number(0.0), length(Unit::Cm(num(2.0))), number(1.0), length(Unit::Px(num(3.0)))];
    assert_eq!(draw_line(&args, &inches, &mut drawing), Ok(done()));
    assert_eq!(
        drawing.figures(),
        &[Figure::Line {
            p1: (Unit::In(num(0.0)), Unit::In(num(0.0))),
            p2: (Unit::Cm(num(2.0)), Unit::In(num(1.0))),
            width: Unit::Px(num(3.0)),
        }]
    );
    assert_eq!(
        draw_line(&args[..4], &inches, &mut drawing),
        Err(ScriptError::UnexpectedArity { found: 4, expected: "exactly 5" })
    );
    assert_eq!(drawing.figures().len(), 1);
}

#[test]
fn cut_circle_has_no_fill() {
    let mut drawing = Drawing::new();
    let cw = length(Unit::Px(num(0.1)));
    assert_eq!(cut_circle(&[number(5.0), number(6.0), number(1.5)], &cw, &inches, &mut drawing), Ok(done()));
    assert_eq!(
        drawing.figures(),
        &[Figure::Circle {
            center: (Unit::In(num(5.0)), Unit::In(num(6.0))),
            radius: Unit::In(num(1.5)),
            width: Unit::Px(num(0.1)),
            fill: None,
        }]
    );
    assert_eq!(
        cut_circle(&[number(5.0)], &cw, &inches, &mut drawing),
        Err(ScriptError::UnexpectedArity { found: 1, expected: "exactly 3" })
    );
}

#[test]
fn figures_accumulate_in_order() {
    let mut drawing = Drawing::new();
    let cw = length(Unit::Px(num(0.1)));
    cut_line(&[number(1.0), number(1.0), number(2.0), number(2.0)], &cw, &inches, &mut drawing).unwrap();
    cut_circle(&[number(0.0), number(0.0), number(1.0)], &cw, &inches, &mut drawing).unwrap();
    let figs = drawing.figures();
    assert_eq!(figs.len(), 2);
    assert!(matches!(figs[0], Figure::Line { .. }));
    assert!(matches!(figs[1], Figure::Circle { .. }));
}

#[test]
fn initial_bindings() {
    let bindings = prep_context();
    let names: Vec<&str> = bindings.iter().map(|b| b.name).collect();
    assert_eq!(
        names,
        vec!["in", "px", "cm", "mm", "cut-line", "draw-line", "cut-circle", "default-unit", "cut-width"]
    );
    assert_eq!(bindings[7].value, BindingValue::Primitive(Primitive::Convert(UnitKind::In)));
    assert_eq!(bindings[8].value, BindingValue::Length(Unit::Px(num(0.1))));
    assert_eq!(bindings[4].value, BindingValue::Primitive(Primitive::CutLine));
}

#[test]
fn dispatch_reaches_each_primitive() {
    let mut drawing = Drawing::new();
    let cw = length(Unit::Px(num(0.1)));
    assert_eq!(
        call_primitive(Primitive::Convert(UnitKind::Cm), &[number(2.0)], &cw, &inches, &mut drawing),
        Ok(length(Unit::Cm(num(2.0))))
    );
    let four = [number(1.0), number(2.0), number(3.0), number(4.0)];
    assert_eq!(call_primitive(Primitive::CutLine, &four, &cw, &inches, &mut drawing), Ok(done()));
    let five = [number(1.0), number(2.0), number(3.0), number(4.0), number(5.0)];
    assert_eq!(call_primitive(Primitive::DrawLine, &five, &cw, &inches, &mut drawing), Ok(done()));
    assert_eq!(call_primitive(Primitive::CutCircle, &four[..3], &cw, &inches, &mut drawing), Ok(done()));
    assert_eq!(drawing.figures().len(), 3);
}

#[test]
fn run_keeps_first_refusal() {
    let mut run = Run::new(Drawing::new());
    assert!(!run.stopped());
    assert_eq!(run.record(Ok(number(1.0))), Some(number(1.0)));
    assert!(!run.stopped());
    let first = ScriptError::UnexpectedArity { found: 2, expected: "exactly 4" };
    assert_eq!(run.record(Err(first)), None);
    assert!(run.stopped());
    assert_eq!(run.record(Err(ScriptError::UnexpectedArity { found: 0, expected: "exactly 1" })), None);
    let (drawing, result) = run.finish();
    assert!(drawing.figures().is_empty());
    assert_eq!(result, Err(ScriptError::UnexpectedArity { found: 2, expected: "exactly 4" }));
}

#[test]
fn refusal_inside_default_unit_is_the_calls_result() {
    let mut run = Run::new(Drawing::new());
    assert_eq!(run.after_call(number(2.0)), Ok(number(2.0)));
    run.record(Err(ScriptError::UnexpectedArity { found: 3, expected: "exactly 1" }));
    assert_eq!(
        run.after_call(number(2.0)),
        Err(ScriptError::UnexpectedArity { found: 3, expected: "exactly 1" })
    );
    assert!(!run.stopped());
    let (_, result) = run.finish();
    assert_eq!(result, Ok(()));
}

#[test]
fn integers_become_their_double() {
    assert_eq!(unit_cnv(UnitKind::Mm, &[integer(4)]), Ok(length(Unit::Mm(num(4.0)))));
    let big = 9007199254740993i64;
    assert_eq!(unit_cnv(UnitKind::Px, &[integer(big)]), Ok(length(Unit::Px(num(big as f64)))));
    assert_eq!(
        String::from_utf8(num(big as f64).to_text()).unwrap(),
        "9007199254740992"
    );
    assert_eq!(into_number(&integer(3), &inches), Ok(Unit::In(num(3.0))));
}

#[test]
fn default_unit_gets_the_value_itself() {
    let seen = RefCell::new(Vec::new());
    let recording = |v: ScriptValue| {
        seen.borrow_mut().push(format!("{:?}", v));
        inches(v)
    };
    into_number(&integer(3), &recording).unwrap();
    into_number(&number(3.0), &recording).unwrap();
    assert_eq!(*seen.borrow(), vec![format!("{:?}", integer(3)), format!("{:?}", number(3.0))]);
    assert_ne!(integer(3), number(3.0));
}
