//! The primitives that drawing scripts call: unit constructors and the
//! figure-drawing functions, over the values the interpreter hands them.
use vstd::prelude::*;
use crate::drawing::{Drawing, Figure, Unit};
use crate::num::Num;

verus! {

/// A value of the script interpreter, as far as the primitives read it.
#[derive(Debug, PartialEq)]
pub enum ScriptValue {
    /// An integer, with the double it converts to (as that double is
    /// displayed), which is what a unit constructor makes a length of.
    Int(i64, Num),
    /// A floating-point number, held as the decimal text of the double.
    Float(Num),
    /// A length made by one of the unit constructors.
    Unit(Unit),
    /// Any other value, by its printed form.
    Other(String),
}

/// Why a primitive refused its arguments.
#[derive(Debug, PartialEq)]
pub enum ScriptError {
    UnexpectedType { value: ScriptValue, expected: &'static str },
    UnexpectedArity { found: usize, expected: &'static str },
}

/// What a length argument must be.
pub const NUMBER_EXPECTED: &'static str = "Int or Float or UserData-Unit";

/// What the argument of a unit constructor must be.
pub const CONVERTER_EXPECTED: &'static str = "Int or Float";

/// The four unit constructors `px`, `in`, `cm` and `mm`.
#[derive(Clone, Copy, Debug, PartialEq, Eq, Structural)]
pub enum UnitKind {
    Px,
    In,
    Cm,
    Mm,
}

impl UnitKind {
    pub open spec fn spec_make(self, n: Num) -> Unit {
        match self {
            UnitKind::Px => Unit::Px(n),
            UnitKind::In => Unit::In(n),
            UnitKind::Cm => Unit::Cm(n),
            UnitKind::Mm => Unit::Mm(n),
        }
    }

    /// `n` of this unit.
    pub fn make(self, n: Num) -> (u: Unit)
        ensures
            u == self.spec_make(n),
    {
        match self {
            UnitKind::Px => Unit::Px(n),
            UnitKind::In => Unit::In(n),
            UnitKind::Cm => Unit::Cm(n),
            UnitKind::Mm => Unit::Mm(n),
        }
    }
}

/// The value that the drawing primitives return: the integer 0.
pub open spec fn done_value() -> ScriptValue {
    ScriptValue::Int(0, Num::Finite { negative: false, digits: 0, exp: 0 })
}

/// A copy of a value.
pub fn copy_value(v: &ScriptValue) -> (r: ScriptValue)
    ensures
        r == *v,
{
    match v {
        ScriptValue::Int(i, n) => ScriptValue::Int(*i, *n),
        ScriptValue::Float(n) => ScriptValue::Float(*n),
        ScriptValue::Unit(u) => ScriptValue::Unit(*u),
        ScriptValue::Other(s) => ScriptValue::Other(s.clone()),
    }
}

/// Refuses an argument count other than `wanted`.
pub fn expect_arity(found: usize, wanted: usize, expected: &'static str) -> (r: Result<(), ScriptError>)
    ensures
        r == (if found == wanted {
            Ok(())
        } else {
            Err(ScriptError::UnexpectedArity { found, expected })
        }),
{
    if found == wanted {
        Ok(())
    } else {
        Err(ScriptError::UnexpectedArity { found, expected })
    }
}

/// The length that a value is, if it is one.
pub open spec fn as_unit(v: ScriptValue) -> Result<Unit, ScriptError> {
    match v {
        ScriptValue::Unit(u) => Ok(u),
        _ => Err(ScriptError::UnexpectedType { value: v, expected: NUMBER_EXPECTED }),
    }
}

/// The length that a call of the default unit gave.
pub open spec fn after_default_unit(x: Result<ScriptValue, ScriptError>) -> Result<Unit, ScriptError> {
    match x {
        Ok(v) => as_unit(v),
        Err(e) => Err(e),
    }
}

/// `r` is what turning `v` into a length may give: a number goes through the
/// script's default unit (`default_unit`) and must come back a length, a
/// length is itself, anything else is refused.
pub open spec fn number_outcome<F: Fn(ScriptValue) -> Result<ScriptValue, ScriptError>>(
    default_unit: F,
    v: ScriptValue,
    r: Result<Unit, ScriptError>,
) -> bool {
    match v {
        ScriptValue::Int(..) | ScriptValue::Float(_) => exists|x: Result<ScriptValue, ScriptError>|
            #[trigger] call_ensures(default_unit, (v,), x) && r == after_default_unit(x),
        _ => r == as_unit(v),
    }
}

/// Each of `vals` turns, in order, into the corresponding length of `us`.
pub open spec fn resolves_to<F: Fn(ScriptValue) -> Result<ScriptValue, ScriptError>>(
    default_unit: F,
    vals: Seq<ScriptValue>,
    us: Seq<Unit>,
) -> bool {
    &&& us.len() == vals.len()
    &&& forall|i: int| 0 <= i < vals.len() ==> number_outcome(default_unit, vals[i], Ok(#[trigger] us[i]))
}

/// The values before `k` turn into lengths and the one at `k` fails with `e`.
pub open spec fn fails_at<F: Fn(ScriptValue) -> Result<ScriptValue, ScriptError>>(
    default_unit: F,
    vals: Seq<ScriptValue>,
    k: int,
    e: ScriptError,
) -> bool {
    &&& 0 <= k < vals.len()
    &&& exists|us: Seq<Unit>| resolves_to(default_unit, vals.take(k), us)
    &&& number_outcome(default_unit, vals[k], Err(e))
}

/// Turns a value into a length: a number through the script's default unit,
/// a length as it is; anything else is refused.
pub fn into_number<F: Fn(ScriptValue) -> Result<ScriptValue, ScriptError>>(
    value: &ScriptValue,
    default_unit: &F,
) -> (r: Result<Unit, ScriptError>)
    requires
        forall|v: ScriptValue| call_requires(*default_unit, (v,)),
    ensures
        number_outcome(*default_unit, *value, r),
{
    match value {
        ScriptValue::Int(..) | ScriptValue::Float(_) => {
            let x = default_unit(copy_value(value));
            match x {
                Ok(ScriptValue::Unit(u)) => Ok(u),
                Ok(other) => Err(ScriptError::UnexpectedType { value: other, expected: NUMBER_EXPECTED }),
                Err(e) => Err(e),
            }
        },
        ScriptValue::Unit(u) => Ok(*u),
        ScriptValue::Other(s) => Err(
            ScriptError::UnexpectedType { value: ScriptValue::Other(s.clone()), expected: NUMBER_EXPECTED },
        ),
    }
}

/// Turns the values into lengths in order, stopping at the first refusal.
pub fn resolve_all<F: Fn(ScriptValue) -> Result<ScriptValue, ScriptError>>(
    vals: &[ScriptValue],
    default_unit: &F,
) -> (r: Result<Vec<Unit>, ScriptError>)
    requires
        forall|v: ScriptValue| call_requires(*default_unit, (v,)),
    ensures
        match r {
            Ok(us) => resolves_to(*default_unit, vals@, us@),
            Err(e) => exists|k: int| fails_at(*default_unit, vals@, k, e),
        },
{
    let mut us: Vec<Unit> = Vec::new();
    let mut i: usize = 0;
    while i < vals.len()
        invariant
            i <= vals@.len(),
            forall|v: ScriptValue| call_requires(*default_unit, (v,)),
            resolves_to(*default_unit, vals@.take(i as int), us@),
        decreases vals@.len() - i,
    {
        match into_number(&vals[i], default_unit) {
            Ok(u) => {
                let ghost prev = us@;
                us.push(u);
                assert(vals@.take(i + 1) =~= vals@.take(i as int).push(vals@[i as int]));
                assert forall|j: int| 0 <= j < i + 1 implies number_outcome(
                    *default_unit,
                    vals@.take(i + 1)[j],
                    Ok(#[trigger] us@[j]),
                ) by {
                    if j < i {
                        assert(us@[j] == prev[j]);
                        assert(vals@.take(i + 1)[j] == vals@.take(i as int)[j]);
                    }
                }
            },
            Err(e) => {
                assert(fails_at(*default_unit, vals@, i as int, e));
                return Err(e);
            },
        }
        i = i + 1;
    }
    assert(vals@.take(i as int) =~= vals@);
    Ok(us)
}


/// The outcome of a primitive that draws one figure from the lengths that
/// `vals` turn into: on success the figure `fig(us)` is added and 0 returned;
/// on a refusal, which is that of the first value that fails, the drawing is
/// unchanged.
pub open spec fn draws_outcome<F: Fn(ScriptValue) -> Result<ScriptValue, ScriptError>>(
    default_unit: F,
    vals: Seq<ScriptValue>,
    fig: spec_fn(Seq<Unit>) -> Figure,
    before: Seq<Figure>,
    after: Seq<Figure>,
    r: Result<ScriptValue, ScriptError>,
) -> bool {
    match r {
        Ok(v) => {
            &&& v == done_value()
            &&& exists|us: Seq<Unit>|
                {
                    &&& #[trigger] resolves_to(default_unit, vals, us)
                    &&& after == before.push(fig(us))
                }
        },
        Err(e) => {
            &&& after == before
            &&& exists|k: int| fails_at(default_unit, vals, k, e)
        },
    }
}

/// The refusal of a call with `found` arguments where another count was
/// wanted, and the drawing left as it was.
pub open spec fn arity_refused(
    found: nat,
    expected: &'static str,
    before: Seq<Figure>,
    after: Seq<Figure>,
    r: Result<ScriptValue, ScriptError>,
) -> bool {
    &&& r == Err::<ScriptValue, ScriptError>(ScriptError::UnexpectedArity { found: found as usize, expected })
    &&& after == before
}

/// `cut-line x1 y1 x2 y2` with the cut width `cw`: the cut width and then the
/// four coordinates become lengths.
pub open spec fn cut_line_outcome<F: Fn(ScriptValue) -> Result<ScriptValue, ScriptError>>(
    default_unit: F,
    args: Seq<ScriptValue>,
    cw: ScriptValue,
    before: Seq<Figure>,
    after: Seq<Figure>,
    r: Result<ScriptValue, ScriptError>,
) -> bool {
    if args.len() != 4 {
        arity_refused(args.len(), "exactly 4", before, after, r)
    } else {
        draws_outcome(
            default_unit,
            seq![cw] + args,
            |us: Seq<Unit>| Figure::Line { p1: (us[1], us[2]), p2: (us[3], us[4]), width: us[0] },
            before,
            after,
            r,
        )
    }
}

/// `draw-line x1 y1 x2 y2 width`: the five arguments become lengths.
pub open spec fn draw_line_outcome<F: Fn(ScriptValue) -> Result<ScriptValue, ScriptError>>(
    default_unit: F,
    args: Seq<ScriptValue>,
    before: Seq<Figure>,
    after: Seq<Figure>,
    r: Result<ScriptValue, ScriptError>,
) -> bool {
    if args.len() != 5 {
        arity_refused(args.len(), "exactly 5", before, after, r)
    } else {
        draws_outcome(
            default_unit,
            args,
            |us: Seq<Unit>| Figure::Line { p1: (us[0], us[1]), p2: (us[2], us[3]), width: us[4] },
            before,
            after,
            r,
        )
    }
}

/// `cut-circle x y r` with the cut width `cw`: the centre, the radius and
/// then the cut width become lengths; the circle has no fill.
pub open spec fn cut_circle_outcome<F: Fn(ScriptValue) -> Result<ScriptValue, ScriptError>>(
    default_unit: F,
    args: Seq<ScriptValue>,
    cw: ScriptValue,
    before: Seq<Figure>,
    after: Seq<Figure>,
    r: Result<ScriptValue, ScriptError>,
) -> bool {
    if args.len() != 3 {
        arity_refused(args.len(), "exactly 3", before, after, r)
    } else {
        draws_outcome(
            default_unit,
            args + seq![cw],
            |us: Seq<Unit>| Figure::Circle { center: (us[0], us[1]), radius: us[2], width: us[3], fill: None },
            before,
            after,
            r,
        )
    }
}

/// A unit constructor applied to `args`.
pub open spec fn unit_cnv_result(kind: UnitKind, args: Seq<ScriptValue>) -> Result<ScriptValue, ScriptError> {
    if args.len() != 1 {
        Err(ScriptError::UnexpectedArity { found: args.len() as usize, expected: "exactly 1" })
    } else {
        match args[0] {
            ScriptValue::Int(_, n) => Ok(ScriptValue::Unit(kind.spec_make(n))),
            ScriptValue::Float(n) => Ok(ScriptValue::Unit(kind.spec_make(n))),
            other => Err(ScriptError::UnexpectedType { value: other, expected: CONVERTER_EXPECTED }),
        }
    }
}

/// Appends copies of the values.
fn copy_values(vals: &[ScriptValue], out: &mut Vec<ScriptValue>)
    ensures
        final(out)@ == old(out)@ + vals@,
{
    let mut i: usize = 0;
    while i < vals.len()
        invariant
            i <= vals@.len(),
            out@ == old(out)@ + vals@.take(i as int),
        decreases vals@.len() - i,
    {
        out.push(copy_value(&vals[i]));
        assert(vals@.take(i + 1) =~= vals@.take(i as int).push(vals@[i as int]));
        i = i + 1;
    }
    assert(vals@.take(i as int) =~= vals@);
}

fn done() -> (r: ScriptValue)
    ensures
        r == done_value(),
{
    ScriptValue::Int(0, Num::Finite { negative: false, digits: 0, exp: 0 })
}

/// `cut-line x1 y1 x2 y2`: draws a line as wide as the script's `cut-width`.
/// The cut width, then each coordinate, is turned into a length; the first
/// refusal is the result and leaves the drawing as it was.
pub fn cut_line<F: Fn(ScriptValue) -> Result<ScriptValue, ScriptError>>(
    args: &[ScriptValue],
    cut_width: &ScriptValue,
    default_unit: &F,
    drawing: &mut Drawing,
) -> (r: Result<ScriptValue, ScriptError>)
    requires
        forall|v: ScriptValue| call_requires(*default_unit, (v,)),
    ensures
        cut_line_outcome(*default_unit, args@, *cut_width, old(drawing)@, final(drawing)@, r),
{
    if let Err(e) = expect_arity(args.len(), 4, "exactly 4") {
        return Err(e);
    }
    let mut vals: Vec<ScriptValue> = Vec::new();
    vals.push(copy_value(cut_width));
    copy_values(args, &mut vals);
    assert(vals@ =~= seq![*cut_width] + args@);
    match resolve_all(vals.as_slice(), default_unit) {
        Ok(us) => {
            let fig = Figure::Line { p1: (us[1], us[2]), p2: (us[3], us[4]), width: us[0] };
            drawing.push(fig);
            assert(resolves_to(*default_unit, vals@, us@));
            Ok(done())
        },
        Err(e) => Err(e),
    }
}

/// `draw-line x1 y1 x2 y2 width`: draws a line of the given width. Each
/// argument is turned into a length in order; the first refusal is the
/// result and leaves the drawing as it was.
pub fn draw_line<F: Fn(ScriptValue) -> Result<ScriptValue, ScriptError>>(
    args: &[ScriptValue],
    default_unit: &F,
    drawing: &mut Drawing,
) -> (r: Result<ScriptValue, ScriptError>)
    requires
        forall|v: ScriptValue| call_requires(*default_unit, (v,)),
    ensures
        draw_line_outcome(*default_unit, args@, old(drawing)@, final(drawing)@, r),
{
    if let Err(e) = expect_arity(args.len(), 5, "exactly 5") {
        return Err(e);
    }
    match resolve_all(args, default_unit) {
        Ok(us) => {
            let fig = Figure::Line { p1: (us[0], us[1]), p2: (us[2], us[3]), width: us[4] };
            drawing.push(fig);
            assert(resolves_to(*default_unit, args@, us@));
            Ok(done())
        },
        Err(e) => Err(e),
    }
}

/// `cut-circle x y r`: draws an unfilled circle with a stroke as wide as the
/// script's `cut-width`. The centre, the radius and then the cut width are
/// turned into lengths; the first refusal is the result and leaves the
/// drawing as it was.
pub fn cut_circle<F: Fn(ScriptValue) -> Result<ScriptValue, ScriptError>>(
    args: &[ScriptValue],
    cut_width: &ScriptValue,
    default_unit: &F,
    drawing: &mut Drawing,
) -> (r: Result<ScriptValue, ScriptError>)
    requires
        forall|v: ScriptValue| call_requires(*default_unit, (v,)),
    ensures
        cut_circle_outcome(*default_unit, args@, *cut_width, old(drawing)@, final(drawing)@, r),
{
    if let Err(e) = expect_arity(args.len(), 3, "exactly 3") {
        return Err(e);
    }
    let mut vals: Vec<ScriptValue> = Vec::new();
    copy_values(args, &mut vals);
    vals.push(copy_value(cut_width));
    assert(vals@ =~= args@ + seq![*cut_width]);
    match resolve_all(vals.as_slice(), default_unit) {
        Ok(us) => {
            let fig = Figure::Circle { center: (us[0], us[1]), radius: us[2], width: us[3], fill: None };
            drawing.push(fig);
            assert(resolves_to(*default_unit, vals@, us@));
            Ok(done())
        },
        Err(e) => Err(e),
    }
}

/// A unit constructor (`px`, `in`, `cm`, `mm`) applied to `args`: one number
/// becomes that many of the unit; anything else is refused.
pub fn unit_cnv(kind: UnitKind, args: &[ScriptValue]) -> (r: Result<ScriptValue, ScriptError>)
    ensures
        r == unit_cnv_result(kind, args@),
{
    if let Err(e) = expect_arity(args.len(), 1, "exactly 1") {
        return Err(e);
    }
    match &args[0] {
        ScriptValue::Int(_, n) => Ok(ScriptValue::Unit(kind.make(*n))),
        ScriptValue::Float(n) => Ok(ScriptValue::Unit(kind.make(*n))),
        other => Err(ScriptError::UnexpectedType { value: copy_value(other), expected: CONVERTER_EXPECTED }),
    }
}


/// The primitives that scripts can call.
#[derive(Clone, Copy, Debug, PartialEq, Eq, Structural)]
pub enum Primitive {
    CutLine,
    DrawLine,
    CutCircle,
    Convert(UnitKind),
}

/// What a name is bound to when a script starts.
#[derive(Clone, Copy, Debug, PartialEq, Eq, Structural)]
pub enum BindingValue {
    Primitive(Primitive),
    Length(Unit),
}

/// A name and what it is bound to when a script starts.
#[derive(Debug, PartialEq)]
pub struct Binding {
    pub name: &'static str,
    pub value: BindingValue,
}

/// The cut width that scripts start with: a tenth of a pixel.
pub open spec fn initial_cut_width() -> Unit {
    Unit::Px(Num::Finite { negative: false, digits: 1, exp: -1i32 })
}

/// The bindings that scripts start with, in the order they are made: the unit
/// constructors, the drawing primitives, the default unit (inches, the same
/// constructor as `in`) and the cut width.
pub open spec fn initial_bindings() -> Seq<Binding> {
    seq![
        Binding { name: "in", value: BindingValue::Primitive(Primitive::Convert(UnitKind::In)) },
        Binding { name: "px", value: BindingValue::Primitive(Primitive::Convert(UnitKind::Px)) },
        Binding { name: "cm", value: BindingValue::Primitive(Primitive::Convert(UnitKind::Cm)) },
        Binding { name: "mm", value: BindingValue::Primitive(Primitive::Convert(UnitKind::Mm)) },
        Binding { name: "cut-line", value: BindingValue::Primitive(Primitive::CutLine) },
        Binding { name: "draw-line", value: BindingValue::Primitive(Primitive::DrawLine) },
        Binding { name: "cut-circle", value: BindingValue::Primitive(Primitive::CutCircle) },
        Binding { name: "default-unit", value: BindingValue::Primitive(Primitive::Convert(UnitKind::In)) },
        Binding { name: "cut-width", value: BindingValue::Length(initial_cut_width()) },
    ]
}

/// The bindings to make before a script runs.
pub fn prep_context() -> (r: Vec<Binding>)
    ensures
        r@ == initial_bindings(),
{
    let mut r: Vec<Binding> = Vec::new();
    r.push(Binding { name: "in", value: BindingValue::Primitive(Primitive::Convert(UnitKind::In)) });
    r.push(Binding { name: "px", value: BindingValue::Primitive(Primitive::Convert(UnitKind::Px)) });
    r.push(Binding { name: "cm", value: BindingValue::Primitive(Primitive::Convert(UnitKind::Cm)) });
    r.push(Binding { name: "mm", value: BindingValue::Primitive(Primitive::Convert(UnitKind::Mm)) });
    r.push(Binding { name: "cut-line", value: BindingValue::Primitive(Primitive::CutLine) });
    r.push(Binding { name: "draw-line", value: BindingValue::Primitive(Primitive::DrawLine) });
    r.push(Binding { name: "cut-circle", value: BindingValue::Primitive(Primitive::CutCircle) });
    r.push(
        Binding {
            name: "default-unit",
            value: BindingValue::Primitive(Primitive::Convert(UnitKind::In)),
        },
    );
    r.push(
        Binding {
            name: "cut-width",
            value: BindingValue::Length(Unit::Px(Num::Finite { negative: false, digits: 1, exp: -1 })),
        },
    );
    assert(r@ =~= initial_bindings());
    r
}

/// Calls a primitive: `cut_width` is what the script's `cut-width` is bound
/// to, `default_unit` calls what its `default-unit` is bound to.
pub fn call_primitive<F: Fn(ScriptValue) -> Result<ScriptValue, ScriptError>>(
    p: Primitive,
    args: &[ScriptValue],
    cut_width: &ScriptValue,
    default_unit: &F,
    drawing: &mut Drawing,
) -> (r: Result<ScriptValue, ScriptError>)
    requires
        forall|v: ScriptValue| call_requires(*default_unit, (v,)),
    ensures
        match p {
            Primitive::CutLine => cut_line_outcome(
                *default_unit,
                args@,
                *cut_width,
                old(drawing)@,
                final(drawing)@,
                r,
            ),
            Primitive::DrawLine => draw_line_outcome(*default_unit, args@, old(drawing)@, final(drawing)@, r),
            Primitive::CutCircle => cut_circle_outcome(
                *default_unit,
                args@,
                *cut_width,
                old(drawing)@,
                final(drawing)@,
                r,
            ),
            Primitive::Convert(kind) => r == unit_cnv_result(kind, args@) && final(drawing)@ == old(drawing)@,
        },
{
    match p {
        Primitive::CutLine => cut_line(args, cut_width, default_unit, drawing),
        Primitive::DrawLine => draw_line(args, default_unit, drawing),
        Primitive::CutCircle => cut_circle(args, cut_width, default_unit, drawing),
        Primitive::Convert(kind) => unit_cnv(kind, args),
    }
}


/// The double that a number value stands for.
pub open spec fn double_of(v: ScriptValue) -> Option<Num> {
    match v {
        ScriptValue::Int(_, n) => Some(n),
        ScriptValue::Float(n) => Some(n),
        _ => None,
    }
}

/// A bare number in a script is a length in the default unit: when the
/// script's default unit is a unit constructor, turning an integer or float
/// into a length gives that many of the unit, counted as a double.
pub proof fn lemma_number_in_default_unit<F: Fn(ScriptValue) -> Result<ScriptValue, ScriptError>>(
    default_unit: F,
    kind: UnitKind,
    v: ScriptValue,
    r: Result<Unit, ScriptError>,
)
    requires
        forall|w: ScriptValue, x: Result<ScriptValue, ScriptError>|
            call_ensures(default_unit, (w,), x) ==> x == unit_cnv_result(kind, seq![w]),
        double_of(v) is Some,
        number_outcome(default_unit, v, r),
    ensures
        r == Ok::<Unit, ScriptError>(kind.spec_make(double_of(v).unwrap())),
{
    let x = choose|x: Result<ScriptValue, ScriptError>|
        #[trigger] call_ensures(default_unit, (v,), x) && r == after_default_unit(x);
    assert(seq![v][0] == v);
}

/// A length given to a primitive is used as it is, whatever the default unit.
pub proof fn lemma_length_is_kept<F: Fn(ScriptValue) -> Result<ScriptValue, ScriptError>>(
    default_unit: F,
    u: Unit,
    r: Result<Unit, ScriptError>,
)
    requires
        number_outcome(default_unit, ScriptValue::Unit(u), r),
    ensures
        r == Ok::<Unit, ScriptError>(u),
{
}


/// A script run in progress: what it has drawn so far, and the refusal that
/// stopped it, if one did.
pub struct Run {
    pub drawing: Drawing,
    pub refusal: Option<ScriptError>,
}

impl Run {
    /// A run that draws onto `drawing` and has not been refused.
    pub fn new(drawing: Drawing) -> (r: Run)
        ensures
            r.drawing@ == drawing@,
            r.refusal is None,
    {
        Run { drawing, refusal: None }
    }

    /// Whether a refusal has stopped the run; a stopped run calls no more
    /// primitives.
    pub fn stopped(&self) -> (b: bool)
        ensures
            b == self.refusal is Some,
    {
        self.refusal.is_some()
    }

    /// Takes what a primitive returned: a value goes back to the script; a
    /// refusal stops the run, and the first refusal is the one kept.
    pub fn record(&mut self, r: Result<ScriptValue, ScriptError>) -> (v: Option<ScriptValue>)
        ensures
            final(self).drawing@ == old(self).drawing@,
            match r {
                Ok(x) => v == Some(x) && final(self).refusal == old(self).refusal,
                Err(e) => {
                    &&& v is None
                    &&& final(self).refusal == if old(self).refusal is Some {
                        old(self).refusal
                    } else {
                        Some(e)
                    }
                },
            },
    {
        match r {
            Ok(x) => Some(x),
            Err(e) => {
                if self.refusal.is_none() {
                    self.refusal = Some(e);
                }
                None
            },
        }
    }

    /// After the script's default unit was called (from a run that was not
    /// stopped) and gave `out`: a refusal made during the call, by a primitive
    /// it called, is the call's result and stops the run no longer (the
    /// primitive that made the call records it in turn); otherwise the call
    /// gave `out`.
    pub fn after_call(&mut self, out: ScriptValue) -> (r: Result<ScriptValue, ScriptError>)
        ensures
            final(self).drawing@ == old(self).drawing@,
            final(self).refusal is None,
            r == match old(self).refusal {
                Some(e) => Err(e),
                None => Ok::<ScriptValue, ScriptError>(out),
            },
    {
        match self.refusal.take() {
            Some(e) => Err(e),
            None => Ok(out),
        }
    }

    /// The drawing, and the run's result: the refusal that stopped it, or
    /// success.
    pub fn finish(self) -> (r: (Drawing, Result<(), ScriptError>))
        ensures
            r.0@ == self.drawing@,
            r.1 == match self.refusal {
                Some(e) => Err(e),
                None => Ok::<(), ScriptError>(()),
            },
    {
        let Run { drawing, refusal } = self;
        match refusal {
            Some(e) => (drawing, Err(e)),
            None => (drawing, Ok(())),
        }
    }
}


/// What each name is bound to when a script starts: `px`, `in`, `cm` and `mm`
/// construct lengths of their own unit, the drawing primitives are bound
/// under their own names, the default unit is the inch constructor and the
/// cut width is 0.1 pixel. Each of these names is bound.
pub proof fn lemma_initial_bindings_meaning()
    ensures
        forall|i: int|
            0 <= i < initial_bindings().len() ==> {
                let b = #[trigger] initial_bindings()[i];
                &&& b.name == "px" ==> b.value == BindingValue::Primitive(Primitive::Convert(UnitKind::Px))
                &&& b.name == "in" ==> b.value == BindingValue::Primitive(Primitive::Convert(UnitKind::In))
                &&& b.name == "cm" ==> b.value == BindingValue::Primitive(Primitive::Convert(UnitKind::Cm))
                &&& b.name == "mm" ==> b.value == BindingValue::Primitive(Primitive::Convert(UnitKind::Mm))
                &&& b.name == "cut-line" ==> b.value == BindingValue::Primitive(Primitive::CutLine)
                &&& b.name == "draw-line" ==> b.value == BindingValue::Primitive(Primitive::DrawLine)
                &&& b.name == "cut-circle" ==> b.value == BindingValue::Primitive(Primitive::CutCircle)
                &&& b.name == "default-unit" ==> b.value == BindingValue::Primitive(
                    Primitive::Convert(UnitKind::In),
                )
                &&& b.name == "cut-width" ==> b.value == BindingValue::Length(
                    Unit::Px(Num::Finite { negative: false, digits: 1, exp: -1i32 }),
                )
            },
        exists|i: int| 0 <= i < initial_bindings().len() && (#[trigger] initial_bindings()[i]).name == "px",
        exists|i: int| 0 <= i < initial_bindings().len() && (#[trigger] initial_bindings()[i]).name == "in",
        exists|i: int| 0 <= i < initial_bindings().len() && (#[trigger] initial_bindings()[i]).name == "cm",
        exists|i: int| 0 <= i < initial_bindings().len() && (#[trigger] initial_bindings()[i]).name == "mm",
        exists|i: int|
            0 <= i < initial_bindings().len() && (#[trigger] initial_bindings()[i]).name == "cut-line",
        exists|i: int|
            0 <= i < initial_bindings().len() && (#[trigger] initial_bindings()[i]).name == "draw-line",
        exists|i: int|
            0 <= i < initial_bindings().len() && (#[trigger] initial_bindings()[i]).name == "cut-circle",
        exists|i: int|
            0 <= i < initial_bindings().len() && (#[trigger] initial_bindings()[i]).name == "default-unit",
        exists|i: int|
            0 <= i < initial_bindings().len() && (#[trigger] initial_bindings()[i]).name == "cut-width",
{
    reveal_strlit("px");
    reveal_strlit("in");
    reveal_strlit("cm");
    reveal_strlit("mm");
    reveal_strlit("cut-line");
    reveal_strlit("draw-line");
    reveal_strlit("cut-circle");
    reveal_strlit("default-unit");
    reveal_strlit("cut-width");
    let bs = initial_bindings();
    assert(bs[0].name == "in");
    assert(bs[1].name == "px");
    assert(bs[2].name == "cm");
    assert(bs[3].name == "mm");
    assert(bs[4].name == "cut-line");
    assert(bs[5].name == "draw-line");
    assert(bs[6].name == "cut-circle");
    assert(bs[7].name == "default-unit");
    assert(bs[8].name == "cut-width");
}

/// A unit constructor makes a length of its own unit whose amount is the
/// number it was given, whatever that number is.
pub proof fn lemma_unit_constructors(n: Num, i: i64)
    ensures
        UnitKind::Px.spec_make(n) == Unit::Px(n),
        UnitKind::In.spec_make(n) == Unit::In(n),
        UnitKind::Cm.spec_make(n) == Unit::Cm(n),
        UnitKind::Mm.spec_make(n) == Unit::Mm(n),
        forall|k: UnitKind| (#[trigger] k.spec_make(n)).amount() == n,
        unit_cnv_result(UnitKind::Px, seq![ScriptValue::Float(n)]) == Ok::<ScriptValue, ScriptError>(
            ScriptValue::Unit(Unit::Px(n)),
        ),
        unit_cnv_result(UnitKind::In, seq![ScriptValue::Float(n)]) == Ok::<ScriptValue, ScriptError>(
            ScriptValue::Unit(Unit::In(n)),
        ),
        unit_cnv_result(UnitKind::Cm, seq![ScriptValue::Float(n)]) == Ok::<ScriptValue, ScriptError>(
            ScriptValue::Unit(Unit::Cm(n)),
        ),
        unit_cnv_result(UnitKind::Mm, seq![ScriptValue::Float(n)]) == Ok::<ScriptValue, ScriptError>(
            ScriptValue::Unit(Unit::Mm(n)),
        ),
        unit_cnv_result(UnitKind::Px, seq![ScriptValue::Int(i, n)]) == Ok::<ScriptValue, ScriptError>(
            ScriptValue::Unit(Unit::Px(n)),
        ),
        unit_cnv_result(UnitKind::In, seq![ScriptValue::Int(i, n)]) == Ok::<ScriptValue, ScriptError>(
            ScriptValue::Unit(Unit::In(n)),
        ),
        unit_cnv_result(UnitKind::Cm, seq![ScriptValue::Int(i, n)]) == Ok::<ScriptValue, ScriptError>(
            ScriptValue::Unit(Unit::Cm(n)),
        ),
        unit_cnv_result(UnitKind::Mm, seq![ScriptValue::Int(i, n)]) == Ok::<ScriptValue, ScriptError>(
            ScriptValue::Unit(Unit::Mm(n)),
        ),
{
    assert(seq![ScriptValue::Float(n)][0] == ScriptValue::Float(n));
    assert(seq![ScriptValue::Int(i, n)][0] == ScriptValue::Int(i, n));
}

/// When each of `vals` can only become the corresponding length of `us`, a
/// primitive that draws from them succeeds, returns the integer 0 and adds
/// exactly `fig(us)`.
proof fn lemma_draws_determined<F: Fn(ScriptValue) -> Result<ScriptValue, ScriptError>>(
    f: F,
    vals: Seq<ScriptValue>,
    us: Seq<Unit>,
    fig: spec_fn(Seq<Unit>) -> Figure,
    before: Seq<Figure>,
    after: Seq<Figure>,
    r: Result<ScriptValue, ScriptError>,
)
    requires
        us.len() == vals.len(),
        forall|i: int, o: Result<Unit, ScriptError>|
            0 <= i < vals.len() && #[trigger] number_outcome(f, vals[i], o) ==> o == Ok::<Unit, ScriptError>(us[i]),
        draws_outcome(f, vals, fig, before, after, r),
    ensures
        r == Ok::<ScriptValue, ScriptError>(ScriptValue::Int(0, Num::Finite { negative: false, digits: 0, exp: 0 })),
        after == before.push(fig(us)),
{
    match r {
        Ok(v) => {
            let ws = choose|ws: Seq<Unit>| #[trigger] resolves_to(f, vals, ws) && after == before.push(fig(ws));
            assert forall|i: int| 0 <= i < vals.len() implies ws[i] == us[i] by {
                assert(number_outcome(f, vals[i], Ok(ws[i])));
            }
            assert(ws =~= us);
        },
        Err(e) => {
            let k = choose|k: int| fails_at(f, vals, k, e);
            assert(number_outcome(f, vals[k], Err(e)));
        },
    }
}

/// A value that is already a length, or a number under a default unit that is
/// a unit constructor, can only become one length.
proof fn lemma_value_determined<F: Fn(ScriptValue) -> Result<ScriptValue, ScriptError>>(
    f: F,
    kind: UnitKind,
    v: ScriptValue,
    u: Unit,
    o: Result<Unit, ScriptError>,
)
    requires
        forall|w: ScriptValue, x: Result<ScriptValue, ScriptError>|
            call_ensures(f, (w,), x) ==> x == unit_cnv_result(kind, seq![w]),
        v == ScriptValue::Unit(u) || (double_of(v) is Some && u == kind.spec_make(double_of(v).unwrap())),
        number_outcome(f, v, o),
    ensures
        o == Ok::<Unit, ScriptError>(u),
{
    if double_of(v) is Some {
        lemma_number_in_default_unit(f, kind, v, o);
    }
}

/// `cut-line` on four lengths draws the line from the first two to the last
/// two, as wide as the cut width, whatever their units; nothing about the
/// default unit matters.
pub proof fn lemma_cut_line_draws<F: Fn(ScriptValue) -> Result<ScriptValue, ScriptError>>(
    f: F,
    x1: Unit,
    y1: Unit,
    x2: Unit,
    y2: Unit,
    w: Unit,
    before: Seq<Figure>,
    after: Seq<Figure>,
    r: Result<ScriptValue, ScriptError>,
)
    requires
        cut_line_outcome(
            f,
            seq![ScriptValue::Unit(x1), ScriptValue::Unit(y1), ScriptValue::Unit(x2), ScriptValue::Unit(y2)],
            ScriptValue::Unit(w),
            before,
            after,
            r,
        ),
    ensures
        r == Ok::<ScriptValue, ScriptError>(ScriptValue::Int(0, Num::Finite { negative: false, digits: 0, exp: 0 })),
        after == before.push(Figure::Line { p1: (x1, y1), p2: (x2, y2), width: w }),
{
    let args = seq![ScriptValue::Unit(x1), ScriptValue::Unit(y1), ScriptValue::Unit(x2), ScriptValue::Unit(y2)];
    let vals = seq![ScriptValue::Unit(w)] + args;
    let us = seq![w, x1, y1, x2, y2];
    assert(vals =~= seq![
        ScriptValue::Unit(w),
        ScriptValue::Unit(x1),
        ScriptValue::Unit(y1),
        ScriptValue::Unit(x2),
        ScriptValue::Unit(y2),
    ]);
    assert forall|i: int, o: Result<Unit, ScriptError>|
        0 <= i < vals.len() && #[trigger] number_outcome(f, vals[i], o) implies o == Ok::<Unit, ScriptError>(
        us[i],
    ) by {}
    lemma_draws_determined(
        f,
        vals,
        us,
        |us: Seq<Unit>| Figure::Line { p1: (us[1], us[2]), p2: (us[3], us[4]), width: us[0] },
        before,
        after,
        r,
    );
}

/// `cut-line x1 y1 x2 y2` on numbers, with a unit constructor as the default
/// unit, draws the line from `(x1, y1)` to `(x2, y2)` in that unit, as wide
/// as the cut width.
pub proof fn lemma_cut_line_numbers<F: Fn(ScriptValue) -> Result<ScriptValue, ScriptError>>(
    f: F,
    kind: UnitKind,
    x1: Num,
    y1: Num,
    x2: Num,
    y2: Num,
    w: Unit,
    before: Seq<Figure>,
    after: Seq<Figure>,
    r: Result<ScriptValue, ScriptError>,
)
    requires
        forall|v: ScriptValue, x: Result<ScriptValue, ScriptError>|
            call_ensures(f, (v,), x) ==> x == unit_cnv_result(kind, seq![v]),
        cut_line_outcome(
            f,
            seq![ScriptValue::Float(x1), ScriptValue::Float(y1), ScriptValue::Float(x2), ScriptValue::Float(y2)],
            ScriptValue::Unit(w),
            before,
            after,
            r,
        ),
    ensures
        r == Ok::<ScriptValue, ScriptError>(ScriptValue::Int(0, Num::Finite { negative: false, digits: 0, exp: 0 })),
        after == before.push(
            Figure::Line {
                p1: (kind.spec_make(x1), kind.spec_make(y1)),
                p2: (kind.spec_make(x2), kind.spec_make(y2)),
                width: w,
            },
        ),
{
    let vals = seq![
        ScriptValue::Unit(w),
        ScriptValue::Float(x1),
        ScriptValue::Float(y1),
        ScriptValue::Float(x2),
        ScriptValue::Float(y2),
    ];
    let us = seq![w, kind.spec_make(x1), kind.spec_make(y1), kind.spec_make(x2), kind.spec_make(y2)];
    assert(vals =~= seq![ScriptValue::Unit(w)] + seq![
        ScriptValue::Float(x1),
        ScriptValue::Float(y1),
        ScriptValue::Float(x2),
        ScriptValue::Float(y2),
    ]);
    assert forall|i: int, o: Result<Unit, ScriptError>|
        0 <= i < vals.len() && #[trigger] number_outcome(f, vals[i], o) implies o == Ok::<Unit, ScriptError>(
        us[i],
    ) by {
        lemma_value_determined(f, kind, vals[i], us[i], o);
    }
    lemma_draws_determined(
        f,
        vals,
        us,
        |us: Seq<Unit>| Figure::Line { p1: (us[1], us[2]), p2: (us[3], us[4]), width: us[0] },
        before,
        after,
        r,
    );
}

/// `draw-line` on five lengths draws the line from the first two to the next
/// two, as wide as the fifth, whatever their units.
pub proof fn lemma_draw_line_draws<F: Fn(ScriptValue) -> Result<ScriptValue, ScriptError>>(
    f: F,
    x1: Unit,
    y1: Unit,
    x2: Unit,
    y2: Unit,
    w: Unit,
    before: Seq<Figure>,
    after: Seq<Figure>,
    r: Result<ScriptValue, ScriptError>,
)
    requires
        draw_line_outcome(
            f,
            seq![
                ScriptValue::Unit(x1),
                ScriptValue::Unit(y1),
                ScriptValue::Unit(x2),
                ScriptValue::Unit(y2),
                ScriptValue::Unit(w),
            ],
            before,
            after,
            r,
        ),
    ensures
        r == Ok::<ScriptValue, ScriptError>(ScriptValue::Int(0, Num::Finite { negative: false, digits: 0, exp: 0 })),
        after == before.push(Figure::Line { p1: (x1, y1), p2: (x2, y2), width: w }),
{
    let vals = seq![
        ScriptValue::Unit(x1),
        ScriptValue::Unit(y1),
        ScriptValue::Unit(x2),
        ScriptValue::Unit(y2),
        ScriptValue::Unit(w),
    ];
    let us = seq![x1, y1, x2, y2, w];
    assert forall|i: int, o: Result<Unit, ScriptError>|
        0 <= i < vals.len() && #[trigger] number_outcome(f, vals[i], o) implies o == Ok::<Unit, ScriptError>(
        us[i],
    ) by {}
    lemma_draws_determined(
        f,
        vals,
        us,
        |us: Seq<Unit>| Figure::Line { p1: (us[0], us[1]), p2: (us[2], us[3]), width: us[4] },
        before,
        after,
        r,
    );
}

/// `cut-circle` on three lengths draws an unfilled circle around the first
/// two with the third as radius, as wide as the cut width, whatever their
/// units.
pub proof fn lemma_cut_circle_draws<F: Fn(ScriptValue) -> Result<ScriptValue, ScriptError>>(
    f: F,
    x: Unit,
    y: Unit,
    radius: Unit,
    w: Unit,
    before: Seq<Figure>,
    after: Seq<Figure>,
    r: Result<ScriptValue, ScriptError>,
)
    requires
        cut_circle_outcome(
            f,
            seq![ScriptValue::Unit(x), ScriptValue::Unit(y), ScriptValue::Unit(radius)],
            ScriptValue::Unit(w),
            before,
            after,
            r,
        ),
    ensures
        r == Ok::<ScriptValue, ScriptError>(ScriptValue::Int(0, Num::Finite { negative: false, digits: 0, exp: 0 })),
        after == before.push(Figure::Circle { center: (x, y), radius, width: w, fill: None }),
{
    let args = seq![ScriptValue::Unit(x), ScriptValue::Unit(y), ScriptValue::Unit(radius)];
    let vals = args + seq![ScriptValue::Unit(w)];
    let us = seq![x, y, radius, w];
    assert(vals =~= seq![
        ScriptValue::Unit(x),
        ScriptValue::Unit(y),
        ScriptValue::Unit(radius),
        ScriptValue::Unit(w),
    ]);
    assert forall|i: int, o: Result<Unit, ScriptError>|
        0 <= i < vals.len() && #[trigger] number_outcome(f, vals[i], o) implies o == Ok::<Unit, ScriptError>(
        us[i],
    ) by {}
    lemma_draws_determined(
        f,
        vals,
        us,
        |us: Seq<Unit>| Figure::Circle { center: (us[0], us[1]), radius: us[2], width: us[3], fill: None },
        before,
        after,
        r,
    );
}

} // verus!
