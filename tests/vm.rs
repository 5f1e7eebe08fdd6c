use raygon::{
    BinaryOp, CompareMode, Curve, CurveIndex, Instruction, InterpolationMode, Lane, Scalar,
    Stack, UnaryOp, ROM,
};

#[derive(Clone, Copy, Debug, PartialEq)]
struct F(f32);

impl Scalar for F {
    fn zero() -> F {
        F(0.0)
    }
    fn from_u8(n: u8) -> F {
        F(n as f32)
    }
    fn add(self, b: F) -> F {
        F(self.0 + b.0)
    }
    fn sub(self, b: F) -> F {
        F(self.0 - b.0)
    }
    fn mul(self, b: F) -> F {
        F(self.0 * b.0)
    }
    fn div(self, b: F) -> F {
        F(self.0 / b.0)
    }
    fn lt(self, b: F) -> bool {
        self.0 < b.0
    }
}

/// A one-lane vector for driving the VM.
#[derive(Clone, Copy, Debug, PartialEq)]
struct L(f32);

fn normal_or_zero(x: f32) -> f32 {
    if x.is_normal() {
        x
    } else {
        0.0
    }
}

impl Lane<F> for L {
    fn unary(self, op: UnaryOp) -> L {
        let x = self.0;
        L(match op {
            UnaryOp::Saturate => x.clamp(0.0, 1.0),
            UnaryOp::Neg => -x,
            UnaryOp::Abs => x.abs(),
            UnaryOp::Sqrt => if x < 0.0 { 0.0 } else { x.sqrt() },
            UnaryOp::Square => x * x,
            UnaryOp::Sign => x.signum(),
            UnaryOp::Ln => if x < 0.0 { 0.0 } else { x.ln() },
            UnaryOp::Sin => normal_or_zero(x.sin()),
            UnaryOp::Cos => normal_or_zero(x.cos()),
            UnaryOp::Tan => normal_or_zero(x.tan()),
            UnaryOp::ArcSin => normal_or_zero(x.asin()),
            UnaryOp::ArcCos => normal_or_zero(x.acos()),
            UnaryOp::ArcTan => normal_or_zero(x.atan()),
            UnaryOp::Trunc => x.trunc(),
            UnaryOp::Fract => x.fract(),
            UnaryOp::Round => x.round(),
            UnaryOp::Floor => x.floor(),
            UnaryOp::Ceil => x.ceil(),
            UnaryOp::ToDegrees => x.to_degrees(),
            UnaryOp::ToRadians => x.to_radians(),
            UnaryOp::Invert => 1.0 - x,
            UnaryOp::Heavyside => if x < 0.0 { 0.0 } else { 1.0 },
        })
    }

    fn binary(self, op: BinaryOp, b: L) -> L {
        let (a, b) = (self.0, b.0);
        L(normal_or_zero(match op {
            BinaryOp::Add => a + b,
            BinaryOp::Sub => a - b,
            BinaryOp::Mul => a * b,
            BinaryOp::Div => a / b,
            BinaryOp::Rem => a % b,
            BinaryOp::Powf => a.powf(b),
            BinaryOp::Min => a.min(b),
            BinaryOp::Max => a.max(b),
            BinaryOp::ArcTan2 => a.atan2(b),
            BinaryOp::Hypot => a.hypot(b),
        }))
    }

    fn compare(self, mode: CompareMode, b: L) -> L {
        let (a, b) = (self.0, b.0);
        let r = match mode {
            CompareMode::LessThan => a < b,
            CompareMode::LessThanEqual => a <= b,
            CompareMode::Equal => a == b,
            CompareMode::ApproxEqual => (a - b).abs() <= 1e-5,
            CompareMode::GreaterThan => a > b,
            CompareMode::GreaterThanEqual => a >= b,
        };
        L(if r { 1.0 } else { 0.0 })
    }

    fn add(self, b: L) -> L {
        L(self.0 + b.0)
    }
    fn mul(self, b: L) -> L {
        L(self.0 * b.0)
    }
    fn min(self, b: L) -> L {
        L(self.0.min(b.0))
    }
    fn max(self, b: L) -> L {
        L(self.0.max(b.0))
    }

    fn curve(self, curve: &Curve<F>) -> L {
        match curve {
            Curve::Poly(coeffs) => L(coeffs.iter().rev().fold(0.0, |acc, c| acc * self.0 + c.0)),
            _ => L(curve.eval_scalar(F(self.0)).0),
        }
    }
}

fn empty_rom() -> ROM<F> {
    ROM { scalar: vec![], curves: vec![] }
}

fn hermite_table() -> Curve<F> {
    Curve::LookupTable {
        values: vec![
            (F(0.0), F(0.1), F(-0.1)),
            (F(0.3), F(0.3), F(0.7)),
            (F(0.5), F(0.6), F(0.0)),
            (F(1.0), F(0.2), F(-0.3)),
        ],
        interpolation: InterpolationMode::CubicHermite,
    }
}

fn run(values: &[f32], instr: Instruction, rom: &ROM<F>) -> Vec<f32> {
    let mut stack = Stack::new(vec![L(0.0); 32]);
    let lanes: Vec<L> = values.iter().map(|&x| L(x)).collect();
    stack.push_from(&lanes);
    instr.eval(&mut stack, rom);
    stack.as_slice().iter().map(|l| l.0).collect()
}

#[test]
fn vector_sum_adds_three_lanes_and_drops_depth_by_two() {
    let mut stack = Stack::new(vec![L(0.0); 8]);
    stack.push_n([L(9.0), L(1.5), L(2.25), L(4.0)]);
    let before = stack.len();
    Instruction::VectorSum.eval(&mut stack, &empty_rom());
    assert_eq!(stack.len() as isize - before as isize, -2);
    assert_eq!(stack.as_slice(), &[L(9.0), L(7.75)]);
}

#[test]
fn vector_folds() {
    let rom = empty_rom();
    assert_eq!(run(&[2.0, 3.0, 4.0], Instruction::VectorProduct, &rom), vec![24.0]);
    assert_eq!(run(&[2.0, -3.0, 4.0], Instruction::VectorMin, &rom), vec![-3.0]);
    assert_eq!(run(&[2.0, -3.0, 4.0], Instruction::VectorMax, &rom), vec![4.0]);
}

#[test]
fn no_op_leaves_stack() {
    assert_eq!(run(&[1.0, 2.0], Instruction::NoOp, &empty_rom()), vec![1.0, 2.0]);
}

#[test]
fn scalar_binary_takes_lower_then_upper() {
    let rom = empty_rom();
    assert_eq!(run(&[7.0, 10.0, 4.0], Instruction::ScalarBinary(BinaryOp::Sub), &rom), vec![7.0, 6.0]);
    assert_eq!(run(&[1.0, 0.0], Instruction::ScalarBinary(BinaryOp::Div), &rom), vec![0.0]);
}

#[test]
fn scalar_unary_replaces_top() {
    let rom = empty_rom();
    assert_eq!(run(&[5.0, -2.0], Instruction::ScalarUnary(UnaryOp::Abs), &rom), vec![5.0, 2.0]);
    assert_eq!(run(&[-4.0], Instruction::ScalarUnary(UnaryOp::Sqrt), &rom), vec![0.0]);
}

#[test]
fn scalar_compare_yields_one_or_zero() {
    let rom = empty_rom();
    assert_eq!(run(&[1.0, 2.0], Instruction::ScalarCompare(CompareMode::LessThan), &rom), vec![1.0]);
    assert_eq!(run(&[2.0, 1.0], Instruction::ScalarCompare(CompareMode::LessThan), &rom), vec![0.0]);
}

#[test]
fn vector_unary_maps_each_component() {
    let rom = empty_rom();
    assert_eq!(
        run(&[1.0, -2.0, 3.0], Instruction::VectorUnary(UnaryOp::Neg), &rom),
        vec![-1.0, 2.0, -3.0]
    );
}

#[test]
fn vector_binary_takes_top_triple_as_second_operand() {
    let rom = empty_rom();
    assert_eq!(
        run(&[10.0, 20.0, 30.0, 1.0, 2.0, 3.0], Instruction::VectorBinary(BinaryOp::Sub), &rom),
        vec![9.0, 18.0, 27.0]
    );
}

#[test]
fn vector_compare_takes_lower_triple_first() {
    let rom = empty_rom();
    assert_eq!(
        run(&[1.0, 5.0, 3.0, 2.0, 2.0, 3.0], Instruction::VectorCompare(CompareMode::GreaterThan), &rom),
        vec![0.0, 1.0, 0.0]
    );
    assert_eq!(
        run(&[1.0, 5.0, 3.0, 2.0, 2.0, 3.0], Instruction::VectorCompare(CompareMode::LessThanEqual), &rom),
        vec![1.0, 0.0, 1.0]
    );
}

#[test]
fn splat_and_copies() {
    let rom = empty_rom();
    assert_eq!(run(&[0.5, 3.0], Instruction::VectorSplat, &rom), vec![0.5, 3.0, 3.0, 3.0]);
    assert_eq!(run(&[3.0], Instruction::CopyScalar(3), &rom), vec![3.0, 3.0, 3.0, 3.0]);
    assert_eq!(run(&[3.0], Instruction::CopyScalar(0), &rom), vec![3.0]);
    assert_eq!(
        run(&[1.0, 2.0, 3.0], Instruction::CopyVector(2), &rom),
        vec![1.0, 2.0, 3.0, 1.0, 2.0, 3.0, 1.0, 2.0, 3.0]
    );
}

#[test]
fn curve_instruction_reads_rom() {
    let rom = ROM { scalar: vec![F(1.0)], curves: vec![Curve::Poly(vec![F(1.0), F(2.0)]), hermite_table()] };
    assert_eq!(run(&[3.0], Instruction::Curve(CurveIndex::new(0)), &rom), vec![7.0]);
    assert_eq!(run(&[2.0], Instruction::Curve(CurveIndex::new(1)), &rom), vec![0.0]);
    assert_eq!(run(&[-1.0], Instruction::Curve(CurveIndex(1)), &rom), vec![0.1]);
}

#[test]
fn test_curve() {
    let curve = hermite_table();
    let x = 0.65;
    let y = curve.eval_scalar(F(x)).0;
    let expected = 0.5325;
    assert!((expected - y).abs() < 0.001, "{} == {}", expected, y);
}

#[test]
fn lookup_table_boundaries() {
    let curve = hermite_table();
    assert_eq!(curve.eval_scalar(F(0.0)), F(0.1));
    assert_eq!(curve.eval_scalar(F(-3.0)), F(0.1));
    assert_eq!(curve.eval_scalar(F(1.0)), F(0.2));
    assert_eq!(curve.eval_scalar(F(1.0001)), F(0.0));
    assert_eq!(curve.eval_scalar(F(50.0)), F(0.0));
    let empty: Curve<F> = Curve::LookupTable { values: vec![], interpolation: InterpolationMode::Linear };
    assert_eq!(empty.eval_scalar(F(1.0)), F(0.0));
    assert_eq!(Curve::Poly(vec![F(1.0)]).eval_scalar(F(1.0)), F(0.0));
}

#[test]
fn lookup_table_linear_and_nearest() {
    let knots = vec![(F(0.0), F(0.0), F(0.0)), (F(2.0), F(4.0), F(0.0))];
    let linear = Curve::LookupTable { values: knots.clone(), interpolation: InterpolationMode::Linear };
    assert_eq!(linear.eval_scalar(F(0.5)), F(1.0));
    let nearest = Curve::LookupTable { values: knots, interpolation: InterpolationMode::Nearest };
    assert_eq!(nearest.eval_scalar(F(0.9)), F(0.0));
    assert_eq!(nearest.eval_scalar(F(1.0)), F(4.0));
}

#[test]
fn rom_curve_index() {
    let rom = ROM { scalar: vec![], curves: vec![Curve::Poly(vec![F(2.0)]), hermite_table()] };
    let idx = CurveIndex::new(1);
    assert_eq!(usize::from(idx), 1);
    assert!(matches!(rom.get_curve(idx), Curve::LookupTable { .. }));
    assert!(matches!(rom.get_curve(CurveIndex::new(0)), Curve::Poly(_)));
}
