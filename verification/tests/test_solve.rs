use tiny_solver::assembly::block_parameters;
use tiny_solver::{
    apply_dx2, DenseMatrix, ErrorCheck, GaussNewtonEvent, GaussNewtonOptimizer, GaussNewtonPhase,
    LevenbergMarquardtEvent, LevenbergMarquardtOptimizer, LevenbergMarquardtPhase, NameMap,
    OptimizerOptions, ParameterBlock, Problem, SE3Manifold, StepDecision, Termination,
};

/// The factors of the toy problem, with their Jacobians written out.
enum ToyFactor {
    /// `x - target`
    Prior(f64),
    /// `[x + 2 y + 4 z, y z]`
    Coupling,
}

type Toy = Problem<ToyFactor, (), f64, SE3Manifold>;
type Blocks<'a> = NameMap<ParameterBlock<'a, f64, SE3Manifold>>;

impl ToyFactor {
    fn evaluate(&self, params: &[&ParameterBlock<f64, SE3Manifold>]) -> (Vec<f64>, DenseMatrix<f64>) {
        match self {
            ToyFactor::Prior(target) => (
                vec![params[0].params[0] - target],
                DenseMatrix::from_column_major(1, 1, vec![1.0]).unwrap(),
            ),
            ToyFactor::Coupling => {
                let x = params[0].params[0];
                let y = params[1].params[0];
                let z = params[1].params[1];
                (
                    vec![x + 2.0 * y + 4.0 * z, y * z],
                    DenseMatrix::from_column_major(2, 3, vec![1.0, 0.0, 2.0, z, 4.0, y]).unwrap(),
                )
            }
        }
    }
}

fn toy() -> Toy {
    let mut problem = Toy::new();
    problem.add_residual_block(1, &["x"], ToyFactor::Prior(3.0), None);
    problem.add_residual_block(2, &["x", "yz"], ToyFactor::Coupling, None);
    problem
}

fn start() -> NameMap<Vec<f64>> {
    let mut initial = NameMap::new();
    initial.insert("x", vec![0.7]);
    initial.insert("yz", vec![-30.2, 123.4]);
    initial
}

fn evaluate(problem: &Toy, blocks: &Blocks) -> (Vec<Vec<f64>>, Vec<DenseMatrix<f64>>) {
    problem
        .residual_blocks()
        .iter()
        .map(|block| block.factor.evaluate(&block_parameters(block, blocks).unwrap()))
        .unzip()
}

fn squared_norm(v: &[f64]) -> f64 {
    v.iter().map(|x| x * x).sum()
}

/// The dense Jacobian that the listed positions and values stand for.
fn dense(n: usize, indices: &[(usize, usize)], values: &[f64]) -> Vec<Vec<f64>> {
    let mut jacobian = vec![vec![0.0; n]; n];
    for ((row, col), value) in indices.iter().zip(values) {
        jacobian[*row][*col] += value;
    }
    jacobian
}

/// `J^T J` and `J^T (-r)`.
fn normal_equations(jacobian: &[Vec<f64>], residual: &[f64]) -> (Vec<Vec<f64>>, Vec<f64>) {
    let n = jacobian[0].len();
    let mut jtj = vec![vec![0.0; n]; n];
    let mut jtr = vec![0.0; n];
    for (row, r) in jacobian.iter().zip(residual) {
        for a in 0..n {
            jtr[a] -= row[a] * r;
            for b in 0..n {
                jtj[a][b] += row[a] * row[b];
            }
        }
    }
    (jtj, jtr)
}

/// Gaussian elimination with partial pivoting; `None` for a singular system.
fn solve(mut a: Vec<Vec<f64>>, mut b: Vec<f64>) -> Option<Vec<f64>> {
    let n = b.len();
    for k in 0..n {
        let pivot = (k..n).max_by(|&i, &j| a[i][k].abs().total_cmp(&a[j][k].abs()))?;
        if !(a[pivot][k].abs() > 1e-300) {
            return None;
        }
        a.swap(k, pivot);
        b.swap(k, pivot);
        for i in k + 1..n {
            let factor = a[i][k] / a[k][k];
            for j in k..n {
                a[i][j] -= factor * a[k][j];
            }
            b[i] -= factor * b[k];
        }
    }
    let mut x = vec![0.0; n];
    for k in (0..n).rev() {
        let tail: f64 = (k + 1..n).map(|j| a[k][j] * x[j]).sum();
        x[k] = (b[k] - tail) / a[k][k];
    }
    Some(x)
}

fn compare(last: f64, current: f64, options: &OptimizerOptions<f64>) -> ErrorCheck {
    let change = (last - current).abs();
    ErrorCheck {
        below_threshold: current < options.min_error_threshold,
        is_nan: current.is_nan(),
        abs_decrease_small: change < options.min_abs_error_decrease_threshold,
        rel_decrease_small: change / last < options.min_rel_error_decrease_threshold,
    }
}

fn add(block: &ParameterBlock<f64, SE3Manifold>, delta: Vec<f64>) -> Vec<f64> {
    block.params.iter().zip(delta.iter()).map(|(x, d)| x + d).collect()
}

fn clamp(x: f64, lower: f64, upper: f64) -> f64 {
    x.max(lower).min(upper)
}

fn error_at(problem: &Toy, blocks: &Blocks) -> f64 {
    let (residuals, _) = evaluate(problem, blocks);
    squared_norm(&problem.compute_residuals(&residuals, 0.0).unwrap())
}

/// Runs Gauss-Newton on `problem`; the ending, the values and the number of
/// steps applied.
fn gauss_newton<'a>(
    problem: &'a Toy,
    options: &OptimizerOptions<f64>,
) -> (Termination, Blocks<'a>, usize) {
    let initial = start();
    let mut blocks = problem.initialize_parameter_blocks(&initial);
    let columns = problem.get_variable_name_to_col_idx_dict(&blocks);
    let width = Toy::total_variable_dimension(&blocks).unwrap();
    let indices = problem.jacobian_indices(&blocks, width, &columns).unwrap();

    let driver = GaussNewtonOptimizer::new();
    let mut state = driver.start(options.max_iteration);
    let mut last = f64::INFINITY;
    let mut linearization = None;
    let mut step = None;
    loop {
        match state.phase {
            GaussNewtonPhase::Linearize => {
                let (residuals, jacobians) = evaluate(problem, &blocks);
                let (residual, values) = problem
                    .compute_residual_and_jacobian(&blocks, &columns, &residuals, &jacobians, 0.0)
                    .unwrap();
                let current = squared_norm(&residual);
                let check = compare(last, current, options);
                last = current;
                linearization = Some((residual, dense(width, &indices, &values)));
                state = driver.step(state, GaussNewtonEvent::Linearized(check));
            }
            GaussNewtonPhase::Solve => {
                let (residual, jacobian) = linearization.as_ref().unwrap();
                let (jtj, jtr) = normal_equations(jacobian, residual);
                step = solve(jtj, jtr);
                let event = match step {
                    Some(_) => GaussNewtonEvent::Solved,
                    None => GaussNewtonEvent::SolveFailed,
                };
                state = driver.step(state, event);
            }
            GaussNewtonPhase::Apply => {
                apply_dx2(step.as_ref().unwrap(), &mut blocks, &columns, &add, &clamp).unwrap();
                state = driver.step(state, GaussNewtonEvent::Applied);
            }
            GaussNewtonPhase::Done(ending) => return (ending, blocks, state.iteration),
        }
    }
}

#[test]
fn gauss_newton_converges_on_the_toy_problem() {
    let problem = toy();
    let options = OptimizerOptions::with_thresholds(1e-5, 1e-5, 1e-10);
    let (ending, blocks, iterations) = gauss_newton(&problem, &options);
    assert!(ending.converged(), "{:?}", ending);
    assert!(iterations < 100);
    assert!(error_at(&problem, &blocks) < 1e-8);
    let x = blocks.get("x").unwrap().params[0];
    let yz = &blocks.get("yz").unwrap().params;
    assert!((x - 3.0).abs() < 1e-4);
    assert!((x + 2.0 * yz[0] + 4.0 * yz[1]).abs() < 1e-4);
    assert!((yz[0] * yz[1]).abs() < 1e-4);
}

#[test]
fn gauss_newton_leaves_fixed_coordinates_alone() {
    let mut problem = toy();
    problem.fix_variable("yz", 1);
    let options = OptimizerOptions::with_thresholds(1e-5, 1e-5, 1e-10);
    let (ending, blocks, iterations) = gauss_newton(&problem, &options);
    assert!(!ending.failed(), "{:?}", ending);
    assert!(iterations > 0);
    assert_eq!(blocks.get("yz").unwrap().params[1], 123.4);
    assert!(blocks.get("yz").unwrap().params[0] != -30.2);
}

#[test]
fn gauss_newton_keeps_bounded_coordinates_in_their_interval() {
    let mut problem = toy();
    let ordered = |lower: f64, upper: f64| !(lower > upper);
    assert!(problem.set_variable_bounds("x", 0, 0.0, 1.5, &ordered));
    let options = OptimizerOptions::with_thresholds(1e-5, 1e-5, 1e-10);
    let (ending, blocks, _) = gauss_newton(&problem, &options);
    assert!(!ending.failed(), "{:?}", ending);
    let x = blocks.get("x").unwrap().params[0];
    assert!((0.0..=1.5).contains(&x));
}

#[test]
fn gauss_newton_without_iterations_returns_the_initial_values() {
    let problem = toy();
    let mut options = OptimizerOptions::with_thresholds(1e-5, 1e-5, 1e-10);
    options.max_iteration = 0;
    let (ending, blocks, iterations) = gauss_newton(&problem, &options);
    assert_eq!(ending, Termination::MaxIterations);
    assert_eq!(iterations, 0);
    assert_eq!(blocks.get("x").unwrap().params, vec![0.7]);
    assert_eq!(blocks.get("yz").unwrap().params, vec![-30.2, 123.4]);
}

#[test]
fn levenberg_marquardt_converges_on_the_toy_problem() {
    let problem = toy();
    let options = OptimizerOptions::with_thresholds(1e-5, 1e-5, 1e-10);
    let initial = start();
    let mut blocks = problem.initialize_parameter_blocks(&initial);
    let columns = problem.get_variable_name_to_col_idx_dict(&blocks);
    let width = Toy::total_variable_dimension(&blocks).unwrap();
    let indices = problem.jacobian_indices(&blocks, width, &columns).unwrap();

    let driver = LevenbergMarquardtOptimizer::new(1e-6, 1e32, 1e4);
    let mut u = 1.0 / driver.initial_trust_region_radius;
    let mut v = 2.0;
    let mut state = driver.start(options.max_iteration);
    let mut current = error_at(&problem, &blocks);
    let mut linearizations = 0;
    let mut equations = None;
    let mut step = None;
    let mut damping = vec![0.0; width];
    let ending = loop {
        match state.phase {
            LevenbergMarquardtPhase::Linearize => {
                assert!(state.last_step != StepDecision::Rejected);
                linearizations += 1;
                let (residuals, jacobians) = evaluate(&problem, &blocks);
                let (residual, values) = problem
                    .compute_residual_and_jacobian(&blocks, &columns, &residuals, &jacobians, 0.0)
                    .unwrap();
                equations = Some(normal_equations(&dense(width, &indices, &values), &residual));
                state = driver.step(state, LevenbergMarquardtEvent::Linearized);
            }
            LevenbergMarquardtPhase::Solve => {
                let (jtj, jtr) = equations.as_ref().unwrap();
                let mut regularized = jtj.clone();
                for i in 0..width {
                    damping[i] = u * jtj[i][i].max(driver.min_diagonal).min(driver.max_diagonal);
                    regularized[i][i] += damping[i];
                }
                step = solve(regularized, jtr.clone());
                let event = match step {
                    Some(_) => LevenbergMarquardtEvent::Solved,
                    None => LevenbergMarquardtEvent::SolveFailed,
                };
                state = driver.step(state, event);
            }
            LevenbergMarquardtPhase::Score => {
                let h = step.as_ref().unwrap();
                let (_, jtr) = equations.as_ref().unwrap();
                let mut candidate = blocks.clone();
                apply_dx2(h, &mut candidate, &columns, &add, &clamp).unwrap();
                let new_error = error_at(&problem, &candidate);
                let predicted: f64 =
                    (0..width).map(|i| h[i] * (jtr[i] + damping[i] * h[i])).sum();
                let rho = (current - new_error) / predicted;
                let gain_positive = rho > 0.0;
                let check = compare(current, new_error, &options);
                if gain_positive {
                    blocks = candidate;
                    current = new_error;
                    let tmp = 2.0 * rho - 1.0;
                    u *= (1.0_f64 / 3.0).max(1.0 - tmp * tmp * tmp);
                    v = 2.0;
                } else {
                    u *= v;
                    v *= 2.0;
                }
                state = driver.step(
                    state,
                    LevenbergMarquardtEvent::Scored { gain_positive, check },
                );
            }
            LevenbergMarquardtPhase::Done(ending) => break ending,
        }
    };
    assert!(ending.converged(), "{:?}", ending);
    assert!(state.iteration < 100);
    assert!(linearizations <= state.iteration);
    assert!(error_at(&problem, &blocks) < 1e-8);
}
