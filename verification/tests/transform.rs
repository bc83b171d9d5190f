use ocean_fft::fft::{inversion_sign, Direction, Fft, PassInput, PassKind, Target};
use ocean_fft::grid::{Cell, GridSize};
use ocean_fft::transform::phase;

type Complex = (f64, f64);

fn add(a: Complex, b: Complex) -> Complex {
    (a.0 + b.0, a.1 + b.1)
}

fn mul(a: Complex, b: Complex) -> Complex {
    (a.0 * b.0 - a.1 * b.1, a.0 * b.1 + a.1 * b.0)
}

fn root(n: u32, exponent: u64) -> Complex {
    let angle = 2.0 * std::f64::consts::PI * ((exponent % n as u64) as f64) / n as f64;
    (angle.cos(), angle.sin())
}

fn at(n: u32, cell: Cell) -> usize {
    (cell.y * n + cell.x) as usize
}

/// Runs the passes that the library plans, one after the other, on the
/// buffers that it names, and returns the output buffer.
fn run(fft: &Fft, n: u32, spectrum: &[Complex]) -> Vec<Complex> {
    let mut pingpong = vec![(f64::NAN, f64::NAN); spectrum.len()];
    let mut output = vec![(f64::NAN, f64::NAN); spectrum.len()];
    for pass in fft.render() {
        let input: Vec<Complex> = match pass.input {
            PassInput::Spectrum => spectrum.to_vec(),
            PassInput::Buffer(Target::PingPong) => pingpong.clone(),
            PassInput::Buffer(Target::Output) => output.clone(),
        };
        let target = match pass.output {
            Target::PingPong => &mut pingpong,
            Target::Output => &mut output,
        };
        for y in 0..n {
            for x in 0..n {
                let cell = Cell { x, y };
                target[at(n, cell)] = match pass.kind {
                    PassKind::Butterfly { direction, stage } => {
                        let tap = fft.butterfly(direction, stage, cell);
                        add(
                            input[at(n, tap.a)],
                            mul(root(n, tap.exponent as u64), input[at(n, tap.b)]),
                        )
                    }
                    PassKind::Inversion => {
                        (inversion_sign(cell) as f64 * input[at(n, cell)].0, 0.0)
                    }
                };
            }
        }
    }
    output
}

/// The real part of the inverse Fourier sum with the frequencies counted
/// from the centre of the grid, by its definition.
fn direct(n: u32, spectrum: &[Complex]) -> Vec<f64> {
    let size = GridSize::new(n).unwrap();
    let mut heights = vec![0.0; spectrum.len()];
    for y in 0..n {
        for x in 0..n {
            let mut sum = (0.0, 0.0);
            for sy in 0..n {
                for sx in 0..n {
                    let source = Cell { x: sx, y: sy };
                    let turn = phase(size, Cell { x, y }, source);
                    sum = add(sum, mul(root(n, turn as u64), spectrum[at(n, source)]));
                }
            }
            heights[at(n, Cell { x, y })] = sum.0;
        }
    }
    heights
}

fn noise(len: usize, seed: u64) -> Vec<Complex> {
    let mut state = seed;
    let mut next = move || {
        state = state.wrapping_mul(6364136223846793005).wrapping_add(1442695040888963407);
        ((state >> 11) as f64) / ((1u64 << 53) as f64) - 0.5
    };
    (0..len).map(|_| (next(), next())).collect()
}

fn setup(n: u32) -> Fft {
    Fft::new(GridSize::new(n).unwrap())
}

#[test]
fn transform_of_a_zero_spectrum_is_zero() {
    for n in [1u32, 2, 4, 8, 16] {
        let spectrum = vec![(0.0, 0.0); (n * n) as usize];
        for value in run(&setup(n), n, &spectrum) {
            assert_eq!(value, (0.0, 0.0));
        }
    }
}

#[test]
fn transform_of_one_cell_and_its_partner_is_a_cosine() {
    // a grid of four with the value one at cell (1, 0) and at its
    // conjugate partner, cell (3, 0)
    let n = 4u32;
    let mut spectrum = vec![(0.0, 0.0); 16];
    spectrum[at(n, Cell { x: 1, y: 0 })] = (1.0, 0.0);
    spectrum[at(n, Cell { x: 3, y: 0 })] = (1.0, 0.0);
    let heights = run(&setup(n), n, &spectrum);
    // along x the cosine of a quarter turn for each cell, twice for the two
    // inputs; along y the sign of the frequency that row 0 of the input
    // stands for, half the sampling rate
    let along_x = [2.0, 0.0, -2.0, 0.0];
    for y in 0..n {
        let sign = if y % 2 == 0 { 1.0 } else { -1.0 };
        for x in 0..n {
            let value = heights[at(n, Cell { x, y })];
            assert!((value.0 - sign * along_x[x as usize]).abs() < 1e-12);
            assert_eq!(value.1, 0.0);
        }
    }
    let expected = direct(n, &spectrum);
    for i in 0..16 {
        assert!((heights[i].0 - expected[i]).abs() < 1e-12);
    }
}

#[test]
fn transform_of_a_single_frequency_is_its_wave() {
    let n = 16u32;
    let fft = setup(n);
    for source in [Cell { x: 0, y: 0 }, Cell { x: 8, y: 8 }, Cell { x: 9, y: 8 }, Cell { x: 3, y: 13 }] {
        let mut spectrum = vec![(0.0, 0.0); (n * n) as usize];
        spectrum[at(n, source)] = (1.0, 0.0);
        let heights = run(&fft, n, &spectrum);
        for y in 0..n {
            for x in 0..n {
                // the frequency that the source stands for, counted from the centre
                let fx = source.x as f64 - 8.0;
                let fy = source.y as f64 - 8.0;
                let angle = 2.0 * std::f64::consts::PI * (fx * x as f64 + fy * y as f64) / 16.0;
                let value = heights[at(n, Cell { x, y })];
                assert!((value.0 - angle.cos()).abs() < 1e-9);
            }
        }
    }
}

#[test]
fn transform_of_the_centre_cell_is_flat() {
    // the cell at the centre stands for the frequency zero
    let n = 8u32;
    let mut spectrum = vec![(0.0, 0.0); 64];
    spectrum[at(n, Cell { x: 4, y: 4 })] = (3.0, 0.0);
    for value in run(&setup(n), n, &spectrum) {
        assert!((value.0 - 3.0).abs() < 1e-12);
    }
}

#[test]
fn transform_agrees_with_the_sum_by_definition() {
    for n in [1u32, 2, 4, 8, 16] {
        let spectrum = noise((n * n) as usize, 7 + n as u64);
        let heights = run(&setup(n), n, &spectrum);
        let expected = direct(n, &spectrum);
        for i in 0..heights.len() {
            assert!((heights[i].0 - expected[i]).abs() < 1e-9);
            assert_eq!(heights[i].1, 0.0);
        }
    }
}

#[test]
fn transform_of_a_symmetric_spectrum_has_no_imaginary_part() {
    // a spectrum with the value at the frequency -k the conjugate of the
    // value at k; the cell for the frequency k is k + n/2
    let n = 8u32;
    let fft = setup(n);
    let half = noise(64, 99);
    let mut spectrum = vec![(0.0, 0.0); 64];
    for y in 0..n {
        for x in 0..n {
            let px = (n - x) % n;
            let py = (n - y) % n;
            let a = half[at(n, Cell { x, y })];
            let b = half[at(n, Cell { x: px, y: py })];
            spectrum[at(n, Cell { x, y })] = (a.0 + b.0, a.1 - b.1);
        }
    }
    // run the butterflies without the last pass and look at the imaginary part
    let passes = fft.render();
    let mut current = spectrum.clone();
    for pass in &passes[..passes.len() - 1] {
        let mut next = current.clone();
        if let PassKind::Butterfly { direction, stage } = pass.kind {
            for y in 0..n {
                for x in 0..n {
                    let cell = Cell { x, y };
                    let tap = fft.butterfly(direction, stage, cell);
                    next[at(n, cell)] = add(
                        current[at(n, tap.a)],
                        mul(root(n, tap.exponent as u64), current[at(n, tap.b)]),
                    );
                }
            }
        }
        current = next;
    }
    for value in current {
        assert!(value.1.abs() < 1e-9);
    }
}

#[test]
fn transform_is_linear_in_its_input() {
    let n = 8u32;
    let fft = setup(n);
    let a = noise(64, 1);
    let b = noise(64, 2);
    let sum: Vec<Complex> = a.iter().zip(b.iter()).map(|(p, q)| add(*p, *q)).collect();
    let ha = run(&fft, n, &a);
    let hb = run(&fft, n, &b);
    let hs = run(&fft, n, &sum);
    for i in 0..64 {
        assert!((hs[i].0 - ha[i].0 - hb[i].0).abs() < 1e-9);
    }
}

#[test]
fn transform_twice_on_the_same_input_is_bit_identical() {
    let n = 16u32;
    let fft = setup(n);
    let spectrum = noise(256, 5);
    let first = run(&fft, n, &spectrum);
    let second = run(&fft, n, &spectrum);
    for i in 0..256 {
        assert_eq!(first[i].0.to_bits(), second[i].0.to_bits());
        assert_eq!(first[i].1.to_bits(), second[i].1.to_bits());
    }
}

#[test]
fn transform_horizontal_stages_stay_in_their_row() {
    let n = 8u32;
    let fft = setup(n);
    for stage in 0..3u32 {
        for y in 0..n {
            for x in 0..n {
                let tap = fft.butterfly(Direction::Horizontal, stage, Cell { x, y });
                assert_eq!(tap.a.y, y);
                assert_eq!(tap.b.y, y);
                let tap = fft.butterfly(Direction::Vertical, stage, Cell { x, y });
                assert_eq!(tap.a.x, x);
                assert_eq!(tap.b.x, x);
            }
        }
    }
}

/// The number 3 has the order 256 modulo 257.
const PRIME: u64 = 257;

fn power(base: u64, exponent: u64) -> u64 {
    let mut result = 1;
    for _ in 0..exponent {
        result = result * base % PRIME;
    }
    result
}

#[test]
fn transform_is_exact_over_a_prime_field() {
    // the same passes on residues modulo 257, with a root of unity of the
    // grid's order in place of the complex one: no rounding, so the sum by
    // definition is met exactly
    for n in [1u32, 2, 4, 8, 16] {
        let fft = setup(n);
        let w = power(3, 256 / n as u64);
        let input: Vec<u64> = (0..n * n).map(|i| (i as u64 * 37 + 11) % PRIME).collect();
        let passes = fft.render();
        let mut current = input.clone();
        for pass in &passes[..passes.len() - 1] {
            let mut next = current.clone();
            if let PassKind::Butterfly { direction, stage } = pass.kind {
                for y in 0..n {
                    for x in 0..n {
                        let cell = Cell { x, y };
                        let tap = fft.butterfly(direction, stage, cell);
                        next[at(n, cell)] = (current[at(n, tap.a)]
                            + power(w, tap.exponent as u64) * current[at(n, tap.b)])
                            % PRIME;
                    }
                }
            }
            current = next;
        }
        for y in 0..n {
            for x in 0..n {
                let mut sum = 0;
                for sy in 0..n {
                    for sx in 0..n {
                        let turn = ((x * sx + y * sy) % n) as u64;
                        sum = (sum + power(w, turn) * input[at(n, Cell { x: sx, y: sy })]) % PRIME;
                    }
                }
                assert_eq!(current[at(n, Cell { x, y })], sum);
            }
        }
    }
}

#[test]
fn phase_is_the_product_of_place_and_wave_vector() {
    let size = GridSize::new(8).unwrap();
    assert_eq!(phase(size, Cell { x: 0, y: 0 }, Cell { x: 5, y: 3 }), 0);
    // the centre stands for the wave vector zero
    assert_eq!(phase(size, Cell { x: 3, y: 7 }, Cell { x: 4, y: 4 }), 0);
    // (1 * 5 + 2 * 3 + 4 * 3) % 8
    assert_eq!(phase(size, Cell { x: 1, y: 2 }, Cell { x: 5, y: 3 }), 7);
    // (7 * 7 + 7 * 7 + 4 * 14) % 8
    assert_eq!(phase(size, Cell { x: 7, y: 7 }, Cell { x: 7, y: 7 }), 2);
    let one = GridSize::new(1).unwrap();
    assert_eq!(phase(one, Cell { x: 0, y: 0 }, Cell { x: 0, y: 0 }), 0);
    for x in 0..8u32 {
        for y in 0..8u32 {
            for sx in 0..8u32 {
                for sy in 0..8u32 {
                    let k = size.wave_index(Cell { x: sx, y: sy });
                    let expected = (x as i32 * k.x + y as i32 * k.y).rem_euclid(8) as u32;
                    assert_eq!(phase(size, Cell { x, y }, Cell { x: sx, y: sy }), expected);
                }
            }
        }
    }
}

#[test]
fn phase_on_the_largest_grid() {
    let size = GridSize::new(0x4000).unwrap();
    let corner = Cell { x: 0x3fff, y: 0x3fff };
    // 2 * 0x3fff * 0x3fff + 0x2000 * 2 * 0x3fff, modulo 0x4000
    assert_eq!(phase(size, corner, corner), 2);
}
