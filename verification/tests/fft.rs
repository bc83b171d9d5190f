use ocean_fft::fft::{inversion_sign, Direction, Fft, Pass, PassInput, PassKind, Tap, Target};
use ocean_fft::grid::{Cell, GridSize};

fn fft(n: u32) -> Fft {
    Fft::new(GridSize::new(n).unwrap())
}

fn butterfly(direction: Direction, stage: u32, input: PassInput, output: Target) -> Pass {
    Pass { kind: PassKind::Butterfly { direction, stage }, input, output }
}

#[test]
fn passes_of_a_grid_of_four() {
    let expected = vec![
        butterfly(Direction::Horizontal, 0, PassInput::Spectrum, Target::Output),
        butterfly(Direction::Horizontal, 1, PassInput::Buffer(Target::Output), Target::PingPong),
        butterfly(Direction::Vertical, 0, PassInput::Buffer(Target::PingPong), Target::Output),
        butterfly(Direction::Vertical, 1, PassInput::Buffer(Target::Output), Target::PingPong),
        Pass {
            kind: PassKind::Inversion,
            input: PassInput::Buffer(Target::PingPong),
            output: Target::Output,
        },
    ];
    assert_eq!(fft(4).render(), expected);
}

#[test]
fn passes_of_a_grid_of_two() {
    let expected = vec![
        butterfly(Direction::Horizontal, 0, PassInput::Spectrum, Target::Output),
        butterfly(Direction::Vertical, 0, PassInput::Buffer(Target::Output), Target::PingPong),
        Pass {
            kind: PassKind::Inversion,
            input: PassInput::Buffer(Target::PingPong),
            output: Target::Output,
        },
    ];
    assert_eq!(fft(2).render(), expected);
}

#[test]
fn passes_of_a_single_cell() {
    let expected = vec![Pass {
        kind: PassKind::Inversion,
        input: PassInput::Spectrum,
        output: Target::Output,
    }];
    assert_eq!(fft(1).render(), expected);
}

#[test]
fn passes_count_two_per_stage_and_one() {
    for bits in 0..=10u32 {
        assert_eq!(fft(1 << bits).render().len(), 2 * bits as usize + 1);
    }
    assert_eq!(fft(256).render().len(), 17);
}

#[test]
fn passes_never_read_the_buffer_they_write() {
    for bits in 0..=10u32 {
        for pass in fft(1 << bits).render() {
            assert_ne!(pass.input, PassInput::Buffer(pass.output));
        }
    }
}

#[test]
fn passes_read_what_the_pass_before_wrote() {
    for bits in 0..=10u32 {
        let passes = fft(1 << bits).render();
        assert_eq!(passes[0].input, PassInput::Spectrum);
        for i in 1..passes.len() {
            assert_eq!(passes[i].input, PassInput::Buffer(passes[i - 1].output));
        }
    }
}

#[test]
fn passes_end_with_the_inversion_into_the_output() {
    for bits in 0..=10u32 {
        let passes = fft(1 << bits).render();
        let last = passes[passes.len() - 1];
        assert_eq!(last.kind, PassKind::Inversion);
        assert_eq!(last.output, Target::Output);
        for pass in &passes[..passes.len() - 1] {
            assert_ne!(pass.kind, PassKind::Inversion);
        }
    }
}

#[test]
fn passes_run_the_horizontal_stages_first() {
    let bits = 8u32;
    let passes = fft(1 << bits).render();
    for stage in 0..bits {
        assert_eq!(
            passes[stage as usize].kind,
            PassKind::Butterfly { direction: Direction::Horizontal, stage }
        );
        assert_eq!(
            passes[(bits + stage) as usize].kind,
            PassKind::Butterfly { direction: Direction::Vertical, stage }
        );
    }
}

#[test]
fn passes_are_the_same_every_time() {
    let f = fft(64);
    assert_eq!(f.render(), f.render());
}

#[test]
fn butterfly_reads_along_its_axis() {
    let f = fft(8);
    let cell = Cell { x: 5, y: 2 };
    // the table's cell for row 5 at stage 1 is exponent 2, positions 5 and 7
    assert_eq!(
        f.butterfly(Direction::Horizontal, 1, cell),
        Tap { a: Cell { x: 5, y: 2 }, b: Cell { x: 7, y: 2 }, exponent: 2 }
    );
    // the table's cell for row 2 at stage 1 is exponent 4, positions 0 and 2
    assert_eq!(
        f.butterfly(Direction::Vertical, 1, cell),
        Tap { a: Cell { x: 5, y: 0 }, b: Cell { x: 5, y: 2 }, exponent: 4 }
    );
    // stage 0 reads in bit-reversed order: rows 4 and 5 read positions 1 and 5
    assert_eq!(
        f.butterfly(Direction::Horizontal, 0, cell),
        Tap { a: Cell { x: 1, y: 2 }, b: Cell { x: 5, y: 2 }, exponent: 4 }
    );
    assert_eq!(
        f.butterfly(Direction::Vertical, 0, cell),
        Tap { a: Cell { x: 5, y: 2 }, b: Cell { x: 5, y: 6 }, exponent: 0 }
    );
}

#[test]
fn butterfly_follows_the_table() {
    let n = 32u32;
    let f = fft(n);
    let table = f.table();
    for stage in 0..5u32 {
        for x in 0..n {
            for y in 0..n {
                let cell = Cell { x, y };
                let h = f.butterfly(Direction::Horizontal, stage, cell);
                let e = table.entry(stage, x);
                assert_eq!(h.a, Cell { x: e.index_a, y });
                assert_eq!(h.b, Cell { x: e.index_b, y });
                assert_eq!(h.exponent, e.exponent);
                let v = f.butterfly(Direction::Vertical, stage, cell);
                let e = table.entry(stage, y);
                assert_eq!(v.a, Cell { x, y: e.index_a });
                assert_eq!(v.b, Cell { x, y: e.index_b });
                assert_eq!(v.exponent, e.exponent);
            }
        }
    }
}

#[test]
fn inversion_sign_is_a_checkerboard() {
    assert_eq!(inversion_sign(Cell { x: 0, y: 0 }), 1);
    assert_eq!(inversion_sign(Cell { x: 1, y: 0 }), -1);
    assert_eq!(inversion_sign(Cell { x: 0, y: 1 }), -1);
    assert_eq!(inversion_sign(Cell { x: 1, y: 1 }), 1);
    assert_eq!(inversion_sign(Cell { x: 255, y: 254 }), -1);
    assert_eq!(inversion_sign(Cell { x: u32::MAX, y: u32::MAX }), 1);
    assert_eq!(inversion_sign(Cell { x: u32::MAX, y: 0 }), -1);
    for x in 0..16u32 {
        for y in 0..16u32 {
            let expected = if (x + y) % 2 == 0 { 1 } else { -1 };
            assert_eq!(inversion_sign(Cell { x, y }), expected);
        }
    }
}
