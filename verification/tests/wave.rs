use ocean_fft::grid::{Cell, GridSize, WaveIndex};

#[test]
fn wave_index_counts_from_the_centre() {
    let size = GridSize::new(8).unwrap();
    assert_eq!(size.wave_index(Cell { x: 0, y: 0 }), WaveIndex { x: -4, y: -4 });
    assert_eq!(size.wave_index(Cell { x: 4, y: 4 }), WaveIndex { x: 0, y: 0 });
    assert_eq!(size.wave_index(Cell { x: 7, y: 3 }), WaveIndex { x: 3, y: -1 });
    let one = GridSize::new(1).unwrap();
    assert_eq!(one.wave_index(Cell { x: 0, y: 0 }), WaveIndex { x: 0, y: 0 });
    let large = GridSize::new(0x4000).unwrap();
    assert_eq!(large.wave_index(Cell { x: 0x3fff, y: 0 }), WaveIndex { x: 0x1fff, y: -0x2000 });
}

#[test]
fn partner_stands_for_the_opposite_wave_vector() {
    let size = GridSize::new(8).unwrap();
    assert_eq!(size.partner(Cell { x: 0, y: 0 }), Cell { x: 0, y: 0 });
    assert_eq!(size.partner(Cell { x: 4, y: 4 }), Cell { x: 4, y: 4 });
    assert_eq!(size.partner(Cell { x: 1, y: 0 }), Cell { x: 7, y: 0 });
    assert_eq!(size.partner(Cell { x: 5, y: 2 }), Cell { x: 3, y: 6 });
    for bits in 0..=6u32 {
        let n = 1u32 << bits;
        let size = GridSize::new(n).unwrap();
        for x in 0..n {
            for y in 0..n {
                let cell = Cell { x, y };
                let partner = size.partner(cell);
                assert!(size.contains(partner));
                assert_eq!(size.partner(partner), cell);
                let k = size.wave_index(cell);
                let o = size.wave_index(partner);
                assert_eq!((k.x + o.x).rem_euclid(n as i32), 0);
                assert_eq!((k.y + o.y).rem_euclid(n as i32), 0);
            }
        }
    }
}

#[test]
fn grid_contains_its_cells_only() {
    let size = GridSize::new(4).unwrap();
    assert!(size.contains(Cell { x: 0, y: 0 }));
    assert!(size.contains(Cell { x: 3, y: 3 }));
    assert!(!size.contains(Cell { x: 4, y: 0 }));
    assert!(!size.contains(Cell { x: 0, y: 4 }));
    assert!(!size.contains(Cell { x: u32::MAX, y: u32::MAX }));
}

#[test]
fn partner_phases_cancel() {
    // the power of the root by which the input at a source is turned, with
    // the frequencies counted from the centre
    let n = 16u32;
    let size = GridSize::new(n).unwrap();
    let phase = |cell: Cell, source: Cell| {
        (cell.x * source.x + cell.y * source.y + (n / 2) * (cell.x + cell.y)) % n
    };
    for x in 0..n {
        for y in 0..n {
            for sx in 0..n {
                let source = Cell { x: sx, y: (3 * sx + 1) % n };
                let cell = Cell { x, y };
                assert_eq!((phase(cell, source) + phase(cell, size.partner(source))) % n, 0);
                let k = size.wave_index(source);
                let by_wave = (x as i32 * k.x + y as i32 * k.y).rem_euclid(n as i32);
                assert_eq!(phase(cell, source) as i32, by_wave);
            }
        }
    }
}
