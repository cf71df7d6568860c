use antbyte::bitvec::BitVec;
use antbyte::matrix::Matrix;
use antbyte::matrix::ProxyMatrix;
use antbyte::vec2::Vec2;
use antbyte::vec2::Vec2u;

fn create_test_matrix() -> Matrix<i32> {
    Matrix {
        width: 3,
        height: 3,
        values: vec![1, 2, 3, 4, 5, 6, 7, 8, 9],
    }
}

#[test]
fn test_get_row() {
    let m = create_test_matrix();

    let row0 = m.get_row(0).unwrap();
    assert_eq!(row0, vec![&1, &2, &3]);

    let row1 = m.get_row(1).unwrap();
    assert_eq!(row1, vec![&4, &5, &6]);

    let row2 = m.get_row(2).unwrap();
    assert_eq!(row2, vec![&7, &8, &9]);

    assert!(m.get_row(3).is_none());
}

#[test]
fn test_get_col() {
    let m = create_test_matrix();

    let col0 = m.get_col(0).unwrap();
    assert_eq!(col0, vec![&1, &4, &7]);

    let col1 = m.get_col(1).unwrap();
    assert_eq!(col1, vec![&2, &5, &8]);

    let col2 = m.get_col(2).unwrap();
    assert_eq!(col2, vec![&3, &6, &9]);

    assert!(m.get_col(3).is_none());
}

#[test]
fn matrix_cells_and_positions() {
    let mut m: Matrix<u8> = Matrix::filled(3, 2, 0);
    assert_eq!(m.values, vec![0; 6]);
    assert!(m.in_bounds(&Vec2 { x: 2, y: 1 }));
    assert!(!m.in_bounds(&Vec2 { x: 3, y: 0 }));
    assert!(!m.in_bounds(&Vec2 { x: 0, y: -1 }));
    m.set_at(&Vec2 { x: 2, y: 1 }, 9);
    m.set_at(&Vec2 { x: 0, y: 0 }, 9);
    assert_eq!(m.values, vec![9, 0, 0, 0, 0, 9]);
    assert_eq!(m.at(&Vec2 { x: 2, y: 1 }), Some(&9));
    assert_eq!(m.at(&Vec2 { x: 2, y: 2 }), None);
    assert_eq!(m.get_pos(5), Some(Vec2u { x: 2, y: 1 }));
    assert_eq!(m.get_pos(6), None);
    assert_eq!(m.dimensions(), Vec2u { x: 3, y: 2 });
    assert_eq!(m.find_all(9), vec![Vec2u { x: 0, y: 0 }, Vec2u { x: 2, y: 1 }]);
    let d: Matrix<u32> = Matrix::new(2, 2);
    assert_eq!(d.values, vec![0, 0, 0, 0]);
    let w = Matrix::with_values(1, 2, vec![true, false]);
    assert_eq!(w.at(&Vec2 { x: 0, y: 1 }), Some(&false));
}

#[test]
fn vectors_and_steps() {
    assert_eq!(Vec2 { x: 3, y: 4 }.unsign(), Some(Vec2u { x: 3, y: 4 }));
    assert_eq!(Vec2 { x: -1, y: 4 }.unsign(), None);
    assert_eq!(Vec2u { x: 3, y: 4 }.sign(), Vec2 { x: 3, y: 4 });
    assert_eq!(
        Vec2::cardinal(),
        [Vec2 { x: 0, y: -1 }, Vec2 { x: 1, y: 0 }, Vec2 { x: 0, y: 1 }, Vec2 { x: -1, y: 0 }]
    );
    assert_eq!(Vec2::principal(3), Vec2 { x: 1, y: 1 });
    assert_eq!(Vec2::principal(7), Vec2 { x: -1, y: -1 });
    assert_eq!(Vec2 { x: 0, y: -1 }.as_str(), "^");
    assert_eq!(Vec2 { x: 0, y: 0 }.as_str(), "o");
    assert_eq!(Vec2 { x: 1, y: 1 }.as_str(), "*");
    assert_eq!(Vec2 { x: 1, y: 2 }.plus(Vec2 { x: -3, y: 1 }), Vec2 { x: -2, y: 3 });
    assert_eq!(Vec2 { x: 1, y: -2 }.negated(), Vec2 { x: -1, y: 2 });
    assert_eq!(Vec2 { x: 1, y: 2 }.minus(Vec2 { x: -3, y: 1 }), Vec2 { x: 4, y: 1 });
    assert_eq!(Vec2 { x: 1, y: -2 }.times(3), Vec2 { x: 3, y: -6 });
}

#[test]
fn bit_vectors() {
    let a = BitVec(vec![true, false, true]);
    let b = BitVec(vec![true, true, false]);
    assert_eq!(a.and(&b).0, vec![true, false, false]);
    assert_eq!(a.or(&b).0, vec![true, true, true]);
    assert_eq!(a.xor(&b).0, vec![false, true, true]);
    assert_eq!(a.invert().0, vec![false, true, false]);
    assert_eq!(a.sum(), 2);
    assert!(a.or_sum());
    assert!(!a.and_sum());
    assert!(BitVec::repeat(true, 4).and_sum());
    assert!(!BitVec::repeat(false, 4).or_sum());
    assert!(BitVec::new().and_sum());
    assert_eq!(BitVec::new().unary(), None);
    assert_eq!(BitVec(vec![true]).unary(), Some(true));
    assert_eq!(a.unary(), None);
    assert_eq!(a.gated_buffer(true).0, vec![true, false, true]);
    assert_eq!(a.gated_buffer(false).0, vec![false, false, false]);
    assert!(a.same(&a.clone()));
    assert!(!a.same(&b));
}

#[test]
fn proxy_matrix_reads_its_text() {
    let proxy = ProxyMatrix { width: 3, height: 2, string: "#..##.".to_string() };
    let matrix = proxy.convert(|text: String| text.chars().map(|c| c == '#').collect());
    assert_eq!((matrix.width, matrix.height), (3, 2));
    assert_eq!(matrix.values, vec![true, false, false, true, true, false]);
    assert_eq!(matrix.get_row(1).unwrap(), vec![&true, &true, &false]);
}
