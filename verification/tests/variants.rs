use ingredient::shape::ProcessedShape;
use ingredient::shape::RawShape;

const O: bool = true;
const X: bool = false;

fn aligned(shape: ProcessedShape) -> [[bool; 3]; 3] {
    let raw: RawShape = shape.into();
    raw.into()
}

#[test]
fn empty_grid_has_one_degenerate_variant() {
    let variants = RawShape::from([[X; 3]; 3]).available_shapes();
    assert_eq!(variants.len(), 1);
    assert_eq!(variants[0].size(), (0, 0));
    assert_eq!(aligned(variants[0]), [[X; 3]; 3]);
}

#[test]
fn single_cell_anywhere_has_one_variant() {
    for r in 0..3 {
        for c in 0..3 {
            let mut rows = [[X; 3]; 3];
            rows[r][c] = O;
            let variants = RawShape::from(rows).available_shapes();
            assert_eq!(variants.len(), 1);
            assert_eq!(variants[0].size(), (1, 1));
            assert_eq!(aligned(variants[0]), [[O, X, X], [X, X, X], [X, X, X]]);
        }
    }
}

#[test]
fn asymmetric_shape_has_four_variants_in_turning_order() {
    let variants = RawShape::from([[O, X, X], [O, O, X], [X, X, X]]).available_shapes();
    assert_eq!(variants.len(), 4);
    assert_eq!(aligned(variants[0]), [[O, X, X], [O, O, X], [X, X, X]]);
    assert_eq!(aligned(variants[1]), [[O, O, X], [O, X, X], [X, X, X]]);
    assert_eq!(aligned(variants[2]), [[O, O, X], [X, O, X], [X, X, X]]);
    assert_eq!(aligned(variants[3]), [[X, O, X], [O, O, X], [X, X, X]]);
    for v in variants.iter() {
        assert_eq!(v.size(), (2, 2));
    }
}

#[test]
fn half_turn_symmetric_shape_has_two_variants() {
    let variants = RawShape::from([[O, O, X], [X, X, X], [X, X, X]]).available_shapes();
    assert_eq!(variants.len(), 2);
    assert_eq!(variants[0].size(), (2, 1));
    assert_eq!(aligned(variants[0]), [[O, O, X], [X, X, X], [X, X, X]]);
    assert_eq!(variants[1].size(), (1, 2));
    assert_eq!(aligned(variants[1]), [[O, X, X], [O, X, X], [X, X, X]]);
}

#[test]
fn skew_shape_has_two_variants() {
    let variants = RawShape::from([[X, O, O], [O, O, X], [X, X, X]]).available_shapes();
    assert_eq!(variants.len(), 2);
    assert_eq!(variants[0].size(), (3, 2));
    assert_eq!(variants[1].size(), (2, 3));
    assert_eq!(aligned(variants[1]), [[O, X, X], [O, O, X], [X, O, X]]);
}

#[test]
fn fully_symmetric_shapes_have_one_variant() {
    let square = RawShape::from([[X, X, X], [X, O, O], [X, O, O]]).available_shapes();
    assert_eq!(square.len(), 1);
    assert_eq!(square[0].size(), (2, 2));
    let plus = RawShape::from([[X, O, X], [O, O, O], [X, O, X]]).available_shapes();
    assert_eq!(plus.len(), 1);
    assert_eq!(plus[0].size(), (3, 3));
    let full = RawShape::from([[O; 3]; 3]).available_shapes();
    assert_eq!(full.len(), 1);
}

#[test]
fn three_cell_bar_has_two_variants() {
    let variants = RawShape::from([[X, X, X], [O, O, O], [X, X, X]]).available_shapes();
    assert_eq!(variants.len(), 2);
    assert_eq!(variants[0].size(), (3, 1));
    assert_eq!(variants[1].size(), (1, 3));
}
