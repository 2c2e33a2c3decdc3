use ingredient::Color;
use ingredient::Ingredient;
use ingredient::ProcessedShape;
use ingredient::RawShape;

const O: bool = true;
const X: bool = false;

#[test]
fn ingredient_keeps_its_colour() {
    let raw = RawShape::from([[O, X, X], [X, X, X], [X, X, X]]);
    assert_eq!(Ingredient::from_raw_shape(Color::Red, raw).color(), Color::Red);
    assert_eq!(Ingredient::from_raw_shape(Color::Purple, raw).color(), Color::Purple);
    assert_ne!(Ingredient::from_raw_shape(Color::Green, raw).color(), Color::Blue);
}

#[test]
fn ingredient_holds_the_variants_of_its_grid() {
    let raw = RawShape::from([[O, X, X], [O, O, X], [X, X, X]]);
    let ingredient = Ingredient::from_raw_shape(Color::Yellow, raw);
    let expected = raw.available_shapes();
    assert_eq!(ingredient.shape().len(), 4);
    assert_eq!(ingredient.shape().len(), expected.len());
    for (held, wanted) in ingredient.shape().iter().zip(expected.iter()) {
        assert!(held == wanted);
    }
}

#[test]
fn ingredient_of_a_symmetric_piece_holds_one_shape() {
    let raw = RawShape::from([[X, X, X], [X, O, X], [X, X, X]]);
    let ingredient = Ingredient::from_raw_shape(Color::Blue, raw);
    assert_eq!(ingredient.shape().len(), 1);
    let only: ProcessedShape = ingredient.shape()[0];
    assert_eq!(only.size(), (1, 1));
}

#[test]
fn ingredient_clone_is_equal_in_colour_and_shapes() {
    let raw = RawShape::from([[O, O, X], [X, X, X], [X, X, X]]);
    let ingredient = Ingredient::from_raw_shape(Color::Green, raw);
    let copy = ingredient.clone();
    assert_eq!(copy.color(), Color::Green);
    assert_eq!(copy.shape().len(), 2);
    for (a, b) in copy.shape().iter().zip(ingredient.shape().iter()) {
        assert!(a == b);
    }
}
