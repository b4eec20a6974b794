use vivaldi::vector::{Dimension2, Magnitude, Vector};

#[test]
fn dimension_2_add() {
    let a = Dimension2([1_000_000_000, 2_000_000_000]);
    let b = Dimension2([100_000_000, 200_000_000]);

    assert_eq!(a.add(b), Dimension2([1_100_000_000, 2_200_000_000]));
}

#[test]
fn dimension_2_add_f64_constant() {
    assert_eq!(
        Dimension2([1_000_000_000, 2_000_000_000]).add_scalar(42_000_000_000),
        Dimension2([43_000_000_000, 44_000_000_000])
    );
}

#[test]
fn dimension_2_sub() {
    let a = Dimension2([1_100_000_000, 2_200_000_000]);
    let b = Dimension2([100_000_000, 200_000_000]);

    assert_eq!(a.sub(b), Dimension2([1_000_000_000, 2_000_000_000]));
}

#[test]
fn dimension_2_mul_f64_constant() {
    let a = Dimension2([1_000_000_000, 2_000_000_000]);

    assert_eq!(
        a.mul(2_000_000_000),
        Dimension2([2_000_000_000, 4_000_000_000])
    );
}

#[test]
fn dimension_2_div_f64_constant() {
    assert_eq!(
        Dimension2([1_000_000_000, 2_000_000_000]).div(2_000_000_000),
        Dimension2([500_000_000, 1_000_000_000])
    );
}

#[test]
fn dimension_2_magnitude() {
    assert_eq!(Dimension2([0, 0]).magnitude(), Magnitude(0));

    // Non-zero magnitude
    assert_eq!(
        Dimension2([1_000_000_000, 2_000_000_000]).magnitude(),
        Magnitude(2_236_067_977)
    );

    // Direction plays no part
    assert_eq!(
        Dimension2([-1_000_000_000, -2_000_000_000]).magnitude(),
        Magnitude(2_236_067_977)
    );
}
