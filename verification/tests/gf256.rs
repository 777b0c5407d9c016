//! Tests of the GF(2^8) field arithmetic.

#[test]
fn add_works() {
    assert_eq!(122, ssss::gf256::add(100, 30));
}

#[test]
fn sub_works() {
    assert_eq!(122, ssss::gf256::sub(100, 30));
}

#[test]
fn mul_works() {
    assert_eq!(167, ssss::gf256::mul(133, 5));
    assert_eq!(254, ssss::gf256::mul(90, 21));
    assert_eq!(0, ssss::gf256::mul(0, 21));
    assert_eq!(0x36, ssss::gf256::mul(0xb6, 0x53));
}

#[test]
fn div_works() {
    assert_eq!(189, ssss::gf256::div(90, 21));
    assert_eq!(151, ssss::gf256::div(6, 55));
    assert_eq!(138, ssss::gf256::div(22, 192));
    assert_eq!(0, ssss::gf256::div(0, 192));
}

#[test]
fn mul_is_commutative() {
    for i in 0..255 {
        for j in 0..255 {
            assert_eq!(ssss::gf256::mul(i, j), ssss::gf256::mul(j, i));
        }
    }
}

#[test]
fn add_is_commutative() {
    for i in 0..255 {
        for j in 0..255 {
            assert_eq!(ssss::gf256::add(i, j), ssss::gf256::add(j, i));
        }
    }
}

#[test]
fn sub_is_inverse_of_add() {
    for i in 0..255 {
        for j in 0..255 {
            assert_eq!(ssss::gf256::sub(ssss::gf256::add(i, j), j), i);
        }
    }
}

#[test]
fn div_is_inverse_of_mul() {
    for i in 0..255 {
        for j in 1..255 {
            assert_eq!(ssss::gf256::div(ssss::gf256::mul(i, j), j), i);
        }
    }
}

#[test]
fn mul_is_inverse_of_div() {
    for i in 0..255 {
        for j in 1..255 {
            assert_eq!(ssss::gf256::mul(ssss::gf256::div(i, j), j), i);
        }
    }
}

#[test]
fn degree_works() {
    assert_eq!(ssss::gf256::degree(&vec![1, 2]), 1);
    assert_eq!(ssss::gf256::degree(&vec![1, 2, 0]), 1);
    assert_eq!(ssss::gf256::degree(&vec![1, 2, 3]), 2);
    assert_eq!(ssss::gf256::degree(&vec![4]), 0);
}

#[test]
fn eval_works() {
    assert_eq!(ssss::gf256::eval(&vec![1, 0, 2, 3], 2), 17);
}

#[test]
fn generate_works() {
    let p = ssss::gf256::generate_coeffs(5, 20);
    assert_eq!(p[0], 20);
    assert!(p[p.len() - 1] != 0);
}

#[test]
fn interpolate_works() {
    assert_eq!(
        ssss::gf256::interpolate(vec![vec![1, 1], vec![2, 2], vec![3, 3]]),
        0
    );
    assert_eq!(
        ssss::gf256::interpolate(vec![vec![1, 80], vec![2, 90], vec![3, 20]]),
        30
    );
    assert_eq!(
        ssss::gf256::interpolate(vec![vec![1, 43], vec![2, 22], vec![3, 86]]),
        107
    );
}
