use cauchy256::gf256::{gf_add, gf_div, gf_inv, gf_mul};
use cauchy256::Error;

#[test]
fn add_is_xor() {
    assert_eq!(gf_add(0, 0), 0);
    assert_eq!(gf_add(0x5a, 0xa5), 0xff);
    assert_eq!(gf_add(0x37, 0x37), 0);
}

#[test]
fn mul_by_zero_and_one() {
    for a in 0..=255u8 {
        assert_eq!(gf_mul(a, 0), 0);
        assert_eq!(gf_mul(0, a), 0);
        assert_eq!(gf_mul(a, 1), a);
        assert_eq!(gf_mul(1, a), a);
    }
}

#[test]
fn mul_known_values() {
    // 0x80 * 2 wraps past x^8 and is reduced by 0x11D.
    assert_eq!(gf_mul(2, 0x80), 0x1d);
    assert_eq!(gf_mul(0x80, 2), 0x1d);
    // 2 * 2 = 4, no reduction.
    assert_eq!(gf_mul(2, 2), 4);
    assert_eq!(gf_mul(0x53, 0xca), {
        // Independent shift-and-add computation of the same product.
        let mut acc: u16 = 0;
        let mut x: u16 = 0x53;
        let mut y: u16 = 0xca;
        while y != 0 {
            if y & 1 == 1 {
                acc ^= x;
            }
            x <<= 1;
            if x & 0x100 != 0 {
                x ^= 0x11d;
            }
            y >>= 1;
        }
        acc as u8
    });
}

#[test]
fn mul_commutes_on_samples() {
    let samples = [1u8, 2, 3, 0x1d, 0x53, 0x80, 0xca, 0xff];
    for &a in samples.iter() {
        for &b in samples.iter() {
            assert_eq!(gf_mul(a, b), gf_mul(b, a));
        }
    }
}

#[test]
fn every_nonzero_element_has_an_inverse() {
    for a in 1..=255u8 {
        let inv = gf_inv(a).unwrap();
        assert_ne!(inv, 0);
        assert_eq!(gf_mul(a, inv), 1);
    }
}

#[test]
fn inverse_of_zero_fails() {
    assert_eq!(gf_inv(0), Err(Error::DivideByZero));
}

#[test]
fn division_by_zero_fails() {
    assert_eq!(gf_div(7, 0), Err(Error::DivideByZero));
    assert_eq!(gf_div(0, 0), Err(Error::DivideByZero));
}

#[test]
fn division_inverts_multiplication() {
    let samples = [1u8, 2, 5, 0x1d, 0x53, 0x80, 0xca, 0xff];
    for &a in samples.iter() {
        for &b in samples.iter() {
            let q = gf_div(a, b).unwrap();
            assert_eq!(gf_mul(q, b), a);
        }
    }
    assert_eq!(gf_div(0, 9).unwrap(), 0);
    for &a in samples.iter() {
        assert_eq!(gf_div(a, a).unwrap(), 1);
        assert_eq!(gf_div(a, 1).unwrap(), a);
    }
}
