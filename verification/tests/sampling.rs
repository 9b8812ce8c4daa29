use gpt2_rs::sampling::{argmax, gt_bits};

fn bits(xs: &[f32]) -> Vec<u32> {
    xs.iter().map(|x| x.to_bits()).collect()
}

#[test]
fn argmax_picks_the_largest() {
    assert_eq!(argmax(&bits(&[0.5, 3.25, -1.0, 2.0])), 1);
    assert_eq!(argmax(&bits(&[-7.0, -2.5, -3.0])), 1);
    assert_eq!(argmax(&bits(&[4.0])), 0);
}

#[test]
fn argmax_keeps_the_first_of_equals() {
    assert_eq!(argmax(&bits(&[1.0, 9.0, 9.0, 2.0])), 1);
    assert_eq!(argmax(&bits(&[0.0, -0.0])), 0);
    assert_eq!(argmax(&bits(&[-0.0, 0.0])), 0);
}

#[test]
fn argmax_handles_infinities() {
    assert_eq!(argmax(&bits(&[f32::MAX, f32::INFINITY, 1.0])), 1);
    assert_eq!(argmax(&bits(&[f32::NEG_INFINITY, f32::MIN])), 1);
}

#[test]
fn argmax_with_nans_behaves_like_the_scan() {
    // A NaN in front is never exceeded.
    assert_eq!(argmax(&bits(&[f32::NAN, 5.0, 7.0])), 0);
    // Later NaNs never exceed anything.
    assert_eq!(argmax(&bits(&[1.0, f32::NAN, 0.5])), 0);
    assert_eq!(argmax(&bits(&[1.0, f32::NAN, 3.0])), 2);
}

#[test]
fn gt_bits_agrees_with_f32_comparison() {
    let values = [
        0.0f32,
        -0.0,
        1.0,
        -1.0,
        0.5,
        -2.75,
        1e-40,
        -1e-40,
        f32::MAX,
        f32::MIN,
        f32::INFINITY,
        f32::NEG_INFINITY,
        f32::NAN,
    ];
    for a in values.iter() {
        for b in values.iter() {
            assert_eq!(gt_bits(a.to_bits(), b.to_bits()), a > b, "{} > {}", a, b);
        }
    }
}
