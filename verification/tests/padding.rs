use terp::points::pad;

#[test]
fn padding() {
    assert_eq!(
        pad(&vec![1, 1, 1, 2, 2, 2, 3, 3, 3, 4, 4, 4], 7 * 3),
        vec![1, 1, 1, 1, 1, 1, 2, 2, 2, 2, 2, 2, 3, 3, 3, 3, 3, 3, 4, 4, 4,]
    );
    assert_eq!(
        pad(&vec![1, 1, 1, 2, 2, 2, 3, 3, 3, 4, 4, 4], 14 * 3),
        vec![
            1, 1, 1, 1, 1, 1, 1, 1, 1, 1, 1, 1, 2, 2, 2, 2, 2, 2, 2, 2, 2, 3, 3, 3, 3, 3, 3, 3, 3,
            3, 3, 3, 3, 4, 4, 4, 4, 4, 4, 4, 4, 4
        ]
    );
}

#[test]
fn test_padding() {
    assert_eq!(
        pad(&vec![1, 1, 1, 2, 2, 2, 3, 3, 3, 4, 4, 4], 7 * 3),
        vec![1, 1, 1, 1, 1, 1, 2, 2, 2, 2, 2, 2, 3, 3, 3, 3, 3, 3, 4, 4, 4,]
    );
    assert_eq!(
        pad(&vec![1, 1, 1, 2, 2, 2, 3, 3, 3, 4, 4, 4], 14 * 3),
        vec![
            1, 1, 1, 1, 1, 1, 1, 1, 1, 1, 1, 1, 2, 2, 2, 2, 2, 2, 2, 2, 2, 3, 3, 3, 3, 3, 3, 3, 3,
            3, 3, 3, 3, 4, 4, 4, 4, 4, 4, 4, 4, 4
        ]
    );
}

#[test]
fn padding_length_matches_target() {
    for target in [6usize, 9, 12, 33, 60] {
        let out = pad(&vec![7u32, 7, 7], target);
        assert_eq!(out.len(), target);
    }
}

#[test]
fn padding_is_deterministic() {
    let input = vec![9i64, 9, 9, 8, 8, 8, 7, 7, 7];
    let first = pad(&input, 15);
    let second = pad(&input, 15);
    assert_eq!(first, second);
}

#[test]
fn padding_repeats_only_input_slots() {
    let out = pad(&vec![10u8, 11, 12, 20, 21, 22], 12);
    assert_eq!(out, vec![10, 11, 12, 10, 11, 12, 20, 21, 22, 20, 21, 22]);
}
