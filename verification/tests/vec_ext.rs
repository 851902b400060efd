use comfy_core::vec_ext::VecExtensions;

#[test]
fn test_vec_flip_h() {
    assert_eq!(vec![0, 0, 1, 1].flip(2), vec![1, 1, 0, 0]);
    assert_eq!(vec![0, 0, 0, 1, 1, 2].flip(3), vec![1, 1, 2, 0, 0, 0]);
    assert_eq!(vec![0, 0, 0, 1, 1, 2].flip(2), vec![1, 2, 0, 1, 0, 0]);

    assert_eq!(vec![0, 0, 0, 1, 1, 2, 3, 3].flip(2), vec![
        3, 3, 1, 2, 0, 1, 0, 0
    ]);
    assert_eq!(vec![0, 0, 0, 1, 1, 2, 3, 3].flip(4), vec![
        1, 2, 3, 3, 0, 0, 0, 1
    ]);
}

#[test]
fn flip_twice_restores() {
    let original = vec![1, 2, 3, 4, 5, 6, 7, 8, 9];
    let mut v = original.clone();
    v.flip_inplace(3);
    assert_eq!(v, vec![7, 8, 9, 4, 5, 6, 1, 2, 3]);
    v.flip_inplace(3);
    assert_eq!(v, original);
}

#[test]
fn flip_single_row_and_empty() {
    assert_eq!(vec![1, 2, 3].flip(3), vec![1, 2, 3]);
    let empty: Vec<u8> = vec![];
    assert_eq!(empty.flip(4), Vec::<u8>::new());
}

