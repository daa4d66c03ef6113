use sl_liner::grapheme_iter::GraphemeIter;

fn offsets() -> Vec<usize> {
    vec![0, 1, 2, 3, 9, 10, 11]
}

#[test]
fn test_get() {
    let base: String = String::from("012\u{924}\u{947}345");
    let offsets: Vec<usize> = offsets();
    let gs = GraphemeIter::new(&base, &offsets, 0, 7);
    assert_eq!("5", gs.get(6).unwrap());
    assert_eq!("\u{924}\u{947}", gs.get(3).unwrap());
}

#[test]
fn test_slices() {
    let base: String = String::from("012\u{924}\u{947}345");
    let offsets: Vec<usize> = offsets();
    let true_min_artificial_max = GraphemeIter::new(&base, &offsets, 0, 6);
    assert_eq!("012\u{924}\u{947}34", true_min_artificial_max.slice());

    let true_min_and_max = GraphemeIter::new(&base, &offsets, 0, 7);
    assert_eq!("012\u{924}\u{947}345", true_min_and_max.slice());

    let artificial_min_and_true_max = GraphemeIter::new(&base, &offsets, 2, 7);
    assert_eq!("2\u{924}\u{947}345", artificial_min_and_true_max.slice());

    let artificial_min_and_max = GraphemeIter::new(&base, &offsets, 2, 4);
    assert_eq!("2\u{924}\u{947}", artificial_min_and_max.slice());

    let one_grapheme = GraphemeIter::new(&base, &offsets, 3, 4);
    assert_eq!("\u{924}\u{947}", one_grapheme.slice());

    let no_graphemes = GraphemeIter::new(&base, &offsets, 3, 3);
    assert_eq!("", no_graphemes.slice());
}

#[test]
fn test_iterate() {
    let expected_str: String = String::from("012\u{924}\u{947}345");
    let offsets: Vec<usize> = offsets();
    let mut gs = GraphemeIter::new(&expected_str, &offsets, 0, 7);
    let gs2 = GraphemeIter::new(&expected_str, &offsets, 0, 7);
    let mut actual_str = String::with_capacity(12);
    while let Some(f) = gs.next() {
        actual_str.push_str(f);
    }
    assert_eq!(expected_str, actual_str);
    assert_eq!(expected_str, gs2.slice());
}

#[test]
fn test_iterate_forward_slice() {
    let base: String = String::from("012\u{924}\u{947}345");
    let expected_str = String::from("\u{924}\u{947}34");
    let offsets: Vec<usize> = offsets();
    let mut gs = GraphemeIter::new(&base, &offsets, 3, 6);
    let gs2 = GraphemeIter::new(&base, &offsets, 3, 6);
    let mut actual_str = String::with_capacity(8);
    while let Some(f) = gs.next() {
        actual_str.push_str(f);
    }
    assert_eq!(expected_str, actual_str);
    assert_eq!(expected_str, gs2.slice());
}

#[test]
fn test_iterate_back() {
    let expected_str: String = String::from("012\u{924}\u{947}345");
    let expected_rev_str = String::from("543\u{924}\u{947}210");
    let offsets: Vec<usize> = offsets();
    let mut gs = GraphemeIter::new(&expected_str, &offsets, 0, 7);
    let gs2 = GraphemeIter::new(&expected_str, &offsets, 0, 7);
    let mut actual_rev_str = String::with_capacity(12);
    while let Some(x) = gs.next_back() {
        actual_rev_str.push_str(x);
    }
    assert_eq!(expected_rev_str, actual_rev_str);
    assert_eq!(expected_str, gs2.slice());
}

#[test]
fn test_iterate_backwards_slice() {
    let expected_str: String = String::from("012\u{924}\u{947}345");
    let expected_rev_str = String::from("43\u{924}\u{947}");
    let expected_slice_str = String::from("\u{924}\u{947}34");
    let offsets: Vec<usize> = offsets();
    let mut gs = GraphemeIter::new(&expected_str, &offsets, 3, 6);
    let gs2 = GraphemeIter::new(&expected_str, &offsets, 3, 6);
    let mut actual_rev_str = String::with_capacity(8);
    while let Some(x) = gs.next_back() {
        actual_rev_str.push_str(x);
    }
    assert_eq!(expected_rev_str, actual_rev_str);
    assert_eq!(expected_slice_str, gs2.slice());
}

#[test]
fn test_special_case_back_iter() {
    let expected_str: String = String::from("012\u{924}\u{947}345");
    let offsets: Vec<usize> = offsets();

    let mut iter = GraphemeIter::new(&expected_str, &offsets, 6, 7);
    let init_len = iter.len();
    assert_eq!(1, init_len);

    let str = iter.next_back();
    assert_eq!("5", str.unwrap());
    let len = iter.len();
    assert_eq!(0, len);

    let mut iter = GraphemeIter::new(&expected_str, &offsets, 0, 1);
    let init_len = iter.len();
    assert_eq!(1, init_len);

    let str = iter.next_back();
    assert_eq!("0", str.unwrap());
    let len = iter.len();
    assert_eq!(0, len);
}

#[test]
fn test_special_case_forward_iter() {
    let expected_str: String = String::from("012\u{924}\u{947}345");
    let offsets: Vec<usize> = offsets();

    let mut iter = GraphemeIter::new(&expected_str, &offsets, 6, 7);
    let init_len = iter.len();
    assert_eq!(1, init_len);

    let str = iter.next();
    assert_eq!("5", str.unwrap());
    let len = iter.len();
    assert_eq!(0, len);

    let mut iter = GraphemeIter::new(&expected_str, &offsets, 0, 1);
    let init_len = iter.len();
    assert_eq!(1, init_len);

    let str = iter.next();
    assert_eq!("0", str.unwrap());
    let len = iter.len();
    assert_eq!(0, len);
}

#[test]
fn test_exact_size_iter() {
    let expected_str: String = String::from("012\u{924}\u{947}345");
    let offsets: Vec<usize> = offsets();
    let mut iter = GraphemeIter::new(&expected_str, &offsets, 3, 6);
    let init_len = iter.len();
    assert_eq!(3, init_len);

    let str = iter.next_back();
    assert_eq!("4", str.unwrap());
    let len = iter.len();
    assert_eq!(2, len);

    let str = iter.next();
    assert_eq!("\u{924}\u{947}", str.unwrap());
    let len = iter.len();
    assert_eq!(1, len);

    let str = iter.next_back();
    assert_eq!("3", str.unwrap());
    let len = iter.len();
    assert_eq!(0, len);
}

#[test]
fn test_read_fill_large_buf() {
    let str: String = String::from("012\u{924}\u{947}345");
    let offsets: Vec<usize> = offsets();
    let mut gs = GraphemeIter::new(&str, &offsets, 3, 6);

    let mut buffer = [0; 15];

    let n = gs.read(&mut buffer[..]);
    assert_eq!(n, 15);
    assert_eq!(
        String::from("012\u{924}\u{947}345\u{0}\u{0}\u{0}"),
        std::str::from_utf8(&buffer).unwrap()
    );
}

#[test]
fn test_read_fill_small_buf() {
    let str: String = String::from("012\u{924}\u{947}345");
    let offsets: Vec<usize> = offsets();
    let mut gs = GraphemeIter::new(&str, &offsets, 3, 6);

    let mut buffer = [0; 6];

    let n = gs.read(&mut buffer[..]);
    assert_eq!(n, 6);
    assert_eq!("012\u{924}", std::str::from_utf8(&buffer).unwrap());
}

#[test]
fn test_read_fill_buf() {
    let str: String = String::from("012\u{924}\u{947}345");
    let offsets: Vec<usize> = offsets();
    let mut gs = GraphemeIter::new(&str, &offsets, 3, 6);

    let mut buffer = [0; 10];

    let n = gs.read(&mut buffer[..]);
    assert_eq!(n, 10);
    assert_eq!("012\u{924}\u{947}3", std::str::from_utf8(&buffer).unwrap());
}
