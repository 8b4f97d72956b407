use rv_core::fast_array_sort::{sort_array, sort_with_filter};

#[test]
fn sorts_copies() {
    let v = [5i32, 1, 4, 1, 3];
    let out = sort_array(&v, |a: &i32, b: &i32| if a < b { -1 } else if a > b { 1 } else { 0 });
    assert_eq!(out, vec![1, 1, 3, 4, 5]);
    assert_eq!(v, [5, 1, 4, 1, 3]);
}

#[test]
fn filters_then_sorts() {
    let v = [5u32, 2, 8, 3, 6];
    let out = sort_with_filter(
        &v,
        |x: &u32| x % 2 == 0,
        |a: &u32, b: &u32| if a > b { -1 } else if a < b { 1 } else { 0 },
    );
    assert_eq!(out, vec![8, 6, 2]);
}

#[test]
fn equal_keys_keep_their_order() {
    let v = [(2u8, 'a'), (1, 'b'), (2, 'c'), (1, 'd'), (0, 'e'), (2, 'f')];
    let by_key = |a: &(u8, char), b: &(u8, char)| if a.0 < b.0 { -1 } else if a.0 > b.0 { 1 } else { 0 };
    let out = sort_array(&v, by_key);
    assert_eq!(out, vec![(0, 'e'), (1, 'b'), (1, 'd'), (2, 'a'), (2, 'c'), (2, 'f')]);
    let kept = sort_with_filter(&v, |x: &(u8, char)| x.1 != 'c', by_key);
    assert_eq!(kept, vec![(0, 'e'), (1, 'b'), (1, 'd'), (2, 'a'), (2, 'f')]);
}

#[test]
fn filtered_sort_is_the_sort_of_the_kept_elements() {
    let v = [(3u8, 'a'), (1, 'b'), (3, 'c'), (2, 'd'), (1, 'e'), (0, 'f'), (2, 'g')];
    let by_key = |a: &(u8, char), b: &(u8, char)| if a.0 < b.0 { -1 } else if a.0 > b.0 { 1 } else { 0 };
    let keep = |x: &(u8, char)| x.1 != 'b' && x.1 != 'g';
    let kept: Vec<(u8, char)> = v.iter().filter(|x| keep(x)).cloned().collect();
    assert_eq!(sort_with_filter(&v, keep, by_key), sort_array(&kept, by_key));
    assert_eq!(sort_with_filter(&v, keep, by_key), vec![(0, 'f'), (1, 'e'), (2, 'd'), (3, 'a'), (3, 'c')]);
}
