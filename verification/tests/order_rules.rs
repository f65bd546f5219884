use imgren::order::sorted_order;

fn names(v: &[&str]) -> Vec<String> {
    v.iter().map(|s| s.to_string()).collect()
}

#[test]
fn sorts_by_name() {
    assert_eq!(sorted_order(&names(&["b.jpg", "a.jpg", "c.jpg"])), vec![1, 0, 2]);
    assert_eq!(sorted_order(&names(&[])), Vec::<usize>::new());
}

#[test]
fn sorts_by_code_point_like_bytes() {
    let v = names(&["a", "B", "aa", "照片", "Z", "_"]);
    let order = sorted_order(&v);
    let sorted: Vec<&String> = order.iter().map(|&i| &v[i]).collect();
    let mut expected: Vec<&String> = v.iter().collect();
    expected.sort_by(|a, b| a.as_bytes().cmp(b.as_bytes()));
    assert_eq!(sorted, expected);
}

#[test]
fn equal_names_keep_listing_order() {
    assert_eq!(sorted_order(&names(&["x", "a", "x", "a"])), vec![1, 3, 0, 2]);
}

#[test]
fn prefix_comes_first() {
    assert_eq!(sorted_order(&names(&["img10.jpg", "img1.jpg", "img1"])), vec![2, 1, 0]);
}
