use dheap::render::push_decimal;
use dheap::Dheap;

#[test]
fn render_binary_heap_by_levels() {
    let heap = Dheap::new(2, vec![9, 5, 8, 1, 3, 4]);
    assert_eq!(heap.nodes, vec![9, 5, 8, 1, 3, 4]);
    assert_eq!(heap.render(), "(9) (5,8) (1,3,4)");
}

#[test]
fn render_ternary_heap_by_levels() {
    let heap = Dheap::new(3, vec![9, 5, 8, 1, 2]);
    assert_eq!(heap.render(), "(9) (5,8,1) (2)");
}

#[test]
fn render_full_levels() {
    let heap = Dheap::new(2, vec![7, 6, 5, 4, 3, 2, 1]);
    assert_eq!(heap.render(), "(7) (6,5) (4,3,2,1)");
}

#[test]
fn render_empty_and_single() {
    assert_eq!(Dheap::new(2, Vec::new()).render(), "");
    assert_eq!(Dheap::new(2, vec![0]).render(), "(0)");
}

#[test]
fn render_negative_and_extreme_keys() {
    let heap = Dheap::new(2, vec![i32::MAX, -5, i32::MIN]);
    assert_eq!(heap.render(), "(2147483647) (-5,-2147483648)");
}

#[test]
fn push_decimal_appends_the_numeral() {
    let mut out = String::from("x");
    push_decimal(&mut out, 0);
    push_decimal(&mut out, -10);
    push_decimal(&mut out, 907);
    assert_eq!(out, "x0-10907");
    for x in [0, 1, -1, 9, 10, 99, 100, 12345, -12345, i32::MAX, i32::MIN] {
        let mut text = String::new();
        push_decimal(&mut text, x);
        assert_eq!(text, format!("{}", x));
    }
}

#[test]
fn height_counts_levels_below_the_root() {
    assert_eq!(Dheap::new(2, Vec::new()).height(), None);
    assert_eq!(Dheap::new(2, vec![1]).height(), Some(0));
    assert_eq!(Dheap::new(2, vec![1, 2]).height(), Some(1));
    assert_eq!(Dheap::new(2, vec![1, 2, 3]).height(), Some(1));
    assert_eq!(Dheap::new(2, vec![1, 2, 3, 4, 5, 6]).height(), Some(2));
    assert_eq!(Dheap::new(2, vec![1, 2, 3, 4, 5, 6, 7]).height(), Some(2));
    assert_eq!(Dheap::new(2, vec![1, 2, 3, 4, 5, 6, 7, 8]).height(), Some(3));
    assert_eq!(Dheap::new(3, vec![1, 2, 3, 4]).height(), Some(1));
    assert_eq!(Dheap::new(3, vec![1, 2, 3, 4, 5]).height(), Some(2));
}
