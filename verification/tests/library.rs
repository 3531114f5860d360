use stencil::{
    escape, rastal_staff_height, svg_document, svg_group, svg_path_element, svg_text_element,
    svg_transformed, time_sig_digits, CombineStencil, Stencil,
};

type S = Stencil<u32, String, i32>;

fn leaf(n: u32) -> S {
    Stencil::Path(n)
}

/// The leaf numbers of the members of a group, in drawing order.
fn members(s: &S) -> Vec<u32> {
    match s {
        Stencil::Combine(CombineStencil(parts)) => parts
            .iter()
            .map(|p| match p {
                Stencil::Path(n) => *n,
                _ => panic!("expected a leaf member"),
            })
            .collect(),
        _ => panic!("expected a group"),
    }
}

#[test]
fn escape_replaces_markup_characters() {
    assert_eq!(
        escape("a<b>&'\"c").as_str(),
        "a&lt;b&gt;&amp;&#39;&quot;c"
    );
}

#[test]
fn escape_keeps_plain_and_non_ascii_text() {
    assert_eq!(escape("Allegro ma non troppo").as_str(), "Allegro ma non troppo");
    assert_eq!(escape("Tempo é <lento>").as_str(), "Tempo é &lt;lento&gt;");
    assert_eq!(escape("").as_str(), "");
}

#[test]
fn escape_of_concatenation_is_concatenation_of_escapes() {
    let a = "x<y";
    let b = "&z\"";
    let whole = format!("{}{}", a, b);
    assert_eq!(escape(&whole), format!("{}{}", escape(a), escape(b)));
}

#[test]
fn escaped_text_has_no_raw_markup() {
    let out = escape("<<'\">>&&");
    assert!(!out.contains('<'));
    assert!(!out.contains('>'));
    assert!(!out.contains('\''));
    assert!(!out.contains('"'));
}

#[test]
fn time_sig_digits_most_significant_first() {
    assert_eq!(time_sig_digits(0), Vec::<u8>::new());
    assert_eq!(time_sig_digits(4), vec![4]);
    assert_eq!(time_sig_digits(12), vec![1, 2]);
    assert_eq!(time_sig_digits(16), vec![1, 6]);
    assert_eq!(time_sig_digits(100), vec![1, 0, 0]);
    assert_eq!(time_sig_digits(255), vec![2, 5, 5]);
}

#[test]
fn time_sig_digits_write_the_number_back() {
    for n in 0..=255u8 {
        let digits = time_sig_digits(n);
        assert!(digits.len() <= 3);
        let value = digits.iter().fold(0u32, |acc, d| acc * 10 + *d as u32);
        assert_eq!(value, n as u32);
        assert!(digits.iter().all(|d| *d < 10));
        if let Some(first) = digits.first() {
            assert_ne!(*first, 0);
        }
    }
}

#[test]
fn rastal_heights_follow_behind_bars() {
    let heights: Vec<u8> = (0..=8u8).map(rastal_staff_height).collect();
    assert_eq!(heights, vec![92, 79, 74, 70, 65, 60, 55, 48, 37]);
}

#[test]
fn rastal_larger_number_is_smaller_staff() {
    for small in 0..=8u8 {
        for large in (small + 1)..=8u8 {
            assert!(rastal_staff_height(small) > rastal_staff_height(large));
        }
    }
}

#[test]
fn and_of_two_leaves_is_a_pair() {
    assert_eq!(members(&leaf(1).and(leaf(2))), vec![1, 2]);
}

#[test]
fn and_of_two_groups_appends() {
    let a = S::combine(vec![leaf(1), leaf(2)]);
    let b = S::combine(vec![leaf(3)]);
    assert_eq!(members(&a.and(b)), vec![1, 2, 3]);
}

#[test]
fn and_of_group_and_leaf_pushes_the_leaf() {
    let a = S::combine(vec![leaf(1), leaf(2)]);
    assert_eq!(members(&a.and(leaf(3))), vec![1, 2, 3]);
}

#[test]
fn and_of_leaf_and_group_draws_the_leaf_last() {
    let b = S::combine(vec![leaf(2), leaf(3)]);
    assert_eq!(members(&leaf(1).and(b)), vec![2, 3, 1]);
}

#[test]
fn and_keeps_a_transformed_stencil_whole() {
    let moved: S = Stencil::TranslateScale(7, true, Box::new(leaf(1)));
    match moved.and(leaf(2)) {
        Stencil::Combine(CombineStencil(parts)) => {
            assert_eq!(parts.len(), 2);
            assert!(matches!(parts[0], Stencil::TranslateScale(7, true, _)));
            assert!(matches!(parts[1], Stencil::Path(2)));
        }
        _ => panic!("expected a group"),
    }
}

#[test]
fn empty_stencil_is_neutral_for_and() {
    assert_eq!(members(&S::default()), Vec::<u32>::new());
    assert_eq!(members(&S::default().and(leaf(5))), vec![5]);
    assert_eq!(members(&leaf(5).and(S::default())), vec![5]);
    let g = S::combine(vec![leaf(1), leaf(2)]);
    assert_eq!(members(&S::default().and(g)), vec![1, 2]);
    let g = S::combine(vec![leaf(1), leaf(2)]);
    assert_eq!(members(&g.and(S::default())), vec![1, 2]);
}

#[test]
fn and_is_associative_up_to_order() {
    let left = leaf(1).and(leaf(2)).and(leaf(3));
    let right = leaf(1).and(leaf(2).and(leaf(3)));
    let mut l = members(&left);
    let mut r = members(&right);
    assert_eq!(l, vec![1, 2, 3]);
    assert_eq!(r, vec![2, 3, 1]);
    l.sort();
    r.sort();
    assert_eq!(l, r);
}

#[test]
fn svg_path_element_drops_line_breaks() {
    assert_eq!(
        svg_path_element("M0 0\nL1 1\nZ").as_str(),
        "<path d=\"M0 0L1 1Z\" />"
    );
}

#[test]
fn svg_transformed_writes_translate_then_scale() {
    assert_eq!(
        svg_transformed("1", "-2", "3", "-3", "<g></g>").as_str(),
        "<g transform=\"translate(1,-2) scale(3,-3)\"><g></g></g>"
    );
}

#[test]
fn svg_group_wraps_parts_in_order() {
    let parts = vec!["<a/>".to_string(), "<b/>".to_string()];
    assert_eq!(svg_group(&parts).as_str(), "<g><a/><b/></g>");
    assert_eq!(svg_group(&Vec::new()).as_str(), "<g></g>");
}

#[test]
fn svg_text_element_escapes_the_text() {
    assert_eq!(
        svg_text_element("12", "A & B").as_str(),
        "<text style=\"font-size: 12px; font-family: Palatino, 'Palatino Linotype', 'Palatino LT STD', 'Book Antiqua', Georgia, serif; \">A &amp; B</text>"
    );
}

#[test]
fn svg_text_element_drops_line_breaks() {
    let out = svg_text_element("12", "a\nb<\n");
    assert!(!out.contains('\n'));
    assert!(out.ends_with(">ab&lt;</text>"));
}

#[test]
fn svg_elements_are_on_one_line() {
    assert!(!svg_path_element("M0 0\n\nL1 1\n").contains('\n'));
    assert!(!svg_transformed("0", "-1000", "7000", "-7000", "<g></g>").contains('\n'));
    let parts = vec![svg_path_element("M0 0\nZ"), svg_text_element("10", "x\ny")];
    assert!(!svg_group(&parts).contains('\n'));
}

#[test]
fn clone_copies_the_whole_tree() {
    let moved: S = Stencil::TranslateScale(-4, false, Box::new(leaf(9)));
    let tree = S::combine(vec![leaf(1), moved, S::combine(vec![leaf(2)])]);
    let copy = tree.clone();
    match copy {
        Stencil::Combine(CombineStencil(parts)) => {
            assert_eq!(parts.len(), 3);
            assert!(matches!(parts[0], Stencil::Path(1)));
            match &parts[1] {
                Stencil::TranslateScale(-4, false, child) => {
                    assert!(matches!(**child, Stencil::Path(9)))
                }
                _ => panic!("expected a transformed leaf"),
            }
            assert_eq!(members(&parts[2]), vec![2]);
        }
        _ => panic!("expected a group"),
    }
    let group = CombineStencil(vec![leaf(3), leaf(4)]).clone();
    assert_eq!(members(&Stencil::Combine(group)), vec![3, 4]);
}

#[test]
fn svg_document_wraps_body() {
    assert_eq!(
        svg_document("<g></g>").as_str(),
        "<svg viewBox=\"0 0 215.9 279.4\" width=\"215.9mm\" height=\"279.4mm\" xmlns=\"http://www.w3.org/2000/svg\" xmlns:xlink=\"http://www.w3.org/1999/xlink\"><g transform=\"scale(1, -1)\"><g></g></g></svg>\n"
    );
}
