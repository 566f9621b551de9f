use cms_core::pagination::{compute, paginate, Pagination};

#[test]
fn first_page_of_ten_by_three() {
    let w = compute(10, 1, 3);
    assert_eq!(w.offset, 0);
    assert_eq!(w.limit, 3);
    assert_eq!(w.total_pages, 4);
    assert!(!w.has_prev);
    assert!(w.has_next);
}

#[test]
fn last_page_of_ten_by_three() {
    let w = compute(10, 4, 3);
    assert_eq!(w.offset, 9);
    assert_eq!(w.limit, 3);
    assert_eq!(w.total_pages, 4);
    assert!(w.has_prev);
    assert!(!w.has_next);
}

#[test]
fn empty_table_has_no_pages() {
    let w = compute(0, 1, 3);
    assert_eq!(w.offset, 0);
    assert_eq!(w.total_pages, 0);
    assert!(!w.has_prev);
    assert!(!w.has_next);
}

#[test]
fn exact_division_has_no_partial_page() {
    let w = compute(12, 2, 6);
    assert_eq!(w.offset, 6);
    assert_eq!(w.total_pages, 2);
    assert!(!w.has_next);
}

#[test]
fn page_below_one_yields_negative_offset() {
    // the engine validates nothing; the caller must reject this
    let w = compute(10, 0, 3);
    assert_eq!(w.offset, -3);
}

#[test]
fn window_lengths_sum_to_total() {
    // ten names, pages of three: lengths 3 + 3 + 3 + 1 == 10
    let names: Vec<String> = (0..10).map(|i| format!("f{}", i)).collect();
    let mut sum = 0;
    for page in 1..=4 {
        let window = paginate(
            names.clone(),
            Pagination { page: Some(page), page_size: Some(3) },
        );
        sum += window.len();
    }
    assert_eq!(sum, 10);
    let beyond = paginate(
        names.clone(),
        Pagination { page: Some(5), page_size: Some(3) },
    );
    assert_eq!(beyond.len(), 0);
}

#[test]
fn windows_laid_end_to_end_are_the_whole_list() {
    let names: Vec<String> = (0..10).map(|i| format!("f{}", i)).collect();
    let mut joined: Vec<String> = Vec::new();
    for page in 1..=4 {
        let mut window = paginate(
            names.clone(),
            Pagination { page: Some(page), page_size: Some(3) },
        );
        // every page before the last is full
        if page < 4 {
            assert_eq!(window.len(), 3);
        }
        joined.append(&mut window);
    }
    assert_eq!(joined, names);
}

#[test]
fn paginate_defaults_to_first_page_of_six() {
    let names: Vec<String> = (0..9).map(|i| format!("f{}", i)).collect();
    let window = paginate(names.clone(), Pagination { page: None, page_size: None });
    assert_eq!(window.len(), 6);
    assert_eq!(window[0], "f0");
    assert_eq!(window[5], "f5");
}

#[test]
fn paginate_clips_the_last_page() {
    let names: Vec<String> = (0..9).map(|i| format!("f{}", i)).collect();
    let window = paginate(names, Pagination { page: Some(2), page_size: None });
    assert_eq!(window, vec!["f6".to_string(), "f7".to_string(), "f8".to_string()]);
}
