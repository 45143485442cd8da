use ssg::paginate::{neighbors, paginate, PageInfo};

#[test]
fn zero_items_zero_pages() {
    let items: [u8; 0] = [];
    let pages = paginate(&items, 10);
    assert!(pages.is_empty());
}

#[test]
fn twenty_three_items_size_ten() {
    let items: Vec<u32> = (0..23).collect();
    let pages = paginate(&items, 10);
    assert_eq!(pages.len(), 3);
    assert_eq!(pages[0].len(), 10);
    assert_eq!(pages[1].len(), 10);
    assert_eq!(pages[2].len(), 3);
}

#[test]
fn page_size_zero_gives_no_pages() {
    let items: Vec<u32> = (0..5).collect();
    assert!(paginate(&items, 0).is_empty());
}

#[test]
fn pages_hold_the_items_in_order() {
    let items: Vec<u32> = (0..7).collect();
    let pages = paginate(&items, 3);
    assert_eq!(pages.len(), 3);
    assert_eq!(pages[0], &[0, 1, 2][..]);
    assert_eq!(pages[1], &[3, 4, 5][..]);
    assert_eq!(pages[2], &[6][..]);
}

#[test]
fn full_last_page_is_not_followed_by_an_empty_one() {
    let items: Vec<u32> = (0..6).collect();
    let pages = paginate(&items, 3);
    assert_eq!(pages.len(), 2);
    assert_eq!(pages[1], &[3, 4, 5][..]);
}

#[test]
fn neighbors_of_middle_page() {
    let (prev, next) = neighbors(PageInfo { index: 1, total_pages: 3 });
    assert_eq!(prev, Some(0));
    assert_eq!(next, Some(2));
}

#[test]
fn neighbors_at_the_ends() {
    assert_eq!(neighbors(PageInfo { index: 0, total_pages: 3 }), (None, Some(1)));
    assert_eq!(neighbors(PageInfo { index: 2, total_pages: 3 }), (Some(1), None));
    assert_eq!(neighbors(PageInfo { index: 0, total_pages: 1 }), (None, None));
    assert_eq!(neighbors(PageInfo { index: 0, total_pages: 0 }), (None, None));
}

#[test]
fn neighbors_at_the_largest_index() {
    let info = PageInfo { index: usize::MAX, total_pages: usize::MAX };
    assert_eq!(neighbors(info), (Some(usize::MAX - 1), None));
}
