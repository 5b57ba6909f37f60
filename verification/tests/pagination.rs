use lingq_anki::pagination::{total_requests, Pager};

#[test]
fn request_count_exact_values() {
    assert_eq!(total_requests(250, 100), 3);
    assert_eq!(total_requests(99, 100), 1);
    assert_eq!(total_requests(100, 100), 1);
    assert_eq!(total_requests(101, 100), 2);
    assert_eq!(total_requests(0, 100), 1);
    assert_eq!(total_requests(200, 200), 1);
    assert_eq!(total_requests(201, 200), 2);
    assert_eq!(total_requests(1, 1), 1);
    assert_eq!(total_requests(7, 1), 7);
}

/// A fake server: page `n` (1-based) of `total` items at `page_size`
/// per page, items numbered in server order.
fn server_page(total: usize, page_size: usize, page: usize) -> Vec<usize> {
    let start = (page - 1) * page_size;
    let end = total.min(page * page_size);
    (start..end).collect()
}

#[test]
fn three_pages_of_250() {
    let total = 250;
    let page_size = 100;
    let mut requests = 1;
    let first = server_page(total, page_size, 1);
    let mut pager = Pager::start(page_size, total, first);
    while !pager.done() {
        let page = pager.next_page();
        requests += 1;
        pager.push_page(server_page(total, page_size, page));
    }
    assert_eq!(requests, 3);
    let items = pager.into_items();
    assert_eq!(items.len(), 250);
    let expected: Vec<usize> = (0..250).collect();
    assert_eq!(items, expected);
}

#[test]
fn short_first_page_is_the_only_request() {
    let first = server_page(50, 100, 1);
    let pager = Pager::<usize>::start(100, 50, first);
    assert!(pager.done());
    let items = pager.into_items();
    assert_eq!(items.len(), 50);
}

#[test]
fn exact_multiple_of_page_size() {
    let total = 300;
    let page_size = 100;
    let mut requests = 1;
    let mut pager = Pager::start(page_size, total, server_page(total, page_size, 1));
    while !pager.done() {
        let page = pager.next_page();
        requests += 1;
        pager.push_page(server_page(total, page_size, page));
    }
    assert_eq!(requests, 3);
    assert_eq!(pager.into_items().len(), 300);
}
