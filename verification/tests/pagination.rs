use dashboard::dashboard::Dashboard;
use dashboard::pages::{dashboard_list_plan, get_page_items, ListPlan};
use dashboard::store::Store;

#[test]
fn get_page_items_works_ok() {
    let iter: Vec<char> = "0123456".chars().collect();

    let items = get_page_items(iter, 2, 2);

    assert_eq!(items, Ok((vec!['2', '3'], 4)));
}

#[test]
fn get_page_items_has_max_1_when_2_items() {
    let iter: Vec<char> = "12".chars().collect();

    let items = get_page_items(iter, 1, 2);

    assert_eq!(items, Ok((vec!['1', '2'], 1)));
}

#[test]
fn get_page_items_result_err_when_page_out_of_range() {
    let iter: Vec<char> = "1234567".chars().collect();

    let items = get_page_items(iter, 100, 2);

    assert_eq!(
        items,
        Err("Page doesn't exist. Page number should be at most: 4".to_string(),)
    );
}

fn store_with_dashboards(count: usize) -> Store {
    let mut store = Store::new("dashboard-events".to_string());
    for idx in 0..count {
        let dashboard = Dashboard::new(
            format!("dashboard-{}", idx),
            "login@email.com".to_string(),
            "2x4".to_string(),
        );
        store.create_dashboard(&dashboard).unwrap();
    }
    store
}

#[test]
fn test_dashboard_list_shows_13th_elem_on_second_page() {
    let store = store_with_dashboards(14);

    let page = "2".to_string();
    let plan = dashboard_list_plan(Some(&page), store.get_dashboards(), 12);

    match plan {
        ListPlan::Page {
            dashboards,
            page_current,
            page_max,
            show_pagination,
        } => {
            assert_eq!(page_current, 2);
            assert_eq!(page_max, 2);
            assert!(show_pagination);
            assert!(dashboards.iter().any(|d| d.name == "dashboard-13"));
        }
        _ => panic!("expected a page"),
    }
}

#[test]
fn dashboard_list_defaults_to_first_page() {
    let store = store_with_dashboards(3);

    let plan = dashboard_list_plan(None, store.get_dashboards(), 12);

    match plan {
        ListPlan::Page {
            dashboards,
            page_current,
            page_max,
            show_pagination,
        } => {
            assert_eq!(page_current, 1);
            assert_eq!(page_max, 1);
            assert!(!show_pagination);
            assert_eq!(dashboards.len(), 3);
        }
        _ => panic!("expected a page"),
    }
}

#[test]
fn dashboard_list_rejects_page_that_is_no_number() {
    let store = store_with_dashboards(3);

    let page = "two".to_string();
    let plan = dashboard_list_plan(Some(&page), store.get_dashboards(), 12);

    match plan {
        ListPlan::BadPageParam(m) => {
            assert_eq!(m, "Page should be a positive number (two)");
        }
        _ => panic!("expected a complaint about the parameter"),
    }
}

#[test]
fn dashboards_come_back_in_natural_order() {
    let mut store = Store::new("dashboard-events".to_string());
    for name in ["dashboard-10", "dashboard-9", "dashboard-1"] {
        let dashboard = Dashboard::new(
            name.to_string(),
            "login@email.com".to_string(),
            "2x4".to_string(),
        );
        store.create_dashboard(&dashboard).unwrap();
    }

    let names: Vec<String> = store.get_dashboards().into_iter().map(|d| d.name).collect();

    assert_eq!(names, vec!["dashboard-1", "dashboard-9", "dashboard-10"]);
}

#[test]
fn test_dashboard_list_works_when_dashboards_count_0() {
    let store = Store::new("dashboard-events".to_string());

    let plan = dashboard_list_plan(None, store.get_dashboards(), 12);

    match plan {
        ListPlan::Page {
            dashboards,
            page_current,
            page_max,
            show_pagination,
        } => {
            assert!(dashboards.is_empty());
            assert_eq!(page_current, 1);
            assert_eq!(page_max, 0);
            assert!(!show_pagination);
        }
        _ => panic!("expected an empty page"),
    }
}
