use osm_types::{ElementInfo, Tags, Way};

fn way(nodes: Vec<i64>, pairs: &[(&str, &str)]) -> Way {
    let mut tags = Tags::new();
    for (key, value) in pairs {
        tags.insert(String::from(*key), String::from(*value));
    }
    Way::new(ElementInfo::create(1), nodes).with_tags(tags)
}

#[test]
fn way_new_keeps_what_it_is_given() {
    let way = Way::new(ElementInfo::create(12), vec![5, 3, 5, 8]);
    assert_eq!(way.element_info.id, 12);
    assert_eq!(way.nodes, vec![5, 3, 5, 8]);
    assert!(way.tags.is_empty());
}

#[test]
fn way_with_tags_replaces_only_the_tags() {
    let way = way(vec![1, 2, 3], &[("highway", "primary")]);
    assert_eq!(way.element_info.id, 1);
    assert_eq!(way.nodes, vec![1, 2, 3]);
    assert_eq!(way.tags.get("highway"), Some(&String::from("primary")));
}

#[test]
fn way_back_at_its_start_is_closed() {
    assert!(way(vec![1, 2, 3, 1], &[]).is_closed());
    assert!(!way(vec![1, 2, 3], &[]).is_closed());
}

#[test]
fn way_closed_edge_cases() {
    assert!(!way(vec![], &[]).is_closed());
    assert!(way(vec![7], &[]).is_closed());
    assert!(way(vec![7, 7], &[]).is_closed());
    assert!(!way(vec![7, 8], &[]).is_closed());
    assert!(!way(vec![1, 1, 2], &[]).is_closed());
    assert!(way(vec![i64::MIN, 0, i64::MIN], &[]).is_closed());
}

#[test]
fn way_closed_without_highway_or_barrier_is_area() {
    assert!(way(vec![1, 2, 3, 1], &[]).is_area());
    assert!(way(vec![1, 2, 3, 1], &[("building", "yes")]).is_area());
    assert!(way(vec![1, 2, 3, 1], &[("name", "highway")]).is_area());
    assert!(way(vec![1, 2, 3, 1], &[("highways", "primary")]).is_area());
}

#[test]
fn way_closed_with_highway_or_barrier_is_no_area() {
    assert!(!way(vec![1, 2, 3, 1], &[("highway", "primary")]).is_area());
    assert!(!way(vec![1, 2, 3, 1], &[("barrier", "fence")]).is_area());
    assert!(!way(vec![1, 2, 3, 1], &[("highway", "")]).is_area());
    assert!(!way(vec![1, 2, 3, 1], &[("building", "yes"), ("barrier", "wall")]).is_area());
    assert!(!way(vec![1, 2, 3, 1], &[("highway", "primary"), ("barrier", "gate")]).is_area());
}

#[test]
fn way_open_is_no_area() {
    assert!(!way(vec![1, 2, 3], &[]).is_area());
    assert!(!way(vec![1, 2, 3], &[("building", "yes")]).is_area());
    assert!(!way(vec![1, 2, 3], &[("highway", "primary")]).is_area());
    assert!(!way(vec![], &[]).is_area());
}
