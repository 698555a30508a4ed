use rtils::array_list::ArrayList;
use rtils::database::{add_sorted_scalar, add_sorted_string, find_matching_scalar, find_matching_string, get_if_matches_scalar, get_if_matches_string, query_holds, types_match, DataType, Query};

fn column<T: Copy>(values: &[T]) -> ArrayList<T> {
    let mut l = ArrayList::new();
    for v in values {
        l.push(*v);
    }
    l
}

fn items<T: Copy>(l: &ArrayList<T>) -> Vec<T> {
    let mut out = Vec::new();
    let mut i = 0;
    while let Some(x) = l.get(i) {
        out.push(*x);
        i += 1;
    }
    out
}

#[test]
fn types_match_compares_in_order() {
    assert!(types_match(&[DataType::Int, DataType::String], &[DataType::Int, DataType::String]));
    assert!(!types_match(&[DataType::String, DataType::Int], &[DataType::Int, DataType::String]));
    assert!(!types_match(&[DataType::Int], &[DataType::Int, DataType::String]));
    assert!(types_match(&[], &[]));
}

#[test]
fn int_column_queries() {
    let c = column(&[5i64, 1, 7, 3]);
    assert_eq!(find_matching_scalar(&c, 5, Query::Less), Some(vec![(1, 1), (3, 3)]));
    assert_eq!(find_matching_scalar(&c, 5, Query::LessOrEqual), Some(vec![(0, 5), (1, 1), (3, 3)]));
    assert_eq!(find_matching_scalar(&c, 7, Query::Equal), Some(vec![(2, 7)]));
    assert_eq!(find_matching_scalar(&c, 7, Query::NotEqual), Some(vec![(0, 5), (1, 1), (3, 3)]));
    assert_eq!(find_matching_scalar(&c, 5, Query::GreaterOrEqual), Some(vec![(0, 5), (2, 7)]));
    assert_eq!(find_matching_scalar(&c, 5, Query::Greator), Some(vec![(2, 7)]));
    assert_eq!(find_matching_scalar(&c, 5, Query::QueriedContains), None);
    assert_eq!(find_matching_scalar(&c, 5, Query::QuerierContains), None);
    assert_eq!(find_matching_scalar(&c, 5, Query::ListContains), None);
}

#[test]
fn negative_ints_and_uints() {
    let c = column(&[-3i64, 0, -10]);
    assert_eq!(find_matching_scalar(&c, -3, Query::Less), Some(vec![(2, -10)]));
    let u = column(&[10u64, u64::MAX, 0]);
    assert_eq!(find_matching_scalar(&u, 10, Query::Greator), Some(vec![(1, u64::MAX)]));
    let empty: ArrayList<u64> = ArrayList::new();
    assert_eq!(find_matching_scalar(&empty, 1, Query::Equal), Some(vec![]));
    assert_eq!(find_matching_scalar(&empty, 1, Query::ListContains), None);
}

#[test]
fn bool_column_orders_false_first() {
    let c = column(&[true, false, true]);
    assert_eq!(find_matching_scalar(&c, true, Query::Less), Some(vec![(1, false)]));
    assert_eq!(find_matching_scalar(&c, false, Query::Greator), Some(vec![(0, true), (2, true)]));
    assert_eq!(query_holds(&false, &true, Query::Less), Some(true));
    assert_eq!(query_holds(&true, &true, Query::ListContains), None);
}

#[test]
fn get_if_matches_checks_one_row() {
    let c = column(&[5i64, 1, 7]);
    assert_eq!(get_if_matches_scalar(&c, 1, 5, Query::Less), Some(1));
    assert_eq!(get_if_matches_scalar(&c, 0, 5, Query::Less), None);
    assert_eq!(get_if_matches_scalar(&c, 3, 5, Query::Less), None);
    assert_eq!(get_if_matches_scalar(&c, 2, 7, Query::QuerierContains), None);
    // A row is found by the query exactly when it matches on its own.
    for q in [Query::Less, Query::Equal, Query::Greator, Query::NotEqual] {
        let found = find_matching_scalar(&c, 5, q).unwrap();
        for i in 0..3 {
            let one = get_if_matches_scalar(&c, i, 5, q);
            assert_eq!(one.is_some(), found.iter().any(|(r, _)| *r == i));
        }
    }
}

#[test]
fn add_sorted_goes_after_first_smaller_cell() {
    let mut c = column(&[5i64, 1, 7]);
    assert_eq!(add_sorted_scalar(&mut c, 3), 2);
    assert_eq!(items(&c), vec![5, 1, 3, 7]);
    assert_eq!(add_sorted_scalar(&mut c, 0), 4);
    assert_eq!(items(&c), vec![5, 1, 3, 7, 0]);
    assert_eq!(add_sorted_scalar(&mut c, 9), 1);
    assert_eq!(items(&c), vec![5, 9, 1, 3, 7, 0]);
    let mut e: ArrayList<u64> = ArrayList::new();
    assert_eq!(add_sorted_scalar(&mut e, 4), 0);
    assert_eq!(items(&e), vec![4]);
}

fn strings(values: &[&str]) -> ArrayList<String> {
    let mut l = ArrayList::new();
    for v in values {
        l.push(v.to_string());
    }
    l
}

fn want(expected: &[(usize, &str)]) -> Option<Vec<(usize, String)>> {
    Some(expected.iter().map(|(i, s)| (*i, s.to_string())).collect())
}

#[test]
fn string_column_queries() {
    let c = strings(&["pear", "apple", "peach", "ape"]);
    let it = "peach".to_string();
    assert_eq!(find_matching_string(&c, &it, Query::Less), want(&[(1, "apple"), (3, "ape")]));
    assert_eq!(find_matching_string(&c, &it, Query::LessOrEqual), want(&[(1, "apple"), (2, "peach"), (3, "ape")]));
    assert_eq!(find_matching_string(&c, &it, Query::Equal), want(&[(2, "peach")]));
    assert_eq!(find_matching_string(&c, &it, Query::NotEqual), want(&[(0, "pear"), (1, "apple"), (3, "ape")]));
    assert_eq!(find_matching_string(&c, &it, Query::GreaterOrEqual), want(&[(0, "pear"), (2, "peach")]));
    assert_eq!(find_matching_string(&c, &it, Query::Greator), want(&[(0, "pear")]));
    let ap = "ap".to_string();
    assert_eq!(find_matching_string(&c, &ap, Query::QueriedContains), want(&[(1, "apple"), (3, "ape")]));
    let grape = "grapes".to_string();
    assert_eq!(find_matching_string(&c, &grape, Query::QuerierContains), want(&[(3, "ape")]));
    assert_eq!(find_matching_string(&c, &it, Query::ListContains), None);
    let empty = String::new();
    assert_eq!(find_matching_string(&c, &empty, Query::QueriedContains).map(|v| v.len()), Some(4));
    assert_eq!(find_matching_string(&c, &"pe".to_string(), Query::Less), want(&[(1, "apple"), (3, "ape")]));
}

#[test]
fn string_cell_test_compares_by_less_for_every_order_query() {
    let c = strings(&["pear", "apple"]);
    let it = "peach".to_string();
    for q in [Query::Less, Query::LessOrEqual, Query::Equal, Query::NotEqual, Query::GreaterOrEqual, Query::Greator] {
        assert_eq!(get_if_matches_string(&c, 1, &it, q), Some("apple".to_string()));
        assert_eq!(get_if_matches_string(&c, 0, &it, q), None);
    }
    assert_eq!(get_if_matches_string(&c, 0, &"pea".to_string(), Query::QueriedContains), Some("pear".to_string()));
    assert_eq!(get_if_matches_string(&c, 0, &"spear".to_string(), Query::QuerierContains), Some("pear".to_string()));
    assert_eq!(get_if_matches_string(&c, 0, &"pear".to_string(), Query::ListContains), None);
    assert_eq!(get_if_matches_string(&c, 5, &it, Query::Less), None);
}

#[test]
fn string_cell_goes_after_first_smaller_cell() {
    let mut c = strings(&["pear", "apple"]);
    assert_eq!(add_sorted_string(&mut c, "banana".to_string()), 2);
    assert_eq!(add_sorted_string(&mut c, "zebra".to_string()), 1);
    let mut texts = Vec::new();
    let mut i = 0;
    while let Some(x) = c.get(i) {
        texts.push(x.clone());
        i += 1;
    }
    assert_eq!(texts, vec!["pear", "zebra", "apple", "banana"]);
    let mut d = strings(&["b"]);
    assert_eq!(add_sorted_string(&mut d, "a".to_string()), 1);
}
