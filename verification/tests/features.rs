use stt_mg::features::{
    add_class, extract_features, feature_fault, map_phone_pncc, pooled, prediction_line,
};
use stt_mg::name_map::NameMap;

fn listing<E: Clone>(map: &NameMap<E>) -> Vec<(String, E)> {
    (0..map.len()).map(|i| (map.name(i).to_string(), map.value(i).clone())).collect()
}

#[test]
fn entries_stand_in_the_order_of_names() {
    let mut map = NameMap::new();
    for (i, name) in ["z", "a", "ab", "\u{e9}", "foana", "Z"].iter().enumerate() {
        map.insert(name.to_string(), i);
    }
    let mut tree = std::collections::BTreeMap::new();
    for (i, name) in ["z", "a", "ab", "\u{e9}", "foana", "Z"].iter().enumerate() {
        tree.insert(name.to_string(), i);
    }
    assert_eq!(listing(&map), tree.into_iter().collect::<Vec<_>>());
    assert_eq!(map.name(0), "Z");
    assert_eq!(*map.value(0), 5);
}

#[test]
fn later_value_replaces_earlier() {
    let mut map = NameMap::new();
    map.insert("a".to_string(), 1);
    map.insert("b".to_string(), 2);
    map.insert("a".to_string(), 3);
    assert_eq!(listing(&map), vec![("a".to_string(), 3), ("b".to_string(), 2)]);
}

#[test]
fn new_map_has_no_entries() {
    assert_eq!(NameMap::<u8>::new().len(), 0);
}

#[test]
fn filling_order_does_not_matter() {
    let mut one = NameMap::new();
    let mut two = NameMap::new();
    for name in ["k", "e", "i"] {
        one.insert(name.to_string(), name.len());
    }
    for name in ["i", "k", "e"] {
        two.insert(name.to_string(), name.len());
    }
    assert_eq!(listing(&one), listing(&two));
}

#[test]
fn class_without_signals_is_not_added() {
    let mut data: NameMap<Vec<Vec<f32>>> = NameMap::new();
    add_class(&mut data, "a".to_string(), Vec::new());
    assert_eq!(data.len(), 0);
    add_class(&mut data, "a".to_string(), vec![vec![0.5]]);
    add_class(&mut data, "a".to_string(), Vec::new());
    assert_eq!(listing(&data), vec![("a".to_string(), vec![vec![0.5]])]);
}

#[test]
fn phone_features_follow_its_signals() {
    let signals = vec![vec![1.0f32, 2.0], vec![], vec![3.0]];
    let (phone, features) = map_phone_pncc("a", &signals, &|signal: &Vec<f32>| signal.len());
    assert_eq!(phone, "a");
    assert_eq!(features, vec![2, 0, 1]);
}

#[test]
fn features_keep_the_phones() {
    let mut data = NameMap::new();
    add_class(&mut data, "z".to_string(), vec![vec![1.0f32], vec![2.0, 3.0]]);
    add_class(&mut data, "e".to_string(), vec![vec![4.0]]);
    let features = extract_features(&data, &|signal: &Vec<f32>| signal[0] * 10.0);
    assert_eq!(
        listing(&features),
        vec![("e".to_string(), vec![40.0]), ("z".to_string(), vec![10.0, 20.0])]
    );
    assert_eq!(pooled(&features), vec![40.0, 10.0, 20.0]);
}

#[test]
fn faults_are_reported() {
    assert_eq!(feature_fault("a", true, false), Some("error nan on phone a".to_string()));
    assert_eq!(feature_fault("a", true, true), Some("error nan on phone a".to_string()));
    assert_eq!(feature_fault("foana", false, true), Some("error infinite on phone foana".to_string()));
    assert_eq!(feature_fault("a", false, false), None);
}

#[test]
fn prediction_is_quoted() {
    assert_eq!(prediction_line("x.wav", "salama"), "x.wav 'salama'");
    assert_eq!(prediction_line("x.wav", ""), "x.wav ''");
}

#[test]
fn label_does_not_change_features() {
    let signals = vec![vec![1.0f32, 2.0], vec![3.0]];
    let sum = |signal: &Vec<f32>| signal.iter().sum::<f32>();
    let (_, one) = map_phone_pncc("a", &signals, &sum);
    let (_, two) = map_phone_pncc("foana", &signals, &sum);
    assert_eq!(one, vec![3.0, 3.0]);
    assert_eq!(one, two);
}

#[test]
fn joined_signals_join_features() {
    let (first, second) = (vec![vec![1.0f32]], vec![vec![2.0, 3.0], vec![]]);
    let sum = |signal: &Vec<f32>| signal.iter().sum::<f32>();
    let joined = [first.clone(), second.clone()].concat();
    let parts = [map_phone_pncc("e", &first, &sum).1, map_phone_pncc("e", &second, &sum).1].concat();
    assert_eq!(map_phone_pncc("e", &joined, &sum).1, parts);
    assert_eq!(parts, vec![1.0, 5.0, 0.0]);
}
