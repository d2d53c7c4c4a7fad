use ink_stroke::geometry::Vertex;
use ink_stroke::layers::{LayerError, LayerStore, FIRST_ORDER, MAX_ORDER};
use ink_stroke::outline::OutlinePolygon;

fn triangle(k: i64) -> OutlinePolygon {
    OutlinePolygon {
        vertices: vec![Vertex { x: 0, y: 0 }, Vertex { x: k, y: 0 }, Vertex { x: 0, y: k }],
    }
}

/// A store in which `n` keys are taken.
fn store_with(n: u32) -> LayerStore {
    let mut store = LayerStore::new();
    for k in 0..n {
        assert_eq!(store.reserve_next(), Ok(FIRST_ORDER + k));
    }
    store
}

#[test]
fn keys_count_up_by_one() {
    let mut store = LayerStore::new();
    let mut previous = store.reserve_next().unwrap();
    assert_eq!(previous, 1);
    for _ in 0..1000 {
        let key = store.reserve_next().unwrap();
        assert_eq!(key, previous + 1);
        previous = key;
    }
    assert_eq!(store.len(), 1001);
}

#[test]
fn reserved_layer_is_empty() {
    let mut store = LayerStore::new();
    let key = store.reserve_next().unwrap();
    assert_eq!(store.get(key).unwrap().vertices, vec![]);
    assert_eq!(store.last_key(), Some(key));
}

#[test]
fn new_store_has_no_key() {
    let store = LayerStore::new();
    assert_eq!(store.len(), 0);
    assert_eq!(store.last_key(), None);
    assert!(store.get(FIRST_ORDER).is_none());
    assert!(store.iter_ordered().is_empty());
}

#[test]
fn replace_overwrites_in_place() {
    let mut store = LayerStore::new();
    let a = store.reserve_next().unwrap();
    let b = store.reserve_next().unwrap();
    let c = store.reserve_next().unwrap();
    assert_eq!(store.replace(b, triangle(5)), Ok(()));
    assert_eq!(store.len(), 3);
    assert_eq!(store.get(a).unwrap().vertices, vec![]);
    assert_eq!(store.get(b).unwrap().vertices, triangle(5).vertices);
    assert_eq!(store.get(c).unwrap().vertices, vec![]);
    assert_eq!(store.replace(b, triangle(9)), Ok(()));
    assert_eq!(store.get(b).unwrap().vertices, triangle(9).vertices);
    assert_eq!(store.len(), 3);
}

#[test]
fn replace_of_unreserved_key_fails() {
    let mut store = LayerStore::new();
    assert_eq!(store.replace(1, triangle(1)), Err(LayerError::UnknownOrder));
    let key = store.reserve_next().unwrap();
    assert_eq!(store.replace(0, triangle(1)), Err(LayerError::UnknownOrder));
    assert_eq!(store.replace(key + 1, triangle(1)), Err(LayerError::UnknownOrder));
    assert_eq!(store.replace(u32::MAX, triangle(1)), Err(LayerError::UnknownOrder));
    assert_eq!(store.len(), 1);
    assert_eq!(store.get(key).unwrap().vertices, vec![]);
    assert!(store.get(0).is_none());
    assert!(store.get(key + 1).is_none());
}

#[test]
fn iteration_is_in_key_order() {
    let mut store = LayerStore::new();
    for _ in 0..5 {
        store.reserve_next().unwrap();
    }
    store.replace(4, triangle(4)).unwrap();
    store.replace(2, triangle(2)).unwrap();
    let seen: Vec<(u32, usize)> =
        store.iter_ordered().iter().map(|l| (l.order_key, l.geometry.vertices.len())).collect();
    assert_eq!(seen, vec![(1, 0), (2, 3), (3, 0), (4, 3), (5, 0)]);
    // A second walk sees the same.
    let again: Vec<u32> = store.iter_ordered().iter().map(|l| l.order_key).collect();
    assert_eq!(again, vec![1, 2, 3, 4, 5]);
}

#[test]
fn limit_is_the_renderers() {
    assert_eq!(MAX_ORDER, forma_render::Order::MAX.as_u32());
    assert!(forma_render::Order::new(MAX_ORDER).is_ok());
    assert!(forma_render::Order::new(MAX_ORDER + 1).is_err());
}

#[test]
fn last_key_under_the_limit_is_handed_out() {
    let mut store = store_with(MAX_ORDER - 1);
    assert_eq!(store.reserve_next(), Ok(MAX_ORDER));
    assert_eq!(store.len(), MAX_ORDER as usize);
    assert_eq!(store.last_key(), Some(MAX_ORDER));
}

#[test]
fn reserving_past_the_limit_fails() {
    let mut store = store_with(MAX_ORDER);
    assert_eq!(store.reserve_next(), Err(LayerError::ExceededLayerLimit));
    assert_eq!(store.len(), MAX_ORDER as usize);
    assert_eq!(store.reserve_next(), Err(LayerError::ExceededLayerLimit));
}
