use trustgraph::combiner::LinearCombinerService;
use trustgraph::store::Store;

#[test]
fn main_should_write_read_checkpoint() {
    let mut db = Store::new();
    LinearCombinerService::write_checkpoint(&mut db, 15).unwrap();
    let checkpoint = LinearCombinerService::read_checkpoint(&db).unwrap();
    assert_eq!(checkpoint, 15);
}

#[test]
fn should_update_and_get_index() {
    let mut main_db = Store::new();
    let source = "90f8bf6a479f320ead074411a4b0e7944ea8c9c2".to_string();
    let mut offset = 0;

    let index = LinearCombinerService::get_index(&mut main_db, source, &mut offset).unwrap();

    let mut bytes = [0; 4];
    bytes.copy_from_slice(&index);
    let i = u32::from_be_bytes(bytes);

    assert_eq!(i, 0);
}

#[test]
fn should_update_item() {
    let mut main_db = Store::new();
    let mut updates_db = Store::new();
    let key = vec![0; 8];
    let weight = 50;

    let prev_value = LinearCombinerService::get_value(&main_db, &key);
    LinearCombinerService::update_value(&mut main_db, &mut updates_db, key.clone(), weight);
    let value = LinearCombinerService::get_value(&main_db, &key);

    assert_eq!(value, prev_value + weight);
}

#[test]
fn index_assignment_is_idempotent() {
    let mut main_db = Store::new();
    let source = "90f8bf6a479f320ead074411a4b0e7944ea8c9c2".to_string();
    let mut offset = 0;

    let first = LinearCombinerService::get_index(&mut main_db, source.clone(), &mut offset)
        .unwrap();
    assert_eq!(offset, 1);
    let second = LinearCombinerService::get_index(&mut main_db, source, &mut offset).unwrap();

    assert_eq!(first, second);
    assert_eq!(offset, 1);
}

#[test]
fn aggregation_is_order_insensitive() {
    let a = "90f8bf6a479f320ead074411a4b0e7944ea8c9c2".to_string();
    let b = "ffcf8fdee72ac11b5c542428b35eef5769c409f0";
    let edge = |from: &str, to: &str, weight: u32| trustgraph::term::TermObject {
        from: from.to_string(),
        to: to.to_string(),
        weight,
    };

    let mut one = LinearCombinerService::new().unwrap();
    one.sync_transformer(&vec![edge(&a, b, 10), edge(b, &a, 7), edge(&a, b, 20)])
        .unwrap();

    let mut two = LinearCombinerService::new().unwrap();
    two.sync_transformer(&vec![edge(&a, b, 20), edge(&a, b, 10), edge(b, &a, 7)])
        .unwrap();

    // read each run's totals through its own index table
    let pair = |svc: &mut LinearCombinerService, from: String, to: String| {
        let mut offset = LinearCombinerService::read_checkpoint(&svc.main).unwrap();
        let x = LinearCombinerService::get_index(&mut svc.main, from, &mut offset).unwrap();
        let y = LinearCombinerService::get_index(&mut svc.main, to, &mut offset).unwrap();
        let mut key = x;
        key.extend_from_slice(&y);
        LinearCombinerService::get_value(&svc.main, &key)
    };

    assert_eq!(
        pair(&mut one, a.clone(), b.to_string()),
        pair(&mut two, a.clone(), b.to_string())
    );
    assert_eq!(
        pair(&mut one, b.to_string(), a.clone()),
        pair(&mut two, b.to_string(), a.clone())
    );
    assert_eq!(pair(&mut one, a.clone(), b.to_string()), 30);
    assert_eq!(pair(&mut one, b.to_string(), a.clone()), 7);
}

#[test]
fn matrix_snapshot_lists_every_cell_once() {
    let a = "90f8bf6a479f320ead074411a4b0e7944ea8c9c2";
    let b = "ffcf8fdee72ac11b5c542428b35eef5769c409f0";
    let edge = |from: &str, to: &str, weight: u32| trustgraph::term::TermObject {
        from: from.to_string(),
        to: to.to_string(),
        weight,
    };
    let mut svc = LinearCombinerService::new().unwrap();
    svc.sync_transformer(&vec![edge(a, b, 5), edge(b, a, 9), edge(a, b, 6)])
        .unwrap();
    let mut triplets = svc.sync_core_computer();
    triplets.sort_by_key(|t| (t.x, t.y));
    assert_eq!(triplets.len(), 2);
    assert_eq!((triplets[0].x, triplets[0].y, triplets[0].value), (0, 1, 11));
    assert_eq!((triplets[1].x, triplets[1].y, triplets[1].value), (1, 0, 9));
}

#[test]
fn matrix_snapshot_reports_stored_cells() {
    let a = "90f8bf6a479f320ead074411a4b0e7944ea8c9c2";
    let b = "ffcf8fdee72ac11b5c542428b35eef5769c409f0";
    let mut svc = LinearCombinerService::new().unwrap();
    svc.sync_transformer(&vec![trustgraph::term::TermObject {
        from: a.to_string(),
        to: b.to_string(),
        weight: 42,
    }])
    .unwrap();
    let triplets = svc.sync_core_computer();
    assert_eq!(triplets.len(), 1);
    assert_eq!(triplets[0].x, 0);
    assert_eq!(triplets[0].y, 1);
    assert_eq!(triplets[0].value, 42);
}
