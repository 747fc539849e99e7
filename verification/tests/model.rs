use kvs::error::KvsErrorKind;
use kvs::{KvStore, KvsEngine};
use std::collections::HashMap;

struct Dice(u64);

impl Dice {
    fn roll(&mut self, sides: u64) -> u64 {
        self.0 = self.0.wrapping_mul(6364136223846793005).wrapping_add(1442695040888963407);
        (self.0 >> 33) % sides
    }
}

fn check_against(store: &KvStore, model: &HashMap<String, String>, keys: u64) {
    for k in 0..keys {
        let key = format!("key{}", k);
        assert_eq!(store.get(key.clone()).unwrap(), model.get(&key).cloned());
        assert_eq!(store.contains(&key), model.contains_key(&key));
        assert_eq!(store.position(&key).is_some(), model.contains_key(&key));
    }
}

#[test]
fn the_store_behaves_as_a_map() {
    let mut dice = Dice(7);
    let mut store = KvStore::open(Vec::new()).unwrap();
    let mut model: HashMap<String, String> = HashMap::new();
    let keys = 40;
    for step in 0..12000 {
        let key = format!("key{}", dice.roll(keys));
        match dice.roll(10) {
            0..=5 => {
                let value = format!("v{}é{}", step, dice.roll(1000));
                store.set(key.clone(), value.clone()).unwrap();
                model.insert(key, value);
            }
            6..=7 => {
                let removed = store.remove(key.clone());
                match model.remove(&key) {
                    Some(_) => removed.unwrap(),
                    None => assert_eq!(removed.unwrap_err().kind(), KvsErrorKind::KeyNotFound),
                }
            }
            8 => {
                assert_eq!(store.get(key.clone()).unwrap(), model.get(&key).cloned());
            }
            _ => {
                if dice.roll(50) == 0 {
                    store.compaction();
                    assert_eq!(store.uncompacted_writes(), 0);
                } else if dice.roll(50) == 0 {
                    store = KvStore::open(store.log_image().clone()).unwrap();
                }
            }
        }
        if step % 500 == 0 {
            check_against(&store, &model, keys);
        }
    }
    check_against(&store, &model, keys);
    store.compaction();
    check_against(&store, &model, keys);
    let size: usize = model.iter().map(|(k, v)| "SET ".len() + k.len() + 1 + v.len() + 1).sum();
    assert_eq!(store.log_image().len(), size);
    let reopened = KvStore::open(store.log_image().clone()).unwrap();
    check_against(&reopened, &model, keys);
}

#[test]
fn compaction_fires_by_itself_in_a_long_run() {
    let mut store = KvStore::open(Vec::new()).unwrap();
    let mut sizes = Vec::new();
    for step in 0..9000 {
        store.set(format!("k{}", step % 3), format!("{}", step)).unwrap();
        if store.uncompacted_writes() == 0 {
            sizes.push((step, store.log_image().len()));
        }
    }
    assert_eq!(sizes, vec![(4000, 3 * "SET k0 4000\n".len()), (8001, 3 * "SET k0 8001\n".len())]);
}
