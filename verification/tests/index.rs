use agent_marketplace::address::Address;
use agent_marketplace::index::Index;

fn address(key: &str) -> Address {
    Address::new(key.to_string())
}

#[test]
fn a_new_index_lists_nothing() {
    let index: Index<u64> = Index::new();
    assert_eq!(index.get(&address("alice")), &Vec::<u64>::new());
}

#[test]
fn append_adds_at_the_end_of_one_list() {
    let mut index: Index<u64> = Index::new();
    index.append(&address("alice"), 1);
    index.append(&address("bob"), 2);
    index.append(&address("alice"), 3);
    assert_eq!(index.get(&address("alice")), &vec![1, 3]);
    assert_eq!(index.get(&address("bob")), &vec![2]);
    assert_eq!(index.get(&address("carol")), &Vec::<u64>::new());
}

#[test]
fn set_replaces_one_list() {
    let mut index: Index<u64> = Index::new();
    index.append(&address("alice"), 1);
    index.append(&address("bob"), 2);
    index.set(&address("alice"), vec![7, 8, 9]);
    index.set(&address("carol"), vec![4]);
    assert_eq!(index.get(&address("alice")), &vec![7, 8, 9]);
    assert_eq!(index.get(&address("bob")), &vec![2]);
    assert_eq!(index.get(&address("carol")), &vec![4]);
    index.set(&address("alice"), Vec::new());
    assert_eq!(index.get(&address("alice")), &Vec::<u64>::new());
    index.append(&address("alice"), 5);
    assert_eq!(index.get(&address("alice")), &vec![5]);
}

#[test]
fn the_kept_lists_can_be_walked() {
    let mut index: Index<u64> = Index::new();
    assert_eq!(index.count(), 0);
    index.append(&address("alice"), 1);
    index.append(&address("bob"), 2);
    index.append(&address("alice"), 3);
    assert_eq!(index.count(), 2);
    let mut seen = Vec::new();
    for i in 0..index.count() {
        seen.push((index.owner_at(i).key().clone(), index.list_at(i).clone()));
    }
    seen.sort();
    assert_eq!(seen, vec![("alice".to_string(), vec![1, 3]), ("bob".to_string(), vec![2])]);
}
