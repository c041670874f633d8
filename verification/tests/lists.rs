use agent_marketplace::lists::{holds, no_repeats};

fn list(items: &[&str]) -> Vec<String> {
    items.iter().map(|s| s.to_string()).collect()
}

#[test]
fn holds_finds_an_entry_wherever_it_stands() {
    let l = list(&["a", "b", "c"]);
    assert!(holds(&l, &"a".to_string()));
    assert!(holds(&l, &"b".to_string()));
    assert!(holds(&l, &"c".to_string()));
    assert!(!holds(&l, &"d".to_string()));
    assert!(!holds(&l, &"".to_string()));
    assert!(!holds(&list(&[]), &"a".to_string()));
}

#[test]
fn no_repeats_sees_an_entry_that_comes_twice() {
    assert!(no_repeats(&list(&[])));
    assert!(no_repeats(&list(&["a"])));
    assert!(no_repeats(&list(&["a", "b", "c"])));
    assert!(!no_repeats(&list(&["a", "a"])));
    assert!(!no_repeats(&list(&["a", "b", "a"])));
    assert!(!no_repeats(&list(&["a", "b", "c", "c"])));
}
