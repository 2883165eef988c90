use embark_oss::maintainers::MaintainerSet;

fn maintainer_names(items: &[&str]) -> Vec<String> {
    items.iter().map(|item| item.to_string()).collect()
}

#[test]
fn new_set_is_empty() {
    let set = MaintainerSet::new();
    assert!(set.is_empty());
    assert_eq!(set.len(), 0);
    assert_eq!(set.names(), &Vec::<String>::new());
    assert!(!set.contains("alice"));
}

#[test]
fn insert_adds_a_new_name_at_the_end() {
    let mut set = MaintainerSet::new();
    assert!(set.insert("bob".to_string()));
    assert!(set.insert("alice".to_string()));
    assert_eq!(set.names(), &maintainer_names(&["bob", "alice"]));
    assert_eq!(set.len(), 2);
    assert!(!set.is_empty());
    assert!(set.contains("alice"));
    assert!(set.contains("bob"));
    assert!(!set.contains("carol"));
}

#[test]
fn insert_leaves_a_known_name_where_it_is() {
    let mut set = MaintainerSet::new();
    assert!(set.insert("bob".to_string()));
    assert!(set.insert("alice".to_string()));
    assert!(!set.insert("bob".to_string()));
    assert_eq!(set.names(), &maintainer_names(&["bob", "alice"]));
}

#[test]
fn from_names_keeps_the_first_of_equal_names() {
    let set = MaintainerSet::from_names(&maintainer_names(&["a", "b", "a", "c", "b", "a"]));
    assert_eq!(set.names(), &maintainer_names(&["a", "b", "c"]));
}

#[test]
fn from_names_of_nothing_is_the_empty_set() {
    assert_eq!(MaintainerSet::from_names(&Vec::new()), MaintainerSet::new());
}

#[test]
fn names_differ_by_case() {
    let set = MaintainerSet::from_names(&maintainer_names(&["alice", "Alice", "ALICE", "alice"]));
    assert_eq!(set.names(), &maintainer_names(&["alice", "Alice", "ALICE"]));
    assert!(set.contains("Alice"));
    assert!(!set.contains("aLICE"));
}

#[test]
fn names_of_a_set_are_never_equal() {
    let set = MaintainerSet::from_names(&maintainer_names(&["x", "y", "x", "z", "z", "y", "w"]));
    let names = set.names();
    for i in 0..names.len() {
        for j in 0..i {
            assert_ne!(names[i], names[j]);
        }
    }
}

#[test]
fn clone_of_a_set_is_equal_to_it() {
    let set = MaintainerSet::from_names(&maintainer_names(&["alice", "bob"]));
    let copy = set.clone();
    assert_eq!(copy, set);
    assert_eq!(copy.names(), &maintainer_names(&["alice", "bob"]));
}
