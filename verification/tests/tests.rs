use type_set::cell::key;
use type_set::entry::Entry;
use type_set::summary::summary;
use type_set::TypeSet;

struct MyCustomStruct;

#[test]
fn debug() {
    let set = TypeSet::new()
        .with("hello")
        .with(1usize)
        .with(MyCustomStruct);
    assert_eq!(set.len(), 3);

    assert_eq!(
        r#"TypeSet({"&str", "tests::MyCustomStruct", "usize"})"#,
        summary(vec!["&str", "usize", "tests::MyCustomStruct"])
    );
}

#[test]
fn summary_of_no_names() {
    assert_eq!(summary(vec![]), "TypeSet({})");
}

#[test]
fn summary_of_one_name() {
    assert_eq!(summary(vec!["usize"]), r#"TypeSet({"usize"})"#);
}

#[test]
fn summary_sorts_by_code_point() {
    assert_eq!(
        summary(vec!["usize", "u8", "alloc::string::String", "&str", "Zed", "u", "bool"]),
        r#"TypeSet({"&str", "Zed", "alloc::string::String", "bool", "u", "u8", "usize"})"#
    );
}

#[test]
fn summary_keeps_equal_names() {
    assert_eq!(summary(vec!["b", "a", "b"]), r#"TypeSet({"a", "b", "b"})"#);
}

#[test]
fn summary_escapes_names() {
    assert_eq!(
        summary(vec!["say \"hi\"", "tab\there"]),
        "TypeSet({\"say \\\"hi\\\"\", \"tab\\there\"})"
    );
}

#[test]
fn smoke() {
    let mut set = TypeSet::new();
    assert_eq!(set.len(), 0);
    assert!(set.is_empty());
    assert!(!set.contains::<bool>());
    set.insert(true);
    assert!(set.contains::<bool>());
    assert!(!set.is_empty());
    assert_eq!(set.len(), 1);
    assert!(set.get::<bool>().unwrap());
    set.insert(false);
    assert_eq!(set.len(), 1);
    assert!(!set.get::<bool>().unwrap());

    assert_eq!(*set.entry().or_insert("hello"), "hello");
    set.insert(String::from("hello"));
    assert_eq!(
        *set.entry()
            .and_modify(|h: &mut String| h.push_str(" world"))
            .or_default(),
        "hello world"
    );

    set.get_mut::<String>().unwrap().make_ascii_uppercase();
    assert_eq!(*set.get_or_insert(String::from("unused")), "HELLO WORLD");
    assert_eq!(
        *set.get_or_insert_with(|| String::from("unused")),
        "HELLO WORLD"
    );
    assert_eq!(*set.get_or_insert_default::<String>(), "HELLO WORLD");
    assert_eq!(set.take::<String>().unwrap(), "HELLO WORLD");
    assert_eq!(set.take::<String>(), None);
}

#[test]
fn merge() {
    let mut set_a = TypeSet::new().with(8u8).with("hello");
    let set_b = TypeSet::new().with(32u32).with("world");
    set_a.merge(set_b);
    assert_eq!(set_a.get::<u8>(), Some(&8));
    assert_eq!(set_a.get::<u32>(), Some(&32));
    assert_eq!(set_a.get::<&'static str>(), Some(&"world"));
    assert_eq!(set_a.len(), 3);
}

#[test]
fn insert_replaces_and_returns_previous() {
    let mut set = TypeSet::new().with("hello");
    let previous = set.insert("world");
    assert_eq!(previous, Some("hello"));
    assert_eq!(set.get::<&'static str>(), Some(&"world"));
    assert_eq!(set.len(), 1);
}

#[test]
fn insert_of_new_type_grows_by_one() {
    let mut set = TypeSet::new().with(1u8);
    assert_eq!(set.len(), 1);
    assert_eq!(set.insert(2u16), None);
    assert_eq!(set.len(), 2);
    assert_eq!(set.insert(3u16), Some(2u16));
    assert_eq!(set.len(), 2);
    assert_eq!(set.get::<u8>(), Some(&1));
    assert_eq!(set.get::<u16>(), Some(&3));
}

#[test]
fn entry_or_insert_then_modify() {
    let mut set = TypeSet::new();
    assert_eq!(*set.entry::<usize>().or_insert(10), 10);
    assert_eq!(set.len(), 1);
    assert_eq!(
        *set.entry()
            .and_modify(|x: &mut usize| *x += 10)
            .or_default(),
        20
    );
    assert_eq!(set.len(), 1);
    assert_eq!(set.get::<usize>(), Some(&20));
}

#[test]
fn merge_overwrites_collisions() {
    let mut left = TypeSet::new().with(8u8).with("hi");
    let right = TypeSet::new().with(32u32).with("bye");
    left.merge(right);
    assert_eq!(left.get::<u8>(), Some(&8));
    assert_eq!(left.get::<u32>(), Some(&32));
    assert_eq!(left.get::<&'static str>(), Some(&"bye"));
    assert_eq!(left.len(), 3);
}

#[test]
fn merge_with_empty_sets() {
    let mut left = TypeSet::new();
    left.merge(TypeSet::new());
    assert!(left.is_empty());
    left.merge(TypeSet::new().with(1i64));
    assert_eq!(left.get::<i64>(), Some(&1));
    left.merge(TypeSet::new());
    assert_eq!(left.len(), 1);
    assert_eq!(left.get::<i64>(), Some(&1));
}

#[test]
fn take_round_trip() {
    let mut set = TypeSet::new();
    set.insert(String::from("kept"));
    set.insert(7u64);
    assert_eq!(set.take::<u64>(), Some(7));
    assert!(!set.contains::<u64>());
    assert_eq!(set.get::<u64>(), None);
    assert_eq!(set.len(), 1);
    assert_eq!(set.take::<u64>(), None);
    assert_eq!(set.len(), 1);
    assert_eq!(set.get::<String>(), Some(&String::from("kept")));
}

#[test]
fn take_from_the_middle_keeps_the_rest() {
    let mut set = TypeSet::new().with(1u8).with(2u16).with(3u32).with(4u64);
    assert_eq!(set.take::<u16>(), Some(2));
    assert_eq!(set.len(), 3);
    assert_eq!(set.get::<u8>(), Some(&1));
    assert_eq!(set.get::<u32>(), Some(&3));
    assert_eq!(set.get::<u64>(), Some(&4));
    assert_eq!(set.take::<u8>(), Some(1));
    assert_eq!(set.take::<u64>(), Some(4));
    assert_eq!(set.take::<u32>(), Some(3));
    assert!(set.is_empty());
}

#[test]
fn absent_types_read_as_absent() {
    let mut set = TypeSet::new();
    assert_eq!(set.get::<u8>(), None);
    assert_eq!(set.get_mut::<u8>(), None);
    assert_eq!(set.take::<u8>(), None);
    assert!(!set.contains::<u8>());
    assert_eq!(set.len(), 0);
}

#[test]
fn types_with_equal_values_stay_apart() {
    let set = TypeSet::new().with(5u8).with(5u32).with(5i32);
    assert_eq!(set.len(), 3);
    assert_eq!(set.get::<u8>(), Some(&5u8));
    assert_eq!(set.get::<u32>(), Some(&5u32));
    assert_eq!(set.get::<i32>(), Some(&5i32));
    assert_eq!(set.get::<i8>(), None);
    assert_eq!(set.get::<String>(), None);
    assert_eq!(set.get::<&'static str>(), None);
}

#[test]
fn get_mut_writes_through() {
    let mut set = TypeSet::new().with(String::from("hello"));
    if let Some(string) = set.get_mut::<String>() {
        string.push_str(" world");
    }
    assert_eq!(set.get::<String>().unwrap(), "hello world");
    assert_eq!(set.len(), 1);
}

#[test]
fn get_or_insert_matches_entry_or_insert() {
    let mut direct = TypeSet::new();
    let mut by_entry = TypeSet::new();
    assert_eq!(*direct.get_or_insert("hello"), "hello");
    assert_eq!(*by_entry.entry().or_insert("hello"), "hello");
    assert_eq!(*direct.get_or_insert("world"), "hello");
    assert_eq!(*by_entry.entry().or_insert("world"), "hello");
    assert_eq!(direct.get::<&'static str>(), by_entry.get::<&'static str>());
    assert_eq!(direct.len(), by_entry.len());
    *direct.get_or_insert("unused") = "changed";
    *by_entry.entry().or_insert("unused") = "changed";
    assert_eq!(direct.get::<&'static str>(), Some(&"changed"));
    assert_eq!(by_entry.get::<&'static str>(), Some(&"changed"));
}

#[test]
fn default_is_not_built_when_occupied() {
    let mut set = TypeSet::new();
    assert_eq!(set.get_or_insert_with(|| String::from("hello")), "hello");
    assert_eq!(
        set.get_or_insert_with::<String>(|| panic!("this is never called")),
        "hello"
    );
    assert_eq!(
        *set.entry::<String>().or_insert_with(|| panic!("never called")),
        "hello"
    );
}

#[test]
fn modify_is_not_called_when_vacant() {
    let mut set = TypeSet::new();
    assert_eq!(
        *set.entry::<String>()
            .and_modify(|_| panic!("never called"))
            .or_insert_with(|| String::from("hello")),
        "hello"
    );
    let value = set
        .entry::<String>()
        .and_modify(|s| s.push_str(" world"))
        .or_insert_with(|| String::from("greetings"));
    assert_eq!(value, "hello world");
    set.take::<String>();
    let value = set
        .entry::<String>()
        .and_modify(|s| s.push_str(" world"))
        .or_insert_with(|| String::from("greetings"));
    assert_eq!(value, "greetings");
}

#[test]
fn or_default_fills_with_the_default() {
    let mut set = TypeSet::new();
    assert_eq!(*set.entry::<&'static str>().or_default(), "");
    set.insert("hello");
    assert_eq!(*set.entry::<&'static str>().or_default(), "hello");
    let ten: usize = *TypeSet::new().with(10usize).get_or_insert_default();
    assert_eq!(ten, 10);
    assert_eq!(*set.get_or_insert_default::<u32>(), 0);
    assert_eq!(set.len(), 2);
}

#[test]
fn matching_on_an_entry() {
    let mut set = TypeSet::new().with("hello");
    let (previous, current) = match set.entry::<&'static str>() {
        Entry::Vacant(vacant_entry) => {
            let current = vacant_entry.insert("entry was vacant");
            (None, current)
        }
        Entry::Occupied(mut occupied_entry) => {
            let previous = occupied_entry.insert("entry was occupied");
            (Some(previous), occupied_entry.into_mut())
        }
    };
    assert_eq!(previous, Some("hello"));
    assert_eq!(*current, "entry was occupied");
    assert_eq!(set.get::<&'static str>(), Some(&"entry was occupied"));
}

#[test]
fn vacant_entry_insert_returns_the_stored_value() {
    let mut set = TypeSet::new().with(1u8);
    match set.entry::<String>() {
        Entry::Vacant(vacant) => {
            let stored = vacant.insert(String::from("hello"));
            assert_eq!(stored, "hello");
            stored.push('!');
        }
        Entry::Occupied(_) => panic!("expected a vacant entry"),
    }
    assert_eq!(set.len(), 2);
    assert_eq!(set.get::<String>().unwrap(), "hello!");
    assert_eq!(set.get::<u8>(), Some(&1));
}

#[test]
fn occupied_entry_operations() {
    let mut set = TypeSet::new().with(String::from("hello")).with(3u8);
    match set.entry::<String>() {
        Entry::Occupied(mut occupied) => {
            assert_eq!(occupied.get(), "hello");
            occupied.get_mut().push_str(" world");
            assert_eq!(occupied.len(), 11);
            occupied.make_ascii_uppercase();
            assert_eq!(occupied.get(), "HELLO WORLD");
            assert_eq!(occupied.insert(String::from("next")), "HELLO WORLD");
            assert_eq!(occupied.get(), "next");
            occupied.into_mut().push('!');
        }
        Entry::Vacant(_) => panic!("expected an occupied entry"),
    }
    assert_eq!(set.get::<String>().unwrap(), "next!");
    match set.entry::<String>() {
        Entry::Occupied(occupied) => assert_eq!(occupied.remove(), "next!"),
        Entry::Vacant(_) => panic!("expected an occupied entry"),
    }
    assert!(!set.contains::<String>());
    assert_eq!(set.len(), 1);
    assert!(matches!(set.entry::<String>(), Entry::Vacant(_)));
    assert!(matches!(set.entry::<u8>(), Entry::Occupied(_)));
}

#[test]
fn entry_insert_and_take() {
    let mut set = TypeSet::new();
    assert_eq!(set.entry::<u8>().insert(1), None);
    assert_eq!(set.entry::<u8>().insert(2), Some(1));
    assert_eq!(set.entry::<u8>().take(), Some(2));
    assert_eq!(set.entry::<u8>().take(), None);
    assert!(set.is_empty());
}

struct Unit;

#[test]
fn custom_and_zero_sized_types() {
    let mut set = TypeSet::default();
    assert!(set.is_empty());
    assert!(set.insert(Unit).is_none());
    assert!(set.insert(()).is_none());
    assert!(set.contains::<Unit>());
    assert!(set.contains::<()>());
    assert_eq!(set.len(), 2);
    assert!(set.insert(Unit).is_some());
    assert_eq!(set.len(), 2);
    assert!(set.take::<Unit>().is_some());
    assert_eq!(set.get::<()>(), Some(&()));
    assert_eq!(set.len(), 1);
}

#[test]
fn many_types_through_merge() {
    let mut left = TypeSet::new().with(1u8).with(2u16).with(3u32).with(String::from("left"));
    let right = TypeSet::new()
        .with(String::from("right"))
        .with(20u16)
        .with(4u64)
        .with('c');
    left.merge(right);
    assert_eq!(left.len(), 6);
    assert_eq!(left.get::<u8>(), Some(&1));
    assert_eq!(left.get::<u16>(), Some(&20));
    assert_eq!(left.get::<u32>(), Some(&3));
    assert_eq!(left.get::<u64>(), Some(&4));
    assert_eq!(left.get::<char>(), Some(&'c'));
    assert_eq!(left.get::<String>().unwrap(), "right");
}

fn is_send_and_sync<T: Send + Sync>() -> bool {
    true
}

#[test]
fn the_set_can_cross_threads() {
    assert!(is_send_and_sync::<TypeSet>());
    assert!(is_send_and_sync::<Entry<'static, String>>());
}

#[test]
fn keyed_forms_round_trip() {
    let bytes = key::<u8>();
    let words = key::<String>();
    let mut set = TypeSet::new();
    assert!(!set.contains_at(&bytes));
    assert_eq!(set.insert_at(&bytes, 5), None);
    assert_eq!(set.insert_at(&bytes, 7), Some(5));
    assert_eq!(set.len(), 1);
    assert!(set.contains_at(&bytes));
    assert!(!set.contains_at(&words));
    assert_eq!(set.get_at(&bytes), Some(&7));
    assert_eq!(set.get_at(&words), None);
    *set.get_mut_at(&bytes).unwrap() += 1;
    assert_eq!(set.get_mut_at(&words), None);
    assert_eq!(*set.entry_at(&words).or_insert(String::from("hello")), "hello");
    assert_eq!(set.len(), 2);
    assert_eq!(set.take_at(&bytes), Some(8));
    assert_eq!(set.take_at(&bytes), None);
    assert_eq!(set.take_at(&words), Some(String::from("hello")));
    assert!(set.is_empty());
}

#[test]
fn keyed_and_plain_forms_agree() {
    let mut set = TypeSet::new().with(3u32);
    let numbers = key::<u32>();
    assert_eq!(set.get_at(&numbers), Some(&3));
    assert_eq!(set.insert_at(&numbers, 4), Some(3));
    assert_eq!(set.get::<u32>(), Some(&4));
    assert_eq!(set.take::<u32>(), Some(4));
    assert!(!set.contains_at(&numbers));
    assert!(!set.contains_at(&numbers.duplicate()));
    assert!(numbers.type_id() == numbers.duplicate().type_id());
    assert!(numbers.type_id() == key::<u32>().type_id());
    assert!(numbers.type_id() != key::<i32>().type_id());
}

trait Visit<'a>: Send + Sync {
    fn mark(&self) -> u8;
}

struct Walker(u8);

impl<'a> Visit<'a> for Walker {
    fn mark(&self) -> u8 {
        self.0
    }
}

type ForAll = Box<dyn for<'x> Visit<'x>>;

type ForOne = Box<dyn Visit<'static>>;

#[test]
fn types_that_differ_in_a_bound_lifetime_stay_apart() {
    let mut set = TypeSet::new();
    let first: ForAll = Box::new(Walker(1));
    assert!(set.insert(first).is_none());
    assert!(set.contains::<ForAll>());
    assert!(!set.contains::<ForOne>());
    assert!(set.get::<ForOne>().is_none());
    let second: ForOne = Box::new(Walker(2));
    assert!(set.insert(second).is_none());
    assert_eq!(set.len(), 2);
    assert_eq!(set.get::<ForAll>().unwrap().mark(), 1);
    assert_eq!(set.get::<ForOne>().unwrap().mark(), 2);
    assert_eq!(set.take::<ForAll>().unwrap().mark(), 1);
    assert_eq!(set.len(), 1);
    assert_eq!(set.entry::<ForOne>().or_insert(Box::new(Walker(3))).mark(), 2);
}
