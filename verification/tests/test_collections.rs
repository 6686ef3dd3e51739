use hgl_sim::clock_array::InstanceHandle;
use hgl_sim::indexed_vec::{StringIndex, StringsWithIndex, VecWithIndex};
use hgl_sim::named_array::Array;
use hgl_sim::names::{Names, NamespaceStack, NsName, SimNsName};

#[test]
fn vec_with_index_find_and_insert() {
    let mut v: VecWithIndex<u64, usize, &str> = VecWithIndex::new();
    assert!(v.is_empty());
    assert_eq!(v.insert(10, |_| "ten"), Ok(0));
    assert_eq!(v.insert(20, |_| "twenty"), Ok(1));
    assert_eq!(v.insert(10, |_| "again"), Err(0));
    assert_eq!(v.find_or_add(30, |k| if *k == 30 { "thirty" } else { "?" }), (false, 2));
    assert_eq!(v.find_or_add(20, |_| "no"), (true, 1));
    assert_eq!(v.find_key(&20), Some(1));
    assert_eq!(v.find_key(&40), None);
    assert!(v.contains(&30));
    assert!(!v.contains(&40));
    assert_eq!(v.keys(), &[10, 20, 30]);
    assert_eq!(v.items(), &["ten", "twenty", "thirty"]);
    assert_eq!(*v.get(1), "twenty");
    assert_eq!(v.len(), 3);
}

#[test]
fn strings_with_index() {
    let mut s = StringsWithIndex::new();
    assert_eq!(s.find_or_add("a"), (false, StringIndex(0)));
    assert_eq!(s.find_or_add("bc"), (false, StringIndex(1)));
    assert_eq!(s.find_or_add("a"), (true, StringIndex(0)));
    assert_eq!(s.insert("bc"), Err(StringIndex(1)));
    assert_eq!(s.insert("d"), Ok(StringIndex(2)));
    assert_eq!(s.find_string("d"), Some(StringIndex(2)));
    assert_eq!(s.find_string("e"), None);
    assert_eq!(s.get(StringIndex(1)), "bc");
    assert_eq!(s.len(), 3);
}

#[test]
fn names_and_namespaces() {
    let mut names = Names::new();
    assert_eq!(names.find_name(""), Some(StringIndex(0)));
    let top = names.insert_full_name(SimNsName(0), "top").unwrap();
    assert_eq!(top, SimNsName(0));
    let a = names.insert_full_name(SimNsName(5), "a").unwrap();
    assert_eq!(a, SimNsName(1));
    assert_eq!(names.insert_full_name(SimNsName(5), "a"), Err(SimNsName(1)));
    let root = names.root_namespace();
    assert!(root.is_root());
    assert_eq!(names.name_str(root.name()), "top");
    let n: NsName = (SimNsName(5), StringIndex(2)).into();
    assert_eq!(names.ns_name(SimNsName(1)), n);
    assert_eq!(n.namespace(), SimNsName(5));
    assert!(!n.is_root());
    assert_eq!(names.add_name("a"), StringIndex(2));
    assert_eq!(names.add_name("b"), StringIndex(3));

    let mut names = Names::new();
    let top = names.insert_full_name(SimNsName(0), "top").unwrap();
    let sub = names.insert_full_name(SimNsName(0), "sub").unwrap();
    let leaf = names.insert_full_name(sub, "leaf").unwrap();
    assert_eq!(names.full_name_string(leaf), "sub.leaf");
    assert_eq!(names.full_name_string(top), "top");
    let mut s = String::from("<");
    names.push_full_name_text(&mut s, leaf, 1);
    assert_eq!(s, "<sub.leaf");
}

#[test]
fn namespace_stack() {
    let mut stack = NamespaceStack::new();
    assert_eq!(stack.top(), SimNsName(0));
    stack.push(SimNsName(3));
    stack.push(SimNsName(4));
    assert_eq!(stack.top(), SimNsName(4));
    assert_eq!(stack.pop(), SimNsName(4));
    assert_eq!(stack.top(), SimNsName(3));
    assert_eq!(stack.pop(), SimNsName(3));
    assert_eq!(stack.top(), SimNsName(0));
}

#[test]
fn named_array() {
    let mut a: Array<u64, InstanceHandle, char> = Array::new();
    assert!(a.is_empty());
    assert_eq!(a.add(7, 'x'), InstanceHandle(0));
    assert_eq!(a.find_or_add(8, 'y'), InstanceHandle(1));
    assert_eq!(a.find_or_add(7, 'z'), InstanceHandle(0));
    assert_eq!(a.add(7, 'w'), InstanceHandle(2));
    assert_eq!(a.get(&7), Some(InstanceHandle(2)));
    assert_eq!(a.get(&9), None);
    assert_eq!(a.array(), &['x', 'y', 'w']);
}
