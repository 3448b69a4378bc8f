use inode::mesh::Mesh;

fn strings(v: &[&str]) -> Vec<String> {
    v.iter().map(|s| s.to_string()).collect()
}

#[test]
fn insert_get_and_replace() {
    let mut m = Mesh::new();
    assert_eq!(m.len(), 0);
    m.insert("swarm/mesh".to_string(), strings(&["a", "b"]));
    m.insert("task".to_string(), strings(&["c"]));
    assert_eq!(m.len(), 2);
    assert_eq!(m.get(&"swarm/mesh".to_string()), Some(&strings(&["a", "b"])));
    m.insert("swarm/mesh".to_string(), strings(&["z"]));
    assert_eq!(m.len(), 2);
    assert_eq!(m.get(&"swarm/mesh".to_string()), Some(&strings(&["z"])));
    assert_eq!(m.get(&"other".to_string()), None);
}

#[test]
fn equality_ignores_topic_order() {
    let mut a = Mesh::new();
    a.insert("t1".to_string(), strings(&["a"]));
    a.insert("t2".to_string(), strings(&["b", "c"]));
    let mut b = Mesh::new();
    b.insert("t2".to_string(), strings(&["b", "c"]));
    b.insert("t1".to_string(), strings(&["a"]));
    assert!(a.same_as(&b));
    assert!(b.same_as(&a));
    let mut c = b.duplicate();
    assert!(c.same_as(&a));
    c.insert("t2".to_string(), strings(&["c", "b"]));
    assert!(!c.same_as(&a));
    let mut d = a.duplicate();
    d.insert("t3".to_string(), vec![]);
    assert!(!d.same_as(&a));
    assert!(Mesh::new().same_as(&Mesh::new()));
}

#[test]
fn entries_list_each_topic_once() {
    let mut m = Mesh::new();
    m.insert("t".to_string(), strings(&["a"]));
    m.insert("t".to_string(), strings(&["b"]));
    let e = m.entries();
    assert_eq!(e.len(), 1);
    assert_eq!(e[0].topic, "t");
    assert_eq!(e[0].peers, strings(&["b"]));
}
