use nsproxy::mapping::Ipv4Mapping;

#[test]
fn empty_mapping_knows_nothing() {
    let mapping = Ipv4Mapping::new();
    assert_eq!(mapping.len(), 0);
    assert_eq!(mapping.get_addr("www.example.com."), None);
    assert_eq!(mapping.get_name(0x0D00_0001), None);
    assert_eq!(Ipv4Mapping::default().len(), 0);
}

#[test]
fn insert_registers_both_directions() {
    let mut mapping = Ipv4Mapping::new();
    assert!(mapping.insert(String::from("a.example."), 10));
    assert!(mapping.insert(String::from("b.example."), 20));
    assert_eq!(mapping.len(), 2);
    assert_eq!(mapping.get_addr("a.example."), Some(10));
    assert_eq!(mapping.get_addr("b.example."), Some(20));
    assert_eq!(mapping.get_name(10), Some(&String::from("a.example.")));
    assert_eq!(mapping.get_name(20), Some(&String::from("b.example.")));
    assert_eq!(mapping.get_name(30), None);
}

#[test]
fn insert_refuses_a_known_domain_or_address() {
    let mut mapping = Ipv4Mapping::new();
    assert!(mapping.insert(String::from("a.example."), 10));
    assert!(!mapping.insert(String::from("a.example."), 11));
    assert!(!mapping.insert(String::from("c.example."), 10));
    assert_eq!(mapping.len(), 1);
    assert_eq!(mapping.get_addr("a.example."), Some(10));
    assert_eq!(mapping.get_addr("c.example."), None);
    assert_eq!(mapping.get_name(11), None);
}

#[test]
fn names_differ_by_a_single_character() {
    let mut mapping = Ipv4Mapping::new();
    assert!(mapping.insert(String::from("www.example.com."), 1));
    assert!(mapping.insert(String::from("www.example.con."), 2));
    assert!(mapping.insert(String::from("www.example.com"), 3));
    assert!(mapping.insert(String::from("ẃww.example.com."), 4));
    assert_eq!(mapping.get_addr("www.example.com."), Some(1));
    assert_eq!(mapping.get_addr("www.example.con."), Some(2));
    assert_eq!(mapping.get_addr("www.example.com"), Some(3));
    assert_eq!(mapping.get_addr("ẃww.example.com."), Some(4));
    assert_eq!(mapping.get_addr("www.example.co"), None);
}

#[test]
fn names_that_are_filed_together_are_told_apart() {
    // 31 * 'a' + 'a' == 31 * 'b' + 'B'
    let mut mapping = Ipv4Mapping::new();
    assert!(mapping.insert(String::from("aa"), 1));
    assert_eq!(mapping.get_addr("bB"), None);
    assert!(mapping.insert(String::from("bB"), 2));
    assert!(mapping.insert(String::from("c!"), 3));
    assert_eq!(mapping.get_addr("aa"), Some(1));
    assert_eq!(mapping.get_addr("bB"), Some(2));
    assert_eq!(mapping.get_addr("c!"), Some(3));
    assert!(!mapping.insert(String::from("bB"), 4));
    assert_eq!(mapping.len(), 3);
}

#[test]
fn many_pairs() {
    let mut mapping = Ipv4Mapping::new();
    for i in 0..20000u32 {
        assert!(mapping.insert(format!("host{}.example.", i), 1000 + i));
    }
    for i in (0..20000u32).step_by(7) {
        assert_eq!(mapping.get_addr(&format!("host{}.example.", i)), Some(1000 + i));
        assert_eq!(mapping.get_name(1000 + i), Some(&format!("host{}.example.", i)));
    }
    assert_eq!(mapping.get_addr("host20000.example."), None);
    assert_eq!(mapping.get_name(999), None);
}
