use rune::bytes::{module, Bytes};
use rune::module::FnKind;

#[test]
fn bytes_operations() {
    let mut b = Bytes::new();
    assert_eq!(b.len(), 0);
    assert_eq!(b.pop(), None);
    assert_eq!(b.last(), None);
    b.push_str("hé");
    assert_eq!(b.as_slice(), &[104u8, 195, 169][..]);
    let other = Bytes::from_bytes(vec![1, 2]);
    b.extend(&other);
    assert_eq!(b.len(), 5);
    assert_eq!(b.last(), Some(2));
    assert_eq!(b.pop(), Some(2));
    assert_eq!(b.as_slice(), &[104u8, 195, 169, 1][..]);
    b.reserve(10);
    assert!(b.capacity() >= 14);
    b.reserve_exact(3);
    b.shrink_to_fit();
    assert!(b.capacity() >= b.len());
    assert_eq!(b.as_slice(), &[104u8, 195, 169, 1][..]);
    let c = b.clone();
    b.clear();
    assert_eq!(b.len(), 0);
    assert_eq!(c.len(), 4);
    let w = Bytes::with_capacity(8);
    assert_eq!(w.len(), 0);
    assert!(w.capacity() >= 8);
}

#[test]
fn bytes_module_registers_functions() {
    let m = module().unwrap();
    assert_eq!(m.path, vec!["bytes".to_string()]);
    let names: Vec<(FnKind, &str)> = m.functions.iter().map(|f| (f.kind, f.name.as_str())).collect();
    assert_eq!(names.len(), 13);
    assert_eq!(names[0], (FnKind::Global, "new"));
    assert_eq!(names[1], (FnKind::Global, "with_capacity"));
    assert_eq!(names[12], (FnKind::Instance, "shrink_to_fit"));
    assert!(m.contains(FnKind::Instance, "clone"));
    assert!(!m.contains(FnKind::Global, "clone"));
}

#[test]
fn module_refuses_duplicates() {
    let mut m = rune::module::Module::new(vec!["x".to_string()]);
    assert!(m.global_fn("f").is_ok());
    assert!(m.global_fn("f").is_err());
    assert!(m.instance_fn("f").is_ok());
    assert_eq!(m.functions.len(), 2);
}
