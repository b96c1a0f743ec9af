use lox::fnv::FnvHasher;
use lox::interner::Interner;

fn hash_string(s: &str) -> u64 {
    let mut hasher = FnvHasher::default();
    hasher.write(s.as_bytes());
    hasher.finish()
}

#[test]
fn it_can_hash_string() {
    let mut id = hash_string("hello");
    assert_eq!(0xa430d84680aabd0b, id);
    id = hash_string(&"hello world");
    assert_eq!(0x779a65e7023cd2e7, id);
}

#[test]
fn it_can_intern_strings() {
    let mut interner = Interner::new();

    let a = interner.intern("astring");
    assert_eq!(a, interner.intern("astring"));
    let b = interner.intern("anotherstring");
    assert_ne!(a, b);

    assert_eq!("astring", interner.lookup(a));
    assert_eq!("anotherstring", interner.lookup(b));
}

#[test]
fn interning_is_dense_and_stable() {
    let mut interner = Interner::new();
    assert_eq!(0, interner.intern("st"));
    assert_eq!(1, interner.intern("ri"));
    assert_eq!(2, interner.intern("ng"));
    assert_eq!(0, interner.intern("st"));
    assert_eq!("st", interner.lookup(0));
    assert_eq!("ri", interner.lookup(1));
    assert_eq!("ng", interner.lookup(2));
}
