use spof::{remove, rgb, AskKey, IVec};

#[test]
fn test_rgb() {
    let s = rgb(255, 255, 255);
    assert_eq!(s.to_string(), "\x1b[38;2;255;255;255m");
}

#[test]
fn rgb_small_values() {
    assert_eq!(rgb(0, 7, 42), "\x1b[38;2;0;7;42m");
}

#[test]
fn remove_escapes() {
    assert_eq!(remove("\x1b[31mHello World\x1b[39m"), "Hello World");
    assert_eq!(remove("plain"), "plain");
    assert_eq!(remove("a\x1b[1;38;2;255;0;64mb"), "ab");
}

#[test]
fn ivec_cycles() {
    let mut ivec = IVec::new();
    ivec.vec.push(0);
    ivec.vec.push(42);
    ivec.vec.push(-21);
    assert_eq!(ivec.get(), &0);
    assert_eq!(ivec.next(), &42);
    assert_eq!(ivec.prev(), &0);
    assert_eq!(ivec.to(2), &-21);

    let mut ivec = IVec::from(vec![0, 42, -21]);
    assert_eq!(ivec.next(), &42);
    assert_eq!(ivec.next(), &-21);
    assert_eq!(ivec.next(), &0);
    assert_eq!(ivec.prev(), &-21);
    assert_eq!(ivec.prev(), &42);
    assert_eq!(ivec.to(4), &42);
    assert_eq!(ivec.to(5), &-21);
    *ivec.get_mut() = 84;
    assert_eq!(ivec.get(), &84);
    ivec.set(7);
    assert_eq!(ivec.get(), &7);
    let v: Vec<i32> = ivec.into();
    assert_eq!(v, vec![0, 42, 7]);
    let d = IVec::<usize>::default();
    assert!(d.vec.is_empty());
}

#[test]
fn ivec_cursor_past_the_end() {
    let mut ivec = IVec::from(vec![1, 2, 3]);
    ivec.i = usize::MAX;
    assert_eq!(ivec.get(), &1);
    assert_eq!(ivec.next(), &2);
}

#[test]
fn ask_keys() {
    let k = AskKey::new('y', Some("yes"), true, None);
    assert_eq!(k.key, 'y');
    assert_eq!(k.description.as_deref(), Some("yes"));
    assert!(k.alt && k.color.is_none());
    let k = AskKey::from('n');
    assert!(k.alt && k.description.is_none());
}
