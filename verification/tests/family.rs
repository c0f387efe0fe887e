use linked_lists::family::{ArcFamily, Container, RcFamily, RefCountedFamily};

#[test]
fn t() {
    let _c = Container::<RcFamily, &str>::new("123");
}

#[test]
fn families_share_the_value_they_were_given() {
    let rc = <RcFamily as RefCountedFamily<i32>>::new(5);
    assert_eq!(*rc, 5);
    let other = rc.clone();
    assert_eq!(std::rc::Rc::strong_count(&rc), 2);
    assert_eq!(*other, 5);

    let arc = <ArcFamily as RefCountedFamily<String>>::new(String::from("shared"));
    let second = arc.clone();
    assert_eq!(std::sync::Arc::strong_count(&arc), 2);
    assert_eq!(second.len(), 6);

    let _c = Container::<ArcFamily, u8>::new(1);
}
