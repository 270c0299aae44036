use vatnar_linalg::window::create_window;
use vatnar_linalg::window::Error;
use vatnar_linalg::window::WindowError;
use vatnar_linalg::Point2;
use vatnar_linalg::Vector2;

#[test]
fn test_vector2_from_tuple() {
    let v = Vector2::from((32, 24));
    println!("{}", v.to_text());
}

#[test]
fn test_vector2_add() {
    let a = Vector2::new(5, 2);
    let b = Vector2::new(-3, 4);
    let c = a + b;
    assert_eq!(c, Vector2::new(2, 6));

    let c = a + (-3, 4).into();
    assert_eq!(c, Vector2::new(2, 6));
}

#[test]
fn test_vector2_addassign() {
    let mut a = Vector2::new(1, 2);
    let b = Vector2::new(3, 2);
    a = a + b;
    assert_eq!(a, Vector2::new(4, 4))
}

#[test]
fn test_vector2_sub() {
    // signed
    let a = Vector2::new(5, 2);
    let b = Vector2::new(-3, 4);
    let c = a - b;
    assert_eq!(c, Vector2::new(8, -2));

    // unsigned
    let a = Vector2::new(5u32, 2u32);
    let b = Vector2::new(3u32, 1u32);
    let c = a.checked_sub(b);
    assert!(c.is_some());
    assert_eq!(c.unwrap(), Vector2::new(2, 1));

    let a = Vector2::new(5u32, 2u32);
    let b = Vector2::new(3u32, 4u32);
    let c = a.checked_sub(b);
    assert!(c.is_none());
}

#[test]
fn test_point2_vector2_interaction() {
    let mut p = Point2::new(5, 3);
    let v = (34, 23).into();
    p = p + v;
    assert_eq!(p, (39, 26).into());

    let mut p = Point2::new(5, 3);
    p = p + v;
    assert_eq!(p, (39, 26).into());
}

#[test]
fn test_tuple_roundtrip() {
    let v = Vector2::new(7, -9);
    let t: (i32, i32) = v.into();
    assert_eq!(t, (7, -9));
    assert_eq!(Vector2::from(t), v);

    let p = Point2::new(4, 2);
    let t: (i32, i32) = p.into();
    assert_eq!(t, (4, 2));
    assert_eq!(Point2::from(t), p);
}

#[test]
fn test_vector2_dot() {
    let a = Vector2::new(2, 3);
    let b = Vector2::new(4, 5);
    assert_eq!(a.dot(b), 23);
    assert_eq!(Vector2::new(-1, 7).dot(Vector2::new(7, 1)), 0);
}

#[test]
fn test_to_text_exact() {
    assert_eq!(Vector2::new(32, 24).to_text(), "[32, 24]");
    assert_eq!(Vector2::new(-5, 0).to_text(), "[-5, 0]");
    assert_eq!(Point2::new(4, 2).to_text(), "(4, 2)");
    assert_eq!(Vector2::new(1000000u32, 1u32).to_text(), "[1000000, 1]");
}

#[test]
fn test_vector2_scale() {
    let v = Vector2::new(3, -2);
    let w = v * 4;
    assert_eq!(w, Vector2::new(12, -8));
}

#[test]
fn test_point2_checked_sub() {
    let p = Point2::new(5u32, 3u32);
    let v = Vector2::new(2u32, 3u32);
    let q = p.checked_sub(v);
    assert_eq!(q.unwrap(), Point2::new(3u32, 0u32));

    let v = Vector2::new(2u32, 4u32);
    assert!(p.checked_sub(v).is_none());
}

#[should_panic]
#[test]
fn test_create_window_toobig() {
    create_window((1100, 300).into()).unwrap();
}

#[test]
fn test_create_window_ok() {
    assert!(create_window((1000, 1000).into()).is_ok());
    assert!(create_window((800, 600).into()).is_ok());
    assert_eq!(create_window((300, 1100).into()), Err(WindowError::InvalidSize));
}

#[test]
fn test_window_error_messages() {
    let err = WindowError::InvalidSize;
    assert_eq!(err.message(), "Invalid size of window");
    let top = Error::from(err);
    assert_eq!(top, Error::WindowError(WindowError::InvalidSize));
    assert_eq!(top.message(), "Window Error: Invalid size of window");
}
