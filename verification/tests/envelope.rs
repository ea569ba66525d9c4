use brest::{Brest, BrestErr};

#[test]
fn test_success_construction() {
    let brest = Brest::<String, u32>::success("test data".to_string());
    assert!(brest.is_success());
    assert!(!brest.is_error());
    assert!(!brest.is_fail());
}

#[test]
fn test_error_construction() {
    let brest = Brest::<(), u32>::error("error message");
    assert!(!brest.is_success());
    assert!(brest.is_error());
    assert!(!brest.is_fail());
}

#[test]
fn test_error_code_construction() {
    let brest = Brest::<(), u32>::error_code("error message", 404);
    assert!(!brest.is_success());
    assert!(brest.is_error());
    assert!(!brest.is_fail());
}

#[test]
fn test_fail_construction() {
    let brest = Brest::<(), u32>::fail("fail message");
    assert!(!brest.is_success());
    assert!(!brest.is_error());
    assert!(brest.is_fail());
}

#[test]
fn test_fail_code_construction() {
    let brest = Brest::<(), u32>::fail_code("fail message", 400);
    assert!(!brest.is_success());
    assert!(!brest.is_error());
    assert!(brest.is_fail());
}

#[test]
fn test_is_success_and() {
    let brest = Brest::<i32, u32>::success(42);
    assert!(brest.is_success_and(|x| x == 42));

    let brest2 = Brest::<i32, u32>::success(42);
    assert!(!brest2.is_success_and(|x| x == 0));
}

#[test]
fn test_is_error_and() {
    let brest = Brest::<(), u32>::error_code("test", 500);
    assert!(brest.is_error_and(|fields| fields.message == "test" && fields.code == Some(500)));

    let brest2 = Brest::<(), u32>::error_code("test", 500);
    assert!(!brest2.is_error_and(|fields| fields.code == Some(400)));
}

#[test]
fn test_is_fail_and() {
    let brest = Brest::<(), u32>::fail_code("test", 400);
    assert!(brest.is_fail_and(|fields| fields.message == "test" && fields.code == Some(400)));

    let brest2 = Brest::<(), u32>::fail_code("test", 400);
    assert!(!brest2.is_fail_and(|fields| fields.code == Some(500)));
}

#[test]
fn test_success_status() {
    let brest = Brest::<String, u32>::success_status("data".to_string(), 201);
    assert!(brest.is_success());
    assert_eq!(brest.status(), 201);
}

#[test]
fn test_error_status() {
    let brest = Brest::<(), u32>::error_status("error", 404);
    assert!(brest.is_error());
    assert_eq!(brest.status(), 404);
}

#[test]
fn test_error_code_status() {
    let brest = Brest::<(), u32>::error_code_status("error", 404, 404);
    assert!(brest.is_error());
}

#[test]
fn test_fail_status() {
    let brest = Brest::<(), u32>::fail_status("fail", 401);
    assert!(brest.is_fail());
}

#[test]
fn test_fail_code_status() {
    let brest = Brest::<(), u32>::fail_code_status("fail", 401, 401);
    assert!(brest.is_fail());
}

#[test]
fn test_brest_err_from() {
    let err = BrestErr::Error {
        message: "test".to_string(),
        code: Some(500),
        status: 500,
    };
    let brest: Brest<(), u32> = err.into();
    assert!(brest.is_error());
}

#[test]
fn test_default_statuses() {
    assert_eq!(Brest::<i32, u32>::success(7).status(), 200);
    assert_eq!(Brest::<(), u32>::error("m").status(), 500);
    assert_eq!(Brest::<(), u32>::fail("m").status(), 400);
}

#[test]
fn test_is_success_and_short_circuits() {
    let mut called = false;
    let brest = Brest::<i32, u32>::error("oops");
    let verdict = brest.is_success_and(|_x| {
        called = true;
        true
    });
    assert!(!verdict);
    assert!(!called);

    let mut called2 = false;
    let brest2 = Brest::<i32, u32>::fail("nope");
    let verdict2 = brest2.is_success_and(|_x| {
        called2 = true;
        true
    });
    assert!(!verdict2);
    assert!(!called2);
}

#[test]
fn test_is_error_and_short_circuits() {
    let mut called = false;
    let brest = Brest::<i32, u32>::success(1);
    assert!(!brest.is_error_and(|_f| {
        called = true;
        true
    }));
    assert!(!called);
}

#[test]
fn test_is_fail_and_short_circuits() {
    let mut called = false;
    let brest = Brest::<(), u32>::error("oops");
    assert!(!brest.is_fail_and(|_f| {
        called = true;
        true
    }));
    assert!(!called);
}

#[test]
fn test_brest_err_describe() {
    let err = BrestErr::<u32>::Error {
        message: "boom".to_string(),
        code: None,
        status: 500,
    };
    assert_eq!(err.describe(), "Error: boom");
    let fail = BrestErr::<u32>::Fail {
        message: "bad input".to_string(),
        code: None,
        status: 400,
    };
    assert_eq!(fail.describe(), "Fail: bad input");
}
