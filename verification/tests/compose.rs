use brest::Brest;
use core::ops::ControlFlow;

#[test]
fn test_from_result_ok() {
    let result: Result<String, String> = Ok("success".to_string());
    let brest: Brest<String, u32> = result.into();
    assert!(brest.is_success());
}

#[test]
fn test_from_result_err() {
    let result: Result<String, String> = Err("error".to_string());
    let brest: Brest<String, u32> = result.into();
    assert!(brest.is_error());
}

#[test]
fn test_from_result_with_code_ok() {
    let result: (Result<String, String>, u32) = (Ok("success".to_string()), 200);
    let brest: Brest<String, u32> = result.into();
    assert!(brest.is_success());
}

#[test]
fn test_from_result_with_code_err() {
    let result: (Result<String, String>, u32) = (Err("error".to_string()), 500);
    let brest: Brest<String, u32> = result.into();
    assert!(brest.is_error());
}

#[test]
fn test_from_result_with_status_ok() {
    let result: (Result<String, String>, u32, u16) = (Ok("success".to_string()), 200, 200);
    let brest: Brest<String, u32> = result.into();
    assert!(brest.is_success());
}

#[test]
fn test_from_result_with_status_err() {
    let result: (Result<String, String>, u32, u16) = (Err("error".to_string()), 500, 500);
    let brest: Brest<String, u32> = result.into();
    assert!(brest.is_error());
}

#[test]
fn test_from_data() {
    let data = "test".to_string();
    let brest: Brest<String, u32> = data.into();
    assert!(brest.is_success());
}

#[test]
fn test_try_success() {
    let brest = Brest::<i32, u32>::success(42);
    let result: ControlFlow<Brest<(), u32>, i32> = brest.branch();
    match result {
        ControlFlow::Continue(val) => assert_eq!(val, 42),
        _ => panic!("Expected Continue"),
    }
}

#[test]
fn test_try_error() {
    let brest = Brest::<i32, u32>::error("test error");
    let result: ControlFlow<Brest<(), u32>, i32> = brest.branch();
    assert!(result.is_break());
}

#[test]
fn test_try_fail() {
    let brest = Brest::<i32, u32>::fail("test fail");
    let result: ControlFlow<Brest<(), u32>, i32> = brest.branch();
    assert!(result.is_break());
}

#[test]
fn test_from_residual() {
    let residual = Brest::<(), u32>::error("residual");
    let brest: Brest<i32, u32> = Brest::from_residual(residual);
    assert!(brest.is_error());
}

#[test]
fn test_from_residual_with_code() {
    let residual = (Err("residual".to_string()), 500u32);
    let brest: Brest<i32, u32> = Brest::from_residual_code(residual);
    assert!(brest.is_error());
}

#[test]
fn test_from_residual_result() {
    let residual: Result<i32, String> = Err("residual".to_string());
    let brest: Brest<i32, u32> = Brest::from_residual_result(residual);
    assert!(brest.is_error());
    assert_eq!(brest.status(), 500);
}

#[test]
fn test_from_residual_code_status() {
    let residual = (Err("residual".to_string()), 7u32, 503u16);
    let brest: Brest<i32, u32> = Brest::from_residual_code_status(residual);
    assert!(brest.is_error());
    assert_eq!(brest.status(), 503);
}

#[test]
fn test_from_residual_nested() {
    let inner: Result<i32, Brest<i32, u32>> = Err(Brest::fail("wrapped"));
    let brest: Brest<i32, u32> = Brest::from_residual_nested(inner);
    assert!(brest.is_fail());
}

#[test]
fn test_from_output() {
    let brest: Brest<i32, u32> = Brest::from_output(9);
    assert!(brest.is_success());
    assert_eq!(brest.status(), 200);
}

#[test]
fn test_bind_success_chain() {
    let brest = Brest::<i32, u32>::success(1)
        .bind(|x| Brest::<i32, u32>::success(x + 1))
        .bind(|x| Brest::<i32, u32>::success(x * 10));
    assert!(brest.is_success_and(|x| x == 20));
}

#[test]
fn test_bind_short_circuit() {
    let brest = Brest::<i32, u32>::success(1)
        .bind(|x| Brest::<i32, u32>::success(x + 1))
        .bind(|_| Brest::<i32, u32>::fail("bad"));
    let mut called = false;
    let after = brest.bind(|x| {
        called = true;
        Brest::<i32, u32>::success(x)
    });
    assert!(!called);
    assert!(after.is_fail_and(|fields| fields.message == "bad" && fields.code == None));
}

#[test]
fn test_bind_keeps_variant_and_status() {
    let err = Brest::<i32, u32>::error_code_status("oops", 3, 502)
        .bind(|x| Brest::<i32, u32>::success(x));
    assert!(err.is_error());
    assert_eq!(err.status(), 502);

    let fail = Brest::<i32, u32>::fail_code_status("nope", 4, 418)
        .bind(|x| Brest::<i32, u32>::success(x));
    assert!(fail.is_fail());
    assert_eq!(fail.status(), 418);
}

#[test]
fn test_extractor_wrappers_pass_through() {
    let json = brest::extractors::Json(5u8);
    assert_eq!(*json.get(), 5u8);
    assert_eq!(json.into_inner(), 5u8);
    let ext = brest::extractors::Extension("ctx".to_string());
    assert_eq!(ext.into_inner(), "ctx");
    let form = brest::extractors::Form(1i64);
    assert_eq!(form.into_inner(), 1i64);
    let path = brest::extractors::Path(2i64);
    assert_eq!(path.into_inner(), 2i64);
    let query = brest::extractors::Query(3i64);
    assert_eq!(query.into_inner(), 3i64);
}
