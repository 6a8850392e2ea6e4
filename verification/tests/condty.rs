use genuint::condty::CondResult;
use genuint::tern::TernRes;
use genuint::uint::from_u128;

#[test]
fn cond_result_follows_condition() {
    let yes = from_u128(3);
    let no = from_u128(0);
    let ok: CondResult<i32, &str> = CondResult::make_ok(&yes, 5);
    assert!(ok.is_ok());
    assert_eq!(ok.into_result(), Ok(5));
    let err: CondResult<i32, &str> = CondResult::make_err(&no, "e");
    assert!(err.is_err());
    assert_eq!(err.unwrap_err(), "e");
    let triv: CondResult<i32, i32> = CondResult::new_trivial(&no, 7);
    assert_eq!(triv.unwrap_trivial(), 7);
}

#[test]
fn tern_res_follows_condition() {
    let yes = from_u128(1);
    let t: TernRes<u8, u8> = TernRes::make_ok(&yes, 1);
    assert!(t.is_ok());
    assert_eq!(t.unwrap(), 1);
    let f: TernRes<u8, u8> = TernRes::make_err(&from_u128(0), 2);
    assert_eq!(f.into_result(), Err(2));
}

#[test]
fn as_mut_changes_in_place() {
    let mut ok: CondResult<i32, &str> = CondResult::make_ok(&from_u128(1), 5);
    if let Ok(x) = ok.as_mut().into_result() {
        *x = 6;
    }
    assert_eq!(ok.into_result(), Ok(6));
    let mut t: TernRes<u8, u8> = TernRes::make_err(&from_u128(0), 2);
    if let Err(e) = t.as_mut().into_result() {
        *e = 3;
    }
    assert_eq!(t.into_result(), Err(3));
}

#[test]
fn manual_drop_keeps_value() {
    let r: CondResult<String, u8> = CondResult::make_ok(&from_u128(1), String::from("kept"));
    let m = r.into_manual_drop();
    assert!(m.is_ok());
    let inner = m.into_result().ok().unwrap();
    assert_eq!(core::mem::ManuallyDrop::into_inner(inner), "kept");
}
