use punktum::build;
use punktum::dialect::Dialect;

#[test]
fn test_composego_invalid1() {
    let res = build().dialect(Dialect::ComposeGo).config_new_with_reader(
        b"\nFOO=\"${BAR:-${BAZ}\n}\"\n",
    );
    assert_eq!(res.is_err(), true);
}

#[test]
fn test_composego_invalid2() {
    let res = build().dialect(Dialect::ComposeGo).config_new_with_reader(
        b"\nFOO=\"${BAR:-\n}\"\n",
    );
    assert_eq!(res.is_err(), true);
}

#[test]
fn test_composego_invalid3() {
    let res = build().dialect(Dialect::ComposeGo).config_new_with_reader(
        b"\nEMPTY=\nFOO=\"${EMPTY:?message}\"\n",
    );
    assert_eq!(res.is_err(), true);
}

#[test]
fn test_composego_invalid4() {
    let res = build().dialect(Dialect::ComposeGo).config_new_with_reader(
        b"\nFOO=\"${BAR?message}\"\n",
    );
    assert_eq!(res.is_err(), true);
}

#[test]
fn test_punktum_invalid1() {
    let res = build().dialect(Dialect::Punktum).config_new_with_reader(
        b"\nEMPTY=\nFOO=\"${EMPTY:?message}\"\n",
    );
    assert_eq!(res.is_err(), true);
}

#[test]
fn test_punktum_invalid2() {
    let res = build().dialect(Dialect::Punktum).config_new_with_reader(
        b"\nFOO=\"${BAR?message}\"\n",
    );
    assert_eq!(res.is_err(), true);
}
