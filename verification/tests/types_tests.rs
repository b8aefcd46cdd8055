use megenginelite_rs::code_to_result;
use megenginelite_rs::DataType;
use megenginelite_rs::IntoLiteRst;
use megenginelite_rs::IOType;
use megenginelite_rs::LiteError;
use megenginelite_rs::IO;

#[test]
fn width_of_every_data_type() {
    assert_eq!(DataType::width(DataType::F32), 4);
    assert_eq!(DataType::width(DataType::F16), 2);
    assert_eq!(DataType::width(DataType::I32), 4);
    assert_eq!(DataType::width(DataType::I16), 2);
    assert_eq!(DataType::width(DataType::I8), 1);
    assert_eq!(DataType::width(DataType::U32), 4);
    assert_eq!(DataType::width(DataType::U8), 1);
    assert_eq!(DataType::width(DataType::U16), 2);
    assert_eq!(DataType::width(DataType::I64), 8);
}

#[test]
fn zero_status_is_success() {
    assert!(0i32.into_rst().is_ok());
    assert!(code_to_result(0, String::new()).is_ok());
}

#[test]
fn nonzero_status_is_an_engine_error() {
    match code_to_result(7, String::from("boom")) {
        Err(LiteError::MGELiteError(d)) => assert_eq!(d, "boom"),
        _ => panic!("expected an engine error"),
    }
    assert!(matches!(
        (-1i32).into_rst(),
        Err(LiteError::MGELiteError(_))
    ));
}

#[test]
fn error_variants_are_distinguishable() {
    let errs = [
        LiteError::MGELiteError(String::from("e")),
        LiteError::LoadingFault,
        LiteError::VersionNotMatch(String::from("v")),
    ];
    assert!(matches!(errs[0], LiteError::MGELiteError(_)));
    assert!(matches!(errs[1], LiteError::LoadingFault));
    assert!(matches!(errs[2], LiteError::VersionNotMatch(_)));
}

#[test]
fn io_default_is_host_value_input() {
    let io = IO::default();
    assert_eq!(io.name, "");
    assert!(io.is_host);
    assert_eq!(io.io_type, IOType::VALUE);
    assert_eq!(io.layout.shapes.len(), 0);
    assert_eq!(io.layout.data_type, DataType::F32);
}
