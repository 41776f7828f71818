use t10::program::Insc;
use t10::value::GcInfo;

#[test]
fn insc_print_insc_size() {
    println!("std::mem::size_of::<Insc>() = {}", std::mem::size_of::<Insc>());
}

#[test]
fn lifecycle_codes() {
    let expected = [
        GcInfo::OnStack,
        GcInfo::Owned,
        GcInfo::SharedWithHost,
        GcInfo::MutSharedWithHost,
        GcInfo::MovedToHost,
        GcInfo::Dropped,
        GcInfo::Null,
    ];
    for (code, state) in expected.iter().enumerate() {
        assert_eq!(GcInfo::from_u8(code as u8), *state);
        assert_eq!(state.as_u8(), code as u8);
    }
}
