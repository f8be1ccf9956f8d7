//! The plain platform value types and result-code conversion.

use rs_console::guard::IntoLibnx;
use rs_console::raw_fb::{Buffering, PixelFormat, Transform};
use rs_console::result::{code_to_result, IntoResult, LibnxError};
use rs_console::types::{Event, Handle, Service};

#[test]
fn bytes_per_pixel_of_every_format() {
    assert_eq!(PixelFormat::Rgba8888.bytes_per_pixel(), 4);
    assert_eq!(PixelFormat::Rgbx8888.bytes_per_pixel(), 4);
    assert_eq!(PixelFormat::Rgb565.bytes_per_pixel(), 2);
    assert_eq!(PixelFormat::Bgra8888.bytes_per_pixel(), 4);
    assert_eq!(PixelFormat::Rgba4444.bytes_per_pixel(), 2);
}

#[test]
fn wire_codes_of_formats_transforms_and_buffering() {
    assert_eq!(PixelFormat::Rgba8888.code(), 1);
    assert_eq!(PixelFormat::Rgba4444.code(), 7);
    assert_eq!(Transform::Identity.code(), 0);
    assert_eq!(Transform::Rot180.code(), 3);
    assert_eq!(Transform::Rot270.code(), 7);
    assert_eq!(Buffering::Double.code(), 2);
}

#[test]
fn zero_is_success_and_anything_else_carries_its_code() {
    assert!(code_to_result(0).is_ok());
    let err = code_to_result(0x234).unwrap_err();
    assert_eq!(err, LibnxError::System(0x234));
    assert_eq!(err.code(), 0x234);
    let through_trait: Result<(), LibnxError> = 5u32.into_result();
    assert_eq!(through_trait.unwrap_err().code(), 5);
    let ok: Result<(), LibnxError> = 0u32.into_result();
    assert!(ok.is_ok());
}

#[test]
fn a_handle_converts_to_its_raw_word() {
    let h = Handle(0xCAFE);
    let raw: u32 = h.into_libnx();
    assert_eq!(raw, 0xCAFE);
}

#[test]
fn service_and_event_hold_their_fields() {
    let s = Service { session: Handle(1), own_handle: 1, object_id: 7, pointer_buffer_size: 64 };
    assert_eq!(s.object_id, 7);
    let e = Event { revent: Handle(2), wevent: Handle(3), autoclear: true };
    assert!(e.autoclear);
    assert_eq!(e.revent, Handle(2));
}

#[test]
fn a_default_error_header_is_all_zero() {
    let h = rs_console::error::ErrorCommonHeader::default();
    assert_eq!(h.typ, 0);
    assert_eq!(h.jump_flag, 0);
    assert_eq!(h.unknown, [0u8; 3]);
    assert_eq!(h.context_flag, 0);
    assert_eq!(h.result_flag, 0);
    assert_eq!(h.context_flag_2, 0);
}
