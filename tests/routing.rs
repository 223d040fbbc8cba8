use transfer_rs::prelude::{OkOrErr, OptionError};
use transfer_rs::routing::{extract_boundary, route, upload_kind, RequestMethod, Route, UploadKind};

#[test]
fn routes_by_method_and_path() {
    assert_eq!(route(RequestMethod::Put, b"/upload"), Route::NotImplemented);
    assert_eq!(route(RequestMethod::Trace, b"/x"), Route::NotImplemented);
    assert_eq!(route(RequestMethod::Get, b"/id/name.png"), Route::Download);
    assert_eq!(route(RequestMethod::Get, b"//"), Route::Download);
    assert_eq!(route(RequestMethod::Get, b"/a/b/c"), Route::NotFound);
    assert_eq!(route(RequestMethod::Post, b"/upload"), Route::Upload);
    assert_eq!(route(RequestMethod::Get, b"/upload"), Route::MethodNotAllowed);
    assert_eq!(route(RequestMethod::Post, b"/other"), Route::NotFound);
    assert_eq!(route(RequestMethod::Post, b"/a/b"), Route::NotFound);
}

#[test]
fn upload_kind_by_content_type() {
    assert_eq!(
        upload_kind(Some(b"multipart/form-data; boundary=abc")),
        UploadKind::Multipart
    );
    assert_eq!(
        upload_kind(Some(b"application/x-www-form-urlencoded")),
        UploadKind::UrlEncoded
    );
    assert_eq!(
        upload_kind(Some(b"application/x-www-form-urlencoded; charset=utf-8")),
        UploadKind::Raw
    );
    assert_eq!(upload_kind(Some(b"image/png")), UploadKind::Raw);
    assert_eq!(upload_kind(None), UploadKind::Raw);
}

#[test]
fn boundary_from_content_type() {
    assert_eq!(
        extract_boundary(b"multipart/form-data; boundary=----abc123"),
        Some(b"----abc123".to_vec())
    );
    assert_eq!(
        extract_boundary(b"multipart/form-data; boundary=a.b*c; charset=x"),
        Some(b"a.b*c".to_vec())
    );
    assert_eq!(extract_boundary(b"multipart/form-data; boundary="), Some(Vec::new()));
    assert_eq!(extract_boundary(b"multipart/form-data"), None);
}

#[test]
fn absent_value_becomes_option_error() {
    assert_eq!(Some(3).ok_or_err(), Ok(3));
    assert_eq!(None::<u8>.ok_or_err(), Err(OptionError));
    assert_eq!(OptionError.message(), "Option error");
}
